use rs_ec::order::{payment_outcome, process_mock_payment, Order, OrderError, OrderItem, OrderStatus, OrderStore};

#[test]
fn mock_payment_succeeds_for_nonzero_amount() {
    let (ok, reference) = process_mock_payment(1000);
    assert!(ok);
    assert!(reference.starts_with("MOCK-"));
}

#[test]
fn mock_payment_rejects_zero_amount() {
    let (ok, _) = process_mock_payment(0);
    assert!(!ok);
}

#[test]
fn mock_reference_is_sixteen_hex_digits() {
    let (ok, reference) = process_mock_payment(1);
    assert!(ok);
    assert_eq!(reference.len(), 21);
    assert!(reference[5..].chars().all(|c| c.is_ascii_hexdigit() && !c.is_ascii_uppercase()));
}

#[test]
fn payment_outcome_formats_the_draw() {
    assert_eq!(payment_outcome(5, 0xabc), (true, "MOCK-0000000000000abc".to_string()));
    assert_eq!(payment_outcome(5, u64::MAX), (true, "MOCK-ffffffffffffffff".to_string()));
    assert_eq!(payment_outcome(5, 0x0123456789abcdef), (true, format!("MOCK-{:016x}", 0x0123456789abcdefu64)));
    assert_eq!(payment_outcome(0, 7), (false, "mock-payment-rejected-zero-amount".to_string()));
}

fn order(id: u64, email: &str) -> Order {
    Order {
        id,
        email: email.to_string(),
        items: vec![OrderItem { product_id: 1, name: "widget".to_string(), unit_price_cents: 500, quantity: 2 }],
        total_cents: 1000,
        status: OrderStatus::Paid,
        payment_reference: "MOCK-test".to_string(),
        created_at: 0,
        updated_at: 0,
    }
}

#[test]
fn orders_are_visible_to_owner_and_admin_only() {
    let admin = "admin@example.com".to_string();
    let owner = "owner@example.com".to_string();
    let other = "other@example.com".to_string();
    let store = OrderStore { next_id: 3, orders: vec![order(1, "owner@example.com"), order(2, "other@example.com")] };
    assert_eq!(store.get(1, Some(&owner), &admin).unwrap().id, 1);
    assert_eq!(store.get(1, Some(&other), &admin).err(), Some(OrderError::InsufficientPermission));
    assert_eq!(store.get(1, Some(&admin), &admin).unwrap().id, 1);
    assert_eq!(store.get(9, Some(&owner), &admin).err(), Some(OrderError::NotFound));
    assert_eq!(store.get(1, None, &admin).err(), Some(OrderError::LoginRequired));
    let mine = store.list(Some(&owner), &admin).unwrap();
    assert_eq!(mine.len(), 1);
    assert_eq!(mine[0].id, 1);
    assert_eq!(store.list(Some(&admin), &admin).unwrap().len(), 2);
    assert!(store.list(None, &admin).is_err());
}
