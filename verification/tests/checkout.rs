use rs_ec::cart::CartStore;
use rs_ec::checkout::{checkout, checkout_would_overflow, CheckoutError, CheckoutOutcome};
use rs_ec::order::{OrderStatus, OrderStore};
use rs_ec::products::{find_product, NewProduct, ProductStatus, ProductStore};

fn catalogue(stock: u64, price_cents: u64) -> ProductStore {
    let mut store = ProductStore::default();
    store
        .create(
            NewProduct {
                name: "Gadget".to_string(),
                description: String::new(),
                price_cents,
                stock,
                status: ProductStatus::OnSale,
                categories: Vec::new(),
            },
            0,
        )
        .unwrap();
    store
}

#[test]
fn checkout_decrements_stock_and_creates_paid_order() {
    let member = "member@example.com".to_string();
    let mut products = catalogue(3, 500);
    let mut carts = CartStore::default();
    let mut orders = OrderStore::default();
    carts.add(Some(&member), 0, 2, &products.products).unwrap();
    carts.add(Some(&member), 0, 5, &products.products).unwrap();
    assert!(!checkout_would_overflow(Some(&member), &carts, &products.products, &orders, 50));
    let refused = checkout(Some(&member), &mut carts, &mut products, &mut orders, 50);
    assert_eq!(refused, Err(CheckoutError::InsufficientStock { product_id: 0, available: 3, requested: 7 }));
    assert!(orders.orders.is_empty());
    carts.remove(Some(&member), 0).unwrap();
    carts.add(Some(&member), 0, 2, &products.products).unwrap();
    let outcome = checkout(Some(&member), &mut carts, &mut products, &mut orders, 60).unwrap();
    assert_eq!(outcome, CheckoutOutcome { order_id: 0, paid: true });
    let order = &orders.orders[0];
    assert_eq!(order.total_cents, 1000);
    assert_eq!(order.status, OrderStatus::Paid);
    assert!(order.payment_reference.starts_with("MOCK-"));
    assert_eq!(order.items.len(), 1);
    assert_eq!(order.items[0].name, "Gadget");
    assert_eq!(order.created_at, 60);
    assert!(carts.items_of(&member).is_empty());
    let p = find_product(&products.products, 0).unwrap();
    assert_eq!(p.stock, 1);
    assert_eq!(p.updated_at, 60);
    assert_eq!(p.status, ProductStatus::OnSale);
    assert_eq!(orders.next_id, 1);
}

#[test]
fn checkout_of_all_stock_marks_sold_out() {
    let member = "member@example.com".to_string();
    let mut products = catalogue(2, 100);
    let mut carts = CartStore::default();
    let mut orders = OrderStore::default();
    carts.add(Some(&member), 0, 2, &products.products).unwrap();
    checkout(Some(&member), &mut carts, &mut products, &mut orders, 1).unwrap();
    let p = find_product(&products.products, 0).unwrap();
    assert_eq!(p.stock, 0);
    assert_eq!(p.status, ProductStatus::SoldOut);
}

#[test]
fn checkout_refusals_change_nothing() {
    let member = "member@example.com".to_string();
    let mut products = catalogue(3, 500);
    let mut carts = CartStore::default();
    let mut orders = OrderStore::default();
    assert_eq!(checkout(None, &mut carts, &mut products, &mut orders, 0), Err(CheckoutError::LoginRequired));
    assert_eq!(checkout(Some(&member), &mut carts, &mut products, &mut orders, 0), Err(CheckoutError::EmptyCart));
    carts.add(Some(&member), 0, 1, &products.products).unwrap();
    products.delete(0).unwrap();
    assert_eq!(
        checkout(Some(&member), &mut carts, &mut products, &mut orders, 0),
        Err(CheckoutError::ProductMissing { product_id: 0 })
    );
    assert_eq!(carts.items_of(&member).len(), 1);
    assert!(orders.orders.is_empty());
    assert_eq!(orders.next_id, 0);
}

#[test]
fn free_order_fails_payment_and_keeps_stock_and_cart() {
    let member = "member@example.com".to_string();
    let mut products = catalogue(3, 0);
    let mut carts = CartStore::default();
    let mut orders = OrderStore::default();
    carts.add(Some(&member), 0, 1, &products.products).unwrap();
    let outcome = checkout(Some(&member), &mut carts, &mut products, &mut orders, 9).unwrap();
    assert!(!outcome.paid);
    assert_eq!(orders.orders[0].status, OrderStatus::PaymentFailed);
    assert_eq!(orders.orders[0].payment_reference, "mock-payment-rejected-zero-amount");
    assert_eq!(find_product(&products.products, 0).unwrap().stock, 3);
    assert_eq!(carts.items_of(&member).len(), 1);
}

#[test]
fn overflowing_checkout_is_detected() {
    let member = "member@example.com".to_string();
    let products = catalogue(u64::MAX, u64::MAX);
    let mut carts = CartStore::default();
    carts.add(Some(&member), 0, 1, &products.products).unwrap();
    let orders = OrderStore { next_id: u64::MAX, orders: Vec::new() };
    assert!(checkout_would_overflow(Some(&member), &carts, &products.products, &orders, 0));
    let fresh = OrderStore::default();
    assert!(!checkout_would_overflow(Some(&member), &carts, &products.products, &fresh, 0));
}

#[test]
fn checkout_leaves_products_outside_the_cart_alone() {
    let member = "member@example.com".to_string();
    let other = "other@example.com".to_string();
    let mut products = catalogue(5, 100);
    products
        .create(
            NewProduct {
                name: "Untouched".to_string(),
                description: String::new(),
                price_cents: 300,
                stock: 4,
                status: ProductStatus::OnSale,
                categories: Vec::new(),
            },
            0,
        )
        .unwrap();
    let mut carts = CartStore::default();
    let mut orders = OrderStore::default();
    carts.add(Some(&member), 0, 2, &products.products).unwrap();
    carts.add(Some(&other), 1, 1, &products.products).unwrap();
    let outcome = checkout(Some(&member), &mut carts, &mut products, &mut orders, 5).unwrap();
    assert!(outcome.paid);
    assert_eq!(orders.orders[0].total_cents, 200);
    assert_eq!(find_product(&products.products, 0).unwrap().stock, 3);
    let untouched = find_product(&products.products, 1).unwrap();
    assert_eq!(untouched.stock, 4);
    assert_eq!(untouched.updated_at, 0);
    assert!(carts.items_of(&member).is_empty());
    assert_eq!(carts.items_of(&other).len(), 1);
}
