use rs_ec::cart::{default_cart_quantity, remove_item, upsert_fits_in, upsert_item, CartError, CartItem, CartStore};
use rs_ec::checkout::{build_cart_view, cart_total_fits};
use rs_ec::products::{Product, ProductStatus};

fn product(id: u64, name: &str, price_cents: u64, stock: u64) -> Product {
    Product {
        id,
        name: name.to_string(),
        description: String::new(),
        price_cents,
        stock,
        status: ProductStatus::OnSale,
        categories: Vec::new(),
        created_at: 0,
        updated_at: 0,
    }
}

#[test]
fn upsert_adds_then_accumulates() {
    let mut items = Vec::new();
    upsert_item(&mut items, 1, 2);
    upsert_item(&mut items, 1, 3);
    upsert_item(&mut items, 2, 1);
    assert_eq!(items.iter().find(|i| i.product_id == 1).unwrap().quantity, 5);
    assert_eq!(items.iter().find(|i| i.product_id == 2).unwrap().quantity, 1);
}

#[test]
fn remove_item_drops_entry() {
    let mut items = vec![CartItem { product_id: 1, quantity: 2 }];
    remove_item(&mut items, 1);
    assert!(items.is_empty());
}

#[test]
fn upsert_with_zero_quantity_removes_the_line() {
    let mut items = Vec::new();
    upsert_item(&mut items, 4, 0);
    assert!(items.is_empty());
    upsert_item(&mut items, 4, 2);
    upsert_item(&mut items, 5, 1);
    upsert_item(&mut items, 4, 0);
    assert_eq!(items, vec![CartItem { product_id: 5, quantity: 1 }]);
}

#[test]
fn remove_keeps_other_lines_in_order() {
    let mut items = vec![
        CartItem { product_id: 1, quantity: 2 },
        CartItem { product_id: 2, quantity: 3 },
        CartItem { product_id: 1, quantity: 4 },
        CartItem { product_id: 3, quantity: 5 },
    ];
    remove_item(&mut items, 1);
    assert_eq!(items, vec![CartItem { product_id: 2, quantity: 3 }, CartItem { product_id: 3, quantity: 5 }]);
    remove_item(&mut items, 9);
    assert_eq!(items.len(), 2);
}

#[test]
fn remove_after_upsert_is_like_remove() {
    let base = vec![CartItem { product_id: 1, quantity: 2 }, CartItem { product_id: 2, quantity: 3 }];
    let mut a = base.clone();
    upsert_item(&mut a, 2, 7);
    remove_item(&mut a, 2);
    let mut b = base.clone();
    remove_item(&mut b, 2);
    assert_eq!(a, b);
}

#[test]
fn upsert_fits_detects_overflow() {
    let items = vec![CartItem { product_id: 1, quantity: u64::MAX - 1 }];
    assert!(upsert_fits_in(&items, 1, 1));
    assert!(!upsert_fits_in(&items, 1, 2));
    assert!(upsert_fits_in(&items, 2, u64::MAX));
}

#[test]
fn default_quantity_is_one() {
    assert_eq!(default_cart_quantity(), 1);
}

#[test]
fn cart_store_add_and_remove() {
    let products = vec![product(1, "Gadget", 500, 3)];
    let member = "member@example.com".to_string();
    let mut carts = CartStore::default();
    assert_eq!(carts.add(None, 1, 1, &products), Err(CartError::LoginRequired));
    assert_eq!(carts.add(Some(&member), 1, 0, &products), Err(CartError::InvalidQuantity));
    assert_eq!(carts.add(Some(&member), 9, 1, &products), Err(CartError::ProductNotFound));
    assert!(carts.add_fits(Some(&member), 1, 2, &products));
    assert_eq!(carts.add(Some(&member), 1, 2, &products), Ok(()));
    assert_eq!(carts.add(Some(&member), 1, 5, &products), Ok(()));
    assert_eq!(carts.items_of(&member), &[CartItem { product_id: 1, quantity: 7 }]);
    assert_eq!(carts.remove(Some(&member), 2), Err(CartError::ItemNotFound));
    assert_eq!(carts.remove(None, 1), Err(CartError::LoginRequired));
    assert_eq!(carts.remove(Some(&member), 1), Ok(()));
    assert!(carts.items_of(&member).is_empty());
    assert_eq!(carts.remove(Some(&member), 1), Err(CartError::ItemNotFound));
}

#[test]
fn full_line_of_deleted_product_still_gets_not_found() {
    let mut products = vec![product(5, "Gadget", 500, 3)];
    let member = "member@example.com".to_string();
    let mut carts = CartStore::default();
    assert_eq!(carts.add(Some(&member), 5, u64::MAX, &products), Ok(()));
    assert!(!carts.add_fits(Some(&member), 5, 1, &products));
    products.clear();
    assert!(carts.add_fits(Some(&member), 5, 1, &products));
    assert_eq!(carts.add(Some(&member), 5, 1, &products), Err(CartError::ProductNotFound));
    assert!(carts.add_fits(Some(&member), 5, 0, &products));
    assert_eq!(carts.add(Some(&member), 5, 0, &products), Err(CartError::InvalidQuantity));
    assert_eq!(carts.items_of(&member), &[CartItem { product_id: 5, quantity: u64::MAX }]);
}

#[test]
fn cart_view_prices_lines_and_skips_deleted_products() {
    let products = vec![product(1, "Gadget", 500, 3), product(2, "Widget", 250, 10)];
    let items = vec![
        CartItem { product_id: 1, quantity: 2 },
        CartItem { product_id: 7, quantity: 1 },
        CartItem { product_id: 2, quantity: 4 },
    ];
    assert!(cart_total_fits(&items, &products));
    let view = build_cart_view(&items, &products);
    assert_eq!(view.total_cents, 2000);
    assert_eq!(view.items.len(), 2);
    assert_eq!(view.items[0].name, "Gadget");
    assert_eq!(view.items[0].subtotal_cents, 1000);
    assert_eq!(view.items[1].product_id, 2);
    assert_eq!(view.items[1].subtotal_cents, 1000);
}

#[test]
fn cart_view_subtotal_saturates_and_total_overflow_is_detected() {
    let products = vec![product(1, "Pricey", u64::MAX / 2 + 1, 3), product(2, "Cheap", 1, 3)];
    let items = vec![CartItem { product_id: 1, quantity: 2 }];
    assert!(cart_total_fits(&items, &products));
    let view = build_cart_view(&items, &products);
    assert_eq!(view.items[0].subtotal_cents, u64::MAX);
    let more = vec![CartItem { product_id: 1, quantity: 2 }, CartItem { product_id: 2, quantity: 1 }];
    assert!(!cart_total_fits(&more, &products));
}
