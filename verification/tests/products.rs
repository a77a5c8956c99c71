use rs_ec::products::{
    default_status, filter_by_category, find_product, product_exists, NewProduct, ProductError, ProductStatus,
    ProductStore, ProductUpdate,
};
use rs_ec::query::category_filter;

fn new_product(name: &str, price_cents: u64, stock: u64, categories: Vec<u64>) -> NewProduct {
    NewProduct {
        name: name.to_string(),
        description: String::new(),
        price_cents,
        stock,
        status: default_status(),
        categories,
    }
}

#[test]
fn create_assigns_ids_and_defaults_to_draft() {
    let mut store = ProductStore::default();
    let id = store
        .create(
            NewProduct {
                name: "Widget".to_string(),
                description: "A widget".to_string(),
                price_cents: 1999,
                stock: 10,
                status: default_status(),
                categories: Vec::new(),
            },
            100,
        )
        .unwrap();
    assert_eq!(id, 0);
    assert_eq!(store.next_id, 1);
    assert_eq!(store.products.len(), 1);
    assert_eq!(store.products[0].name, "Widget");
    assert_eq!(store.products[0].status, ProductStatus::Draft);
    assert_eq!(store.products[0].created_at, 100);
    assert_eq!(store.products[0].updated_at, 100);
    let second = store.create(new_product("Gadget", 500, 3, vec![]), 101).unwrap();
    assert_eq!(second, 1);
}

#[test]
fn create_refuses_blank_names() {
    let mut store = ProductStore::default();
    assert_eq!(store.create(new_product("   ", 1, 1, vec![]), 0), Err(ProductError::EmptyName));
    assert_eq!(store.next_id, 0);
    assert!(store.products.is_empty());
}

#[test]
fn update_changes_only_given_fields() {
    let mut store = ProductStore::default();
    let id = store.create(new_product("Gadget", 500, 3, vec![]), 10).unwrap();
    let other = store.create(new_product("Other", 1, 1, vec![]), 10).unwrap();
    let update = ProductUpdate {
        name: None,
        description: None,
        price_cents: None,
        stock: Some(5),
        status: Some(ProductStatus::OnSale),
        categories: Some(vec![2]),
    };
    assert_eq!(store.update(id, update, 20), Ok(()));
    let p = find_product(&store.products, id).unwrap();
    assert_eq!(p.status, ProductStatus::OnSale);
    assert_eq!(p.stock, 5);
    assert_eq!(p.name, "Gadget");
    assert_eq!(p.price_cents, 500);
    assert_eq!(p.categories, vec![2]);
    assert_eq!(p.created_at, 10);
    assert_eq!(p.updated_at, 20);
    assert_eq!(find_product(&store.products, other).unwrap().updated_at, 10);
    let none = ProductUpdate { name: None, description: None, price_cents: None, stock: None, status: None, categories: None };
    assert_eq!(store.update(99, none, 30), Err(ProductError::NotFound));
}

#[test]
fn delete_then_get_is_not_found() {
    let mut store = ProductStore::default();
    let id = store.create(new_product("Gadget", 500, 3, vec![]), 0).unwrap();
    assert!(product_exists(&store.products, id));
    assert_eq!(store.delete(id), Ok(()));
    assert!(find_product(&store.products, id).is_none());
    assert_eq!(store.delete(id), Err(ProductError::NotFound));
    assert_eq!(store.next_id, 1);
}

#[test]
fn category_filter_lists_only_members() {
    let mut store = ProductStore::default();
    let book = store.create(new_product("Rust本", 3000, 5, vec![0]), 0).unwrap();
    store.create(new_product("無関係商品", 100, 1, vec![]), 0).unwrap();
    let filtered = filter_by_category(&store.products, category_filter(Some("category=0")));
    assert_eq!(filtered.len(), 1);
    assert_eq!(filtered[0].id, book);
    let all = filter_by_category(&store.products, category_filter(None));
    assert_eq!(all.len(), 2);
}
