use rs_ec::favorites::{FavoriteError, FavoriteStore};
use rs_ec::products::{default_status, NewProduct, ProductStore};

fn store_with_products() -> ProductStore {
    let mut store = ProductStore::default();
    for name in ["Rust本", "Other"] {
        store
            .create(
                NewProduct {
                    name: name.to_string(),
                    description: String::new(),
                    price_cents: 100,
                    stock: 1,
                    status: default_status(),
                    categories: Vec::new(),
                },
                0,
            )
            .unwrap();
    }
    store
}

#[test]
fn favorites_add_list_remove() {
    let products = store_with_products();
    let member = "member@example.com".to_string();
    let other = "other@example.com".to_string();
    let mut favs = FavoriteStore::default();
    assert_eq!(favs.add(None, 0, &products.products), Err(FavoriteError::LoginRequired));
    assert_eq!(favs.add(Some(&member), 42, &products.products), Err(FavoriteError::ProductNotFound));
    assert_eq!(favs.add(Some(&member), 0, &products.products), Ok(()));
    assert_eq!(favs.add(Some(&member), 0, &products.products), Ok(()));
    let listed = favs.list(Some(&member), &products.products).unwrap();
    assert_eq!(listed.len(), 1);
    assert_eq!(listed[0].id, 0);
    assert!(favs.list(Some(&other), &products.products).unwrap().is_empty());
    assert!(favs.list(None, &products.products).is_err());
    assert_eq!(favs.remove(Some(&other), 0), Err(FavoriteError::NotAFavorite));
    assert_eq!(favs.remove(Some(&member), 0), Ok(()));
    assert!(favs.list(Some(&member), &products.products).unwrap().is_empty());
    assert_eq!(favs.remove(Some(&member), 0), Err(FavoriteError::NotAFavorite));
    assert_eq!(favs.remove(None, 0), Err(FavoriteError::LoginRequired));
}
