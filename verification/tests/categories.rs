use rs_ec::categories::{CategoryError, CategoryStore};

#[test]
fn create_and_delete_categories() {
    let mut store = CategoryStore::default();
    let id = store.create("Books".to_string(), "books".to_string()).unwrap();
    assert_eq!(id, 0);
    assert_eq!(store.categories.len(), 1);
    assert_eq!(store.categories[0].name, "Books");
    assert_eq!(store.categories[0].slug, "books");
    assert_eq!(store.create(" ".to_string(), "x".to_string()), Err(CategoryError::EmptyField));
    assert_eq!(store.create("x".to_string(), "".to_string()), Err(CategoryError::EmptyField));
    assert_eq!(store.next_id, 1);
    assert_eq!(store.delete(id), Ok(()));
    assert!(store.categories.is_empty());
    assert_eq!(store.delete(id), Err(CategoryError::NotFound));
}
