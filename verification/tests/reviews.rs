use rs_ec::products::{default_status, NewProduct, ProductStore};
use rs_ec::query::approved_only;
use rs_ec::reviews::{approved_totals, reviews_of_product, NewReview, Review, ReviewError, ReviewStore};

fn review(id: u64, rating: u8, approved: bool) -> Review {
    Review {
        id,
        product_id: 1,
        author_email: "a@example.com".to_string(),
        rating,
        title: "t".to_string(),
        body: "b".to_string(),
        created_at: 0,
        approved,
    }
}

fn products() -> ProductStore {
    let mut store = ProductStore::default();
    store
        .create(
            NewProduct {
                name: "Gadget".to_string(),
                description: "d".to_string(),
                price_cents: 500,
                stock: 3,
                status: default_status(),
                categories: Vec::new(),
            },
            0,
        )
        .unwrap();
    store
}

fn new_review(rating: u8) -> NewReview {
    NewReview { rating, title: "t".to_string(), body: "b".to_string() }
}

#[test]
fn rating_summary_excludes_unapproved() {
    let r1 = review(1, 5, true);
    let r2 = review(2, 3, true);
    let r3 = review(3, 1, false);
    let refs: Vec<&Review> = vec![&r1, &r2, &r3];
    let totals = approved_totals(&refs);
    let count = totals.review_count as u32;
    let avg = totals.rating_sum as f32 / totals.review_count as f32;
    assert_eq!(count, 2);
    assert!((avg - 4.0).abs() < f32::EPSILON);
}

#[test]
fn rating_summary_with_no_approved_reviews_is_zero() {
    let r1 = review(1, 5, false);
    let refs: Vec<&Review> = vec![&r1];
    let totals = approved_totals(&refs);
    assert_eq!(totals.review_count, 0);
    assert_eq!(totals.rating_sum, 0);
    let count = totals.review_count as u32;
    let avg: f32 = if count == 0 { 0.0 } else { totals.rating_sum as f32 / count as f32 };
    assert_eq!(count, 0);
    assert_eq!(avg, 0.0);
}

#[test]
fn review_creation_checks_login_rating_and_product() {
    let products = products();
    let admin = "admin@example.com".to_string();
    let mut store = ReviewStore::default();
    assert_eq!(store.create(None, 0, new_review(5), &products.products, 0), Err(ReviewError::LoginRequired));
    for bad in [0u8, 6u8] {
        assert_eq!(
            store.create(Some(&admin), 0, new_review(bad), &products.products, 0),
            Err(ReviewError::InvalidRating)
        );
    }
    assert_eq!(store.create(Some(&admin), 9, new_review(3), &products.products, 0), Err(ReviewError::ProductNotFound));
    assert!(store.reviews.is_empty());
    let id = store.create(Some(&admin), 0, new_review(3), &products.products, 7).unwrap();
    assert_eq!(id, 0);
    assert!(!store.reviews[0].approved);
    assert_eq!(store.reviews[0].author_email, "admin@example.com");
    assert_eq!(store.reviews[0].created_at, 7);
}

#[test]
fn moderation_hides_reviews_until_approved() {
    let products = products();
    let admin = "admin@example.com".to_string();
    let member = "member@example.com".to_string();
    let mut store = ReviewStore::default();
    let id = store.create(Some(&member), 0, new_review(4), &products.products, 0).unwrap();
    let public = store.list(0, approved_only(Some("approved_only=true")), None, &admin).unwrap();
    assert!(public.is_empty());
    let totals = approved_totals(&reviews_of_product(&store.reviews, 0));
    assert_eq!(totals.review_count, 0);
    assert_eq!(store.list(0, false, None, &admin).err(), Some(ReviewError::LoginRequired));
    assert_eq!(store.list(0, false, Some(&member), &admin).err(), Some(ReviewError::InsufficientPermission));
    assert_eq!(store.list(0, false, Some(&admin), &admin).unwrap().len(), 1);
    assert_eq!(store.approve(id, Some(&member), &admin), Err(ReviewError::AdminLoginRequired));
    assert_eq!(store.approve(99, Some(&admin), &admin), Err(ReviewError::NotFound));
    let pos = store.approve(id, Some(&admin), &admin).unwrap();
    assert!(store.reviews[pos].approved);
    assert_eq!(store.list(0, true, None, &admin).unwrap().len(), 1);
    let totals = approved_totals(&reviews_of_product(&store.reviews, 0));
    assert_eq!(totals.review_count, 1);
    assert_eq!(totals.rating_sum as f32 / totals.review_count as f32, 4.0);
}

#[test]
fn rating_math_for_known_approved_reviews() {
    let products = products();
    let admin = "admin@example.com".to_string();
    let member = "member2@example.com".to_string();
    let mut store = ReviewStore::default();
    for rating in [5u8, 3u8, 1u8] {
        let id = store.create(Some(&member), 0, new_review(rating), &products.products, 0).unwrap();
        if rating != 1 {
            store.approve(id, Some(&admin), &admin).unwrap();
        }
    }
    let totals = approved_totals(&reviews_of_product(&store.reviews, 0));
    assert_eq!(totals.review_count, 2);
    assert_eq!(totals.rating_sum, 8);
    assert_eq!(totals.rating_sum as f32 / totals.review_count as f32, 4.0);
}

#[test]
fn review_delete_permissions() {
    let products = products();
    let admin = "admin@example.com".to_string();
    let author = "author@example.com".to_string();
    let other = "other@example.com".to_string();
    let mut store = ReviewStore::default();
    let id = store.create(Some(&author), 0, new_review(2), &products.products, 0).unwrap();
    assert_eq!(store.delete(id, None, &admin), Err(ReviewError::LoginRequired));
    assert_eq!(store.delete(id, Some(&other), &admin), Err(ReviewError::InsufficientPermission));
    assert_eq!(store.reviews.len(), 1);
    assert_eq!(store.delete(id, Some(&author), &admin), Ok(()));
    assert!(store.reviews.is_empty());
    assert_eq!(store.delete(id, Some(&admin), &admin), Err(ReviewError::NotFound));
    let id2 = store.create(Some(&author), 0, new_review(2), &products.products, 0).unwrap();
    assert_eq!(store.delete(id2, Some(&admin), &admin), Ok(()));
}
