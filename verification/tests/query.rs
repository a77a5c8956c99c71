use rs_ec::query::{approved_only, category_filter};

#[test]
fn category_filter_reads_the_first_valid_pair() {
    assert_eq!(category_filter(None), None);
    assert_eq!(category_filter(Some("")), None);
    assert_eq!(category_filter(Some("category=3")), Some(3));
    assert_eq!(category_filter(Some("page=2&category=12&category=5")), Some(12));
    assert_eq!(category_filter(Some("category=abc&category=5")), Some(5));
    assert_eq!(category_filter(Some("category=")), None);
    assert_eq!(category_filter(Some("category=+7")), Some(7));
    assert_eq!(category_filter(Some("category=-7")), None);
    assert_eq!(category_filter(Some("category=+")), None);
    assert_eq!(category_filter(Some("xcategory=7")), None);
    assert_eq!(category_filter(Some("category=007")), Some(7));
}

#[test]
fn category_filter_refuses_numbers_beyond_u64() {
    assert_eq!(category_filter(Some("category=18446744073709551615")), Some(u64::MAX));
    assert_eq!(category_filter(Some("category=18446744073709551616")), None);
    assert_eq!(category_filter(Some("category=99999999999999999999999&category=1")), Some(1));
}

#[test]
fn approved_only_needs_the_exact_pair() {
    assert!(!approved_only(None));
    assert!(approved_only(Some("approved_only=true")));
    assert!(approved_only(Some("a=1&approved_only=true&b=2")));
    assert!(!approved_only(Some("approved_only=false")));
    assert!(!approved_only(Some("approved_only=true1")));
    assert!(!approved_only(Some("")));
    assert!(approved_only(Some("&&approved_only=true&")));
}
