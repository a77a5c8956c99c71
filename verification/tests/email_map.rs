use rs_ec::email_map::EmailMap;

#[test]
fn email_map_read_after_write() {
    let mut m: EmailMap<u32> = EmailMap::new();
    let a = "a@example.com".to_string();
    let b = "b@example.com".to_string();
    assert!(m.get(&a).is_none());
    m.insert(a.clone(), 1);
    m.insert(b.clone(), 2);
    m.insert(a.clone(), 3);
    assert_eq!(m.get(&a), Some(&3));
    assert_eq!(m.get(&b), Some(&2));
    assert_eq!(m.remove(&a), Some(3));
    assert!(!m.contains_key(&a));
    assert_eq!(m.remove(&a), None);
    assert!(m.contains_key(&b));
}
