use core::cmp::Ordering;
use vela::key::{compare_key, same_key, Key, KeyExt, KeyRef};

#[test]
fn key_integration_test() {
    // test key_with_ts
    let key = vec![0, 1, 2, 3, 4, 5, 6, 7];
    let nk = Key::from(key.clone()).with_timestamp(10);
    assert_eq!(
        vec![0, 1, 2, 3, 4, 5, 6, 7, 255, 255, 255, 255, 255, 255, 255, 245],
        nk.as_slice().to_vec()
    );

    // test parse_ts
    assert_eq!(nk.parse_timestamp(), 10);

    // test parse_key
    let nk2 = Key::from(key).with_timestamp(1000);
    assert_eq!(nk.parse_key(), nk2.parse_key());

    // test cmp
    assert!(nk.compare_key(nk2.as_slice()).is_gt());

    // test same key
    assert!(nk == nk2);
}

#[test]
fn key_newer_versions_sort_first() {
    let a = Key::from(b"user".to_vec()).with_timestamp(5);
    let b = Key::from(b"user".to_vec()).with_timestamp(6);
    assert_eq!(compare_key(&b, &a), Ordering::Less);
    assert_eq!(compare_key(&a, &b), Ordering::Greater);
    assert_eq!(compare_key(&a, &a), Ordering::Equal);
    assert!(same_key(&a, &b));
}

#[test]
fn key_user_part_decides_before_version() {
    let a = Key::from(b"apple".to_vec()).with_timestamp(1);
    let b = Key::from(b"apples".to_vec()).with_timestamp(100);
    assert_eq!(compare_key(&a, &b), Ordering::Less);
    assert!(!same_key(&a, &b));
}

#[test]
fn key_timestamp_roundtrip_and_short_keys() {
    let k = Key::from(b"k".to_vec()).with_timestamp(u64::MAX);
    assert_eq!(k.parse_timestamp(), u64::MAX);
    assert_eq!(k.parse_key(), b"k");
    let bare = Key::from(Vec::new()).with_timestamp(42);
    assert_eq!(bare.as_bytes().len(), 8);
    assert_eq!(bare.parse_timestamp(), 42);
    assert_eq!(bare.parse_key(), b"");
    let short = KeyRef::new(b"abc");
    assert_eq!(short.parse_key(), b"abc");
}
