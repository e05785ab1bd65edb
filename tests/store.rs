use redis_starter_rust::store::{Store, DEFAULT_EXPIRY};

#[test]
fn set_then_get_then_expire() {
    let mut store = Store::new();
    store.set(b"a".to_vec(), b"1".to_vec(), 10, 5);
    assert_eq!(store.get(b"a", 14), Some(b"1".to_vec()));
    assert_eq!(store.peek(b"a", 15), None);
    assert_eq!(store.get(b"a", 15), None);
    assert_eq!(store.get(b"a", 0), None);
}

#[test]
fn overwrite_replaces_value_and_expiry() {
    let mut store = Store::new();
    store.set(b"a".to_vec(), b"1".to_vec(), 10, 0);
    store.set_with_default_expiry(b"a".to_vec(), b"2".to_vec(), 0);
    assert_eq!(store.get(b"a", 100), Some(b"2".to_vec()));
    assert_eq!(store.get(b"a", DEFAULT_EXPIRY), None);
    assert_eq!(DEFAULT_EXPIRY, 7 * 24 * 60 * 60 * 1000);
}

#[test]
fn del_removes() {
    let mut store = Store::new();
    store.set(b"a".to_vec(), b"1".to_vec(), 10, 0);
    store.set(b"b".to_vec(), b"2".to_vec(), 10, 0);
    store.del(b"a");
    store.del(b"zzz");
    assert_eq!(store.get(b"a", 0), None);
    assert_eq!(store.get(b"b", 0), Some(b"2".to_vec()));
}

#[test]
fn expiry_saturates() {
    let mut store = Store::new();
    store.set(b"a".to_vec(), b"1".to_vec(), u64::MAX, 10);
    assert_eq!(store.get(b"a", u64::MAX - 1), Some(b"1".to_vec()));
}

#[test]
fn empty_keys_and_values() {
    let mut store = Store::new();
    store.set(vec![], vec![], 1, 0);
    assert_eq!(store.get(b"", 0), Some(vec![]));
}

#[test]
fn snapshot_is_an_empty_dump() {
    let store = Store::new();
    let s = store.as_snapshot();
    assert!(s.starts_with(b"REDIS0011"));
    assert_eq!(s.len(), 18);
}
