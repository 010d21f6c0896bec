use respkv::store::KeyspaceStore;

#[test]
fn set_then_get_returns_value() {
    let mut store = KeyspaceStore::new();
    store.set(b"key".to_vec(), b"value".to_vec(), None, 1_000);
    assert_eq!(store.get(b"key", 1_000), Some(b"value".to_vec()));
}

#[test]
fn set_without_ttl_never_expires() {
    let mut store = KeyspaceStore::new();
    store.set(b"key".to_vec(), b"value".to_vec(), None, 0);
    // no silently applied default lifetime, however far the clock moves
    assert_eq!(store.get(b"key", u64::MAX), Some(b"value".to_vec()));
}

#[test]
fn get_of_absent_key_is_none() {
    let store = KeyspaceStore::new();
    assert_eq!(store.get(b"missing", 0), None);
}

#[test]
fn set_with_ttl_expires_at_the_boundary() {
    let mut store = KeyspaceStore::new();
    store.set(b"key".to_vec(), b"value".to_vec(), Some(100), 1_000);
    assert_eq!(store.get(b"key", 1_000), Some(b"value".to_vec()));
    assert_eq!(store.get(b"key", 1_099), Some(b"value".to_vec()));
    // at exactly now + ttl the key is gone
    assert_eq!(store.get(b"key", 1_100), None);
    assert_eq!(store.get(b"key", u64::MAX), None);
}

#[test]
fn overwrite_replaces_value_and_lifetime() {
    let mut store = KeyspaceStore::new();
    store.set(b"key".to_vec(), b"old".to_vec(), Some(10), 0);
    store.set(b"key".to_vec(), b"new".to_vec(), None, 5);
    // the second write wins whole: new value, no expiry
    assert_eq!(store.get(b"key", 1_000_000), Some(b"new".to_vec()));
}

#[test]
fn last_write_wins_whole() {
    // Two writes to one key, as a store serializes concurrent SETs: the
    // later one is read back entire, never a mixture.
    let mut store = KeyspaceStore::new();
    store.set(b"k".to_vec(), b"aaaa".to_vec(), None, 0);
    store.set(b"k".to_vec(), b"bb".to_vec(), None, 0);
    assert_eq!(store.get(b"k", 0), Some(b"bb".to_vec()));

    let mut store2 = KeyspaceStore::new();
    store2.set(b"k".to_vec(), b"bb".to_vec(), None, 0);
    store2.set(b"k".to_vec(), b"aaaa".to_vec(), None, 0);
    assert_eq!(store2.get(b"k", 0), Some(b"aaaa".to_vec()));
}

#[test]
fn keys_are_independent() {
    let mut store = KeyspaceStore::new();
    store.set(b"a".to_vec(), b"1".to_vec(), None, 0);
    store.set(b"b".to_vec(), b"2".to_vec(), Some(50), 0);
    assert_eq!(store.get(b"a", 100), Some(b"1".to_vec()));
    assert_eq!(store.get(b"b", 100), None);
    assert_eq!(store.get(b"a", 10), Some(b"1".to_vec()));
    assert_eq!(store.get(b"b", 10), Some(b"2".to_vec()));
}

#[test]
fn empty_key_and_value_are_binary_safe() {
    let mut store = KeyspaceStore::new();
    let key: Vec<u8> = vec![0, 13, 10, 255];
    store.set(key.clone(), Vec::new(), None, 0);
    assert_eq!(store.get(&key, 0), Some(Vec::new()));
}

#[test]
fn ttl_saturates_at_the_top_of_the_clock() {
    let mut store = KeyspaceStore::new();
    store.set(b"k".to_vec(), b"v".to_vec(), Some(u64::MAX), 10);
    // expiry is held at the clock's maximum, so the key is alive below it
    assert_eq!(store.get(b"k", u64::MAX - 1), Some(b"v".to_vec()));
    assert_eq!(store.get(b"k", u64::MAX), None);
}
