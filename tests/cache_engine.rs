use memory_cache::cache::Cache;

#[test]
fn create_then_read() {
    let mut cache = Cache::new();
    assert!(cache.set("k".to_string(), 7, None, b"v1".to_vec()));
    let item = cache.get(&"k".to_string()).expect("stored item");
    assert_eq!(item.key, "k");
    assert_eq!(item.cas, 0);
    assert_eq!(item.flags, 7);
    assert_eq!(item.expiration, None);
    assert_eq!(item.data, b"v1".to_vec());
}

#[test]
fn update_increments_cas() {
    let mut cache = Cache::new();
    assert!(cache.set("k".to_string(), 1, None, b"a".to_vec()));
    assert_eq!(cache.get(&"k".to_string()).unwrap().cas, 0);
    assert!(!cache.set("k".to_string(), 2, Some(30), b"bb".to_vec()));
    let item = cache.get(&"k".to_string()).unwrap();
    assert_eq!(item.cas, 1);
    assert_eq!(item.flags, 2);
    assert_eq!(item.expiration, Some(30));
    assert_eq!(item.data, b"bb".to_vec());
    assert!(!cache.set("k".to_string(), 3, None, Vec::new()));
    assert_eq!(cache.get(&"k".to_string()).unwrap().cas, 2);
}

#[test]
fn miss_returns_none() {
    let cache = Cache::new();
    assert!(cache.get(&"absent".to_string()).is_none());
}

#[test]
fn keys_are_independent() {
    let mut cache = Cache::new();
    cache.set("a".to_string(), 1, None, b"1".to_vec());
    cache.set("b".to_string(), 2, None, b"2".to_vec());
    cache.set("a".to_string(), 3, None, b"3".to_vec());
    let a = cache.get(&"a".to_string()).unwrap();
    let b = cache.get(&"b".to_string()).unwrap();
    assert_eq!((a.flags, a.cas, a.data), (3, 1, b"3".to_vec()));
    assert_eq!((b.flags, b.cas, b.data), (2, 0, b"2".to_vec()));
}

#[test]
fn many_new_keys_keep_their_own_records() {
    let mut cache = Cache::new();
    for i in 0..50u32 {
        assert!(cache.set(format!("k{}", i), i, None, vec![i as u8]));
    }
    for i in 0..50u32 {
        let item = cache.get(&format!("k{}", i)).unwrap();
        assert_eq!((item.flags, item.cas, item.data), (i, 0, vec![i as u8]));
    }
}
