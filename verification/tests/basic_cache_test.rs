use localcache::BasicCache;
use localcache::Cache;
use localcache::Duration;
use localcache::Instant;

#[test]
fn test_basic_cache_insert_and_get() {
    let mut cache: BasicCache<String, String> = BasicCache::new();

    cache.insert("key1".to_string(), "value1".to_string());
    assert_eq!(cache.get(&"key1".to_string()), Some("value1".to_string()));

    assert_eq!(cache.get(&"nonexistent".to_string()), None);
}

#[test]
fn test_basic_cache_remove() {
    let mut cache: BasicCache<String, String> = BasicCache::new();

    cache.insert("key1".to_string(), "value1".to_string());
    assert_eq!(cache.get(&"key1".to_string()), Some("value1".to_string()));

    let removed_value = cache.remove(&"key1".to_string());
    assert_eq!(removed_value, Some("value1".to_string()));
    assert_eq!(cache.get(&"key1".to_string()), None);

    let removed_value = cache.remove(&"nonexistent".to_string());
    assert_eq!(removed_value, None);
}

#[test]
fn test_basic_cache_clear() {
    let mut cache: BasicCache<String, String> = BasicCache::new();

    cache.insert("key1".to_string(), "value1".to_string());
    cache.insert("key2".to_string(), "value2".to_string());
    assert_eq!(cache.len(), 2);

    cache.clear();
    assert_eq!(cache.len(), 0);
    assert!(cache.is_empty());
}

#[test]
fn test_basic_cache_with_ttl() {
    let mut cache: BasicCache<String, String> = BasicCache::new();
    let start = Instant::from_nanos(1_000_000_000);

    cache.insert_with_ttl_at(
        "key1".to_string(),
        "value1".to_string(),
        Some(Duration::from_millis(100)),
        start,
    );

    assert_eq!(cache.get_at(&"key1".to_string(), start), Some("value1".to_string()));

    let later = start.checked_add(Duration::from_millis(150)).unwrap();

    assert_eq!(cache.get_at(&"key1".to_string(), later), None);
}

#[test]
fn basic_cache_with_ttl_on_the_wall_clock() {
    let mut cache: BasicCache<String, String> = BasicCache::new();
    cache.insert_with_ttl("gone".to_string(), "x".to_string(), Some(Duration::from_nanos(0)));
    cache.insert_with_ttl("kept".to_string(), "y".to_string(), Some(Duration::from_secs(3600)));
    assert_eq!(cache.get(&"gone".to_string()), None);
    assert_eq!(cache.get(&"kept".to_string()), Some("y".to_string()));
    assert_eq!(cache.len(), 1);
}

#[test]
fn basic_cache_grows_without_eviction() {
    let mut cache: BasicCache<u32, u32> = BasicCache::new();
    let n: u32 = 1000;
    for i in 0..n {
        cache.insert(i, i * 2);
    }
    assert_eq!(cache.len(), 1000);
    for i in 0..n {
        assert_eq!(cache.get(&i), Some(i * 2));
    }
    assert_eq!(cache.len(), 1000);
}

#[test]
fn basic_cache_overwrite_replaces_value_and_expiry() {
    let mut cache: BasicCache<u8, u8> = BasicCache::new();
    let t0 = Instant::from_nanos(10);
    cache.insert_with_ttl_at(1, 5, Some(Duration::from_nanos(5)), t0);
    cache.insert_at(1, 6, t0);
    assert_eq!(cache.len(), 1);
    assert_eq!(cache.get_at(&1, Instant::from_nanos(1_000_000)), Some(6));
}

#[test]
fn basic_cache_expiry_boundary_is_exclusive() {
    let mut cache: BasicCache<u8, u8> = BasicCache::new();
    let t0 = Instant::from_nanos(100);
    cache.insert_with_ttl_at(1, 9, Some(Duration::from_nanos(50)), t0);
    assert_eq!(cache.get_at(&1, Instant::from_nanos(149)), Some(9));
    assert_eq!(cache.len(), 1);
    assert_eq!(cache.get_at(&1, Instant::from_nanos(150)), None);
    assert_eq!(cache.len(), 0);
    assert!(cache.is_empty());
}

#[test]
fn basic_cache_reads_do_not_extend_ttl() {
    let mut cache: BasicCache<u8, u8> = BasicCache::new();
    cache.insert_with_ttl_at(1, 9, Some(Duration::from_nanos(50)), Instant::from_nanos(0));
    assert_eq!(cache.get_at(&1, Instant::from_nanos(40)), Some(9));
    assert_eq!(cache.get_at(&1, Instant::from_nanos(49)), Some(9));
    assert_eq!(cache.get_at(&1, Instant::from_nanos(60)), None);
}

#[test]
fn basic_cache_remove_ignores_expiry() {
    let mut cache: BasicCache<u8, u8> = BasicCache::new();
    cache.insert_with_ttl_at(1, 9, Some(Duration::from_nanos(0)), Instant::from_nanos(0));
    assert_eq!(cache.len(), 1);
    assert_eq!(cache.remove(&1), Some(9));
    assert_eq!(cache.len(), 0);
}

#[test]
fn basic_cache_remove_absent_changes_nothing() {
    let mut cache: BasicCache<u8, u8> = BasicCache::new();
    cache.insert(1, 2);
    assert_eq!(cache.remove(&7), None);
    assert_eq!(cache.len(), 1);
    assert_eq!(cache.get(&1), Some(2));
}

#[test]
fn basic_cache_clear_twice() {
    let mut cache: BasicCache<u8, u8> = BasicCache::new();
    cache.insert(1, 2);
    cache.clear();
    assert_eq!(cache.len(), 0);
    cache.clear();
    assert_eq!(cache.len(), 0);
    assert!(cache.is_empty());
    cache.insert(3, 4);
    assert_eq!(cache.get(&3), Some(4));
}

#[test]
fn basic_cache_with_default_ttl() {
    let mut cache: BasicCache<u8, u8> = BasicCache::with_default_ttl(Duration::from_nanos(10));
    let t0 = Instant::from_nanos(0);
    cache.insert_at(1, 2, t0);
    assert_eq!(cache.get_at(&1, Instant::from_nanos(9)), Some(2));
    assert_eq!(cache.get_at(&1, Instant::from_nanos(10)), None);
}

#[test]
fn ttl_past_the_last_instant_never_expires() {
    let mut cache: BasicCache<u8, u8> = BasicCache::new();
    let late = Instant::from_nanos(u128::MAX - 5);
    cache.insert_with_ttl_at(1, 2, Some(Duration::from_nanos(10)), late);
    assert_eq!(cache.get_at(&1, Instant::from_nanos(u128::MAX)), Some(2));
    cache.insert_with_ttl_at(3, 4, Some(Duration::from_nanos(5)), late);
    assert_eq!(cache.get_at(&3, Instant::from_nanos(u128::MAX - 1)), Some(4));
    assert_eq!(cache.get_at(&3, Instant::from_nanos(u128::MAX)), None);
}
