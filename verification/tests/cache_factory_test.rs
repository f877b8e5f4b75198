use localcache::new_cache;
use localcache::Cache;
use localcache::CacheType;
use localcache::ConfigError;
use localcache::Duration;
use localcache::Instant;

#[test]
fn test_new_cache_basic() {
    let mut cache = new_cache::<String, String>(CacheType::Basic).unwrap();

    cache.insert("key1".to_string(), "value1".to_string());
    assert_eq!(cache.get(&"key1".to_string()), Some("value1".to_string()));

    let removed_value = cache.remove(&"key1".to_string());
    assert_eq!(removed_value, Some("value1".to_string()));
    assert_eq!(cache.get(&"key1".to_string()), None);
}

#[test]
fn test_new_cache_lru() {
    let mut cache = new_cache::<String, i32>(CacheType::Lru(100)).unwrap();

    cache.insert("lru_key".to_string(), 100);
    assert_eq!(cache.get(&"lru_key".to_string()), Some(100));

    let removed_value = cache.remove(&"lru_key".to_string());
    assert_eq!(removed_value, Some(100));
    assert_eq!(cache.get(&"lru_key".to_string()), None);
}

#[test]
fn new_cache_with_default_ttl() {
    let mut cache =
        new_cache::<String, i32>(CacheType::WithDefaultTtl(Duration::from_secs(10))).unwrap();
    let t0 = Instant::from_nanos(0);
    cache.insert_at("counter".to_string(), 42, t0);
    assert_eq!(cache.get_at(&"counter".to_string(), Instant::from_nanos(9_999_999_999)), Some(42));
    assert_eq!(cache.len(), 1);
    assert_eq!(cache.get_at(&"counter".to_string(), Instant::from_nanos(10_000_000_000)), None);
    assert_eq!(cache.len(), 0);
}

#[test]
fn new_cache_refuses_zero_capacity() {
    let cache = new_cache::<String, i32>(CacheType::Lru(0));
    assert!(matches!(cache, Err(ConfigError::ZeroCapacity)));
}

#[test]
fn new_cache_lru_evicts() {
    let mut cache = new_cache::<u8, u8>(CacheType::Lru(1)).unwrap();
    cache.insert(1, 1);
    cache.insert(2, 2);
    assert_eq!(cache.len(), 1);
    assert_eq!(cache.get(&1), None);
    assert_eq!(cache.get(&2), Some(2));
    cache.clear();
    assert!(cache.is_empty());
}

#[test]
fn new_cache_basic_does_not_evict() {
    let mut cache = new_cache::<u8, u8>(CacheType::Basic).unwrap();
    cache.insert(1, 1);
    cache.insert(2, 2);
    cache.insert(3, 3);
    assert_eq!(cache.len(), 3);
    assert!(!cache.is_empty());
}
