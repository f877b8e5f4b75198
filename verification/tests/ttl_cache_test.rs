use localcache::Cache;
use localcache::Duration;
use localcache::Instant;
use localcache::TtlCache;

#[test]
fn test_ttl_cache_insert_and_get() {
    let ttl = Duration::from_millis(200);
    let mut cache: TtlCache<String, String> = TtlCache::new(ttl);

    cache.insert("key1".to_string(), "value1".to_string());
    assert_eq!(cache.get(&"key1".to_string()), Some("value1".to_string()));

    assert_eq!(cache.get(&"nonexistent".to_string()), None);
}

#[test]
fn test_ttl_cache_default_ttl() {
    let ttl = Duration::from_millis(100);
    let mut cache: TtlCache<String, i32> = TtlCache::new(ttl);
    let start = Instant::from_nanos(7_000_000_000);

    cache.insert_at("counter".to_string(), 42, start);
    assert_eq!(cache.get_at(&"counter".to_string(), start), Some(42));

    let later = start.checked_add(Duration::from_millis(150)).unwrap();

    assert_eq!(cache.get_at(&"counter".to_string(), later), None);
}

#[test]
fn test_ttl_cache_custom_ttl() {
    let default_ttl = Duration::from_millis(500);
    let mut cache: TtlCache<String, String> = TtlCache::new(default_ttl);
    let start = Instant::from_nanos(7_000_000_000);

    cache.insert_with_ttl_at(
        "key1".to_string(),
        "value1".to_string(),
        Some(Duration::from_millis(100)),
        start,
    );

    assert_eq!(cache.get_at(&"key1".to_string(), start), Some("value1".to_string()));

    let later = start.checked_add(Duration::from_millis(150)).unwrap();

    assert_eq!(cache.get_at(&"key1".to_string(), later), None);
}

#[test]
fn test_ttl_cache_remove() {
    let ttl = Duration::from_secs(10);
    let mut cache: TtlCache<String, String> = TtlCache::new(ttl);

    cache.insert("key1".to_string(), "value1".to_string());
    assert_eq!(cache.get(&"key1".to_string()), Some("value1".to_string()));

    let removed_value = cache.remove(&"key1".to_string());
    assert_eq!(removed_value, Some("value1".to_string()));
    assert_eq!(cache.get(&"key1".to_string()), None);
}

#[test]
fn ttl_cache_expires_after_default() {
    let mut cache: TtlCache<&str, i32> = TtlCache::new(Duration::from_millis(100));
    let t0 = Instant::from_nanos(1_000);
    cache.insert_at("x", 5, t0);
    let at_50 = t0.checked_add(Duration::from_millis(50)).unwrap();
    let at_150 = t0.checked_add(Duration::from_millis(150)).unwrap();
    assert_eq!(cache.get_at(&"x", at_50), Some(5));
    assert_eq!(cache.len(), 1);
    assert_eq!(cache.get_at(&"x", at_150), None);
    assert_eq!(cache.len(), 0);
}

#[test]
fn ttl_cache_none_overrides_default() {
    let mut cache: TtlCache<u8, u8> = TtlCache::new(Duration::from_nanos(1));
    let t0 = Instant::from_nanos(0);
    cache.insert_with_ttl_at(1, 2, None, t0);
    assert_eq!(cache.get_at(&1, Instant::from_nanos(u128::MAX)), Some(2));
    cache.insert_at(3, 4, t0);
    assert_eq!(cache.get_at(&3, Instant::from_nanos(1)), None);
}

#[test]
fn ttl_cache_zero_default_expires_at_once() {
    let mut cache: TtlCache<u8, u8> = TtlCache::new(Duration::from_nanos(0));
    let t0 = Instant::from_nanos(77);
    cache.insert_at(1, 2, t0);
    assert_eq!(cache.len(), 1);
    assert_eq!(cache.get_at(&1, t0), None);
    assert_eq!(cache.len(), 0);
}

#[test]
fn ttl_cache_clear_and_is_empty() {
    let mut cache: TtlCache<u8, u8> = TtlCache::new(Duration::from_secs(1));
    assert!(cache.is_empty());
    cache.insert(1, 2);
    cache.insert(2, 3);
    assert_eq!(cache.len(), 2);
    cache.clear();
    assert!(cache.is_empty());
    cache.clear();
    assert_eq!(cache.len(), 0);
}
