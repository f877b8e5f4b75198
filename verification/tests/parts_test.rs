use localcache::Duration;
use localcache::Entry;
use localcache::Instant;
use localcache::RecencyIndex;
use localcache::Store;

#[test]
fn duration_units() {
    assert_eq!(Duration::from_nanos(7).as_nanos(), 7);
    assert_eq!(Duration::from_millis(3).as_nanos(), 3_000_000);
    assert_eq!(Duration::from_secs(2).as_nanos(), 2_000_000_000);
    assert_eq!(Duration::from_secs(u64::MAX).as_nanos(), 18_446_744_073_709_551_615_000_000_000);
}

#[test]
fn instant_addition() {
    let t = Instant::from_nanos(40);
    assert_eq!(t.checked_add(Duration::from_nanos(2)), Some(Instant::from_nanos(42)));
    assert_eq!(t.as_nanos(), 40);
    let end = Instant::from_nanos(u128::MAX);
    assert_eq!(end.checked_add(Duration::from_nanos(0)), Some(end));
    assert_eq!(end.checked_add(Duration::from_nanos(1)), None);
    assert!(t.is_before(end));
    assert!(!end.is_before(t));
    assert!(!t.is_before(t));
}

#[test]
fn instant_from_clock_reading() {
    assert_eq!(Instant::from_reading(Some(12)), Instant::from_nanos(12));
    assert_eq!(Instant::from_reading(None), Instant::from_nanos(0));
}

#[test]
fn instant_now_is_after_the_epoch() {
    let first = Instant::now();
    let second = Instant::now();
    assert!(first.as_nanos() > 1_000_000_000_000_000_000);
    assert!(second.as_nanos() > 1_000_000_000_000_000_000);
}

#[test]
fn entry_liveness() {
    let forever = Entry::new(1, None, Instant::from_nanos(5));
    assert_eq!(forever.expiry, None);
    assert!(forever.is_live(Instant::from_nanos(u128::MAX)));

    let brief = Entry::new(2, Some(Duration::from_nanos(10)), Instant::from_nanos(5));
    assert_eq!(brief.expiry, Some(Instant::from_nanos(15)));
    assert_eq!(brief.value, 2);
    assert!(brief.is_live(Instant::from_nanos(14)));
    assert!(!brief.is_live(Instant::from_nanos(15)));
    assert!(!brief.is_live(Instant::from_nanos(16)));
}

#[test]
fn store_put_peek_take() {
    let mut store: Store<&str, i32> = Store::new();
    assert!(store.is_empty());
    store.put("a", Entry::new(1, None, Instant::from_nanos(0)));
    store.put("b", Entry::new(2, None, Instant::from_nanos(0)));
    store.put("a", Entry::new(3, Some(Duration::from_nanos(4)), Instant::from_nanos(1)));
    assert_eq!(store.count(), 2);
    let seen = store.peek(&"a").unwrap();
    assert_eq!(seen.value, 3);
    assert_eq!(seen.expiry, Some(Instant::from_nanos(5)));
    assert!(store.peek(&"z").is_none());
    let taken = store.take(&"a").unwrap();
    assert_eq!(taken.value, 3);
    assert!(store.take(&"a").is_none());
    assert_eq!(store.count(), 1);
    store.clear();
    assert_eq!(store.count(), 0);
    assert!(store.is_empty());
}

#[test]
fn store_read_sweeps_expired() {
    let mut store: Store<&str, i32> = Store::new();
    store.put("a", Entry::new(1, Some(Duration::from_nanos(10)), Instant::from_nanos(0)));
    assert_eq!(store.read_at(&"a", Instant::from_nanos(9)), Some(1));
    assert_eq!(store.count(), 1);
    assert_eq!(store.read_at(&"b", Instant::from_nanos(9)), None);
    assert_eq!(store.count(), 1);
    assert_eq!(store.read_at(&"a", Instant::from_nanos(10)), None);
    assert_eq!(store.count(), 0);
}

fn check_walk(index: &RecencyIndex<&str>) {
    let walk = index.walk();
    assert_eq!(walk.len(), index.len());
    let mut seen = walk.clone();
    seen.sort();
    seen.dedup();
    assert_eq!(seen.len(), walk.len());
}

#[test]
fn recency_index_order() {
    let mut index: RecencyIndex<&str> = RecencyIndex::new();
    assert!(index.is_empty());
    assert_eq!(index.evict_tail(), None);
    index.touch("a");
    index.touch("b");
    index.touch("c");
    check_walk(&index);
    index.touch("a");
    check_walk(&index);
    assert_eq!(index.len(), 3);
    assert!(index.contains(&"b"));
    assert_eq!(index.evict_tail(), Some("b"));
    assert!(!index.contains(&"b"));
    check_walk(&index);
    assert_eq!(index.evict_tail(), Some("c"));
    assert_eq!(index.evict_tail(), Some("a"));
    assert_eq!(index.evict_tail(), None);
    assert!(index.is_empty());
    check_walk(&index);
}

#[test]
fn recency_index_remove_anywhere() {
    let mut index: RecencyIndex<&str> = RecencyIndex::new();
    index.touch("a");
    index.touch("b");
    index.touch("c");
    index.touch("d");
    assert!(index.remove(&"b"));
    check_walk(&index);
    assert!(!index.remove(&"b"));
    assert!(index.remove(&"d"));
    check_walk(&index);
    assert!(index.remove(&"a"));
    check_walk(&index);
    assert_eq!(index.len(), 1);
    index.touch("e");
    check_walk(&index);
    assert_eq!(index.evict_tail(), Some("c"));
    assert_eq!(index.evict_tail(), Some("e"));
    index.touch("x");
    index.clear();
    assert_eq!(index.len(), 0);
    assert_eq!(index.evict_tail(), None);
}
