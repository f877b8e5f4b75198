//! The default-TTL policy: an unbounded cache whose plain inserts always
//! expire.

use vstd::prelude::*;
use std::hash::Hash;
use crate::cache::Cache;
use crate::entry::Entry;
use crate::model::CacheState;
use crate::store::key_type_ok;
use crate::store::Store;
use crate::time::Duration;
use crate::time::Instant;

verus! {

/// A cache that gives every entry a time-to-live: the one named at the
/// insert, or else its own default. Only an insert that names `None` outright
/// makes an entry that never expires.
pub struct TtlCache<K, V> {
    store: Store<K, V>,
    default_ttl: Duration,
}

impl<K: Hash + Eq + Clone, V: Clone> TtlCache<K, V> {
    /// An empty cache whose plain inserts expire after `default_ttl`.
    pub fn new(default_ttl: Duration) -> (cache: Self)
        requires
            key_type_ok::<K>(),
        ensures
            cache.wf(),
            cache.state() == CacheState::<K, V>::empty(None, Some(default_ttl)),
    {
        TtlCache { store: Store::new(), default_ttl }
    }
}

impl<K: Hash + Eq + Clone, V: Clone> Cache<K, V> for TtlCache<K, V> {
    closed spec fn wf(&self) -> bool {
        key_type_ok::<K>()
    }

    closed spec fn state(&self) -> CacheState<K, V> {
        CacheState {
            entries: self.store@,
            recency: Seq::empty(),
            capacity: None,
            default_ttl: Some(self.default_ttl),
        }
    }

    proof fn lemma_state_wf(&self) {
        self.store.lemma_finite();
    }

    fn insert_with_ttl_at(&mut self, key: K, value: V, ttl: Option<Duration>, now: Instant) {
        self.store.put(key, Entry::new(value, ttl, now));
    }

    fn get_at(&mut self, key: &K, now: Instant) -> (value: Option<V>) {
        self.store.read_at(key, now)
    }

    fn remove(&mut self, key: &K) -> (value: Option<V>) {
        match self.store.take(key) {
            Some(entry) => Some(entry.value),
            None => None,
        }
    }

    fn clear(&mut self) {
        self.store.clear();
    }

    fn len(&self) -> (n: usize) {
        self.store.count()
    }

    fn is_empty(&self) -> (r: bool) {
        self.store.is_empty()
    }

    fn default_ttl(&self) -> (ttl: Option<Duration>) {
        Some(self.default_ttl)
    }
}

} // verus!
