//! The unbounded policy: entries stay until they expire or are removed.

use vstd::prelude::*;
use std::hash::Hash;
use crate::cache::Cache;
use crate::entry::Entry;
use crate::model::CacheState;
use crate::store::key_type_ok;
use crate::store::Store;
use crate::time::Duration;
use crate::time::Instant;

verus! {

/// A cache without a bound on its size.
pub struct BasicCache<K, V> {
    store: Store<K, V>,
    default_ttl: Option<Duration>,
}

impl<K: Hash + Eq + Clone, V: Clone> BasicCache<K, V> {
    /// An empty cache whose plain inserts never expire.
    pub fn new() -> (cache: Self)
        requires
            key_type_ok::<K>(),
        ensures
            cache.wf(),
            cache.state() == CacheState::<K, V>::empty(None, None),
    {
        BasicCache { store: Store::new(), default_ttl: None }
    }

    /// An empty cache whose plain inserts expire after `default_ttl`.
    pub fn with_default_ttl(default_ttl: Duration) -> (cache: Self)
        requires
            key_type_ok::<K>(),
        ensures
            cache.wf(),
            cache.state() == CacheState::<K, V>::empty(None, Some(default_ttl)),
    {
        BasicCache { store: Store::new(), default_ttl: Some(default_ttl) }
    }
}

impl<K: Hash + Eq + Clone, V: Clone> Cache<K, V> for BasicCache<K, V> {
    closed spec fn wf(&self) -> bool {
        key_type_ok::<K>()
    }

    closed spec fn state(&self) -> CacheState<K, V> {
        CacheState {
            entries: self.store@,
            recency: Seq::empty(),
            capacity: None,
            default_ttl: self.default_ttl,
        }
    }

    proof fn lemma_state_wf(&self) {
        self.store.lemma_finite();
    }

    fn insert_with_ttl_at(&mut self, key: K, value: V, ttl: Option<Duration>, now: Instant) {
        self.store.put(key, Entry::new(value, ttl, now));
    }

    fn get_at(&mut self, key: &K, now: Instant) -> (value: Option<V>) {
        self.store.read_at(key, now)
    }

    fn remove(&mut self, key: &K) -> (value: Option<V>) {
        match self.store.take(key) {
            Some(entry) => Some(entry.value),
            None => None,
        }
    }

    fn clear(&mut self) {
        self.store.clear();
    }

    fn len(&self) -> (n: usize) {
        self.store.count()
    }

    fn is_empty(&self) -> (r: bool) {
        self.store.is_empty()
    }

    fn default_ttl(&self) -> (ttl: Option<Duration>) {
        self.default_ttl
    }
}

} // verus!
