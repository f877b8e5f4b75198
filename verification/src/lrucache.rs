//! The LRU policy: a cache with a fixed capacity that makes room by evicting
//! the key that was used longest ago.

use vstd::prelude::*;
use std::hash::Hash;
use crate::cache::Cache;
use crate::entry::Entry;
use crate::error::ConfigError;
use crate::model::CacheState;
use crate::order::lemma_drop_last;
use crate::order::lemma_promote;
use crate::order::lemma_without;
use crate::recency::RecencyIndex;
use crate::store::key_type_ok;
use crate::store::Store;
use crate::time::Duration;
use crate::time::Instant;

verus! {

/// A cache that holds at most `capacity` entries.
///
/// Every insert and every read that finds a live value counts as a use of the
/// key. An insert that leaves the cache over its capacity evicts the least
/// recently used key.
pub struct LruCache<K, V> {
    store: Store<K, V>,
    index: RecencyIndex<K>,
    capacity: usize,
    default_ttl: Option<Duration>,
}

impl<K: Hash + Eq + Clone, V: Clone> LruCache<K, V> {
    /// An empty cache for at most `max_size` entries. A capacity of zero is
    /// refused.
    pub fn new(max_size: usize) -> (cache: Result<Self, ConfigError>)
        requires
            key_type_ok::<K>(),
        ensures
            max_size == 0 <==> cache is Err,
            cache matches Err(e) ==> e == ConfigError::ZeroCapacity,
            cache matches Ok(c) ==> c.wf() && c.state() == CacheState::<K, V>::empty(
                Some(max_size as nat),
                None,
            ),
    {
        if max_size == 0 {
            return Err(ConfigError::ZeroCapacity);
        }
        Ok(
            LruCache {
                store: Store::new(),
                index: RecencyIndex::new(),
                capacity: max_size,
                default_ttl: None,
            },
        )
    }

    /// The largest number of entries the cache holds.
    pub fn capacity(&self) -> (n: usize)
        requires
            self.wf(),
        ensures
            self.state().capacity == Some(n as nat),
    {
        self.capacity
    }

    /// The arena slots of the recency index, most recently used key first,
    /// found by walking its links: one slot per stored key, none twice.
    pub fn walk(&self) -> (slots: Vec<usize>)
        requires
            self.wf(),
        ensures
            slots@.len() == self.state().len(),
            slots@.no_duplicates(),
    {
        proof {
            self.lemma_state_wf();
            self.index.lemma_no_duplicates();
            self.index@.unique_seq_to_set();
            assert(self.index@.to_set() =~= self.store@.dom());
        }
        self.index.walk()
    }
}

impl<K: Hash + Eq + Clone, V: Clone> Cache<K, V> for LruCache<K, V> {
    closed spec fn wf(&self) -> bool {
        &&& key_type_ok::<K>()
        &&& self.index.wf()
        &&& self.capacity >= 1
        &&& self.index@.len() <= self.capacity
        &&& forall|k: K| self.index@.contains(k) <==> self.store@.contains_key(k)
    }

    closed spec fn state(&self) -> CacheState<K, V> {
        CacheState {
            entries: self.store@,
            recency: self.index@,
            capacity: Some(self.capacity as nat),
            default_ttl: self.default_ttl,
        }
    }

    proof fn lemma_state_wf(&self) {
        self.store.lemma_finite();
        self.index.lemma_no_duplicates();
    }

    fn insert_with_ttl_at(&mut self, key: K, value: V, ttl: Option<Duration>, now: Instant) {
        let ghost before = self.state();
        proof {
            self.index.lemma_no_duplicates();
            lemma_promote(self.index@, key);
        }
        let copy = key.clone();
        assert(cloned(key, copy));
        self.store.put(copy, Entry::new(value, ttl, now));
        self.index.touch(key);
        if self.index.len() > self.capacity {
            proof {
                lemma_drop_last(self.index@);
            }
            match self.index.evict_tail() {
                Some(victim) => {
                    self.store.take(&victim);
                },
                None => {},
            }
        }
        proof {
            assert(self.state().entries =~= before.insert_at(key, value, ttl, now).entries);
        }
    }

    fn get_at(&mut self, key: &K, now: Instant) -> (value: Option<V>) {
        let ghost before = self.state();
        proof {
            self.index.lemma_no_duplicates();
            lemma_promote(self.index@, *key);
            lemma_without(self.index@, *key);
        }
        let value = self.store.read_at(key, now);
        if value.is_some() {
            let copy = key.clone();
            assert(cloned(*key, copy));
            self.index.touch(copy);
        } else {
            self.index.remove(key);
        }
        proof {
            assert(self.state().entries =~= before.get_at(*key, now).entries);
            assert(self.state().recency =~= before.get_at(*key, now).recency);
        }
        value
    }

    fn remove(&mut self, key: &K) -> (value: Option<V>) {
        proof {
            self.index.lemma_no_duplicates();
            lemma_without(self.index@, *key);
        }
        self.index.remove(key);
        match self.store.take(key) {
            Some(entry) => Some(entry.value),
            None => None,
        }
    }

    fn clear(&mut self) {
        self.store.clear();
        self.index.clear();
    }

    fn len(&self) -> (n: usize) {
        self.store.count()
    }

    fn is_empty(&self) -> (r: bool) {
        self.store.is_empty()
    }

    fn default_ttl(&self) -> (ttl: Option<Duration>) {
        self.default_ttl
    }
}

} // verus!
