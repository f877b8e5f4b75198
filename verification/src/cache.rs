//! The interface that every cache policy offers, and the factory that
//! builds a cache from a policy setting.

use vstd::prelude::*;
use std::hash::Hash;
use crate::basiccache::BasicCache;
use crate::error::ConfigError;
use crate::lrucache::LruCache;
use crate::model::CacheState;
use crate::store::key_type_ok;
use crate::ttlcache::TtlCache;
use crate::time::Duration;
use crate::time::Instant;

verus! {

/// The policy of a cache.
#[derive(Debug, Clone, Copy)]
pub enum CacheType {
    /// Unbounded; plain inserts never expire.
    Basic,
    /// Bounded by the given capacity, with least-recently-used eviction.
    Lru(usize),
    /// Unbounded; plain inserts expire after the given time-to-live.
    WithDefaultTtl(Duration),
}

impl CacheType {
    /// The state of a new cache of this policy.
    pub open spec fn initial_state<K, V>(self) -> CacheState<K, V> {
        match self {
            CacheType::Basic => CacheState::empty(None, None),
            CacheType::Lru(max_size) => CacheState::empty(Some(max_size as nat), None),
            CacheType::WithDefaultTtl(ttl) => CacheState::empty(None, Some(ttl)),
        }
    }

    /// Whether a cache of this policy can be built: a bounded cache needs a
    /// capacity of at least one.
    pub open spec fn valid(self) -> bool {
        match self {
            CacheType::Lru(max_size) => max_size >= 1,
            _ => true,
        }
    }
}

/// A key-value cache.
///
/// Each operation that depends on the time comes twice: with the instant as
/// an argument (`insert_at`, `insert_with_ttl_at`, `get_at`), and without,
/// in which case the cache reads the wall clock and does what the first form
/// does at the instant it read.
pub trait Cache<K, V> where K: Hash + Eq + Clone, V: Clone {
    /// The representation invariant of the cache.
    spec fn wf(&self) -> bool;

    /// What the cache holds.
    spec fn state(&self) -> CacheState<K, V>;

    /// A well-formed cache is in a well-formed state.
    proof fn lemma_state_wf(&self)
        requires
            self.wf(),
        ensures
            self.state().wf(),
    ;

    /// Stores `value` under `key` at `now`, with time-to-live `ttl`; `None`
    /// means that the entry never expires, whatever the policy's default.
    fn insert_with_ttl_at(&mut self, key: K, value: V, ttl: Option<Duration>, now: Instant)
        requires
            old(self).wf(),
        ensures
            final(self).wf(),
            final(self).state() == old(self).state().insert_at(key, value, ttl, now),
    ;

    /// Reads `key` at `now`. Gives a clone of the value if the key is stored
    /// and has not expired. An expired entry is removed by the read.
    fn get_at(&mut self, key: &K, now: Instant) -> (value: Option<V>)
        requires
            old(self).wf(),
        ensures
            final(self).wf(),
            final(self).state() == old(self).state().get_at(*key, now),
            match old(self).state().lookup(*key, now) {
                Some(stored) => value is Some && cloned(stored, value->0),
                None => value is None,
            },
    ;

    /// Deletes `key` and returns the stored value, expired or not.
    fn remove(&mut self, key: &K) -> (value: Option<V>)
        requires
            old(self).wf(),
        ensures
            final(self).wf(),
            final(self).state() == old(self).state().remove(*key),
            value == old(self).state().stored_value(*key),
    ;

    /// Deletes everything.
    fn clear(&mut self)
        requires
            old(self).wf(),
        ensures
            final(self).wf(),
            final(self).state() == old(self).state().clear(),
    ;

    /// The number of stored entries. Expired entries count until a read or
    /// a removal takes them out.
    fn len(&self) -> (n: usize)
        requires
            self.wf(),
        ensures
            n == self.state().len(),
    ;

    /// Whether nothing is stored.
    fn is_empty(&self) -> (r: bool)
        requires
            self.wf(),
        ensures
            r == (self.state().len() == 0),
    ;

    /// The time-to-live that `insert` gives an entry.
    fn default_ttl(&self) -> (ttl: Option<Duration>)
        requires
            self.wf(),
        ensures
            ttl == self.state().default_ttl,
    ;

    /// Stores `value` under `key` at `now`, with the policy's default
    /// time-to-live.
    fn insert_at(&mut self, key: K, value: V, now: Instant)
        requires
            old(self).wf(),
        ensures
            final(self).wf(),
            final(self).state() == old(self).state().insert_at(
                key,
                value,
                old(self).state().default_ttl,
                now,
            ),
    {
        let ttl = self.default_ttl();
        self.insert_with_ttl_at(key, value, ttl, now);
    }

    /// Stores `value` under `key` at the instant the wall clock shows, with
    /// the policy's default time-to-live.
    fn insert(&mut self, key: K, value: V)
        requires
            old(self).wf(),
        ensures
            final(self).wf(),
            exists|now: Instant|
                final(self).state() == old(self).state().insert_at(
                    key,
                    value,
                    old(self).state().default_ttl,
                    now,
                ),
    {
        let now = Instant::now();
        self.insert_at(key, value, now);
    }

    /// Stores `value` under `key` at the instant the wall clock shows, with
    /// time-to-live `ttl`.
    fn insert_with_ttl(&mut self, key: K, value: V, ttl: Option<Duration>)
        requires
            old(self).wf(),
        ensures
            final(self).wf(),
            exists|now: Instant|
                final(self).state() == old(self).state().insert_at(key, value, ttl, now),
    {
        let now = Instant::now();
        self.insert_with_ttl_at(key, value, ttl, now);
    }

    /// Reads `key` at the instant the wall clock shows.
    fn get(&mut self, key: &K) -> (value: Option<V>)
        requires
            old(self).wf(),
        ensures
            final(self).wf(),
            exists|now: Instant|
                {
                    &&& final(self).state() == old(self).state().get_at(*key, now)
                    &&& match old(self).state().lookup(*key, now) {
                        Some(stored) => value is Some && cloned(stored, value->0),
                        None => value is None,
                    }
                },
    {
        let now = Instant::now();
        self.get_at(key, now)
    }
}

/// A cache of any of the three policies, behind the one interface.
pub enum AnyCache<K, V> {
    Basic(BasicCache<K, V>),
    Lru(LruCache<K, V>),
    WithDefaultTtl(TtlCache<K, V>),
}

impl<K: Hash + Eq + Clone, V: Clone> Cache<K, V> for AnyCache<K, V> {
    open spec fn wf(&self) -> bool {
        match self {
            AnyCache::Basic(cache) => cache.wf(),
            AnyCache::Lru(cache) => cache.wf(),
            AnyCache::WithDefaultTtl(cache) => cache.wf(),
        }
    }

    open spec fn state(&self) -> CacheState<K, V> {
        match self {
            AnyCache::Basic(cache) => cache.state(),
            AnyCache::Lru(cache) => cache.state(),
            AnyCache::WithDefaultTtl(cache) => cache.state(),
        }
    }

    proof fn lemma_state_wf(&self) {
        match self {
            AnyCache::Basic(cache) => cache.lemma_state_wf(),
            AnyCache::Lru(cache) => cache.lemma_state_wf(),
            AnyCache::WithDefaultTtl(cache) => cache.lemma_state_wf(),
        }
    }

    fn insert_with_ttl_at(&mut self, key: K, value: V, ttl: Option<Duration>, now: Instant) {
        match self {
            AnyCache::Basic(cache) => cache.insert_with_ttl_at(key, value, ttl, now),
            AnyCache::Lru(cache) => cache.insert_with_ttl_at(key, value, ttl, now),
            AnyCache::WithDefaultTtl(cache) => cache.insert_with_ttl_at(key, value, ttl, now),
        }
    }

    fn get_at(&mut self, key: &K, now: Instant) -> (value: Option<V>) {
        match self {
            AnyCache::Basic(cache) => cache.get_at(key, now),
            AnyCache::Lru(cache) => cache.get_at(key, now),
            AnyCache::WithDefaultTtl(cache) => cache.get_at(key, now),
        }
    }

    fn remove(&mut self, key: &K) -> (value: Option<V>) {
        match self {
            AnyCache::Basic(cache) => cache.remove(key),
            AnyCache::Lru(cache) => cache.remove(key),
            AnyCache::WithDefaultTtl(cache) => cache.remove(key),
        }
    }

    fn clear(&mut self) {
        match self {
            AnyCache::Basic(cache) => cache.clear(),
            AnyCache::Lru(cache) => cache.clear(),
            AnyCache::WithDefaultTtl(cache) => cache.clear(),
        }
    }

    fn len(&self) -> (n: usize) {
        match self {
            AnyCache::Basic(cache) => cache.len(),
            AnyCache::Lru(cache) => cache.len(),
            AnyCache::WithDefaultTtl(cache) => cache.len(),
        }
    }

    fn is_empty(&self) -> (r: bool) {
        match self {
            AnyCache::Basic(cache) => cache.is_empty(),
            AnyCache::Lru(cache) => cache.is_empty(),
            AnyCache::WithDefaultTtl(cache) => cache.is_empty(),
        }
    }

    fn default_ttl(&self) -> (ttl: Option<Duration>) {
        match self {
            AnyCache::Basic(cache) => cache.default_ttl(),
            AnyCache::Lru(cache) => cache.default_ttl(),
            AnyCache::WithDefaultTtl(cache) => cache.default_ttl(),
        }
    }
}

/// Builds an empty cache of the given policy. A bounded policy with a
/// capacity of zero is refused, and nothing is built.
pub fn new_cache<K, V>(cache_type: CacheType) -> (cache: Result<AnyCache<K, V>, ConfigError>) where
    K: Hash + Eq + Clone,
    V: Clone,

    requires
        key_type_ok::<K>(),
    ensures
        cache is Ok <==> cache_type.valid(),
        cache matches Err(e) ==> e == ConfigError::ZeroCapacity,
        cache matches Ok(c) ==> c.wf() && c.state() == cache_type.initial_state::<K, V>(),
{
    match cache_type {
        CacheType::Basic => Ok(AnyCache::Basic(BasicCache::new())),
        CacheType::Lru(max_size) => match LruCache::new(max_size) {
            Ok(cache) => Ok(AnyCache::Lru(cache)),
            Err(e) => Err(e),
        },
        CacheType::WithDefaultTtl(ttl) => Ok(AnyCache::WithDefaultTtl(TtlCache::new(ttl))),
    }
}

} // verus!
