//! What a cache is, as mathematics: the entries it stores, the order in
//! which its keys were last used, and the two settings of its policy.
//!
//! Every operation of a cache is a function on this state. The three
//! policies differ only in the settings: a capacity makes a cache keep
//! track of recency and evict, a default time-to-live gives plain inserts an
//! expiry.

use vstd::prelude::*;
use crate::entry::Entry;
use crate::order::lemma_drop_last;
use crate::order::lemma_promote;
use crate::order::lemma_without;
use crate::order::promote;
use crate::order::without;
use crate::time::Duration;
use crate::time::Instant;

verus! {

/// The state of a cache.
#[verifier::reject_recursive_types(K)]
pub struct CacheState<K, V> {
    /// The stored entries, expired ones that were not swept yet included.
    pub entries: Map<K, Entry<V>>,
    /// The keys from the most to the least recently used, where the cache
    /// has a capacity; empty where it has none.
    pub recency: Seq<K>,
    /// The largest number of entries the cache may hold, if it is bounded.
    pub capacity: Option<nat>,
    /// The time-to-live of an insert that names none.
    pub default_ttl: Option<Duration>,
}

/// One insert: what is written, with which time-to-live, and when.
pub struct Write<K, V> {
    pub key: K,
    pub value: V,
    pub ttl: Option<Duration>,
    pub now: Instant,
}

/// The keys of a sequence of inserts, in the same sequence.
pub open spec fn keys_of<K, V>(writes: Seq<Write<K, V>>) -> Seq<K> {
    Seq::new(writes.len(), |i: int| writes[i].key)
}

/// One use of a cache: an insert, or a read at some instant.
pub enum Use<K, V> {
    Write(Write<K, V>),
    Read { key: K, now: Instant },
}

impl<K, V> Use<K, V> {
    /// The key that is used.
    pub open spec fn key(self) -> K {
        match self {
            Use::Write(write) => write.key,
            Use::Read { key, .. } => key,
        }
    }
}

/// The keys of a sequence of uses, in the same sequence.
pub open spec fn keys_used<K, V>(uses: Seq<Use<K, V>>) -> Seq<K> {
    Seq::new(uses.len(), |i: int| uses[i].key())
}

impl<K, V> CacheState<K, V> {
    /// The state of a new cache with the given settings.
    pub open spec fn empty(capacity: Option<nat>, default_ttl: Option<Duration>) -> Self {
        CacheState { entries: Map::empty(), recency: Seq::empty(), capacity, default_ttl }
    }

    /// The invariant of every cache: finitely many entries; with a capacity
    /// of at least one, the recency order lists exactly the stored keys,
    /// each once, and no more of them than the capacity.
    pub open spec fn wf(self) -> bool {
        &&& self.entries.dom().finite()
        &&& match self.capacity {
            Some(limit) => {
                &&& limit >= 1
                &&& self.recency.no_duplicates()
                &&& self.recency.len() <= limit
                &&& forall|k: K| self.recency.contains(k) <==> self.entries.contains_key(k)
            },
            None => self.recency == Seq::<K>::empty(),
        }
    }

    /// The number of stored entries.
    pub open spec fn len(self) -> nat {
        self.entries.dom().len()
    }

    /// The recency order after a use of `key`.
    pub open spec fn touched(self, key: K) -> Seq<K> {
        if self.capacity is Some {
            promote(self.recency, key)
        } else {
            self.recency
        }
    }

    /// The recency order once `key` is gone.
    pub open spec fn forgotten(self, key: K) -> Seq<K> {
        if self.capacity is Some {
            without(self.recency, key)
        } else {
            self.recency
        }
    }

    /// Whether a read of `key` at `now` finds a value: the key is stored and
    /// its entry has not expired.
    pub open spec fn visible(self, key: K, now: Instant) -> bool {
        self.entries.contains_key(key) && self.entries[key].live_at(now)
    }

    /// The value that a read of `key` at `now` finds.
    pub open spec fn lookup(self, key: K, now: Instant) -> Option<V> {
        if self.visible(key, now) {
            Some(self.entries[key].value)
        } else {
            None
        }
    }

    /// The state after writing `value` under `key` at `now` with
    /// time-to-live `ttl`. The key counts as used. Where that leaves a
    /// bounded cache over its capacity, the least recently used key goes.
    pub open spec fn insert_at(self, key: K, value: V, ttl: Option<Duration>, now: Instant) -> Self {
        let entries = self.entries.insert(key, Entry::written(value, ttl, now));
        let recency = self.touched(key);
        if self.capacity is Some && recency.len() > self.capacity->0 {
            CacheState {
                entries: entries.remove(recency.last()),
                recency: recency.drop_last(),
                ..self
            }
        } else {
            CacheState { entries, recency, ..self }
        }
    }

    /// The state after a read of `key` at `now`. A read that finds a value
    /// counts as a use of the key; one that finds an expired entry sweeps
    /// it; one that finds nothing changes nothing.
    pub open spec fn get_at(self, key: K, now: Instant) -> Self {
        if !self.entries.contains_key(key) {
            self
        } else if self.entries[key].live_at(now) {
            CacheState { recency: self.touched(key), ..self }
        } else {
            CacheState {
                entries: self.entries.remove(key),
                recency: self.forgotten(key),
                ..self
            }
        }
    }

    /// The state after deleting `key`, expired or not.
    pub open spec fn remove(self, key: K) -> Self {
        CacheState { entries: self.entries.remove(key), recency: self.forgotten(key), ..self }
    }

    /// The value that deleting `key` hands back: the stored one, expired or
    /// not.
    pub open spec fn stored_value(self, key: K) -> Option<V> {
        if self.entries.contains_key(key) {
            Some(self.entries[key].value)
        } else {
            None
        }
    }

    /// The state after deleting everything. The settings stay.
    pub open spec fn clear(self) -> Self {
        CacheState { entries: Map::empty(), recency: Seq::empty(), ..self }
    }

    /// The state after the inserts `writes`, made one after the other.
    pub open spec fn insert_all(self, writes: Seq<Write<K, V>>) -> Self
        decreases writes.len(),
    {
        if writes.len() == 0 {
            self
        } else {
            let last = writes.last();
            self.insert_all(writes.drop_last()).insert_at(last.key, last.value, last.ttl, last.now)
        }
    }

    /// The state after one use.
    pub open spec fn after(self, step: Use<K, V>) -> Self {
        match step {
            Use::Write(write) => self.insert_at(write.key, write.value, write.ttl, write.now),
            Use::Read { key, now } => self.get_at(key, now),
        }
    }

    /// The state after the uses `steps`, made one after the other.
    pub open spec fn after_all(self, steps: Seq<Use<K, V>>) -> Self
        decreases steps.len(),
    {
        if steps.len() == 0 {
            self
        } else {
            self.after_all(steps.drop_last()).after(steps.last())
        }
    }

    /// Whether every read among `steps`, made one after the other, finds a
    /// value.
    pub open spec fn reads_hit(self, steps: Seq<Use<K, V>>) -> bool
        decreases steps.len(),
    {
        if steps.len() == 0 {
            true
        } else {
            &&& self.reads_hit(steps.drop_last())
            &&& match steps.last() {
                Use::Write(_) => true,
                Use::Read { key, now } => self.after_all(steps.drop_last()).visible(key, now),
            }
        }
    }

    /// A write keeps the invariant.
    pub proof fn lemma_insert_wf(self, key: K, value: V, ttl: Option<Duration>, now: Instant)
        requires
            self.wf(),
        ensures
            self.insert_at(key, value, ttl, now).wf(),
            self.insert_at(key, value, ttl, now).entries.contains_key(key),
    {
        if self.capacity is Some {
            lemma_promote(self.recency, key);
            let recency = self.touched(key);
            if recency.len() > self.capacity->0 {
                lemma_drop_last(recency);
                assert(recency[0] == key);
                assert(recency.last() != key);
            }
        }
    }

    /// A read keeps the invariant.
    pub proof fn lemma_get_wf(self, key: K, now: Instant)
        requires
            self.wf(),
        ensures
            self.get_at(key, now).wf(),
    {
        if self.capacity is Some {
            lemma_promote(self.recency, key);
            lemma_without(self.recency, key);
        }
    }

    /// A deletion keeps the invariant.
    pub proof fn lemma_remove_wf(self, key: K)
        requires
            self.wf(),
        ensures
            self.remove(key).wf(),
    {
        if self.capacity is Some {
            lemma_without(self.recency, key);
        }
    }

    /// A run of writes keeps the invariant and the settings.
    pub proof fn lemma_insert_all_wf(self, writes: Seq<Write<K, V>>)
        requires
            self.wf(),
        ensures
            self.insert_all(writes).wf(),
            self.insert_all(writes).capacity == self.capacity,
            self.insert_all(writes).default_ttl == self.default_ttl,
        decreases writes.len(),
    {
        if writes.len() > 0 {
            let last = writes.last();
            self.lemma_insert_all_wf(writes.drop_last());
            self.insert_all(writes.drop_last()).lemma_insert_wf(
                last.key,
                last.value,
                last.ttl,
                last.now,
            );
        }
    }

    /// A run of uses keeps the invariant and the settings.
    pub proof fn lemma_after_all_wf(self, steps: Seq<Use<K, V>>)
        requires
            self.wf(),
        ensures
            self.after_all(steps).wf(),
            self.after_all(steps).capacity == self.capacity,
            self.after_all(steps).default_ttl == self.default_ttl,
        decreases steps.len(),
    {
        if steps.len() > 0 {
            self.lemma_after_all_wf(steps.drop_last());
            let mid = self.after_all(steps.drop_last());
            match steps.last() {
                Use::Write(write) => {
                    mid.lemma_insert_wf(write.key, write.value, write.ttl, write.now);
                },
                Use::Read { key, now } => {
                    mid.lemma_get_wf(key, now);
                },
            }
        }
    }

    /// Deleting everything keeps the invariant.
    pub proof fn lemma_clear_wf(self)
        requires
            self.wf(),
        ensures
            self.clear().wf(),
    {
    }
}

} // verus!
