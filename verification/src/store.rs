//! The associative container that every policy keeps its entries in.

use vstd::prelude::*;
use std::collections::HashMap;
use std::hash::Hash;
use vstd::std_specs::hash::obeys_key_model;
use crate::entry::Entry;
use crate::time::Instant;

verus! {

/// Whether `K` can serve as a key: equal keys are the same key, hashing is
/// deterministic, and a clone of a key is that key.
///
/// The integer types and `String` meet the second half by what their `clone`
/// promises; the first half is vstd's model of hash-table keys.
pub open spec fn key_type_ok<K: Clone>() -> bool {
    &&& obeys_key_model::<K>()
    &&& forall|a: K, b: K| #[trigger] cloned(a, b) ==> a == b
}

/// A map from keys to entries. Keys are unique; writing a key that is
/// present replaces both its value and its expiry.
pub struct Store<K, V> {
    map: HashMap<K, Entry<V>>,
}

impl<K, V> View for Store<K, V> {
    type V = Map<K, Entry<V>>;

    closed spec fn view(&self) -> Map<K, Entry<V>> {
        self.map@
    }
}

impl<K: Hash + Eq, V> Store<K, V> {
    /// An empty store.
    pub fn new() -> (store: Self)
        ensures
            store@ == Map::<K, Entry<V>>::empty(),
    {
        Store { map: HashMap::new() }
    }

    /// A store never holds more than finitely many keys.
    pub proof fn lemma_finite(&self)
        ensures
            self@.dom().finite(),
    {
    }

    /// Writes `entry` under `key`, replacing what was there.
    pub fn put(&mut self, key: K, entry: Entry<V>)
        requires
            obeys_key_model::<K>(),
        ensures
            final(self)@ == old(self)@.insert(key, entry),
    {
        self.map.insert(key, entry);
    }

    /// Removes the entry under `key` and returns it, if there is one.
    pub fn take(&mut self, key: &K) -> (entry: Option<Entry<V>>)
        requires
            obeys_key_model::<K>(),
        ensures
            final(self)@ == old(self)@.remove(*key),
            entry == (if old(self)@.contains_key(*key) {
                Some(old(self)@[*key])
            } else {
                None
            }),
    {
        self.map.remove(key)
    }

    /// The entry under `key`, if there is one. The store stays as it is.
    pub fn peek(&self, key: &K) -> (entry: Option<&Entry<V>>)
        requires
            obeys_key_model::<K>(),
        ensures
            entry == (if self@.contains_key(*key) {
                Some(&self@[*key])
            } else {
                None
            }),
    {
        self.map.get(key)
    }

    /// The number of stored entries, expired ones that were not swept yet
    /// included.
    pub fn count(&self) -> (n: usize)
        requires
            obeys_key_model::<K>(),
        ensures
            n == self@.len(),
    {
        self.map.len()
    }

    /// Whether nothing is stored.
    pub fn is_empty(&self) -> (r: bool)
        requires
            obeys_key_model::<K>(),
        ensures
            r == (self@.len() == 0),
    {
        self.map.len() == 0
    }

    /// Removes every entry.
    pub fn clear(&mut self)
        ensures
            final(self)@ == Map::<K, Entry<V>>::empty(),
    {
        self.map.clear();
    }
}

/// What a read of `key` at `now` leaves of `entries`: an expired entry under
/// the key is swept, everything else stays.
pub open spec fn swept<K, V>(entries: Map<K, Entry<V>>, key: K, now: Instant) -> Map<K, Entry<V>> {
    if entries.contains_key(key) && !entries[key].live_at(now) {
        entries.remove(key)
    } else {
        entries
    }
}

/// The value that a read of `key` at `now` finds in `entries`.
pub open spec fn found<K, V>(entries: Map<K, Entry<V>>, key: K, now: Instant) -> Option<V> {
    if entries.contains_key(key) && entries[key].live_at(now) {
        Some(entries[key].value)
    } else {
        None
    }
}

impl<K: Hash + Eq, V: Clone> Store<K, V> {
    /// Reads `key` at `now`. A live entry gives a clone of its value. An
    /// expired entry gives nothing and is removed on the spot, so that the
    /// count no longer includes it.
    pub fn read_at(&mut self, key: &K, now: Instant) -> (value: Option<V>)
        requires
            obeys_key_model::<K>(),
        ensures
            final(self)@ == swept(old(self)@, *key, now),
            match found(old(self)@, *key, now) {
                Some(stored) => value is Some && cloned(stored, value->0),
                None => value is None,
            },
    {
        let (live, value) = match self.map.get(key) {
            Some(entry) => {
                if entry.is_live(now) {
                    (true, Some(entry.value.clone()))
                } else {
                    (false, None)
                }
            },
            None => (true, None),
        };
        if !live {
            self.map.remove(key);
        }
        value
    }
}

} // verus!
