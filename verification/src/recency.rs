//! The recency index: which key was used last, which one longest ago.
//!
//! The keys stand in a linked list from the most recently used (head) to the
//! least recently used (tail). A map from key to list handle finds a key's
//! node without walking the list, so a use, a removal and an eviction each
//! cost constant time.

use vstd::prelude::*;
use std::collections::HashMap;
use std::hash::Hash;
use crate::linked_list::DoublyLinkedList;
use crate::order::lemma_drop_last;
use crate::order::lemma_index_of_unique;
use crate::order::lemma_promote;
use crate::order::lemma_without;
use crate::order::past_gap;
use crate::order::promote;
use crate::order::without;
use crate::store::key_type_ok;

verus! {

/// The keys of a cache in order of their last use.
pub struct RecencyIndex<K> {
    list: DoublyLinkedList<K>,
    slots: HashMap<K, usize>,
}

impl<K> View for RecencyIndex<K> {
    type V = Seq<K>;

    /// The keys, most recently used first.
    closed spec fn view(&self) -> Seq<K> {
        self.list@
    }
}

impl<K: Hash + Eq + Clone> RecencyIndex<K> {
    /// The map sends each listed key to the handle of its node.
    spec fn mapped(&self) -> bool {
        forall|i: int|
            0 <= i < self.list@.len() ==> self.slots@.contains_key(#[trigger] self.list@[i])
                && self.slots@[self.list@[i]] == self.list.handles()[i]
    }

    /// The representation invariant: every key has one node and one map
    /// entry, which names that node, and nothing else is listed or mapped.
    pub closed spec fn wf(&self) -> bool {
        &&& key_type_ok::<K>()
        &&& self.list.wf()
        &&& self.list@.no_duplicates()
        &&& self.mapped()
        &&& forall|k: K| self.slots@.contains_key(k) ==> self.list@.contains(k)
    }

    /// In a well-formed index no key occurs twice.
    pub proof fn lemma_no_duplicates(&self)
        requires
            self.wf(),
        ensures
            self@.no_duplicates(),
    {
    }

    /// An empty index.
    pub fn new() -> (index: Self)
        requires
            key_type_ok::<K>(),
        ensures
            index.wf(),
            index@ == Seq::<K>::empty(),
    {
        RecencyIndex { list: DoublyLinkedList::new(), slots: HashMap::new() }
    }

    /// The number of keys.
    pub fn len(&self) -> (n: usize)
        requires
            self.wf(),
        ensures
            n == self@.len(),
    {
        proof {
            self.list@.unique_seq_to_set();
            assert(self.slots@.dom() =~= self.list@.to_set()) by {
                assert forall|k: K| self.list@.contains(k) implies self.slots@.contains_key(k) by {
                    let i = self.list@.index_of(k);
                    assert(self.slots@.contains_key(self.list@[i]));
                }
            }
        }
        self.slots.len()
    }

    /// Whether the index holds no key.
    pub fn is_empty(&self) -> (r: bool)
        requires
            self.wf(),
        ensures
            r == (self@.len() == 0),
    {
        self.list.is_empty()
    }

    /// Whether `key` is in the index.
    pub fn contains(&self, key: &K) -> (r: bool)
        requires
            self.wf(),
        ensures
            r == self@.contains(*key),
    {
        proof {
            if self.list@.contains(*key) {
                let i = self.list@.index_of(*key);
                assert(self.slots@.contains_key(self.list@[i]));
            }
        }
        self.slots.contains_key(key)
    }

    /// Records a use of `key`: a key that is present moves to the front, a
    /// new key enters at the front.
    pub fn touch(&mut self, key: K)
        requires
            old(self).wf(),
        ensures
            final(self).wf(),
            final(self)@ == promote(old(self)@, key),
    {
        let ghost keys = self.list@;
        let ghost handles = self.list.handles();
        proof {
            self.list.lemma_handles();
        }
        let found = match self.slots.get(&key) {
            Some(handle) => Some(*handle),
            None => None,
        };
        match found {
            Some(handle) => {
                proof {
                    assert(keys.contains(key));
                    let i = keys.index_of(key);
                    assert(self.slots@.contains_key(keys[i]));
                    assert(handles[i] == handle);
                    lemma_index_of_unique(handles, i);
                }
                self.list.move_to_front(handle);
                proof {
                    let i = keys.index_of(key);
                    let moved = self.list@;
                    assert(moved =~= promote(keys, key));
                    lemma_promote(keys, key);
                    assert forall|j: int| 0 <= j < moved.len() implies self.slots@.contains_key(
                        #[trigger] moved[j],
                    ) && self.slots@[moved[j]] == self.list.handles()[j] by {
                        if j > 0 {
                            let m = past_gap(j - 1, i);
                            assert(moved[j] == keys[m]);
                            assert(self.list.handles()[j] == handles[m]);
                            assert(self.slots@.contains_key(keys[m]));
                        } else {
                            assert(self.slots@.contains_key(keys[i]));
                        }
                    }
                }
            },
            None => {
                proof {
                    if keys.contains(key) {
                        let i = keys.index_of(key);
                        assert(self.slots@.contains_key(keys[i]));
                    }
                }
                let copy = key.clone();
                assert(cloned(key, copy));
                self.list.push_front(copy);
                let handle = match self.list.front() {
                    Some(handle) => handle,
                    None => {
                        proof {
                            self.list.lemma_handles();
                            assert(false);
                        }
                        vstd::pervasive::unreached()
                    },
                };
                self.slots.insert(key, handle);
                proof {
                    let moved = self.list@;
                    assert(moved =~= promote(keys, key));
                    lemma_promote(keys, key);
                    assert forall|j: int| 0 <= j < moved.len() implies self.slots@.contains_key(
                        #[trigger] moved[j],
                    ) && self.slots@[moved[j]] == self.list.handles()[j] by {
                        if j > 0 {
                            assert(moved[j] == keys[j - 1]);
                            assert(self.list.handles().drop_first()[j - 1] == handles[j - 1]);
                            assert(old(self).slots@.contains_key(keys[j - 1]));
                        }
                    }
                }
            },
        }
    }

    /// Removes the least recently used key and returns it; `None` on an
    /// empty index.
    pub fn evict_tail(&mut self) -> (victim: Option<K>)
        requires
            old(self).wf(),
        ensures
            final(self).wf(),
            old(self)@.len() == 0 ==> victim is None && final(self)@ == old(self)@,
            old(self)@.len() > 0 ==> {
                &&& victim == Some(old(self)@.last())
                &&& final(self)@ == old(self)@.drop_last()
            },
    {
        let ghost keys = self.list@;
        let ghost handles = self.list.handles();
        proof {
            self.list.lemma_handles();
        }
        match self.list.pop_back() {
            Some(key) => {
                self.slots.remove(&key);
                proof {
                    let rest = self.list@;
                    self.list.lemma_handles();
                    lemma_drop_last(keys);
                    assert forall|j: int| 0 <= j < rest.len() implies self.slots@.contains_key(
                        #[trigger] rest[j],
                    ) && self.slots@[rest[j]] == self.list.handles()[j] by {
                        assert(rest[j] == keys[j]);
                        assert(old(self).slots@.contains_key(keys[j]));
                        assert(rest.contains(rest[j]));
                    }
                }
                Some(key)
            },
            None => None,
        }
    }

    /// Takes `key` out of the index, wherever it stands, and says whether it
    /// was there.
    pub fn remove(&mut self, key: &K) -> (found: bool)
        requires
            old(self).wf(),
        ensures
            final(self).wf(),
            found == old(self)@.contains(*key),
            final(self)@ == without(old(self)@, *key),
    {
        let ghost keys = self.list@;
        let ghost handles = self.list.handles();
        proof {
            self.list.lemma_handles();
            if keys.contains(*key) {
                let i = keys.index_of(*key);
                assert(self.slots@.contains_key(keys[i]));
            }
        }
        match self.slots.remove(key) {
            Some(handle) => {
                proof {
                    let i = keys.index_of(*key);
                    assert(self.slots@.contains_key(keys[i]) || keys[i] == *key);
                    assert(old(self).slots@[keys[i]] == handles[i]);
                    lemma_index_of_unique(handles, i);
                }
                self.list.remove(handle);
                proof {
                    let i = keys.index_of(*key);
                    let rest = self.list@;
                    lemma_without(keys, *key);
                    assert forall|j: int| 0 <= j < rest.len() implies self.slots@.contains_key(
                        #[trigger] rest[j],
                    ) && self.slots@[rest[j]] == self.list.handles()[j] by {
                        let m = past_gap(j, i);
                        assert(rest[j] == keys[m]);
                        assert(self.list.handles()[j] == handles[m]);
                        assert(old(self).slots@.contains_key(keys[m]));
                        assert(rest.contains(rest[j]));
                    }
                }
                true
            },
            None => false,
        }
    }

    /// Removes every key.
    pub fn clear(&mut self)
        requires
            old(self).wf(),
        ensures
            final(self).wf(),
            final(self)@ == Seq::<K>::empty(),
    {
        self.list.clear();
        self.slots.clear();
    }

    /// The arena slots of the keys, most recently used first, found by
    /// walking the links from the head. No slot comes twice, and there is
    /// one per key.
    pub fn walk(&self) -> (slots: Vec<usize>)
        requires
            self.wf(),
        ensures
            slots@.len() == self@.len(),
            slots@.no_duplicates(),
    {
        proof {
            self.list.lemma_handles();
        }
        self.list.slots()
    }
}

} // verus!
