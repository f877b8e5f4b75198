//! What holds of every cache, whatever was done to it: theorems about the
//! states that the operations lead to.

use vstd::prelude::*;
use crate::entry::lemma_live_until_deadline;
use crate::model::keys_of;
use crate::model::keys_used;
use crate::model::CacheState;
use crate::model::Use;
use crate::model::Write;
use crate::order::lemma_index_of_unique;
use crate::order::lemma_newest_promote;
use crate::order::lemma_promote;
use crate::order::lemma_use_order;
use crate::order::lemma_use_order_distinct;
use crate::order::newest;
use crate::order::promote;
use crate::order::use_order;
use crate::time::Duration;
use crate::time::Instant;

verus! {

/// Expiry. A value written at `t0` with time-to-live `span` is found by every
/// read at an instant before `t0 + span`, and by no read from `t0 + span` on.
pub proof fn theorem_expiry_window<K, V>(
    state: CacheState<K, V>,
    key: K,
    value: V,
    span: Duration,
    t0: Instant,
    t: Instant,
)
    requires
        state.wf(),
    ensures
        state.insert_at(key, value, Some(span), t0).lookup(key, t) == (if t.nanos < t0.nanos
            + span.nanos {
            Some(value)
        } else {
            None
        }),
{
    lemma_live_until_deadline(value, span, t0, t);
    state.lemma_insert_wf(key, value, Some(span), t0);
    if state.capacity is Some {
        lemma_promote(state.recency, key);
        let recency = state.touched(key);
        if recency.len() > state.capacity->0 {
            assert(recency[0] == key);
            assert(recency.last() != key);
        }
    }
}

/// Expiry, seen from the count. A read that finds an expired entry takes it
/// out of the store: afterwards the key is gone and the count is one less.
pub proof fn theorem_expired_read_sweeps<K, V>(state: CacheState<K, V>, key: K, now: Instant)
    requires
        state.wf(),
        state.entries.contains_key(key),
        !state.entries[key].live_at(now),
    ensures
        state.lookup(key, now) is None,
        !state.get_at(key, now).entries.contains_key(key),
        state.get_at(key, now).len() == state.len() - 1,
{
}

/// No expiry beats the default. A value written with time-to-live `None` is
/// found by every read, at whatever instant, whatever the default
/// time-to-live of the cache.
pub proof fn theorem_none_never_expires<K, V>(
    state: CacheState<K, V>,
    key: K,
    value: V,
    t0: Instant,
    t: Instant,
)
    requires
        state.wf(),
    ensures
        state.insert_at(key, value, None, t0).entries[key].expiry is None,
        state.insert_at(key, value, None, t0).lookup(key, t) == Some(value),
{
    state.lemma_insert_wf(key, value, None, t0);
    if state.capacity is Some {
        lemma_promote(state.recency, key);
        let recency = state.touched(key);
        if recency.len() > state.capacity->0 {
            assert(recency[0] == key);
            assert(recency.last() != key);
        }
    }
}

/// Removing a key that is not stored hands nothing back and changes nothing.
pub proof fn theorem_remove_absent<K, V>(state: CacheState<K, V>, key: K)
    requires
        state.wf(),
        !state.entries.contains_key(key),
    ensures
        state.stored_value(key) is None,
        state.remove(key) == state,
{
    assert(state.entries.remove(key) =~= state.entries);
    if state.capacity is Some {
        assert(!state.recency.contains(key));
    }
}

/// Removing a key twice is removing it once.
pub proof fn theorem_remove_twice<K, V>(state: CacheState<K, V>, key: K)
    requires
        state.wf(),
    ensures
        state.remove(key).remove(key) == state.remove(key),
{
    state.lemma_remove_wf(key);
    theorem_remove_absent(state.remove(key), key);
}

/// A cleared cache holds nothing, and clearing it again changes nothing.
pub proof fn theorem_clear<K, V>(state: CacheState<K, V>)
    ensures
        state.clear().len() == 0,
        state.clear().clear() == state.clear(),
{
}

/// Unbounded growth, one step. In a cache without a capacity a write removes
/// nothing: every key that was stored still is, with the entry it had, and
/// the count grows by one exactly if the key is new.
pub proof fn theorem_unbounded_insert<K, V>(
    state: CacheState<K, V>,
    key: K,
    value: V,
    ttl: Option<Duration>,
    now: Instant,
)
    requires
        state.wf(),
        state.capacity is None,
    ensures
        state.insert_at(key, value, ttl, now).entries.dom() == state.entries.dom().insert(key),
        forall|k: K|
            k != key && state.entries.contains_key(k) ==> state.insert_at(
                key,
                value,
                ttl,
                now,
            ).entries[k] == state.entries[k],
        state.insert_at(key, value, ttl, now).len() == (if state.entries.contains_key(key) {
            state.len()
        } else {
            state.len() + 1
        }),
{
}

/// Unbounded growth. In a cache without a capacity, writes under keys that
/// are all different and all new add one entry each, however many there
/// are, and every one of them is stored afterwards.
pub proof fn theorem_unbounded_growth<K, V>(state: CacheState<K, V>, writes: Seq<Write<K, V>>)
    requires
        state.wf(),
        state.capacity is None,
        keys_of(writes).no_duplicates(),
        forall|i: int| 0 <= i < writes.len() ==> !state.entries.contains_key(writes[i].key),
    ensures
        state.insert_all(writes).len() == state.len() + writes.len(),
        forall|i: int|
            0 <= i < writes.len() ==> state.insert_all(writes).entries.contains_key(
                #[trigger] writes[i].key,
            ),
        forall|k: K|
            state.entries.contains_key(k) ==> state.insert_all(writes).entries.contains_key(k),
    decreases writes.len(),
{
    if writes.len() > 0 {
        let earlier = writes.drop_last();
        let last = writes.last();
        let mid = state.insert_all(earlier);
        let n = writes.len() as int;
        assert(keys_of(earlier) =~= keys_of(writes).drop_last());
        assert forall|i: int| 0 <= i < earlier.len() implies !state.entries.contains_key(
            earlier[i].key,
        ) by {
            assert(earlier[i] == writes[i]);
        }
        theorem_unbounded_growth(state, earlier);
        state.lemma_insert_all_wf(earlier);
        lemma_stored_keys_unbounded(state, earlier);
        assert(!mid.entries.contains_key(last.key)) by {
            assert(writes[n - 1].key == last.key);
            assert(!state.entries.contains_key(writes[n - 1].key));
            if keys_of(earlier).contains(last.key) {
                let i = keys_of(earlier).index_of(last.key);
                assert(keys_of(writes)[i] == last.key);
                assert(keys_of(writes)[n - 1] == last.key);
            }
        }
        theorem_unbounded_insert(mid, last.key, last.value, last.ttl, last.now);
        assert forall|i: int| 0 <= i < writes.len() implies state.insert_all(
            writes,
        ).entries.contains_key(#[trigger] writes[i].key) by {
            if i < earlier.len() {
                assert(earlier[i] == writes[i]);
                assert(mid.entries.contains_key(earlier[i].key));
            }
        }
    }
}

/// In a cache without a capacity, the keys stored after a run of writes are
/// those stored before and those written.
proof fn lemma_stored_keys_unbounded<K, V>(state: CacheState<K, V>, writes: Seq<Write<K, V>>)
    requires
        state.wf(),
        state.capacity is None,
    ensures
        forall|k: K|
            state.insert_all(writes).entries.contains_key(k) <==> state.entries.contains_key(k)
                || keys_of(writes).contains(k),
    decreases writes.len(),
{
    if writes.len() > 0 {
        let earlier = writes.drop_last();
        let last = writes.last();
        lemma_stored_keys_unbounded(state, earlier);
        state.lemma_insert_all_wf(earlier);
        assert forall|k: K|
            state.insert_all(writes).entries.contains_key(k) <==> state.entries.contains_key(k)
                || keys_of(writes).contains(k) by {
            if keys_of(earlier).contains(k) {
                let i = keys_of(earlier).index_of(k);
                assert(keys_of(writes)[i] == k);
            }
            if keys_of(writes).contains(k) {
                let i = keys_of(writes).index_of(k);
                if i < earlier.len() {
                    assert(keys_of(earlier)[i] == k);
                }
            }
            assert(keys_of(writes)[writes.len() - 1] == last.key);
        }
    } else {
        assert forall|k: K| !keys_of(writes).contains(k) by {}
    }
}

/// The capacity bound. A bounded cache stores exactly the keys of its
/// recency order, and never more of them than its capacity. Every operation
/// keeps a cache well-formed, so this holds after any sequence of them.
pub proof fn theorem_capacity_bound<K, V>(state: CacheState<K, V>)
    requires
        state.wf(),
        state.capacity is Some,
    ensures
        state.entries.dom() == state.recency.to_set(),
        state.len() == state.recency.len(),
        state.len() <= state.capacity->0,
{
    assert(state.entries.dom() =~= state.recency.to_set());
    state.recency.unique_seq_to_set();
}

/// A use in a bounded cache. A write, and likewise a read that finds a
/// value, puts the key in front of the recency order and keeps of the
/// result the first `capacity` keys.
pub proof fn theorem_use_keeps_newest<K, V>(
    state: CacheState<K, V>,
    key: K,
    value: V,
    ttl: Option<Duration>,
    now: Instant,
)
    requires
        state.wf(),
        state.capacity is Some,
    ensures
        state.insert_at(key, value, ttl, now).recency == newest(
            promote(state.recency, key),
            state.capacity->0,
        ),
        state.visible(key, now) ==> state.get_at(key, now).recency == promote(state.recency, key)
            && state.get_at(key, now).entries == state.entries,
{
    lemma_promote(state.recency, key);
    let moved = promote(state.recency, key);
    let limit = state.capacity->0;
    if moved.len() > limit {
        assert(moved.drop_last() =~= moved.take(limit as int));
    }
}

/// Least recently used. After any run of writes into an empty bounded cache,
/// the stored keys are exactly the `capacity` most recently written ones (all
/// of them, if there are fewer), in the order of their last write.
pub proof fn theorem_most_recent_kept<K, V>(
    capacity: nat,
    default_ttl: Option<Duration>,
    writes: Seq<Write<K, V>>,
)
    requires
        capacity >= 1,
    ensures
        CacheState::<K, V>::empty(Some(capacity), default_ttl).insert_all(writes).recency == newest(
            use_order(keys_of(writes)),
            capacity,
        ),
        CacheState::<K, V>::empty(Some(capacity), default_ttl).insert_all(writes).entries.dom()
            == newest(use_order(keys_of(writes)), capacity).to_set(),
        CacheState::<K, V>::empty(Some(capacity), default_ttl).insert_all(writes).len() <= capacity,
    decreases writes.len(),
{
    let start = CacheState::<K, V>::empty(Some(capacity), default_ttl);
    start.lemma_insert_all_wf(writes);
    if writes.len() > 0 {
        let earlier = writes.drop_last();
        let last = writes.last();
        theorem_most_recent_kept::<K, V>(capacity, default_ttl, earlier);
        start.lemma_insert_all_wf(earlier);
        let mid = start.insert_all(earlier);
        theorem_use_keeps_newest(mid, last.key, last.value, last.ttl, last.now);
        assert(keys_of(writes).drop_last() =~= keys_of(earlier));
        assert(keys_of(writes).last() == last.key);
        lemma_use_order(keys_of(earlier));
        lemma_newest_promote(use_order(keys_of(earlier)), last.key, capacity);
    } else {
        assert(keys_of(writes) =~= Seq::<K>::empty());
        assert(start.insert_all(writes).recency =~= newest(use_order(keys_of(writes)), capacity));
    }
    theorem_capacity_bound(start.insert_all(writes));
}

/// Least recently used, reads included. After any run of writes and of reads
/// that find a value, made on an empty bounded cache, the stored keys are
/// exactly the `capacity` most recently used ones (all of them, if there are
/// fewer), in the order of their last use.
pub proof fn theorem_most_recently_used_kept<K, V>(
    capacity: nat,
    default_ttl: Option<Duration>,
    steps: Seq<Use<K, V>>,
)
    requires
        capacity >= 1,
        CacheState::<K, V>::empty(Some(capacity), default_ttl).reads_hit(steps),
    ensures
        CacheState::<K, V>::empty(Some(capacity), default_ttl).after_all(steps).recency == newest(
            use_order(keys_used(steps)),
            capacity,
        ),
        CacheState::<K, V>::empty(Some(capacity), default_ttl).after_all(steps).entries.dom()
            == newest(use_order(keys_used(steps)), capacity).to_set(),
        CacheState::<K, V>::empty(Some(capacity), default_ttl).after_all(steps).len() <= capacity,
    decreases steps.len(),
{
    let start = CacheState::<K, V>::empty(Some(capacity), default_ttl);
    start.lemma_after_all_wf(steps);
    if steps.len() > 0 {
        let earlier = steps.drop_last();
        let last = steps.last();
        theorem_most_recently_used_kept::<K, V>(capacity, default_ttl, earlier);
        start.lemma_after_all_wf(earlier);
        let mid = start.after_all(earlier);
        assert(keys_used(steps).drop_last() =~= keys_used(earlier));
        assert(keys_used(steps).last() == last.key());
        lemma_use_order(keys_used(earlier));
        lemma_newest_promote(use_order(keys_used(earlier)), last.key(), capacity);
        match last {
            Use::Write(write) => {
                theorem_use_keeps_newest(mid, write.key, write.value, write.ttl, write.now);
            },
            Use::Read { key, now } => {
                lemma_promote(mid.recency, key);
                assert(mid.recency.contains(key));
            },
        }
    } else {
        assert(keys_used(steps) =~= Seq::<K>::empty());
        assert(start.after_all(steps).recency =~= newest(use_order(keys_used(steps)), capacity));
    }
    theorem_capacity_bound(start.after_all(steps));
}

/// Eviction, one step. A write under a new key into a full bounded cache
/// evicts the key at the end of the recency order, the least recently used,
/// and no other.
pub proof fn theorem_evicts_least_recent<K, V>(
    state: CacheState<K, V>,
    key: K,
    value: V,
    ttl: Option<Duration>,
    now: Instant,
)
    requires
        state.wf(),
        state.capacity is Some,
        state.recency.len() == state.capacity->0,
        !state.entries.contains_key(key),
    ensures
        !state.insert_at(key, value, ttl, now).entries.contains_key(state.recency.last()),
        state.insert_at(key, value, ttl, now).entries.contains_key(key),
        forall|k: K|
            state.entries.contains_key(k) && k != state.recency.last() ==> state.insert_at(
                key,
                value,
                ttl,
                now,
            ).entries.contains_key(k),
{
    lemma_promote(state.recency, key);
    let moved = promote(state.recency, key);
    assert(!state.recency.contains(key));
    assert(moved.last() == state.recency.last());
    assert(state.recency.contains(state.recency.last()));
}

/// Eviction order. Writes under `capacity + 1` different keys into an empty
/// bounded cache evict the first of the keys and keep all the others.
pub proof fn theorem_first_in_first_out<K, V>(
    capacity: nat,
    default_ttl: Option<Duration>,
    writes: Seq<Write<K, V>>,
)
    requires
        capacity >= 1,
        writes.len() == capacity + 1,
        keys_of(writes).no_duplicates(),
    ensures
        !CacheState::<K, V>::empty(Some(capacity), default_ttl).insert_all(
            writes,
        ).entries.contains_key(writes[0].key),
        forall|i: int|
            1 <= i < writes.len() ==> CacheState::<K, V>::empty(
                Some(capacity),
                default_ttl,
            ).insert_all(writes).entries.contains_key(#[trigger] writes[i].key),
{
    let keys = keys_of(writes);
    let end = CacheState::<K, V>::empty(Some(capacity), default_ttl).insert_all(writes);
    theorem_most_recent_kept::<K, V>(capacity, default_ttl, writes);
    lemma_use_order_distinct(keys);
    let kept = newest(use_order(keys), capacity);
    assert(kept =~= keys.reverse().take(capacity as int));
    assert forall|i: int| 1 <= i < writes.len() implies end.entries.contains_key(
        #[trigger] writes[i].key,
    ) by {
        assert(kept[writes.len() - 1 - i] == keys[i]);
        assert(kept.contains(keys[i]));
    }
    if kept.contains(keys[0]) {
        let a = kept.index_of(keys[0]);
        assert(kept[a] == keys[writes.len() - 1 - a]);
    }
    assert(keys[0] == writes[0].key);
}

/// Eviction order after a read. If, once `capacity` different keys are
/// written into an empty bounded cache of capacity two or more, a read finds
/// the first of them, then a write under a further key evicts the second key
/// and keeps the first.
pub proof fn theorem_read_spares_oldest<K, V>(
    capacity: nat,
    default_ttl: Option<Duration>,
    writes: Seq<Write<K, V>>,
    read_at: Instant,
    next: Write<K, V>,
)
    requires
        capacity >= 2,
        writes.len() == capacity,
        keys_of(writes).no_duplicates(),
        !keys_of(writes).contains(next.key),
        CacheState::<K, V>::empty(Some(capacity), default_ttl).insert_all(writes).visible(
            writes[0].key,
            read_at,
        ),
    ensures
        ({
            let filled = CacheState::<K, V>::empty(Some(capacity), default_ttl).insert_all(writes);
            let end = filled.get_at(writes[0].key, read_at).insert_at(
                next.key,
                next.value,
                next.ttl,
                next.now,
            );
            &&& !end.entries.contains_key(writes[1].key)
            &&& end.entries.contains_key(writes[0].key)
            &&& end.entries.contains_key(next.key)
            &&& forall|i: int|
                2 <= i < writes.len() ==> end.entries.contains_key(#[trigger] writes[i].key)
        }),
{
    let keys = keys_of(writes);
    let first = writes[0].key;
    let start = CacheState::<K, V>::empty(Some(capacity), default_ttl);
    let filled = start.insert_all(writes);
    theorem_most_recent_kept::<K, V>(capacity, default_ttl, writes);
    start.lemma_insert_all_wf(writes);
    lemma_use_order_distinct(keys);
    assert(filled.recency =~= keys.reverse());
    let n = writes.len() as int;
    assert(filled.recency[n - 1] == first);
    lemma_index_of_unique(filled.recency, n - 1);
    let read = filled.get_at(first, read_at);
    filled.lemma_get_wf(first, read_at);
    lemma_promote(filled.recency, first);
    assert(read.recency =~= seq![first] + filled.recency.take(n - 1));
    assert(read.recency.last() == keys[1]) by {
        assert(read.recency[n - 1] == filled.recency[n - 2]);
        assert(filled.recency[n - 2] == keys[1]);
    }
    assert(!read.entries.contains_key(next.key)) by {
        if read.recency.contains(next.key) {
            let a = filled.recency.index_of(next.key);
            assert(keys[n - 1 - a] == next.key);
        }
    }
    theorem_evicts_least_recent(read, next.key, next.value, next.ttl, next.now);
    let end = read.insert_at(next.key, next.value, next.ttl, next.now);
    assert(keys[1] == writes[1].key);
    assert forall|i: int| 2 <= i < writes.len() implies end.entries.contains_key(
        #[trigger] writes[i].key,
    ) by {
        assert(filled.recency[n - 1 - i] == keys[i]);
        assert(filled.recency.contains(keys[i]));
        assert(keys[i] != keys[1]);
    }
    assert(filled.recency.contains(first));
    assert(keys[0] != keys[1]);
}

} // verus!
