//! Recency orders: sequences of keys from the most recently used to the
//! least recently used, in which no key occurs twice.

use vstd::prelude::*;

verus! {

/// Where a sequence had what stands at position `k` once its position `gap`
/// is removed.
pub open spec fn past_gap(k: int, gap: int) -> int {
    if k < gap {
        k
    } else {
        k + 1
    }
}

/// `order` with `key` taken out, the other keys in their old sequence.
pub open spec fn without<K>(order: Seq<K>, key: K) -> Seq<K> {
    if order.contains(key) {
        order.remove(order.index_of(key))
    } else {
        order
    }
}

/// `order` after a use of `key`: the key in front, the others behind it in
/// their old sequence.
pub open spec fn promote<K>(order: Seq<K>, key: K) -> Seq<K> {
    seq![key] + without(order, key)
}

/// In an order, a key that occurs at position `i` occurs nowhere else.
pub proof fn lemma_index_of_unique<K>(order: Seq<K>, i: int)
    requires
        order.no_duplicates(),
        0 <= i < order.len(),
    ensures
        order.contains(order[i]),
        order.index_of(order[i]) == i,
{
}

/// Taking a key out of an order leaves an order that lacks the key and has
/// kept every other key.
pub proof fn lemma_without<K>(order: Seq<K>, key: K)
    requires
        order.no_duplicates(),
    ensures
        without(order, key).no_duplicates(),
        !without(order, key).contains(key),
        forall|k: K| #[trigger] without(order, key).contains(k) <==> order.contains(k) && k != key,
        without(order, key).len() == (if order.contains(key) {
            order.len() - 1
        } else {
            order.len() as int
        }),
{
    let rest = without(order, key);
    if order.contains(key) {
        let i = order.index_of(key);
        assert forall|a: int| 0 <= a < rest.len() implies rest[a] == order[past_gap(a, i)] by {}
        assert forall|a: int, b: int| 0 <= a < rest.len() && 0 <= b < rest.len() && a != b implies rest[a]
            != rest[b] by {
            assert(rest[a] == order[past_gap(a, i)]);
            assert(rest[b] == order[past_gap(b, i)]);
        }
        assert forall|k: K| #[trigger] rest.contains(k) <==> order.contains(k) && k != key by {
            if rest.contains(k) {
                let a = rest.index_of(k);
                assert(rest[a] == order[past_gap(a, i)]);
            }
            if order.contains(k) && k != key {
                let b = order.index_of(k);
                let a = if b < i {
                    b
                } else {
                    b - 1
                };
                assert(rest[a] == k);
            }
        }
    } else {
        assert forall|k: K| #[trigger] rest.contains(k) <==> order.contains(k) && k != key by {}
    }
}

/// A use of a key leaves an order that starts with the key and holds the
/// key and every key that was there.
pub proof fn lemma_promote<K>(order: Seq<K>, key: K)
    requires
        order.no_duplicates(),
    ensures
        promote(order, key).no_duplicates(),
        promote(order, key)[0] == key,
        forall|k: K| #[trigger] promote(order, key).contains(k) <==> order.contains(k) || k == key,
        promote(order, key).len() == (if order.contains(key) {
            order.len()
        } else {
            order.len() + 1
        }),
{
    lemma_without(order, key);
    let rest = without(order, key);
    let moved = promote(order, key);
    assert forall|a: int| 1 <= a < moved.len() implies moved[a] == rest[a - 1] by {}
    assert forall|a: int, b: int| 0 <= a < moved.len() && 0 <= b < moved.len() && a != b implies moved[a]
        != moved[b] by {
        if a > 0 {
            assert(moved[a] == rest[a - 1]);
            assert(rest.contains(rest[a - 1]));
        }
        if b > 0 {
            assert(moved[b] == rest[b - 1]);
            assert(rest.contains(rest[b - 1]));
        }
    }
    assert forall|k: K| #[trigger] moved.contains(k) <==> order.contains(k) || k == key by {
        if moved.contains(k) {
            let a = moved.index_of(k);
            if a > 0 {
                assert(moved[a] == rest[a - 1]);
                assert(rest.contains(k));
            }
        }
        if k == key {
            assert(moved[0] == k);
        } else if order.contains(k) {
            assert(rest.contains(k));
            let a = rest.index_of(k);
            assert(moved[a + 1] == k);
        }
    }
}

/// Dropping the last key of an order leaves an order without that key.
pub proof fn lemma_drop_last<K>(order: Seq<K>)
    requires
        order.no_duplicates(),
        order.len() > 0,
    ensures
        order.drop_last().no_duplicates(),
        !order.drop_last().contains(order.last()),
        forall|k: K| #[trigger]
            order.drop_last().contains(k) <==> order.contains(k) && k != order.last(),
{
    let rest = order.drop_last();
    assert forall|k: K| #[trigger] rest.contains(k) <==> order.contains(k) && k != order.last() by {
        if rest.contains(k) {
            let a = rest.index_of(k);
            assert(order[a] == k);
        }
        if order.contains(k) && k != order.last() {
            let b = order.index_of(k);
            assert(rest[b] == k);
        }
    }
}

/// The first `limit` keys of `order`, or all of them if there are no more.
pub open spec fn newest<K>(order: Seq<K>, limit: nat) -> Seq<K> {
    if order.len() <= limit {
        order
    } else {
        order.take(limit as int)
    }
}

/// The order that a sequence of uses, oldest first, leaves behind: every key
/// once, at the place of its last use, the latest use in front.
pub open spec fn use_order<K>(uses: Seq<K>) -> Seq<K>
    decreases uses.len(),
{
    if uses.len() == 0 {
        Seq::empty()
    } else {
        promote(use_order(uses.drop_last()), uses.last())
    }
}

/// The first keys of an order form an order.
pub proof fn lemma_newest<K>(order: Seq<K>, limit: nat)
    requires
        order.no_duplicates(),
    ensures
        newest(order, limit).no_duplicates(),
        newest(order, limit).len() <= limit,
        newest(order, limit).len() <= order.len(),
        forall|i: int| 0 <= i < newest(order, limit).len() ==> newest(order, limit)[i] == order[i],
{
}

/// What a sequence of uses leaves behind is an order of exactly the keys
/// that were used.
pub proof fn lemma_use_order<K>(uses: Seq<K>)
    ensures
        use_order(uses).no_duplicates(),
        forall|k: K| #[trigger] use_order(uses).contains(k) <==> uses.contains(k),
    decreases uses.len(),
{
    if uses.len() > 0 {
        let earlier = uses.drop_last();
        lemma_use_order(earlier);
        lemma_promote(use_order(earlier), uses.last());
        assert forall|k: K| #[trigger] use_order(uses).contains(k) <==> uses.contains(k) by {
            if uses.contains(k) {
                let i = uses.index_of(k);
                if i < earlier.len() {
                    assert(earlier[i] == k);
                }
            }
            if earlier.contains(k) {
                let i = earlier.index_of(k);
                assert(uses[i] == k);
            }
            if k == uses.last() {
                assert(uses[uses.len() - 1] == k);
            }
        }
    }
}

/// Uses of keys that are all different leave them in reverse: the last one
/// used in front, the first one used at the end.
pub proof fn lemma_use_order_distinct<K>(uses: Seq<K>)
    requires
        uses.no_duplicates(),
    ensures
        use_order(uses) == uses.reverse(),
    decreases uses.len(),
{
    if uses.len() > 0 {
        let earlier = uses.drop_last();
        lemma_use_order_distinct(earlier);
        lemma_use_order(earlier);
        if earlier.contains(uses.last()) {
            let i = earlier.index_of(uses.last());
            assert(uses[i] == uses[uses.len() - 1]);
        }
        assert(use_order(uses) =~= uses.reverse());
    } else {
        assert(use_order(uses) =~= uses.reverse());
    }
}

/// Cutting an order down to its first `limit` keys before a use or after it
/// comes to the same, once the result is cut down again: a bounded order
/// never needs to remember more than `limit` keys.
pub proof fn lemma_newest_promote<K>(order: Seq<K>, key: K, limit: nat)
    requires
        order.no_duplicates(),
        limit >= 1,
    ensures
        newest(promote(newest(order, limit), key), limit) == newest(promote(order, key), limit),
{
    let cut = newest(order, limit);
    lemma_newest(order, limit);
    lemma_promote(order, key);
    lemma_promote(cut, key);
    lemma_without(order, key);
    lemma_without(cut, key);
    let lhs = newest(promote(cut, key), limit);
    let rhs = newest(promote(order, key), limit);
    if order.len() > limit {
        if cut.contains(key) {
            let j = cut.index_of(key);
            assert(order[j] == key);
            lemma_index_of_unique(order, j);
            assert(lhs.len() == limit);
            assert(rhs.len() == limit);
            assert forall|a: int| 0 <= a < limit implies lhs[a] == rhs[a] by {
                if a > 0 {
                    assert(lhs[a] == without(cut, key)[a - 1]);
                    assert(rhs[a] == without(order, key)[a - 1]);
                }
            }
            assert(lhs =~= rhs);
        } else {
            assert(promote(cut, key).len() == limit + 1);
            assert(lhs.len() == limit);
            if order.contains(key) {
                let j = order.index_of(key);
                if j < limit {
                    assert(cut[j] == key);
                }
                assert(j >= limit);
                assert(rhs.len() == limit);
                assert forall|a: int| 0 <= a < limit implies lhs[a] == rhs[a] by {
                    if a > 0 {
                        assert(lhs[a] == cut[a - 1]);
                        assert(rhs[a] == without(order, key)[a - 1]);
                    }
                }
            } else {
                assert(rhs.len() == limit);
                assert forall|a: int| 0 <= a < limit implies lhs[a] == rhs[a] by {
                    if a > 0 {
                        assert(lhs[a] == cut[a - 1]);
                        assert(rhs[a] == order[a - 1]);
                    }
                }
            }
            assert(lhs =~= rhs);
        }
    }
}

} // verus!
