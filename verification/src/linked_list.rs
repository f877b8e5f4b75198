//! A doubly linked list kept in a slot arena.
//!
//! Nodes live in a growable array and point at each other by slot index, so
//! linking and unlinking are constant-time pointer patches with no raw
//! addresses and no reference counting. A slot that loses its node goes to a
//! reuse pool and is handed out again by a later push.
//!
//! A slot index doubles as a *handle*: it names its node for as long as the
//! node stays in the list, whatever happens to the other nodes.

use vstd::prelude::*;
use crate::order::past_gap;

verus! {

/// One arena slot: a value (absent while the slot is in the reuse pool) and
/// the slots of the neighbours.
struct Node<T> {
    value: Option<T>,
    prev: Option<usize>,
    next: Option<usize>,
}

/// A doubly linked list over a slot arena.
pub struct DoublyLinkedList<T> {
    nodes: Vec<Node<T>>,
    head: Option<usize>,
    tail: Option<usize>,
    free: Vec<usize>,
    order: Ghost<Seq<usize>>,
}

/// The list under its shorter name.
pub type List<T> = DoublyLinkedList<T>;

/// The slot before position `i` of `order`, if any.
pub open spec fn slot_before(order: Seq<usize>, i: int) -> Option<usize> {
    if i == 0 {
        None
    } else {
        Some(order[i - 1])
    }
}

/// The slot after position `i` of `order`, if any.
pub open spec fn slot_after(order: Seq<usize>, i: int) -> Option<usize> {
    if i + 1 == order.len() {
        None
    } else {
        Some(order[i + 1])
    }
}

/// The first slot of `order`, if any.
pub open spec fn first_slot(order: Seq<usize>) -> Option<usize> {
    if order.len() == 0 {
        None
    } else {
        Some(order[0])
    }
}

/// The last slot of `order`, if any.
pub open spec fn last_slot(order: Seq<usize>) -> Option<usize> {
    if order.len() == 0 {
        None
    } else {
        Some(order[order.len() - 1])
    }
}

/// The slot at position `i` of `order` holds a value and points at its
/// neighbours in `order`.
spec fn linked_at<T>(nodes: Seq<Node<T>>, order: Seq<usize>, i: int) -> bool {
    &&& order[i] < nodes.len()
    &&& nodes[order[i] as int].value is Some
    &&& nodes[order[i] as int].prev == slot_before(order, i)
    &&& nodes[order[i] as int].next == slot_after(order, i)
}

/// The links of `nodes` spell out `order`.
spec fn linked<T>(nodes: Seq<Node<T>>, order: Seq<usize>) -> bool {
    forall|i: int| 0 <= i < order.len() ==> #[trigger] linked_at(nodes, order, i)
}

/// The pooled slot at position `j` of `free` exists and is empty.
spec fn pooled_at<T>(nodes: Seq<Node<T>>, free: Seq<usize>, j: int) -> bool {
    &&& free[j] < nodes.len()
    &&& nodes[free[j] as int].value is None
}

/// Every slot in `free` exists and is empty.
spec fn pooled<T>(nodes: Seq<Node<T>>, free: Seq<usize>) -> bool {
    forall|j: int| 0 <= j < free.len() ==> #[trigger] pooled_at(nodes, free, j)
}

/// `after` has the slots of `before` with the same values in them; only
/// links may differ.
spec fn same_values<T>(before: Seq<Node<T>>, after: Seq<Node<T>>) -> bool {
    &&& after.len() == before.len()
    &&& forall|s: int| 0 <= s < before.len() ==> (#[trigger] after[s]).value == before[s].value
}

/// The values in the slots of `order`, in that order.
spec fn values_in<T>(nodes: Seq<Node<T>>, order: Seq<usize>) -> Seq<T> {
    Seq::new(order.len(), |i: int| nodes[order[i] as int].value->0)
}

/// Patching links keeps the pool intact.
proof fn lemma_pooled_same_values<T>(before: Seq<Node<T>>, after: Seq<Node<T>>, free: Seq<usize>)
    requires
        pooled(before, free),
        same_values(before, after),
    ensures
        pooled(after, free),
{
    assert forall|j: int| 0 <= j < free.len() implies #[trigger] pooled_at(after, free, j) by {
        assert(pooled_at(before, free, j));
        assert(after[free[j] as int].value == before[free[j] as int].value);
    }
}

impl<T> View for DoublyLinkedList<T> {
    type V = Seq<T>;

    /// The values from head to tail.
    closed spec fn view(&self) -> Seq<T> {
        values_in(self.nodes@, self.order@)
    }
}

impl<T> DoublyLinkedList<T> {
    /// The handles of the nodes from head to tail: `handles()[i]` names the
    /// node that holds `self@[i]`.
    pub closed spec fn handles(&self) -> Seq<usize> {
        self.order@
    }

    /// The links spell out `handles()` from `head` to `tail`, and no slot is
    /// listed twice.
    spec fn chained(&self) -> bool {
        &&& self.order@.no_duplicates()
        &&& linked(self.nodes@, self.order@)
        &&& self.head == first_slot(self.order@)
        &&& self.tail == last_slot(self.order@)
    }

    /// The reuse pool holds empty slots, each once.
    spec fn pool_ok(&self) -> bool {
        &&& self.free@.no_duplicates()
        &&& pooled(self.nodes@, self.free@)
    }

    /// The representation invariant: the links spell out `handles()`, no
    /// slot is listed or pooled twice, and the arena has exactly the listed
    /// and the pooled slots.
    pub closed spec fn wf(&self) -> bool {
        &&& self.chained()
        &&& self.pool_ok()
        &&& self.order@.len() + self.free@.len() == self.nodes@.len()
    }

    /// The number of slots in the arena, those in the reuse pool included.
    pub closed spec fn arena_size(&self) -> nat {
        self.nodes@.len()
    }

    /// A well-formed list has one handle per value and no handle twice, and
    /// its arena has a slot for every value.
    pub proof fn lemma_handles(&self)
        requires
            self.wf(),
        ensures
            self.handles().len() == self@.len(),
            self.handles().no_duplicates(),
            self.arena_size() >= self@.len(),
    {
    }

    /// An empty list.
    pub fn new() -> (list: Self)
        ensures
            list.wf(),
            list@ == Seq::<T>::empty(),
            list.handles() == Seq::<usize>::empty(),
            list.arena_size() == 0,
    {
        let list = DoublyLinkedList {
            nodes: Vec::new(),
            head: None,
            tail: None,
            free: Vec::new(),
            order: Ghost(Seq::empty()),
        };
        assert(list@ =~= Seq::<T>::empty());
        list
    }

    /// The number of values in the list.
    pub fn len(&self) -> (n: usize)
        requires
            self.wf(),
        ensures
            n == self@.len(),
    {
        self.nodes.len() - self.free.len()
    }

    /// The number of slots in the arena. It grows only when a value is
    /// added while every slot is taken.
    pub fn arena_len(&self) -> (n: usize)
        ensures
            n == self.arena_size(),
    {
        self.nodes.len()
    }

    /// Whether the list holds no value.
    pub fn is_empty(&self) -> (r: bool)
        requires
            self.wf(),
        ensures
            r == (self@.len() == 0),
    {
        self.head.is_none()
    }

    /// The handle of the first node, if any.
    pub fn front(&self) -> (h: Option<usize>)
        requires
            self.wf(),
        ensures
            h == first_slot(self.handles()),
    {
        self.head
    }

    /// The handle of the last node, if any.
    pub fn back(&self) -> (h: Option<usize>)
        requires
            self.wf(),
        ensures
            h == last_slot(self.handles()),
    {
        self.tail
    }

    /// The value of the node that `handle` names.
    pub fn get(&self, handle: usize) -> (value: &T)
        requires
            self.wf(),
            self.handles().contains(handle),
        ensures
            *value == self@[self.handles().index_of(handle)],
    {
        let ghost i = self.order@.index_of(handle);
        assert(linked_at(self.nodes@, self.order@, i));
        match &self.nodes[handle].value {
            Some(value) => value,
            None => {
                proof {
                    assert(false);
                }
                vstd::pervasive::unreached()
            },
        }
    }

    /// Puts `value` into a slot of its own, linked to nothing, and returns
    /// the slot: one from the reuse pool if there is any, else a new one.
    fn allocate(&mut self, value: T) -> (slot: usize)
        requires
            old(self).pool_ok(),
        ensures
            final(self).pool_ok(),
            slot < final(self).nodes@.len(),
            final(self).nodes@[slot as int].value == Some(value),
            final(self).nodes@.len() == (if old(self).free@.len() > 0 {
                old(self).nodes@.len()
            } else {
                old(self).nodes@.len() + 1
            }),
            forall|s: int|
                0 <= s < old(self).nodes@.len() && s != slot ==> final(self).nodes@[s] == old(
                    self
                ).nodes@[s],
            slot < old(self).nodes@.len() ==> old(self).nodes@[slot as int].value is None,
            final(self).free@.len() == (if old(self).free@.len() > 0 {
                old(self).free@.len() - 1
            } else {
                0
            }),
            final(self).head == old(self).head,
            final(self).tail == old(self).tail,
            final(self).order == old(self).order,
    {
        let node = Node { value: Some(value), prev: None, next: None };
        let ghost pool = self.free@;
        let ghost arena = self.nodes@;
        match self.free.pop() {
            Some(slot) => {
                assert(pooled_at(arena, pool, pool.len() - 1));
                self.nodes[slot] = node;
                assert forall|j: int| 0 <= j < self.free@.len() implies #[trigger] pooled_at(
                    self.nodes@,
                    self.free@,
                    j,
                ) by {
                    assert(pooled_at(arena, pool, j));
                    assert(pool[j] != pool[pool.len() - 1]);
                }
                slot
            },
            None => {
                let slot = self.nodes.len();
                self.nodes.push(node);
                assert(self.free@ =~= Seq::<usize>::empty());
                slot
            },
        }
    }

    /// Empties the slot `slot`, hands its value out and puts the slot into
    /// the reuse pool.
    fn release(&mut self, slot: usize) -> (value: T)
        requires
            old(self).pool_ok(),
            slot < old(self).nodes@.len(),
            old(self).nodes@[slot as int].value is Some,
        ensures
            final(self).pool_ok(),
            Some(value) == old(self).nodes@[slot as int].value,
            final(self).nodes@.len() == old(self).nodes@.len(),
            forall|s: int|
                0 <= s < old(self).nodes@.len() && s != slot ==> final(self).nodes@[s] == old(
                    self
                ).nodes@[s],
            final(self).free@.len() == old(self).free@.len() + 1,
            final(self).head == old(self).head,
            final(self).tail == old(self).tail,
            final(self).order == old(self).order,
    {
        let ghost pool = self.free@;
        let ghost arena = self.nodes@;
        let taken = self.nodes[slot].value.take();
        self.free.push(slot);
        proof {
            assert forall|j: int| 0 <= j < self.free@.len() implies #[trigger] pooled_at(
                self.nodes@,
                self.free@,
                j,
            ) by {
                if j < pool.len() {
                    assert(pooled_at(arena, pool, j));
                }
            }
            assert forall|a: int, b: int|
                0 <= a < self.free@.len() && 0 <= b < self.free@.len() && a != b implies self.free@[a]
                != self.free@[b] by {
                if a < pool.len() {
                    assert(pooled_at(arena, pool, a));
                }
                if b < pool.len() {
                    assert(pooled_at(arena, pool, b));
                }
            }
        }
        match taken {
            Some(value) => value,
            None => {
                proof {
                    assert(false);
                }
                vstd::pervasive::unreached()
            },
        }
    }

    /// Links the unlisted slot `slot` in before the first node.
    fn attach_front(&mut self, slot: usize)
        requires
            old(self).chained(),
            slot < old(self).nodes@.len(),
            old(self).nodes@[slot as int].value is Some,
            !old(self).order@.contains(slot),
        ensures
            final(self).chained(),
            final(self).order@ == seq![slot] + old(self).order@,
            same_values(old(self).nodes@, final(self).nodes@),
            final(self).free == old(self).free,
    {
        let ghost before = self.order@;
        let ghost arena = self.nodes@;
        let ghost after = seq![slot] + before;
        let old_head = self.head;
        self.nodes[slot].prev = None;
        self.nodes[slot].next = old_head;
        match old_head {
            Some(h) => {
                assert(linked_at(arena, before, 0));
                self.nodes[h].prev = Some(slot);
            },
            None => {
                self.tail = Some(slot);
            },
        }
        self.head = Some(slot);
        proof {
            self.order@ = after;
            assert forall|i: int| 0 <= i < after.len() implies #[trigger] linked_at(
                self.nodes@,
                after,
                i,
            ) by {
                if i > 0 {
                    assert(linked_at(arena, before, i - 1));
                    assert(after[i] == before[i - 1]);
                    assert(before[i - 1] != slot);
                    if i > 1 {
                        assert(after[i - 1] == before[i - 2]);
                        assert(before[i - 1] != before[0]);
                    }
                    if i + 1 < after.len() {
                        assert(after[i + 1] == before[i]);
                    }
                }
            }
            assert forall|a: int, b: int|
                0 <= a < after.len() && 0 <= b < after.len() && a != b implies after[a]
                != after[b] by {
                if a > 0 {
                    assert(after[a] == before[a - 1]);
                }
                if b > 0 {
                    assert(after[b] == before[b - 1]);
                }
            }
        }
    }

    /// Links the unlisted slot `slot` in after the last node.
    fn attach_back(&mut self, slot: usize)
        requires
            old(self).chained(),
            slot < old(self).nodes@.len(),
            old(self).nodes@[slot as int].value is Some,
            !old(self).order@.contains(slot),
        ensures
            final(self).chained(),
            final(self).order@ == old(self).order@.push(slot),
            same_values(old(self).nodes@, final(self).nodes@),
            final(self).free == old(self).free,
    {
        let ghost before = self.order@;
        let ghost arena = self.nodes@;
        let ghost after = before.push(slot);
        let old_tail = self.tail;
        self.nodes[slot].prev = old_tail;
        self.nodes[slot].next = None;
        match old_tail {
            Some(t) => {
                assert(linked_at(arena, before, before.len() - 1));
                self.nodes[t].next = Some(slot);
            },
            None => {
                self.head = Some(slot);
            },
        }
        self.tail = Some(slot);
        proof {
            self.order@ = after;
            assert forall|i: int| 0 <= i < after.len() implies #[trigger] linked_at(
                self.nodes@,
                after,
                i,
            ) by {
                if i < before.len() {
                    assert(linked_at(arena, before, i));
                    assert(after[i] == before[i]);
                    assert(before[i] != slot);
                    if i > 0 {
                        assert(after[i - 1] == before[i - 1]);
                    }
                    if i + 1 < before.len() {
                        assert(after[i + 1] == before[i + 1]);
                        assert(before[i] != before[before.len() - 1]);
                    }
                }
            }
            assert forall|a: int, b: int|
                0 <= a < after.len() && 0 <= b < after.len() && a != b implies after[a]
                != after[b] by {
                if a < before.len() {
                    assert(after[a] == before[a]);
                }
                if b < before.len() {
                    assert(after[b] == before[b]);
                }
            }
        }
    }

    /// Unlinks the listed slot `slot`: its neighbours are joined to each
    /// other, and the slot keeps its value.
    fn detach(&mut self, slot: usize)
        requires
            old(self).chained(),
            old(self).order@.contains(slot),
        ensures
            final(self).chained(),
            final(self).order@ == old(self).order@.remove(old(self).order@.index_of(slot)),
            !final(self).order@.contains(slot),
            same_values(old(self).nodes@, final(self).nodes@),
            final(self).free == old(self).free,
    {
        let ghost before = self.order@;
        let ghost arena = self.nodes@;
        let ghost i = before.index_of(slot);
        let ghost after = before.remove(i);
        assert(linked_at(arena, before, i));
        let prev = self.nodes[slot].prev;
        let next = self.nodes[slot].next;
        match prev {
            Some(p) => {
                assert(linked_at(arena, before, i - 1));
                self.nodes[p].next = next;
            },
            None => {
                self.head = next;
            },
        }
        match next {
            Some(n) => {
                assert(linked_at(arena, before, i + 1));
                self.nodes[n].prev = prev;
            },
            None => {
                self.tail = prev;
            },
        }
        proof {
            self.order@ = after;
            assert forall|k: int| 0 <= k < after.len() implies #[trigger] linked_at(
                self.nodes@,
                after,
                k,
            ) by {
                let m = past_gap(k, i);
                assert(linked_at(arena, before, m));
                assert(after[k] == before[m]);
                if k > 0 {
                    assert(after[k - 1] == before[past_gap(k - 1, i)]);
                }
                if k + 1 < after.len() {
                    assert(after[k + 1] == before[past_gap(k + 1, i)]);
                }
                if i > 0 {
                    assert(before[m] == before[i - 1] <==> m == i - 1);
                }
                if i + 1 < before.len() {
                    assert(before[m] == before[i + 1] <==> m == i + 1);
                }
            }
            assert forall|a: int, b: int|
                0 <= a < after.len() && 0 <= b < after.len() && a != b implies after[a]
                != after[b] by {
                assert(after[a] == before[past_gap(a, i)]);
                assert(after[b] == before[past_gap(b, i)]);
            }
            assert forall|a: int| 0 <= a < after.len() implies after[a] != slot by {
                assert(after[a] == before[past_gap(a, i)]);
            }
        }
    }

    /// Adds `value` before the first node. The new node gets a handle that
    /// no listed node has; the other handles stay as they are.
    pub fn push_front(&mut self, value: T)
        requires
            old(self).wf(),
        ensures
            final(self).wf(),
            final(self)@ == seq![value] + old(self)@,
            final(self).handles().len() == old(self).handles().len() + 1,
            final(self).handles().drop_first() == old(self).handles(),
            !old(self).handles().contains(final(self).handles()[0]),
            final(self).arena_size() == (if old(self).arena_size() > old(self)@.len() {
                old(self).arena_size()
            } else {
                old(self).arena_size() + 1
            }),
    {
        let ghost before = self.order@;
        let ghost arena = self.nodes@;
        let slot = self.allocate(value);
        let ghost filled = self.nodes@;
        proof {
            assert forall|i: int| 0 <= i < before.len() implies #[trigger] linked_at(
                filled,
                before,
                i,
            ) by {
                assert(linked_at(arena, before, i));
            }
            assert forall|i: int| 0 <= i < before.len() implies before[i] != slot by {
                assert(linked_at(arena, before, i));
            }
        }
        self.attach_front(slot);
        proof {
            lemma_pooled_same_values(filled, self.nodes@, self.free@);
            assert(self.order@.drop_first() =~= before);
            let wanted = seq![value] + old(self)@;
            assert forall|i: int| 0 <= i < self.order@.len() implies self@[i] == wanted[i] by {
                if i > 0 {
                    assert(linked_at(arena, before, i - 1));
                    assert(self.order@[i] == before[i - 1]);
                }
            }
            assert(self@ =~= seq![value] + old(self)@);
        }
    }

    /// Adds `value` after the last node. The new node gets a handle that no
    /// listed node has; the other handles stay as they are.
    pub fn push_back(&mut self, value: T)
        requires
            old(self).wf(),
        ensures
            final(self).wf(),
            final(self)@ == old(self)@.push(value),
            final(self).handles().len() == old(self).handles().len() + 1,
            final(self).handles().drop_last() == old(self).handles(),
            !old(self).handles().contains(final(self).handles().last()),
            final(self).arena_size() == (if old(self).arena_size() > old(self)@.len() {
                old(self).arena_size()
            } else {
                old(self).arena_size() + 1
            }),
    {
        let ghost before = self.order@;
        let ghost arena = self.nodes@;
        let slot = self.allocate(value);
        let ghost filled = self.nodes@;
        proof {
            assert forall|i: int| 0 <= i < before.len() implies #[trigger] linked_at(
                filled,
                before,
                i,
            ) by {
                assert(linked_at(arena, before, i));
            }
            assert forall|i: int| 0 <= i < before.len() implies before[i] != slot by {
                assert(linked_at(arena, before, i));
            }
        }
        self.attach_back(slot);
        proof {
            lemma_pooled_same_values(filled, self.nodes@, self.free@);
            assert(self.order@.drop_last() =~= before);
            assert forall|i: int| 0 <= i < self.order@.len() implies self@[i] == old(self)@.push(
                value,
            )[i] by {
                if i < before.len() {
                    assert(linked_at(arena, before, i));
                    assert(self.order@[i] == before[i]);
                }
            }
            assert(self@ =~= old(self)@.push(value));
        }
    }

    /// Takes the node that `handle` names out of the list and returns its
    /// value. The slot goes to the reuse pool; the other handles stay valid.
    pub fn remove(&mut self, handle: usize) -> (value: T)
        requires
            old(self).wf(),
            old(self).handles().contains(handle),
        ensures
            final(self).wf(),
            value == old(self)@[old(self).handles().index_of(handle)],
            final(self)@ == old(self)@.remove(old(self).handles().index_of(handle)),
            final(self).handles() == old(self).handles().remove(
                old(self).handles().index_of(handle),
            ),
            !final(self).handles().contains(handle),
            final(self).arena_size() == old(self).arena_size(),
    {
        let ghost before = self.order@;
        let ghost arena = self.nodes@;
        let ghost i = before.index_of(handle);
        assert(linked_at(arena, before, i));
        self.detach(handle);
        let ghost patched = self.nodes@;
        let ghost after = self.order@;
        proof {
            lemma_pooled_same_values(arena, patched, self.free@);
        }
        let value = self.release(handle);
        proof {
            assert forall|k: int| 0 <= k < after.len() implies #[trigger] linked_at(
                self.nodes@,
                after,
                k,
            ) by {
                assert(linked_at(patched, after, k));
            }
            let wanted = old(self)@.remove(i);
            assert forall|k: int| 0 <= k < after.len() implies self@[k] == wanted[k] by {
                assert(linked_at(patched, after, k));
                assert(after[k] == before[past_gap(k, i)]);
            }
            assert(self@ =~= old(self)@.remove(i));
        }
        value
    }

    /// Moves the node that `handle` names before the first node. Every
    /// handle, this one too, goes on naming the node it named.
    pub fn move_to_front(&mut self, handle: usize)
        requires
            old(self).wf(),
            old(self).handles().contains(handle),
        ensures
            final(self).wf(),
            final(self)@ == seq![old(self)@[old(self).handles().index_of(handle)]] + old(
                self
            )@.remove(old(self).handles().index_of(handle)),
            final(self).handles() == seq![handle] + old(self).handles().remove(
                old(self).handles().index_of(handle),
            ),
            final(self).arena_size() == old(self).arena_size(),
    {
        let ghost before = self.order@;
        let ghost arena = self.nodes@;
        let ghost i = before.index_of(handle);
        assert(linked_at(arena, before, i));
        self.detach(handle);
        let ghost patched = self.nodes@;
        let ghost rest = self.order@;
        self.attach_front(handle);
        proof {
            lemma_pooled_same_values(arena, patched, self.free@);
            lemma_pooled_same_values(patched, self.nodes@, self.free@);
            assert forall|k: int| 0 <= k < self.order@.len() implies self@[k] == (seq![
                old(self)@[i],
            ] + old(self)@.remove(i))[k] by {
                if k > 0 {
                    assert(self.order@[k] == rest[k - 1]);
                    assert(rest[k - 1] == before[past_gap(k - 1, i)]);
                    assert(linked_at(arena, before, past_gap(k - 1, i)));
                }
            }
            assert(self@ =~= seq![old(self)@[i]] + old(self)@.remove(i));
        }
    }

    /// Removes the first node and returns its value; `None` on an empty list.
    pub fn pop_front(&mut self) -> (value: Option<T>)
        requires
            old(self).wf(),
        ensures
            final(self).wf(),
            old(self)@.len() == 0 ==> {
                &&& value is None
                &&& final(self)@ == old(self)@
                &&& final(self).handles() == old(self).handles()
            },
            old(self)@.len() > 0 ==> {
                &&& value == Some(old(self)@[0])
                &&& final(self)@ == old(self)@.drop_first()
                &&& final(self).handles() == old(self).handles().drop_first()
            },
            final(self).arena_size() == old(self).arena_size(),
    {
        match self.head {
            Some(h) => {
                proof {
                    let order = self.order@;
                    assert(order[0] == h);
                    assert(order.index_of(h) == 0);
                    assert(order.remove(0) =~= order.drop_first());
                    assert(self@.remove(0) =~= self@.drop_first());
                }
                Some(self.remove(h))
            },
            None => None,
        }
    }

    /// Removes the last node and returns its value; `None` on an empty list.
    pub fn pop_back(&mut self) -> (value: Option<T>)
        requires
            old(self).wf(),
        ensures
            final(self).wf(),
            old(self)@.len() == 0 ==> {
                &&& value is None
                &&& final(self)@ == old(self)@
                &&& final(self).handles() == old(self).handles()
            },
            old(self)@.len() > 0 ==> {
                &&& value == Some(old(self)@.last())
                &&& final(self)@ == old(self)@.drop_last()
                &&& final(self).handles() == old(self).handles().drop_last()
            },
            final(self).arena_size() == old(self).arena_size(),
    {
        match self.tail {
            Some(t) => {
                proof {
                    let order = self.order@;
                    let last = order.len() - 1;
                    assert(order[last] == t);
                    assert(order.index_of(t) == last);
                    assert(order.remove(last) =~= order.drop_last());
                    assert(self@.remove(last) =~= self@.drop_last());
                }
                Some(self.remove(t))
            },
            None => None,
        }
    }

    /// Removes every node. The arena starts over, so all handles end here.
    pub fn clear(&mut self)
        ensures
            final(self).wf(),
            final(self)@ == Seq::<T>::empty(),
            final(self).handles() == Seq::<usize>::empty(),
            final(self).arena_size() == 0,
    {
        self.nodes.clear();
        self.free.clear();
        self.head = None;
        self.tail = None;
        proof {
            self.order@ = Seq::empty();
            assert(self@ =~= Seq::<T>::empty());
        }
    }

    /// The handles from head to tail, found by walking the links.
    pub fn slots(&self) -> (walk: Vec<usize>)
        requires
            self.wf(),
        ensures
            walk@ == self.handles(),
    {
        let mut walk: Vec<usize> = Vec::new();
        let mut cur = self.head;
        let ghost mut at: int = 0;
        while cur.is_some()
            invariant
                self.wf(),
                0 <= at <= self.order@.len(),
                cur == (if at == self.order@.len() {
                    None
                } else {
                    Some(self.order@[at])
                }),
                walk@ == self.order@.take(at),
            decreases self.order@.len() - at,
        {
            let slot = cur.unwrap();
            assert(linked_at(self.nodes@, self.order@, at));
            walk.push(slot);
            cur = self.nodes[slot].next;
            proof {
                assert(self.order@.take(at + 1) =~= self.order@.take(at).push(slot));
                at = at + 1;
            }
        }
        assert(self.order@.take(at) =~= self.order@);
        walk
    }

    /// Copies of the values from head to tail.
    pub fn iter(&self) -> (values: Vec<T>) where T: Clone
        requires
            self.wf(),
        ensures
            values@.len() == self@.len(),
            forall|i: int| 0 <= i < self@.len() ==> cloned(self@[i], #[trigger] values@[i]),
    {
        let mut values: Vec<T> = Vec::new();
        let mut cur = self.head;
        let ghost mut at: int = 0;
        while cur.is_some()
            invariant
                self.wf(),
                0 <= at <= self.order@.len(),
                cur == (if at == self.order@.len() {
                    None
                } else {
                    Some(self.order@[at])
                }),
                values@.len() == at,
                forall|i: int| 0 <= i < at ==> cloned(self@[i], #[trigger] values@[i]),
            decreases self.order@.len() - at,
        {
            let slot = cur.unwrap();
            assert(linked_at(self.nodes@, self.order@, at));
            match &self.nodes[slot].value {
                Some(value) => {
                    let copy = value.clone();
                    assert(cloned(self@[at], copy));
                    values.push(copy);
                },
                None => {
                    assert(false);
                },
            }
            cur = self.nodes[slot].next;
            proof {
                at = at + 1;
            }
        }
        values
    }
}

} // verus!
