//! The intrusive FIFO queue.
//!
//! An [`IdQueue`] chains elements that live in a caller-owned
//! [`Arena`] through the next-slot found `offset` cells past each
//! element's start address. It owns no element and allocates nothing:
//! `add` and `get` only rewire next-slots and the queue's own `first`
//! and `last` references.
//!
//! The queue's view is the sequence of linked element addresses, front
//! first. Because the chain lives in the caller's arena, every operation
//! that touches the arena takes it as an argument, and the queue is
//! well-formed only relative to it: [`IdQueue::wf`] says that `first`,
//! `last` and the next-slots in the arena describe exactly the chain
//! that the view lists.

use vstd::prelude::*;
use crate::arena::Arena;
use crate::ptr_math;

verus! {

/// An intrusive FIFO queue over elements in a caller-owned arena.
pub struct IdQueue {
    first: usize,
    last: usize,
    offset: usize,
    elems: Ghost<Seq<usize>>,
}

impl View for IdQueue {
    type V = Seq<usize>;

    /// The addresses of the linked elements, front of the queue first.
    closed spec fn view(&self) -> Seq<usize> {
        self.elems@
    }
}

impl IdQueue {
    /// The fixed next-slot offset this queue was constructed with.
    pub closed spec fn off(&self) -> usize {
        self.offset
    }

    /// The head reference: the address of the front element, or the null
    /// sentinel when the queue is empty.
    pub closed spec fn head(&self) -> usize {
        self.first
    }

    /// The tail reference: the address of the back element, or the null
    /// sentinel when the queue is empty.
    pub closed spec fn tail(&self) -> usize {
        self.last
    }

    /// Shape of the queue's own references: `first` and `last` are null
    /// exactly when the view is empty, and otherwise name its front and
    /// back; the linked addresses are non-null and pairwise distinct.
    pub open spec fn wf_shape(&self) -> bool {
        &&& if self@.len() == 0 {
                self.head() == 0 && self.tail() == 0
            } else {
                self.head() == self@[0] && self.tail() == self@.last()
            }
        &&& forall|i: int| 0 <= i < self@.len() ==> #[trigger] self@[i] != 0
        &&& self@.no_duplicates()
    }

    /// Well-formedness relative to an arena: the shape above, every
    /// linked element's next-slot lies inside the arena, consecutive
    /// elements are chained through those slots, and the back element's
    /// next-slot holds the null sentinel.
    pub open spec fn wf(&self, arena: Seq<usize>) -> bool {
        &&& self.wf_shape()
        &&& forall|i: int| 0 <= i < self@.len() ==> #[trigger] self@[i] + self.off() < arena.len()
        &&& forall|i: int|
                0 <= i < self@.len() - 1 ==> arena[#[trigger] self@[i] + self.off()] == self@[i
                    + 1]
        &&& self@.len() > 0 ==> arena[self@.last() + self.off()] == 0
    }

    /// Constructs an empty queue bound to the given next-slot offset.
    /// A fresh queue is well-formed relative to every arena.
    pub fn new(offset: usize) -> (r: IdQueue)
        ensures
            r@ =~= Seq::<usize>::empty(),
            r.off() == offset,
            r.head() == 0,
            r.tail() == 0,
            forall|arena: Seq<usize>| #[trigger] r.wf(arena),
    {
        IdQueue { first: 0, last: 0, offset, elems: Ghost(Seq::empty()) }
    }

    /// Enqueues the element at address `element` as the new tail.
    ///
    /// The caller must hand in an element that is non-null, whose
    /// next-slot lies inside the arena, and that is not already linked
    /// into this queue. The element's next-slot is nulled first (any
    /// stale link is truncated), the previous tail — if any — is wired
    /// to it, and no other arena cell is touched.
    pub fn add(&mut self, arena: &mut Arena, element: usize)
        requires
            old(self).wf(old(arena)@),
            element != 0,
            element + old(self).off() < old(arena)@.len(),
            !old(self)@.contains(element),
        ensures
            final(self).wf(final(arena)@),
            final(self)@ == old(self)@.push(element),
            final(self).off() == old(self).off(),
            final(self).tail() == element,
            final(self).head() == if old(self)@.len() == 0 {
                element
            } else {
                old(self).head()
            },
            final(arena)@.len() == old(arena)@.len(),
            old(self)@.len() == 0 ==> final(arena)@ == old(arena)@.update(
                element + old(self).off(),
                0,
            ),
            old(self)@.len() > 0 ==> final(arena)@ == old(arena)@.update(
                element + old(self).off(),
                0,
            ).update(old(self).tail() + old(self).off(), element),
            old(self)@.len() > 0 ==> final(arena)@[old(self).tail() + old(self).off()]
                == element,
    {
        ptr_math::write_next(arena, element, self.offset, 0);
        if self.last != 0 {
            proof {
                assert(self@.len() > 0);
                assert(self@[self@.len() - 1] != 0);
                assert(self@[self@.len() - 1] + self.off() < old(arena)@.len());
            }
            ptr_math::write_next(arena, self.last, self.offset, element);
        } else {
            proof {
                assert(self@.len() == 0);
            }
            self.first = element;
        }
        self.last = element;
        proof {
            let ghost prev = self.elems@;
            assert forall|i: int| 0 <= i < prev.len() implies prev[i] != element by {
                assert(prev.contains(element) == old(self)@.contains(element));
            }
        }
        self.elems = Ghost(self.elems@.push(element));
        proof {
            let ghost old_elems = old(self)@;
            let ghost new_elems = self.elems@;
            assert(new_elems =~= old_elems.push(element));
            assert forall|i: int| 0 <= i < new_elems.len() implies #[trigger] new_elems[i]
                != 0 by {
                if i < old_elems.len() {
                    assert(old_elems[i] != 0);
                }
            }
            assert forall|i: int| 0 <= i < new_elems.len() implies #[trigger] new_elems[i]
                + self.off() < arena@.len() by {
                if i < old_elems.len() {
                    assert(old_elems[i] + self.off() < old(arena)@.len());
                }
            }
            assert forall|i: int| 0 <= i < new_elems.len() - 1 implies arena@[#[trigger] new_elems[i]
                + self.off()] == new_elems[i + 1] by {
                if i < old_elems.len() - 1 {
                    assert(old_elems[i] != element);
                    assert(old_elems[i] != old_elems[old_elems.len() - 1]);
                    assert(old(arena)@[old_elems[i] + self.off()] == old_elems[i + 1]);
                } else {
                    assert(i == old_elems.len() - 1);
                    assert(new_elems[i] == old_elems[old_elems.len() - 1]);
                }
            }
        }
    }

    /// Dequeues the front element and returns its address, or returns
    /// the null sentinel — with no other effect — when the queue is
    /// empty.
    ///
    /// A dequeued element leaves the queue entirely: the head advances
    /// past it, the tail is cleared if it was the last element, and its
    /// own next-slot is nulled, so it never reads as still linked.
    pub fn get(&mut self, arena: &mut Arena) -> (r: usize)
        requires
            old(self).wf(old(arena)@),
        ensures
            final(self).wf(final(arena)@),
            final(self).off() == old(self).off(),
            final(arena)@.len() == old(arena)@.len(),
            old(self)@.len() == 0 ==> r == 0 && final(self)@ == old(self)@ && final(self).head()
                == old(self).head() && final(self).tail() == old(self).tail() && final(arena)@
                == old(arena)@,
            old(self)@.len() > 0 ==> r == old(self)@[0] && r != 0 && final(self)@ == old(
                self,
            )@.drop_first() && !final(self)@.contains(r) && final(arena)@ == old(arena)@.update(
                r + old(self).off(),
                0,
            ) && final(arena)@[r + old(self).off()] == 0 && final(self).tail() == if old(
                self,
            )@.len() == 1 {
                0
            } else {
                old(self).tail()
            },
    {
        let element = self.first;
        if element != 0 {
            proof {
                assert(self@.len() > 0);
                assert(self@[0] == element);
                assert(self@[0] + self.off() < arena@.len());
            }
            self.first = ptr_math::read_next(arena, element, self.offset);
            if self.last == element {
                proof {
                    assert(self@.len() == 1) by {
                        if self@.len() > 1 {
                            assert(self@[0] != self@[self@.len() - 1]);
                        }
                    }
                }
                self.last = 0;
            } else {
                proof {
                    assert(self@.len() > 1);
                }
            }
            ptr_math::write_next(arena, element, self.offset, 0);
            self.elems = Ghost(self.elems@.drop_first());
            proof {
                let ghost old_elems = old(self)@;
                let ghost new_elems = self.elems@;
                assert(new_elems =~= old_elems.drop_first());
                assert forall|i: int| 0 <= i < new_elems.len() implies #[trigger] new_elems[i]
                    != element by {
                    assert(old_elems[0] != old_elems[i + 1]);
                }
                assert forall|i: int| 0 <= i < new_elems.len() - 1 implies arena@[
                    #[trigger] new_elems[i] + self.off()] == new_elems[i + 1] by {
                    assert(old(arena)@[old_elems[i + 1] + self.off()] == old_elems[i + 2]);
                }
                assert forall|i: int| 0 <= i < new_elems.len() implies #[trigger] new_elems[i]
                    + self.off() < arena@.len() by {
                    assert(old_elems[i + 1] + self.off() < old(arena)@.len());
                }
                if new_elems.len() > 0 {
                    assert(arena@[new_elems.last() + self.off()] == old(arena)@[old_elems.last()
                        + self.off()]);
                }
            }
        }
        element
    }

    /// True exactly when both the head and the tail reference are null;
    /// for a well-shaped queue, exactly when nothing is linked.
    pub fn is_empty(&self) -> (r: bool)
        ensures
            r == (self.head() == 0 && self.tail() == 0),
            self.wf_shape() ==> r == (self@.len() == 0),
    {
        self.last == 0 && self.first == 0
    }

    /// The head reference: the address of the front element, or the
    /// null sentinel when the queue is empty.
    pub fn first_addr(&self) -> (r: usize)
        ensures
            r == self.head(),
    {
        self.first
    }

    /// The tail reference: the address of the back element, or the null
    /// sentinel when the queue is empty.
    pub fn last_addr(&self) -> (r: usize)
        ensures
            r == self.tail(),
    {
        self.last
    }
}

/// The queue contents reached by enqueuing the elements of `s` in order
/// into an initially empty queue: by `add`'s contract, each step pushes
/// one element at the back of the view.
pub open spec fn enqueue_all(s: Seq<usize>) -> Seq<usize>
    decreases s.len(),
{
    if s.len() == 0 {
        Seq::empty()
    } else {
        enqueue_all(s.drop_last()).push(s.last())
    }
}

/// Law — FIFO ordering, enqueue half: adding `e1, ..., en` in that order
/// to an empty queue leaves the queue holding exactly `e1, ..., en`,
/// front first.
pub proof fn lemma_adds_in_order(s: Seq<usize>)
    ensures
        enqueue_all(s) =~= s,
    decreases s.len(),
{
    if s.len() > 0 {
        lemma_adds_in_order(s.drop_last());
    }
}

/// Law — FIFO ordering, dequeue half: if a queue holds `s` (front
/// first), then by `get`'s contract its contents after `i` dequeues are
/// `s.skip(i)`, so the `i`-th dequeue (counting from zero) returns
/// `s[i]`: elements come out in exactly the order they went in.
pub proof fn lemma_fifo_order(s: Seq<usize>, i: int)
    requires
        0 <= i < s.len(),
    ensures
        s.skip(i).len() == s.len() - i,
        s.skip(i)[0] == s[i],
        s.skip(i).drop_first() =~= s.skip(i + 1),
{
}

/// Law — single round trip: enqueuing one element `e` into an empty
/// queue and then dequeuing returns exactly `e` (the front of the
/// one-element contents) and leaves the queue empty again.
pub proof fn lemma_single_round_trip(q: Seq<usize>, e: usize)
    requires
        q.len() == 0,
    ensures
        q.push(e)[0] == e,
        q.push(e).drop_first() =~= Seq::<usize>::empty(),
{
}

/// Law — drain to empty: a queue holding `k` elements is empty after
/// `k` dequeues (its contents are `s.skip(k)`, which holds nothing), and
/// by `get`'s contract a further dequeue returns the null sentinel with
/// no other effect.
pub proof fn lemma_drain_to_empty(s: Seq<usize>)
    ensures
        s.skip(s.len() as int) =~= Seq::<usize>::empty(),
{
}

} // verus!
