//! Lazy, single-pass sequences over the positions of set bits.
//!
//! Each sequence borrows its sources and is described by the positions it
//! has still to yield, `remaining()`: `next` hands out the first of them and
//! leaves the rest.

use vstd::prelude::*;
use crate::bits::{bit, combined, lists, ones_in, ones_of, Operation};
use crate::bits::{lemma_ones_clear, lemma_ones_first, lemma_ones_skip};
use crate::bvector::{subset, superset, BVector};

verus! {

/// An iterator producing the indices of the set bit in a set.
///
/// This struct is created by the [`BVector::ones`] method.
pub struct Ones<'a> {
    current_bit_idx: Option<u32>,
    bv: &'a BVector,
}

/// An iterator producing elements in the difference of two sets.
///
/// This struct is created by the [`BVector::difference`] method.
pub struct Difference<'a> {
    iter: Ones<'a>,
    other: &'a BVector,
}

/// An iterator producing elements in the intersection of two sets.
///
/// This struct is created by the [`BVector::intersection`] method.
pub struct Intersection<'a> {
    iter: Ones<'a>,
    other: &'a BVector,
}

/// An iterator producing elements in the union of two sets.
///
/// This struct is created by the [`BVector::union`] method.
pub struct Union<'a> {
    first: Ones<'a>,
    second: Difference<'a>,
}

/// An iterator producing elements in the symmetric difference of two sets.
///
/// This struct is created by the [`BVector::symmetric_difference`] method.
pub struct SymmetricDifference<'a> {
    first: Difference<'a>,
    second: Difference<'a>,
}

/// What one step of a sequence does: it hands out the first of the
/// positions `before` and leaves the others, or hands out nothing where
/// none is left.
pub open spec fn stepped(before: Seq<int>, item: Option<usize>, after: Seq<int>) -> bool {
    if before.len() == 0 {
        item is None && after.len() == 0
    } else {
        item matches Some(p) && p == before[0] && after == before.skip(1)
    }
}

/// The positions in `[lo, ..)` of the set bits of `a` whose bit in `b` is
/// set (`op` is `And`) or cleared (`op` is `Sub`).
pub open spec fn selected_from(op: Operation, a: Seq<bool>, b: Seq<bool>, lo: int) -> Seq<int> {
    ones_in(combined(op, a, b), lo, combined(op, a, b).len() as int)
}

/// Advances `iter` to the next set bit that `op` keeps, and returns it.
fn next_selected(iter: &mut Ones<'_>, other: &BVector, op: Operation) -> (item: Option<usize>)
    requires
        op is And || op is Sub,
    ensures
        final(iter).source() == old(iter).source(),
        stepped(
            selected_from(op, old(iter).source(), other@, old(iter).position()),
            item,
            selected_from(op, final(iter).source(), other@, final(iter).position()),
        ),
{
    let ghost a = iter.source();
    let ghost both = combined(op, a, other@);
    let ghost all = selected_from(op, a, other@, iter.position());
    loop
        invariant
            op is And || op is Sub,
            iter.source() == a,
            a == old(iter).source(),
            both == combined(op, a, other@),
            all == selected_from(op, a, other@, old(iter).position()),
            all == selected_from(op, a, other@, iter.position()),
            iter.position() >= 0,
        decreases a.len() + 1 - iter.position(),
    {
        let ghost lo = iter.position();
        match iter.next() {
            None => {
                proof {
                    assert forall|i: int| lo <= i < both.len() implies !bit(both, i) by {
                        assert(!bit(a, i));
                    }
                    lemma_ones_clear(both, lo, both.len() as int);
                    assert forall|i: int| iter.position() <= i < both.len() implies !bit(
                        both,
                        i,
                    ) by {
                        assert(!bit(a, i));
                    }
                    lemma_ones_clear(both, iter.position(), both.len() as int);
                }
                return None;
            },
            Some(p) => {
                let there = other.contains(p);
                let keep = match op {
                    Operation::And => there,
                    _ => !there,
                };
                proof {
                    assert forall|i: int| lo <= i < p implies !bit(both, i) by {
                        assert(!bit(a, i));
                    }
                    assert(bit(both, p as int) == keep);
                }
                if keep {
                    proof {
                        lemma_ones_first(both, lo, p as int, both.len() as int);
                        assert(all.skip(1) =~= ones_in(both, p + 1, both.len() as int));
                    }
                    return Some(p);
                }
                proof {
                    lemma_ones_skip(both, lo, p + 1, both.len() as int);
                }
            },
        }
    }
}

impl<'a> Ones<'a> {
    /// The bits that the iterator walks over.
    pub closed spec fn source(&self) -> Seq<bool> {
        self.bv@
    }

    /// The lowest position that the iterator has not passed yet.
    pub closed spec fn position(&self) -> int {
        match self.current_bit_idx {
            None => 0,
            Some(cursor) => cursor + 1,
        }
    }

    /// The positions still to come, in the order in which they come.
    pub open spec fn remaining(&self) -> Seq<int> {
        ones_in(self.source(), self.position(), self.source().len() as int)
    }

    /// Yields the lowest set bit that has not been passed, and passes it.
    pub fn next(&mut self) -> (item: Option<usize>)
        ensures
            final(self).source() == old(self).source(),
            final(self).position() >= old(self).position() >= 0,
            stepped(old(self).remaining(), item, final(self).remaining()),
            item matches Some(p) ==> final(self).position() == p + 1 && bit(
                old(self).source(),
                p as int,
            ) && forall|q: int| old(self).position() <= q < p ==> !bit(old(self).source(), q),
            item is None ==> forall|q: int| old(self).position() <= q ==> !bit(old(self).source(), q),
    {
        let ghost s = self.source();
        let ghost lo = self.position();
        let engine = self.bv.engine();
        proof {
            engine.lemma_len();
        }
        if self.current_bit_idx.is_none() {
            self.current_bit_idx = Some(0);
            if engine.get_bit(0) {
                proof {
                    lemma_ones_first(s, 0, 0, s.len() as int);
                    assert(old(self).remaining().skip(1) =~= ones_in(s, 1, s.len() as int));
                }
                return Some(0);
            }
        }
        let cursor = self.current_bit_idx.unwrap();
        let next = engine.get_next(cursor);
        if next > cursor {
            self.current_bit_idx = Some(next);
            proof {
                assert forall|q: int| lo <= q < next implies !bit(s, q) by {
                    if q > cursor {
                    } else {
                        assert(q == 0 && !bit(s, 0));
                    }
                }
                lemma_ones_first(s, lo, next as int, s.len() as int);
                assert(old(self).remaining().skip(1) =~= ones_in(s, next + 1, s.len() as int));
            }
            Some(next as usize)
        } else {
            proof {
                assert forall|q: int| lo <= q implies !bit(s, q) by {
                    if q > cursor {
                    } else {
                        assert(q == 0 && !bit(s, 0));
                    }
                }
                lemma_ones_clear(s, lo, s.len() as int);
                lemma_ones_clear(s, self.position(), s.len() as int);
            }
            None
        }
    }

    /// Runs the iterator to its end and returns what it yielded, in order.
    pub fn collect(self) -> (items: Vec<usize>)
        ensures
            lists(items@, self.remaining()),
    {
        let mut iter = self;
        let ghost all = iter.remaining();
        let mut items: Vec<usize> = Vec::new();
        assert(all.skip(0) =~= all);
        loop
            invariant
                all == self.remaining(),
                items@.len() <= all.len(),
                iter.remaining() == all.skip(items@.len() as int),
                forall|k: int| 0 <= k < items@.len() ==> items@[k] == all[k],
            decreases all.len() - items@.len(),
        {
            let ghost before = iter.remaining();
            match iter.next() {
                None => {
                    return items;
                },
                Some(p) => {
                    assert(p == all[items@.len() as int]);
                    items.push(p);
                    assert(before.skip(1) =~= all.skip(items@.len() as int));
                },
            }
        }
    }
}

impl<'a> Difference<'a> {
    /// The positions still to come, in the order in which they come.
    pub closed spec fn remaining(&self) -> Seq<int> {
        selected_from(Operation::Sub, self.iter.source(), self.other@, self.iter.position())
    }

    /// Yields the next set bit of the first set that is not in the second.
    pub fn next(&mut self) -> (item: Option<usize>)
        ensures
            stepped(old(self).remaining(), item, final(self).remaining()),
    {
        next_selected(&mut self.iter, self.other, Operation::Sub)
    }

    /// Runs the iterator to its end and returns what it yielded, in order.
    pub fn collect(self) -> (items: Vec<usize>)
        ensures
            lists(items@, self.remaining()),
    {
        let mut iter = self;
        let ghost all = iter.remaining();
        let mut items: Vec<usize> = Vec::new();
        assert(all.skip(0) =~= all);
        loop
            invariant
                all == self.remaining(),
                items@.len() <= all.len(),
                iter.remaining() == all.skip(items@.len() as int),
                forall|k: int| 0 <= k < items@.len() ==> items@[k] == all[k],
            decreases all.len() - items@.len(),
        {
            let ghost before = iter.remaining();
            match iter.next() {
                None => {
                    return items;
                },
                Some(p) => {
                    assert(p == all[items@.len() as int]);
                    items.push(p);
                    assert(before.skip(1) =~= all.skip(items@.len() as int));
                },
            }
        }
    }
}

impl<'a> Intersection<'a> {
    /// The positions still to come, in the order in which they come.
    pub closed spec fn remaining(&self) -> Seq<int> {
        selected_from(Operation::And, self.iter.source(), self.other@, self.iter.position())
    }

    /// Yields the next set bit of the first set that is in the second too.
    pub fn next(&mut self) -> (item: Option<usize>)
        ensures
            stepped(old(self).remaining(), item, final(self).remaining()),
    {
        next_selected(&mut self.iter, self.other, Operation::And)
    }

    /// Runs the iterator to its end and returns what it yielded, in order.
    pub fn collect(self) -> (items: Vec<usize>)
        ensures
            lists(items@, self.remaining()),
    {
        let mut iter = self;
        let ghost all = iter.remaining();
        let mut items: Vec<usize> = Vec::new();
        assert(all.skip(0) =~= all);
        loop
            invariant
                all == self.remaining(),
                items@.len() <= all.len(),
                iter.remaining() == all.skip(items@.len() as int),
                forall|k: int| 0 <= k < items@.len() ==> items@[k] == all[k],
            decreases all.len() - items@.len(),
        {
            let ghost before = iter.remaining();
            match iter.next() {
                None => {
                    return items;
                },
                Some(p) => {
                    assert(p == all[items@.len() as int]);
                    items.push(p);
                    assert(before.skip(1) =~= all.skip(items@.len() as int));
                },
            }
        }
    }
}

impl<'a> Union<'a> {
    /// The positions still to come, in the order in which they come: those
    /// of the first set, then those of the second that are not in the first.
    pub closed spec fn remaining(&self) -> Seq<int> {
        self.first.remaining() + self.second.remaining()
    }

    /// Yields the next position of the union.
    pub fn next(&mut self) -> (item: Option<usize>)
        ensures
            stepped(old(self).remaining(), item, final(self).remaining()),
    {
        match self.first.next() {
            Some(p) => {
                assert(self.remaining() =~= old(self).remaining().skip(1));
                Some(p)
            },
            None => {
                let item = self.second.next();
                assert(self.remaining() =~= self.second.remaining());
                assert(old(self).remaining() =~= old(self).second.remaining());
                item
            },
        }
    }

    /// Runs the iterator to its end and returns what it yielded, in order.
    pub fn collect(self) -> (items: Vec<usize>)
        ensures
            lists(items@, self.remaining()),
    {
        let mut iter = self;
        let ghost all = iter.remaining();
        let mut items: Vec<usize> = Vec::new();
        assert(all.skip(0) =~= all);
        loop
            invariant
                all == self.remaining(),
                items@.len() <= all.len(),
                iter.remaining() == all.skip(items@.len() as int),
                forall|k: int| 0 <= k < items@.len() ==> items@[k] == all[k],
            decreases all.len() - items@.len(),
        {
            let ghost before = iter.remaining();
            match iter.next() {
                None => {
                    return items;
                },
                Some(p) => {
                    assert(p == all[items@.len() as int]);
                    items.push(p);
                    assert(before.skip(1) =~= all.skip(items@.len() as int));
                },
            }
        }
    }
}

impl<'a> SymmetricDifference<'a> {
    /// The positions still to come, in the order in which they come: those
    /// only in the first set, then those only in the second.
    pub closed spec fn remaining(&self) -> Seq<int> {
        self.first.remaining() + self.second.remaining()
    }

    /// Yields the next position of the symmetric difference.
    pub fn next(&mut self) -> (item: Option<usize>)
        ensures
            stepped(old(self).remaining(), item, final(self).remaining()),
    {
        match self.first.next() {
            Some(p) => {
                assert(self.remaining() =~= old(self).remaining().skip(1));
                Some(p)
            },
            None => {
                let item = self.second.next();
                assert(self.remaining() =~= self.second.remaining());
                assert(old(self).remaining() =~= old(self).second.remaining());
                item
            },
        }
    }

    /// Runs the iterator to its end and returns what it yielded, in order.
    pub fn collect(self) -> (items: Vec<usize>)
        ensures
            lists(items@, self.remaining()),
    {
        let mut iter = self;
        let ghost all = iter.remaining();
        let mut items: Vec<usize> = Vec::new();
        assert(all.skip(0) =~= all);
        loop
            invariant
                all == self.remaining(),
                items@.len() <= all.len(),
                iter.remaining() == all.skip(items@.len() as int),
                forall|k: int| 0 <= k < items@.len() ==> items@[k] == all[k],
            decreases all.len() - items@.len(),
        {
            let ghost before = iter.remaining();
            match iter.next() {
                None => {
                    return items;
                },
                Some(p) => {
                    assert(p == all[items@.len() as int]);
                    items.push(p);
                    assert(before.skip(1) =~= all.skip(items@.len() as int));
                },
            }
        }
    }
}

impl BVector {
    /// Iterates over all enabled bits.
    ///
    /// Iterator element is the index of the `1` bit, type `usize`.
    pub fn ones(&self) -> (iter: Ones<'_>)
        ensures
            iter.source() == self@,
            iter.position() == 0,
            iter.remaining() == ones_of(self@),
    {
        Ones { current_bit_idx: None, bv: self }
    }

    /// Returns a lazy iterator over the intersection of two `BVector`s
    pub fn intersection<'a>(&'a self, other: &'a BVector) -> (iter: Intersection<'a>)
        ensures
            iter.remaining() == ones_of(combined(Operation::And, self@, other@)),
    {
        Intersection { iter: self.ones(), other }
    }

    /// Returns a lazy iterator over the union of two `BVector`s: the bits of
    /// `self`, then the bits of `other` that are not in `self`.
    pub fn union<'a>(&'a self, other: &'a BVector) -> (iter: Union<'a>)
        ensures
            iter.remaining() == ones_of(self@) + ones_of(combined(Operation::Sub, other@, self@)),
    {
        Union { first: self.ones(), second: other.difference(self) }
    }

    /// Returns a lazy iterator over the difference of two `BVector`s. The difference of `a`
    /// and `b` is the elements of `a` which are not in `b`.
    pub fn difference<'a>(&'a self, other: &'a BVector) -> (iter: Difference<'a>)
        ensures
            iter.remaining() == ones_of(combined(Operation::Sub, self@, other@)),
    {
        Difference { iter: self.ones(), other }
    }

    /// Returns a lazy iterator over the symmetric difference of two `BVector`s.
    /// The symmetric difference of `a` and `b` is the elements of one, but not both, sets.
    pub fn symmetric_difference<'a>(&'a self, other: &'a BVector) -> (iter: SymmetricDifference<
        'a,
    >)
        ensures
            iter.remaining() == ones_of(combined(Operation::Sub, self@, other@)) + ones_of(
                combined(Operation::Sub, other@, self@),
            ),
    {
        SymmetricDifference { first: self.difference(other), second: other.difference(self) }
    }

    /// Returns `true` if the set is a subset of another, i.e. `other` contains
    /// at least all the values in `self`.
    pub fn is_subset(&self, other: &BVector) -> (b: bool)
        ensures
            b == subset(self@, other@),
    {
        let mut iter = self.ones();
        loop
            invariant
                iter.source() == self@,
                iter.position() >= 0,
                forall|i: int| 0 <= i < iter.position() ==> (bit(self@, i) ==> bit(other@, i)),
            decreases self@.len() + 1 - iter.position(),
        {
            match iter.next() {
                None => {
                    return true;
                },
                Some(p) => {
                    if !other.contains(p) {
                        return false;
                    }
                },
            }
        }
    }

    /// Returns `true` if the set is a superset of another, i.e. `self` contains
    /// at least all the values in `other`.
    pub fn is_superset(&self, other: &BVector) -> (b: bool)
        ensures
            b == superset(self@, other@),
    {
        let mut iter = other.ones();
        loop
            invariant
                iter.source() == other@,
                iter.position() >= 0,
                forall|i: int| 0 <= i < iter.position() ==> (bit(other@, i) ==> bit(self@, i)),
            decreases other@.len() + 1 - iter.position(),
        {
            match iter.next() {
                None => {
                    return true;
                },
                Some(p) => {
                    if !self.contains(p) {
                        return false;
                    }
                },
            }
        }
    }
}

} // verus!
