//! Operators that produce a new container, their assigning forms, and the
//! ways to fill a container from a list of positions.

use vstd::prelude::*;
use crate::bits::{bit, combined, longer, resized, shorter, zeros, Operation};
use crate::bvector::BVector;

verus! {

/// The AND of two bit vectors, as long as the shorter of the two.
pub open spec fn and_of(a: Seq<bool>, b: Seq<bool>) -> Seq<bool> {
    Seq::new(shorter(a.len(), b.len()), |i: int| a[i] && b[i])
}

/// The OR of two bit vectors, as long as the longer of the two.
pub open spec fn or_of(a: Seq<bool>, b: Seq<bool>) -> Seq<bool> {
    Seq::new(longer(a.len(), b.len()), |i: int| bit(a, i) || bit(b, i))
}

/// The XOR of two bit vectors, as long as the longer of the two.
pub open spec fn xor_of(a: Seq<bool>, b: Seq<bool>) -> Seq<bool> {
    Seq::new(longer(a.len(), b.len()), |i: int| bit(a, i) != bit(b, i))
}

/// The length that a bit vector of length `len` has after each position of
/// `src` was made addressable in turn.
pub open spec fn extended_len(len: nat, src: Seq<usize>) -> nat
    decreases src.len(),
{
    if src.len() == 0 {
        len
    } else {
        let before = extended_len(len, src.drop_last());
        if src.last() >= before {
            (src.last() + 1) as nat
        } else {
            before
        }
    }
}

/// A bit vector after the positions of `src` were set in it, grown as far
/// as they reach.
pub open spec fn extended(s: Seq<bool>, src: Seq<usize>) -> Seq<bool> {
    Seq::new(
        extended_len(s.len(), src),
        |i: int| bit(s, i) || exists|j: int| 0 <= j < src.len() && src[j] == i,
    )
}

/// Whether every position of `src` can be made addressable: one more than
/// the position must be a length that the engine can hold.
pub open spec fn addressable(src: Seq<usize>) -> bool {
    forall|j: int| 0 <= j < src.len() ==> src[j] + 1 < u32::MAX
}

/// The length after extending covers the old length and every position.
pub proof fn lemma_extended_len(len: nat, src: Seq<usize>)
    ensures
        extended_len(len, src) >= len,
        forall|j: int| 0 <= j < src.len() ==> src[j] < extended_len(len, src),
    decreases src.len(),
{
    if src.len() > 0 {
        lemma_extended_len(len, src.drop_last());
        assert forall|j: int| 0 <= j < src.len() implies src[j] < extended_len(len, src) by {
            if j < src.len() - 1 {
                assert(src.drop_last()[j] == src[j]);
            }
        }
    }
}

impl Clone for BVector {
    /// A deep copy with a life of its own.
    fn clone(&self) -> (copy: Self)
        ensures
            copy@ == self@,
    {
        BVector::from_engine(self.engine().construct_copy())
    }
}

impl Default for BVector {
    fn default() -> (v: Self)
        ensures
            v@ == zeros(0),
    {
        BVector::new()
    }
}

impl BVector {
    /// Return **true** if the bit is enabled in the bitset,
    /// or **false** otherwise.
    ///
    /// Note: bits outside the capacity are always disabled.
    pub fn index(&self, bit: usize) -> (value: &bool)
        ensures
            *value == crate::bits::bit(self@, bit as int),
    {
        if self.contains(bit) {
            &true
        } else {
            &false
        }
    }

    /// Sets the bit at index **i** to **true** for each item **i** in the
    /// input **src**, growing the length where an item lies beyond it.
    pub fn extend(&mut self, src: &[usize])
        requires
            addressable(src@),
        ensures
            final(self)@ == extended(old(self)@, src@),
    {
        let mut k: usize = 0;
        assert(self@ =~= extended(old(self)@, src@.take(0)));
        while k < src.len()
            invariant
                k <= src@.len(),
                addressable(src@),
                self@ == extended(old(self)@, src@.take(k as int)),
            decreases src@.len() - k,
        {
            let i = src[k];
            let ghost before = self@;
            if i >= self.len() {
                self.grow(i + 1);
            }
            self.put(i);
            proof {
                let done = src@.take(k as int);
                let now = src@.take(k + 1);
                assert(now.drop_last() =~= done);
                assert(now.last() == i);
                lemma_extended_len(old(self)@.len(), done);
                assert forall|p: int| 0 <= p < self@.len() implies self@[p] == (bit(old(self)@, p)
                    || exists|j: int| 0 <= j < now.len() && now[j] == p) by {
                    if p == i {
                        assert(now[k as int] == p);
                    } else if bit(before, p) {
                        if !bit(old(self)@, p) {
                            let j = choose|j: int| 0 <= j < done.len() && done[j] == p;
                            assert(now[j] == p);
                        }
                    } else {
                        assert forall|j: int| 0 <= j < now.len() implies now[j] != p by {
                            if j < k {
                                assert(now[j] == done[j]);
                            }
                        }
                    }
                }
                assert(self@ =~= extended(old(self)@, now));
            }
            k += 1;
        }
        assert(src@.take(src@.len() as int) =~= src@);
    }

    /// Return a BVector containing bits set to **true** for every bit index in
    /// `src`, other bits are set to **false**. Its length is one more than
    /// the highest index.
    pub fn from_iter(src: &[usize]) -> (v: BVector)
        requires
            addressable(src@),
        ensures
            v@ == extended(zeros(0), src@),
    {
        let mut v = BVector::with_capacity(0);
        v.extend(src);
        v
    }

    /// The AND of two containers, as a new one. Its length is that of the
    /// shorter operand: the shorter one is copied, intersected with the
    /// longer one, and cut back to its own length.
    pub fn bitand(&self, other: &BVector) -> (v: BVector)
        ensures
            v@ == and_of(self@, other@),
    {
        let self_len = self.len();
        let other_len = other.len();
        let (short, long) = if self_len <= other_len {
            (self, other)
        } else {
            (other, self)
        };
        let mut new_bvector = short.clone();
        new_bvector.intersect_with(long);
        proof {
            short.lemma_len_bound();
        }
        new_bvector.grow(short.len());
        assert(new_bvector@ =~= and_of(self@, other@));
        new_bvector
    }

    /// In-place AND with `other`; see [`BVector::intersect_with`].
    pub fn bitand_assign(&mut self, other: &BVector)
        ensures
            final(self)@ == combined(Operation::And, old(self)@, other@),
    {
        self.intersect_with(other);
    }

    /// The OR of two containers, as a new one. Its length is that of the
    /// longer operand.
    pub fn bitor(&self, other: &BVector) -> (v: BVector)
        ensures
            v@ == or_of(self@, other@),
    {
        let self_len = self.len();
        let other_len = other.len();
        let (short, long) = if self_len <= other_len {
            (self, other)
        } else {
            (other, self)
        };
        let mut new_bvector = short.clone();
        new_bvector.union_with(long);
        assert(new_bvector@ =~= or_of(self@, other@));
        new_bvector
    }

    /// In-place OR with `other`; see [`BVector::union_with`].
    pub fn bitor_assign(&mut self, other: &BVector)
        ensures
            final(self)@ == combined(Operation::Or, old(self)@, other@),
    {
        self.union_with(other);
    }

    /// The XOR of two containers, as a new one. Its length is that of the
    /// longer operand.
    pub fn bitxor(&self, other: &BVector) -> (v: BVector)
        ensures
            v@ == xor_of(self@, other@),
    {
        let self_len = self.len();
        let other_len = other.len();
        let (short, long) = if self_len <= other_len {
            (self, other)
        } else {
            (other, self)
        };
        let mut new_bvector = short.clone();
        new_bvector.symmetric_difference_with(long);
        assert(new_bvector@ =~= xor_of(self@, other@));
        new_bvector
    }

    /// In-place XOR with `other`; see [`BVector::symmetric_difference_with`].
    pub fn bitxor_assign(&mut self, other: &BVector)
        ensures
            final(self)@ == combined(Operation::Xor, old(self)@, other@),
    {
        self.symmetric_difference_with(other);
    }
}

} // verus!
