//! The container: a bit vector that owns one engine.

use vstd::prelude::*;
use crate::bits::{bit, combined, count_range, resized, with_range, with_range_toggled, zeros};
use crate::bits::{lemma_count_clear, lemma_count_positive, Operation};
use crate::engine::{logical_len, Engine, SIZE_UNSET};
use crate::range::{range_end, range_start, range_valid, IndexRange};
use crate::codec::{decoded, encode, encoded_len, lemma_encoded_len, well_formed};
use crate::status::{_check_res, BM_ERR_BADARG, BM_OK};

verus! {

/// A bitvector: a length and the bits below it. Every value is valid; its
/// view is the sequence of its bits, and its length is below the size that
/// the engine reserves (see [`BVector::lemma_len_bound`]).
#[derive(Debug)]
pub struct BVector {
    engine: Engine,
}

impl View for BVector {
    type V = Seq<bool>;

    /// The visible bits, one entry per position below the length.
    closed spec fn view(&self) -> Seq<bool> {
        self.engine@
    }
}

/// Why bytes could not be turned into a container.
#[derive(Debug, Clone, Copy, PartialEq, Eq)]
pub enum DecodeError {
    /// The bytes are not in the serialization format.
    Format,
}

/// The length of a container that was asked to hold `bits` bits: the size
/// that the engine reserves gives length 0.
pub open spec fn length_for(bits: usize) -> nat {
    logical_len(bits as u32)
}

/// Whether `a` and `b` have no set bit in common.
pub open spec fn disjoint(a: Seq<bool>, b: Seq<bool>) -> bool {
    forall|i: int| 0 <= i ==> !(bit(a, i) && bit(b, i))
}

/// Whether every set bit of `a` is set in `b`.
pub open spec fn subset(a: Seq<bool>, b: Seq<bool>) -> bool {
    forall|i: int| 0 <= i ==> (bit(a, i) ==> bit(b, i))
}

/// Whether `a` has every set bit of `b`.
pub open spec fn superset(a: Seq<bool>, b: Seq<bool>) -> bool {
    forall|i: int| 0 <= i ==> (bit(b, i) ==> bit(a, i))
}

impl BVector {
    /// The engine behind the container.
    pub(crate) fn engine(&self) -> (e: &Engine)
        ensures
            e@ == self@,
    {
        &self.engine
    }

    /// The length is below the size that the engine reserves.
    pub proof fn lemma_len_bound(&self)
        ensures
            self@.len() < SIZE_UNSET,
    {
        self.engine.lemma_len();
    }

    /// Wraps an engine.
    pub(crate) fn from_engine(engine: Engine) -> (v: BVector)
        ensures
            v@ == engine@,
    {
        BVector { engine }
    }

    /// Create a new bit-vector container with length 0.
    pub fn new() -> (v: BVector)
        ensures
            v@ == zeros(0),
    {
        BVector { engine: Engine::construct(0) }
    }

    /// Create a new bit-vector container with capacity (maximum number of
    /// allowed bits). A capacity equal to the engine's reserved size gives
    /// length 0.
    pub fn with_capacity(capacity: usize) -> (v: BVector)
        requires
            capacity <= u32::MAX,
        ensures
            v@ == zeros(length_for(capacity)),
    {
        BVector { engine: Engine::construct(capacity as u32) }
    }

    /// Set the length to `bits`. Bits that become addressable are cleared,
    /// bits below both the old and the new length stay, and a length equal
    /// to the engine's reserved size gives length 0.
    pub fn grow(&mut self, bits: usize)
        requires
            bits <= u32::MAX,
        ensures
            final(self)@ == resized(old(self)@, length_for(bits)),
    {
        let res = self.engine.set_size(bits as u32);
        _check_res(res);
    }

    /// Return the length of the BVector in bits.
    pub fn len(&self) -> (n: usize)
        ensures
            n == self@.len(),
    {
        proof {
            self.engine.lemma_len();
        }
        let size = self.engine.get_size();
        if size == SIZE_UNSET {
            0
        } else {
            size as usize
        }
    }

    /// Whether the length is 0. This says nothing about which bits are set.
    pub fn is_empty(&self) -> (b: bool)
        ensures
            b == (self@.len() == 0),
    {
        self.len() == 0
    }

    /// Return **true** if the bit is enabled in the **BVector**,
    /// **false** otherwise.
    ///
    /// Note: bits outside the capacity are always disabled.
    pub fn contains(&self, bit: usize) -> (b: bool)
        ensures
            b == crate::bits::bit(self@, bit as int),
    {
        proof {
            self.engine.lemma_len();
        }
        if bit >= self.len() {
            return false;
        }
        self.engine.get_bit(bit as u32)
    }

    /// Clear all bits. The length stays.
    pub fn clear(&mut self)
        ensures
            final(self)@ == zeros(old(self)@.len()),
    {
        let res = self.engine.clear(false);
        _check_res(res);
    }

    /// Enable `bit`, without a check of the position by the engine.
    pub fn insert(&mut self, bit: usize)
        requires
            bit < old(self)@.len(),
        ensures
            final(self)@ == old(self)@.update(bit as int, true),
    {
        proof {
            self.engine.lemma_len();
        }
        let res = self.engine.set_bit_no_check(bit as u32, true);
        _check_res(res);
    }

    /// Enable `bit`, and return its previous value.
    pub fn put(&mut self, bit: usize) -> (previous: bool)
        requires
            bit < old(self)@.len(),
        ensures
            previous == old(self)@[bit as int],
            final(self)@ == old(self)@.update(bit as int, true),
    {
        proof {
            self.engine.lemma_len();
        }
        let previous = self.engine.get_bit(bit as u32);
        let res = self.engine.set_bit_no_check(bit as u32, true);
        _check_res(res);
        previous
    }

    /// Toggle `bit` (inverting its state).
    pub fn toggle(&mut self, bit: usize)
        requires
            bit < old(self)@.len(),
        ensures
            final(self)@ == old(self)@.update(bit as int, !old(self)@[bit as int]),
    {
        proof {
            self.engine.lemma_len();
        }
        let res = self.engine.flip_bit(bit as u32);
        _check_res(res);
    }

    /// Set `bit` to `enabled`.
    pub fn set(&mut self, bit: usize, enabled: bool)
        requires
            bit < old(self)@.len(),
        ensures
            final(self)@ == old(self)@.update(bit as int, enabled),
    {
        proof {
            self.engine.lemma_len();
        }
        let res = self.engine.set_bit(bit as u32, enabled);
        _check_res(res);
    }

    /// Copies boolean value from specified bit to the specified bit. A
    /// source position beyond the length reads as cleared.
    pub fn copy_bit(&mut self, from: usize, to: usize)
        requires
            to < old(self)@.len(),
        ensures
            final(self)@ == old(self)@.update(to as int, bit(old(self)@, from as int)),
    {
        let value = self.contains(from);
        self.set(to, value);
    }

    /// Resolves a range to the pair of positions, both included, that the
    /// engine's range primitives take. A range of width zero has no such
    /// pair and resolves to `None`.
    pub fn parse_range<T: IndexRange>(&self, range: T) -> (bounds: Option<(u32, u32)>)
        requires
            range_valid(range, self@.len()),
        ensures
            bounds is None <==> range_start(range) == range_end(range, self@.len()),
            bounds matches Some(b) ==> b.0 == range_start(range) && b.1 + 1 == range_end(
                range,
                self@.len(),
            ),
    {
        proof {
            self.engine.lemma_len();
        }
        let len = self.len();
        let start = match range.start() {
            Some(start) => start,
            None => 0,
        };
        let end = match range.end() {
            Some(end) => end,
            None => len,
        };
        if start == end {
            None
        } else {
            Some((start as u32, (end - 1) as u32))
        }
    }

    /// Count the number of set bits in the given bit range.
    ///
    /// Use `..` to count the whole content of the bitset.
    pub fn count_ones<T: IndexRange>(&self, range: T) -> (count: usize)
        requires
            range_valid(range, self@.len()),
        ensures
            count == count_range(self@, range_start(range), range_end(range, self@.len())),
    {
        match self.parse_range(range) {
            None => 0,
            Some((start, end)) => {
                let (res, count) = self.engine.count_range(start, end);
                _check_res(res);
                count as usize
            },
        }
    }

    /// Sets every bit in the given range to the given state (`enabled`)
    ///
    /// Use `..` to set the whole bitset.
    pub fn set_range<T: IndexRange>(&mut self, range: T, enabled: bool)
        requires
            range_valid(range, old(self)@.len()),
        ensures
            final(self)@ == with_range(
                old(self)@,
                range_start(range),
                range_end(range, old(self)@.len()),
                enabled,
            ),
    {
        match self.parse_range(range) {
            None => {
                assert(self@ =~= with_range(
                    self@,
                    range_start(range),
                    range_end(range, self@.len()),
                    enabled,
                ));
            },
            Some((start, end)) => {
                let res = self.engine.set_range(start, end, enabled);
                _check_res(res);
            },
        }
    }

    /// Enables every bit in the given range.
    ///
    /// Use `..` to make the whole bitset ones.
    pub fn insert_range<T: IndexRange>(&mut self, range: T)
        requires
            range_valid(range, old(self)@.len()),
        ensures
            final(self)@ == with_range(
                old(self)@,
                range_start(range),
                range_end(range, old(self)@.len()),
                true,
            ),
    {
        self.set_range(range, true);
    }

    /// Toggles (inverts) every bit in the given range, one bit at a time.
    ///
    /// Use `..` to toggle the whole bitset.
    pub fn toggle_range<T: IndexRange>(&mut self, range: T)
        requires
            range_valid(range, old(self)@.len()),
        ensures
            final(self)@ == with_range_toggled(
                old(self)@,
                range_start(range),
                range_end(range, old(self)@.len()),
            ),
    {
        match self.parse_range(range) {
            None => {
                assert(self@ =~= with_range_toggled(
                    self@,
                    range_start(range),
                    range_end(range, self@.len()),
                ));
            },
            Some((start, end)) => {
                proof {
                    self.engine.lemma_len();
                }
                let stop = end as usize + 1;
                let mut i: usize = start as usize;
                assert(self@ =~= with_range_toggled(old(self)@, start as int, i as int));
                while i < stop
                    invariant
                        start <= i <= stop,
                        stop <= old(self)@.len(),
                        self@ == with_range_toggled(old(self)@, start as int, i as int),
                    decreases stop - i,
                {
                    self.toggle(i);
                    assert(self@ =~= with_range_toggled(old(self)@, start as int, i + 1));
                    i += 1;
                }
            },
        }
    }

    /// In-place union of two `BVector`s.
    ///
    /// The length becomes the longer of the two lengths.
    pub fn union_with(&mut self, other: &BVector)
        ensures
            final(self)@ == combined(Operation::Or, old(self)@, other@),
    {
        let res = self.engine.combine(&other.engine, Operation::Or);
        _check_res(res);
    }

    /// In-place intersection of two `BVector`s.
    ///
    /// The length becomes the longer of the two lengths: the engine does not
    /// cut the result down to the shorter one.
    pub fn intersect_with(&mut self, other: &BVector)
        ensures
            final(self)@ == combined(Operation::And, old(self)@, other@),
    {
        let res = self.engine.combine(&other.engine, Operation::And);
        _check_res(res);
    }

    /// In-place difference of two `BVector`s.
    ///
    /// The length becomes the longer of the two lengths.
    pub fn difference_with(&mut self, other: &BVector)
        ensures
            final(self)@ == combined(Operation::Sub, old(self)@, other@),
    {
        let res = self.engine.combine(&other.engine, Operation::Sub);
        _check_res(res);
    }

    /// In-place symmetric difference of two `BVector`s.
    ///
    /// The length becomes the longer of the two lengths.
    pub fn symmetric_difference_with(&mut self, other: &BVector)
        ensures
            final(self)@ == combined(Operation::Xor, old(self)@, other@),
    {
        let res = self.engine.combine(&other.engine, Operation::Xor);
        _check_res(res);
    }

    /// Size of the intersection of two `BVector`s.
    ///
    /// Equivalent to the population count of AND of two bit vectors
    pub fn intersection_count(&self, other: &BVector) -> (count: usize)
        ensures
            count == count_range(
                combined(Operation::And, self@, other@),
                0,
                combined(Operation::And, self@, other@).len() as int,
            ),
    {
        self.engine.count_combined(&other.engine, Operation::And) as usize
    }

    /// Size of the union of two `BVector`s.
    ///
    /// Equivalent to the population count of OR of two bit vectors
    pub fn union_count(&self, other: &BVector) -> (count: usize)
        ensures
            count == count_range(
                combined(Operation::Or, self@, other@),
                0,
                combined(Operation::Or, self@, other@).len() as int,
            ),
    {
        self.engine.count_combined(&other.engine, Operation::Or) as usize
    }

    /// Size of the difference of two `BVector`s.
    ///
    /// Equivalent to the population count of SUB of two bit vectors
    pub fn difference_count(&self, other: &BVector) -> (count: usize)
        ensures
            count == count_range(
                combined(Operation::Sub, self@, other@),
                0,
                combined(Operation::Sub, self@, other@).len() as int,
            ),
    {
        self.engine.count_combined(&other.engine, Operation::Sub) as usize
    }

    /// Size of the symmetric difference of two `BVector`s.
    ///
    /// Equivalent to the population count of XOR of two bit vectors
    pub fn symmetric_difference_count(&self, other: &BVector) -> (count: usize)
        ensures
            count == count_range(
                combined(Operation::Xor, self@, other@),
                0,
                combined(Operation::Xor, self@, other@).len() as int,
            ),
    {
        self.engine.count_combined(&other.engine, Operation::Xor) as usize
    }

    /// Returns `true` if `self` has no elements in common with `other`. This
    /// is equivalent to checking for an empty intersection.
    pub fn is_disjoint(&self, other: &BVector) -> (b: bool)
        ensures
            b == disjoint(self@, other@),
    {
        let count = self.intersection_count(other);
        proof {
            let both = combined(Operation::And, self@, other@);
            if count == 0 {
                assert forall|i: int| 0 <= i implies !(bit(self@, i) && bit(other@, i)) by {
                    if bit(self@, i) && bit(other@, i) {
                        assert(bit(both, i));
                        lemma_count_positive(both, 0, both.len() as int, i);
                    }
                }
            } else {
                if disjoint(self@, other@) {
                    assert forall|i: int| 0 <= i < both.len() implies !bit(both, i) by {
                        assert(!(bit(self@, i) && bit(other@, i)));
                    }
                    lemma_count_clear(both, 0, both.len() as int);
                }
            }
        }
        count == 0
    }

    /// Serialize bit vector: compacts the storage, sizes a buffer by the
    /// bound that the engine reports, lets the engine fill it and returns
    /// exactly the bytes of the blob.
    pub fn serialize(&mut self) -> (blob: Vec<u8>)
        requires
            encoded_len(old(self)@) <= usize::MAX,
        ensures
            final(self)@ == old(self)@,
            blob@ == encode(old(self)@),
    {
        let (res, stats) = self.engine.optimize(3);
        _check_res(res);
        let mut buf: Vec<u8> = Vec::with_capacity(stats.max_serialize_mem);
        let (res, blob_size) = self.engine.serialize(&mut buf);
        _check_res(res);
        proof {
            lemma_encoded_len(self@);
        }
        let res = if blob_size == 0 || blob_size > stats.max_serialize_mem {
            BM_ERR_BADARG
        } else {
            BM_OK
        };
        _check_res(res);
        buf.truncate(blob_size);
        assert(buf@ =~= encode(old(self)@));
        buf
    }

    /// Deserialize bit vector. Length and bits of the result are those of
    /// the blob; bytes that are no blob are refused.
    pub fn deserialize(bytes: &[u8]) -> (r: Result<BVector, DecodeError>)
        ensures
            r is Ok <==> well_formed(bytes@),
            r matches Ok(v) ==> v@ == decoded(bytes@),
    {
        let mut bnew = BVector::with_capacity(1);
        let res = bnew.engine.deserialize(bytes);
        if res != BM_OK {
            return Err(DecodeError::Format);
        }
        _check_res(res);
        Ok(bnew)
    }
}

} // verus!
