//! The storage engine: a bit store with a size that can be set at run time.
//!
//! The engine keeps its bits behind primitives that return a status. Storage
//! is allocated lazily, up to the highest bit that was ever set, and what
//! lies at or beyond the size is never visible: the engine's view is the
//! sequence of bits below its logical length.

use vstd::prelude::*;
use crate::bits::{apply, bit, combined, count_range, resized, with_range, zeros, Operation};
use crate::bits::{lemma_count_clear, lemma_count_split, lemma_span, span};
use crate::bits::{lemma_ones_trim, ones_in};
use crate::codec::{blob_count, blob_len, blob_position, decoded, encode, encode_positions};
use crate::codec::{encoded_len, well_formed, word_at};
use crate::status::{BM_bvector_statistics, BM_ERR_BADALLOC, BM_ERR_RANGE, BM_ERR_SERIALFORMAT, BM_OK};
use vstd::bytes::{lemma_auto_spec_u32_to_from_le_bytes, spec_u32_to_le_bytes};
use vstd::bytes::{u32_from_le_bytes, u32_to_le_bytes};
use vstd::slice::slice_subrange;

verus! {

/// The size that the engine reserves for "not set".
pub const SIZE_UNSET: u32 = 0xFFFF_FFFF;

/// The number of addressable bits under a given size: an unset size
/// addresses none.
pub open spec fn logical_len(size: u32) -> nat {
    if size == SIZE_UNSET {
        0
    } else {
        size as nat
    }
}

/// Whether `a` and `b` differ at `p` and agree everywhere below it.
pub open spec fn first_difference(a: Seq<bool>, b: Seq<bool>, p: int) -> bool {
    &&& 0 <= p
    &&& bit(a, p) != bit(b, p)
    &&& forall|q: int| 0 <= q < p ==> bit(a, q) == bit(b, q)
}

/// Whether `a` and `b` hold the same set bits.
pub open spec fn same_bits(a: Seq<bool>, b: Seq<bool>) -> bool {
    forall|i: int| 0 <= i ==> bit(a, i) == bit(b, i)
}

/// Whether `a` comes before `b`: at the first position where they differ,
/// the bit is set in `b`.
pub open spec fn precedes(a: Seq<bool>, b: Seq<bool>) -> bool {
    exists|p: int| first_difference(a, b, p) && bit(b, p)
}

/// A bit store with a size. Every value is valid: what is stored at or
/// beyond the logical length is not part of the view.
#[derive(Debug)]
pub struct Engine {
    size: u32,
    bits: Vec<bool>,
}

impl View for Engine {
    type V = Seq<bool>;

    closed spec fn view(&self) -> Seq<bool> {
        Seq::new(logical_len(self.size), |i: int| i < self.bits@.len() && self.bits@[i])
    }
}

fn limit_of(size: u32) -> (n: usize)
    ensures
        n == logical_len(size),
{
    if size == SIZE_UNSET {
        0
    } else {
        size as usize
    }
}

fn pad(bits: &mut Vec<bool>, n: usize)
    ensures
        final(bits)@.len() == if old(bits)@.len() >= n { old(bits)@.len() } else { n as nat },
        forall|i: int| 0 <= i < final(bits)@.len() ==> final(bits)@[i] == bit(old(bits)@, i),
{
    while bits.len() < n
        invariant
            bits@.len() <= n || bits@.len() == old(bits)@.len(),
            bits@.len() >= old(bits)@.len(),
            forall|i: int| 0 <= i < bits@.len() ==> bits@[i] == bit(old(bits)@, i),
        decreases n - bits@.len(),
    {
        bits.push(false);
    }
}

fn push_word(buf: &mut Vec<u8>, word: u32)
    ensures
        final(buf)@ == old(buf)@ + spec_u32_to_le_bytes(word),
{
    let mut bytes = u32_to_le_bytes(word);
    buf.append(&mut bytes);
}

fn combine_bit(op: Operation, a: bool, b: bool) -> (r: bool)
    ensures
        r == apply(op, a, b),
{
    match op {
        Operation::And => a && b,
        Operation::Or => a || b,
        Operation::Xor => a != b,
        Operation::Sub => a && !b,
    }
}

impl Engine {
    /// The size as it was set, the reserved value included.
    pub closed spec fn raw_size(&self) -> u32 {
        self.size
    }

    /// The view is as long as the size says.
    pub proof fn lemma_len(&self)
        ensures
            self@.len() == logical_len(self.raw_size()),
    {
    }

    /// Creates an engine of the given size with all bits cleared.
    pub fn construct(bv_max: u32) -> (e: Engine)
        ensures
            e.raw_size() == bv_max,
            e@ == zeros(logical_len(bv_max)),
    {
        let e = Engine { size: bv_max, bits: Vec::new() };
        assert(e@ =~= zeros(logical_len(bv_max)));
        e
    }

    /// Creates an independent engine with the same size and bits.
    pub fn construct_copy(&self) -> (e: Engine)
        ensures
            e.raw_size() == self.raw_size(),
            e@ == self@,
    {
        let stop = self.stored();
        let mut bits: Vec<bool> = Vec::new();
        let mut k: usize = 0;
        while k < stop
            invariant
                k <= stop,
                stop <= self.bits@.len(),
                bits@.len() == k,
                forall|i: int| 0 <= i < k ==> bits@[i] == self.bits@[i],
            decreases stop - k,
        {
            bits.push(self.bits[k]);
            k += 1;
        }
        let e = Engine { size: self.size, bits };
        assert(e@ =~= self@);
        e
    }

    /// Number of stored bits that are visible.
    fn stored(&self) -> (n: usize)
        ensures
            n <= self.bits@.len(),
            n <= self@.len(),
            n == self.bits@.len() || n == self@.len(),
            forall|i: int| n <= i ==> !bit(self@, i),
            forall|i: int| 0 <= i < n ==> bit(self@, i) == self.bits@[i],
    {
        let limit = limit_of(self.size);
        if self.bits.len() < limit {
            self.bits.len()
        } else {
            limit
        }
    }

    /// Drops what is stored beyond the visible bits.
    fn settle(&mut self)
        ensures
            final(self)@ == old(self)@,
            final(self).raw_size() == old(self).raw_size(),
            final(self).bits@.len() <= final(self)@.len(),
    {
        let limit = limit_of(self.size);
        if self.bits.len() > limit {
            self.bits.truncate(limit);
        }
        assert(self@ =~= old(self)@);
    }

    /// The size as it was set.
    pub fn get_size(&self) -> (size: u32)
        ensures
            size == self.raw_size(),
    {
        self.size
    }

    /// Sets the size. Bits at or beyond the new logical length are dropped;
    /// bits that become addressable read as cleared.
    pub fn set_size(&mut self, new_size: u32) -> (status: i32)
        ensures
            status == BM_OK,
            final(self).raw_size() == new_size,
            final(self)@ == resized(old(self)@, logical_len(new_size)),
    {
        self.settle();
        let limit = limit_of(new_size);
        if self.bits.len() > limit {
            self.bits.truncate(limit);
        }
        self.size = new_size;
        assert(self@ =~= resized(old(self)@, logical_len(new_size)));
        BM_OK
    }

    /// Reads one bit; a position that is not addressable reads as cleared.
    pub fn get_bit(&self, i: u32) -> (value: bool)
        ensures
            value == bit(self@, i as int),
    {
        let idx = i as usize;
        idx < self.stored() && self.bits[idx]
    }

    /// Writes one bit, after checking that the position is addressable.
    pub fn set_bit(&mut self, i: u32, value: bool) -> (status: i32)
        ensures
            final(self).raw_size() == old(self).raw_size(),
            i < old(self)@.len() ==> status == BM_OK && final(self)@ == old(self)@.update(
                i as int,
                value,
            ),
            i >= old(self)@.len() ==> status == BM_ERR_RANGE && final(self)@ == old(self)@,
    {
        let idx = i as usize;
        if idx >= limit_of(self.size) {
            return BM_ERR_RANGE;
        }
        self.set_bit_no_check(i, value)
    }

    /// Writes one bit without checking the position.
    pub fn set_bit_no_check(&mut self, i: u32, value: bool) -> (status: i32)
        requires
            i < old(self)@.len(),
        ensures
            status == BM_OK,
            final(self).raw_size() == old(self).raw_size(),
            final(self)@ == old(self)@.update(i as int, value),
    {
        let idx = i as usize;
        if value {
            pad(&mut self.bits, idx + 1);
        }
        if idx < self.bits.len() {
            self.bits.set(idx, value);
        }
        assert(self@ =~= old(self)@.update(i as int, value));
        BM_OK
    }

    /// Inverts one bit, after checking that the position is addressable.
    pub fn flip_bit(&mut self, i: u32) -> (status: i32)
        ensures
            final(self).raw_size() == old(self).raw_size(),
            i < old(self)@.len() ==> status == BM_OK && final(self)@ == old(self)@.update(
                i as int,
                !old(self)@[i as int],
            ),
            i >= old(self)@.len() ==> status == BM_ERR_RANGE && final(self)@ == old(self)@,
    {
        let value = !self.get_bit(i);
        self.set_bit(i, value)
    }

    /// Writes `value` to every bit in `[left, right]`, both ends included.
    /// A range that runs backwards or ends beyond the addressable bits is
    /// refused and nothing is written.
    pub fn set_range(&mut self, left: u32, right: u32, value: bool) -> (status: i32)
        ensures
            final(self).raw_size() == old(self).raw_size(),
            left <= right < old(self)@.len() ==> status == BM_OK && final(self)@ == with_range(
                old(self)@,
                left as int,
                right + 1,
                value,
            ),
            !(left <= right < old(self)@.len()) ==> status == BM_ERR_RANGE && final(self)@ == old(
                self,
            )@,
    {
        if left > right || right as usize >= limit_of(self.size) {
            return BM_ERR_RANGE;
        }
        if value {
            pad(&mut self.bits, right as usize + 1);
        }
        let ghost padded = self.bits@;
        let stop = if (right as usize) < self.bits.len() {
            right as usize + 1
        } else {
            self.bits.len()
        };
        let mut k: usize = left as usize;
        while k < stop
            invariant
                left <= k,
                k <= stop || k == left,
                self.size == old(self).size,
                self.bits@.len() == padded.len(),
                stop <= padded.len(),
                stop == right + 1 || stop == padded.len(),
                stop <= right + 1,
                right < logical_len(self.size),
                value ==> padded.len() > right,
                padded.len() >= old(self).bits@.len(),
                forall|i: int| 0 <= i < padded.len() ==> padded[i] == bit(old(self).bits@, i),
                forall|i: int|
                    0 <= i < padded.len() ==> self.bits@[i] == if left <= i < k {
                        value
                    } else {
                        padded[i]
                    },
            decreases stop - k,
        {
            self.bits.set(k, value);
            k += 1;
        }
        assert(self@ =~= with_range(old(self)@, left as int, right + 1, value));
        BM_OK
    }

    /// Counts the set bits in `[left, right]`, both ends included. A range
    /// that runs backwards or ends beyond the addressable bits is refused.
    pub fn count_range(&self, left: u32, right: u32) -> (r: (i32, u32))
        ensures
            left <= right < self@.len() ==> r.0 == BM_OK && r.1 == count_range(
                self@,
                left as int,
                right + 1,
            ),
            !(left <= right < self@.len()) ==> r.0 == BM_ERR_RANGE && r.1 == 0,
    {
        if left > right || right as usize >= limit_of(self.size) {
            return (BM_ERR_RANGE, 0);
        }
        let stored = self.stored();
        let stop = if (right as usize) < stored {
            right as usize + 1
        } else {
            stored
        };
        if stop <= left as usize {
            proof {
                lemma_count_clear(self@, left as int, right + 1);
            }
            return (BM_OK, 0);
        }
        let mut count: u32 = 0;
        let mut k: usize = left as usize;
        while k < stop
            invariant
                left <= k <= stop,
                stop <= stored,
                stored <= self.bits@.len(),
                forall|i: int| 0 <= i < stored ==> bit(self@, i) == self.bits@[i],
                count == count_range(self@, left as int, k as int),
                count <= k - left,
                stop <= right + 1,
                right < u32::MAX,
            decreases stop - k,
        {
            if self.bits[k] {
                count += 1;
            }
            k += 1;
        }
        proof {
            lemma_count_split(self@, left as int, stop as int, right + 1);
            lemma_count_clear(self@, stop as int, right + 1);
        }
        (BM_OK, count)
    }

    /// Combines this engine with `other` in place. The size is stretched to
    /// that of `other` where `other` is longer.
    pub fn combine(&mut self, other: &Engine, op: Operation) -> (status: i32)
        ensures
            status == BM_OK,
            final(self)@ == combined(op, old(self)@, other@),
            final(self).raw_size() == if other@.len() > old(self)@.len() {
                other.raw_size()
            } else {
                old(self).raw_size()
            },
    {
        self.settle();
        let theirs = other.stored();
        if limit_of(other.size) > limit_of(self.size) {
            self.size = other.size;
        }
        let ghost settled = self.bits@;
        pad(&mut self.bits, theirs);
        let ghost padded = self.bits@;
        let ghost size = self.size;
        let stop = self.bits.len();
        assert forall|i: int| 0 <= i < padded.len() implies padded[i] == bit(old(self)@, i) by {
            assert(padded[i] == bit(settled, i));
        }
        let mut k: usize = 0;
        while k < stop
            invariant
                k <= stop,
                stop == padded.len(),
                self.size == size,
                logical_len(size) == combined(op, old(self)@, other@).len(),
                padded.len() <= logical_len(size),
                forall|i: int| 0 <= i < padded.len() ==> padded[i] == bit(old(self)@, i),
                forall|i: int| padded.len() <= i ==> !bit(old(self)@, i),
                self.bits@.len() == padded.len(),
                theirs <= other.bits@.len(),
                forall|i: int| 0 <= i < theirs ==> bit(other@, i) == other.bits@[i],
                forall|i: int| theirs <= i ==> !bit(other@, i),
                forall|i: int|
                    0 <= i < padded.len() ==> self.bits@[i] == if i < k {
                        apply(op, padded[i], bit(other@, i))
                    } else {
                        padded[i]
                    },
            decreases stop - k,
        {
            let a = self.bits[k];
            let b = k < theirs && other.bits[k];
            self.bits.set(k, combine_bit(op, a, b));
            k += 1;
        }
        assert(self@ =~= combined(op, old(self)@, other@));
        BM_OK
    }

    /// Counts the set bits of the combination of this engine with `other`,
    /// without changing either.
    pub fn count_combined(&self, other: &Engine, op: Operation) -> (count: u32)
        ensures
            count == count_range(
                combined(op, self@, other@),
                0,
                combined(op, self@, other@).len() as int,
            ),
    {
        let ours = self.stored();
        let theirs = other.stored();
        let stop = if ours >= theirs {
            ours
        } else {
            theirs
        };
        let ghost both = combined(op, self@, other@);
        let mut count: u32 = 0;
        let mut k: usize = 0;
        while k < stop
            invariant
                k <= stop,
                stop <= both.len(),
                both == combined(op, self@, other@),
                both.len() <= u32::MAX,
                ours <= self.bits@.len(),
                theirs <= other.bits@.len(),
                forall|i: int| 0 <= i < ours ==> bit(self@, i) == self.bits@[i],
                forall|i: int| ours <= i ==> !bit(self@, i),
                forall|i: int| 0 <= i < theirs ==> bit(other@, i) == other.bits@[i],
                forall|i: int| theirs <= i ==> !bit(other@, i),
                count == count_range(both, 0, k as int),
                count <= k,
            decreases stop - k,
        {
            let a = k < ours && self.bits[k];
            let b = k < theirs && other.bits[k];
            if combine_bit(op, a, b) {
                count += 1;
            }
            k += 1;
        }
        proof {
            lemma_count_split(both, 0, stop as int, both.len() as int);
            lemma_count_clear(both, stop as int, both.len() as int);
        }
        count
    }

    /// Finds the lowest set bit above `after`. The result is 0, which is
    /// never above `after`, where there is none.
    pub fn get_next(&self, after: u32) -> (next: u32)
        ensures
            next > after ==> bit(self@, next as int) && forall|q: int|
                after < q < next ==> !bit(self@, q),
            next <= after ==> next == 0 && forall|q: int| after < q ==> !bit(self@, q),
    {
        let stop = self.stored();
        if after as usize >= stop {
            return 0;
        }
        let mut k: usize = after as usize + 1;
        while k < stop
            invariant
                after < k <= stop,
                stop <= self.bits@.len(),
                stop <= self@.len(),
                forall|i: int| 0 <= i < stop ==> bit(self@, i) == self.bits@[i],
                forall|i: int| stop <= i ==> !bit(self@, i),
                forall|q: int| after < q < k ==> !bit(self@, q),
            decreases stop - k,
        {
            if self.bits[k] {
                return k as u32;
            }
            k += 1;
        }
        0
    }

    /// Compares the bits of two engines at the first position where they
    /// differ: 0 where there is none, 1 where the bit is set in this engine,
    /// -1 where it is set in `other`. The sizes play no part.
    pub fn compare(&self, other: &Engine) -> (res: i32)
        ensures
            res == 0 || res == 1 || res == -1,
            res == 0 <==> same_bits(self@, other@),
            res == 1 <==> precedes(other@, self@),
            res == -1 <==> precedes(self@, other@),
    {
        let ours = self.stored();
        let theirs = other.stored();
        let stop = if ours >= theirs {
            ours
        } else {
            theirs
        };
        let mut k: usize = 0;
        while k < stop
            invariant
                k <= stop,
                ours <= self.bits@.len(),
                theirs <= other.bits@.len(),
                ours <= stop,
                theirs <= stop,
                forall|i: int| 0 <= i < ours ==> bit(self@, i) == self.bits@[i],
                forall|i: int| ours <= i ==> !bit(self@, i),
                forall|i: int| 0 <= i < theirs ==> bit(other@, i) == other.bits@[i],
                forall|i: int| theirs <= i ==> !bit(other@, i),
                forall|q: int| 0 <= q < k ==> bit(self@, q) == bit(other@, q),
            decreases stop - k,
        {
            let a = k < ours && self.bits[k];
            let b = k < theirs && other.bits[k];
            if a != b {
                proof {
                    lemma_decided(self@, other@, k as int);
                }
                return if a {
                    1
                } else {
                    -1
                };
            }
            k += 1;
        }
        proof {
            lemma_undecided(self@, other@);
        }
        0
    }

    /// Compacts the storage, which then ends behind the highest set bit,
    /// and reports statistics, among them the number of bytes that a buffer
    /// for the blob must hold. Where that number cannot be represented, the
    /// status says so and the bound is reported as 0. Every mode compacts
    /// in full.
    pub fn optimize(&mut self, opt_mode: i32) -> (r: (i32, BM_bvector_statistics))
        ensures
            final(self)@ == old(self)@,
            final(self).raw_size() == old(self).raw_size(),
            encoded_len(old(self)@) <= usize::MAX ==> r.0 == BM_OK && r.1.max_serialize_mem
                == encoded_len(old(self)@),
            encoded_len(old(self)@) > usize::MAX ==> r.0 == BM_ERR_BADALLOC
                && r.1.max_serialize_mem == 0,
            r.1.gap_blocks == 0,
            r.1.bit_blocks == if span(old(self)@) > 0 { 1usize } else { 0usize },
            r.1.memory_used == span(old(self)@),
    {
        self.settle();
        while self.bits.len() > 0 && !self.bits[self.bits.len() - 1]
            invariant
                self@ == old(self)@,
                self.size == old(self).size,
                self.bits@.len() <= self@.len(),
            decreases self.bits@.len(),
        {
            self.bits.pop();
            assert(self@ =~= old(self)@);
        }
        let stop = self.bits.len();
        proof {
            lemma_span(self@, stop as int);
        }
        let mut count: usize = 0;
        let mut k: usize = 0;
        while k < stop
            invariant
                k <= stop,
                stop == self.bits@.len(),
                stop <= self@.len(),
                count == count_range(self@, 0, k as int),
                count <= k,
            decreases stop - k,
        {
            if self.bits[k] {
                count += 1;
            }
            k += 1;
        }
        proof {
            lemma_count_split(self@, 0, stop as int, self@.len() as int);
            lemma_count_clear(self@, stop as int, self@.len() as int);
        }
        let blocks: usize = if stop > 0 {
            1
        } else {
            0
        };
        if count > (usize::MAX - 4) / 4 {
            let stats = BM_bvector_statistics {
                bit_blocks: blocks,
                gap_blocks: 0,
                max_serialize_mem: 0,
                memory_used: stop,
            };
            return (BM_ERR_BADALLOC, stats);
        }
        let stats = BM_bvector_statistics {
            bit_blocks: blocks,
            gap_blocks: 0,
            max_serialize_mem: 4 + 4 * count,
            memory_used: stop,
        };
        (BM_OK, stats)
    }

    /// Writes the blob of this engine into `buf`, replacing what `buf`
    /// held, and returns the number of bytes written.
    pub fn serialize(&self, buf: &mut Vec<u8>) -> (r: (i32, usize))
        ensures
            r.0 == BM_OK,
            final(buf)@ == encode(self@),
            r.1 == final(buf)@.len(),
    {
        proof {
            lemma_auto_spec_u32_to_from_le_bytes();
        }
        buf.clear();
        push_word(buf, limit_of(self.size) as u32);
        let stop = self.stored();
        let ghost header = spec_u32_to_le_bytes(self@.len() as u32);
        let mut k: usize = 0;
        assert(buf@ =~= header + encode_positions(ones_in(self@, 0, 0)));
        while k < stop
            invariant
                k <= stop,
                stop <= self.bits@.len(),
                stop <= self@.len(),
                self@.len() < u32::MAX,
                forall|i: int| 0 <= i < stop ==> bit(self@, i) == self.bits@[i],
                header == spec_u32_to_le_bytes(self@.len() as u32),
                buf@ == header + encode_positions(ones_in(self@, 0, k as int)),
            decreases stop - k,
        {
            if self.bits[k] {
                let ghost before = ones_in(self@, 0, k as int);
                push_word(buf, k as u32);
                proof {
                    let now = ones_in(self@, 0, k + 1);
                    assert(now == before.push(k as int));
                    assert(now.drop_last() =~= before);
                    assert(buf@ =~= header + encode_positions(now));
                }
            }
            k += 1;
        }
        proof {
            lemma_ones_trim(self@, 0, stop as int, self@.len() as int);
        }
        (BM_OK, buf.len())
    }

    /// Replaces size and bits by what the blob in `buf` holds. Bytes that
    /// are no blob are refused and nothing changes.
    pub fn deserialize(&mut self, buf: &[u8]) -> (status: i32)
        ensures
            well_formed(buf@) ==> status == BM_OK && final(self)@ == decoded(buf@)
                && final(self).raw_size() == word_at(buf@, 0),
            !well_formed(buf@) ==> status == BM_ERR_SERIALFORMAT && final(self)@ == old(self)@
                && final(self).raw_size() == old(self).raw_size(),
    {
        let n = buf.len();
        if n < 4 || n % 4 != 0 {
            return BM_ERR_SERIALFORMAT;
        }
        let size = u32_from_le_bytes(slice_subrange(buf, 0, 4));
        let limit = limit_of(size);
        let count = n / 4 - 1;
        let mut bits: Vec<bool> = Vec::new();
        let mut j: usize = 0;
        while j < count
            invariant
                j <= count,
                n == buf@.len(),
                n >= 4,
                n % 4 == 0,
                count == blob_count(buf@),
                limit == blob_len(buf@),
                bits@.len() <= limit,
                forall|i: int| 0 <= i < j ==> #[trigger] blob_position(buf@, i) < bits@.len(),
                forall|i: int, k: int|
                    0 <= i < k < j ==> #[trigger] blob_position(buf@, i) < #[trigger] blob_position(
                        buf@,
                        k,
                    ),
                forall|p: int|
                    0 <= p < bits@.len() ==> bits@[p] == exists|i: int|
                        0 <= i < j && #[trigger] blob_position(buf@, i) == p,
                j > 0 ==> bits@.len() == blob_position(buf@, j - 1) + 1,
                j == 0 ==> bits@.len() == 0,
            decreases count - j,
        {
            let p = u32_from_le_bytes(slice_subrange(buf, 4 * (j + 1), 4 * (j + 1) + 4)) as usize;
            assert(p == blob_position(buf@, j as int));
            if p >= limit || p < bits.len() {
                proof {
                    if p < bits@.len() {
                        assert(blob_position(buf@, j - 1) >= blob_position(buf@, j as int));
                    }
                }
                return BM_ERR_SERIALFORMAT;
            }
            let ghost before = bits@;
            pad(&mut bits, p);
            bits.push(true);
            proof {
                assert forall|q: int| 0 <= q < bits@.len() implies bits@[q] == exists|i: int|
                    0 <= i < j + 1 && #[trigger] blob_position(buf@, i) == q by {
                    if q == p {
                        assert(blob_position(buf@, j as int) == q);
                    } else if q < before.len() {
                        assert(bits@[q] == before[q]);
                    } else {
                    }
                }
            }
            j += 1;
        }
        self.size = size;
        self.bits = bits;
        assert(self@ =~= decoded(buf@));
        BM_OK
    }

    /// Clears every bit. The size stays.
    pub fn clear(&mut self, free_mem: bool) -> (status: i32)
        ensures
            status == BM_OK,
            final(self).raw_size() == old(self).raw_size(),
            final(self)@ == zeros(old(self)@.len()),
    {
        if free_mem {
            self.bits = Vec::new();
        } else {
            self.bits.clear();
        }
        assert(self@ =~= zeros(old(self)@.len()));
        BM_OK
    }
}

/// Two bit vectors that differ first at `p` are ordered by the bit at `p`,
/// and in no other way.
pub proof fn lemma_decided(a: Seq<bool>, b: Seq<bool>, p: int)
    requires
        first_difference(a, b, p),
    ensures
        !same_bits(a, b),
        precedes(a, b) <==> bit(b, p),
        precedes(b, a) <==> bit(a, p),
{
    assert(first_difference(b, a, p));
    assert forall|q: int| first_difference(a, b, q) implies q == p by {
        if q < p {
            assert(bit(a, q) == bit(b, q));
        }
        if p < q {
            assert(bit(a, p) == bit(b, p));
        }
    }
    assert forall|q: int| first_difference(b, a, q) implies q == p by {
        if q < p {
            assert(bit(a, q) == bit(b, q));
        }
        if p < q {
            assert(bit(b, p) == bit(a, p));
        }
    }
}

/// Two bit vectors with the same set bits are not ordered.
pub proof fn lemma_undecided(a: Seq<bool>, b: Seq<bool>)
    requires
        same_bits(a, b),
    ensures
        !precedes(a, b),
        !precedes(b, a),
{
    assert forall|q: int| !first_difference(a, b, q) by {
        if 0 <= q {
            assert(bit(a, q) == bit(b, q));
        }
    }
    assert forall|q: int| !first_difference(b, a, q) by {
        if 0 <= q {
            assert(bit(a, q) == bit(b, q));
        }
    }
}

} // verus!
