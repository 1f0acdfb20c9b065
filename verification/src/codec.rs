//! The serialization format.
//!
//! A blob is a sequence of 32-bit little-endian words: the length of the bit
//! vector in bits, then the positions of its set bits in ascending order.

use vstd::prelude::*;
use vstd::bytes::{
    lemma_auto_spec_u32_to_from_le_bytes, spec_u32_from_le_bytes, spec_u32_to_le_bytes,
};
use crate::bits::{count_range, ones_of};
use crate::engine::{logical_len, SIZE_UNSET};
use crate::bits::{lemma_count_bound, lemma_ones_ascending, lemma_ones_contains, lemma_ones_len};

verus! {

/// The words of a list of positions, one after the other.
pub open spec fn encode_positions(positions: Seq<int>) -> Seq<u8>
    decreases positions.len(),
{
    if positions.len() == 0 {
        Seq::empty()
    } else {
        encode_positions(positions.drop_last()) + spec_u32_to_le_bytes(positions.last() as u32)
    }
}

/// The blob of a bit vector.
pub open spec fn encode(s: Seq<bool>) -> Seq<u8> {
    spec_u32_to_le_bytes(s.len() as u32) + encode_positions(ones_of(s))
}

/// The number of bytes in the blob of a bit vector.
pub open spec fn encoded_len(s: Seq<bool>) -> nat {
    4 + 4 * count_range(s, 0, s.len() as int)
}

/// The `k`-th word of a blob.
pub open spec fn word_at(bytes: Seq<u8>, k: int) -> u32 {
    spec_u32_from_le_bytes(bytes.subrange(4 * k, 4 * k + 4))
}

/// The length in bits that a blob declares; the reserved size declares
/// none.
pub open spec fn blob_len(bytes: Seq<u8>) -> nat {
    logical_len(word_at(bytes, 0))
}

/// The number of positions in a blob.
pub open spec fn blob_count(bytes: Seq<u8>) -> int {
    bytes.len() / 4 - 1
}

/// The `j`-th position in a blob.
pub open spec fn blob_position(bytes: Seq<u8>, j: int) -> int {
    word_at(bytes, j + 1) as int
}

/// Whether a sequence of bytes is a blob: whole words, at least one, with
/// positions that ascend strictly and lie below the declared length.
pub open spec fn well_formed(bytes: Seq<u8>) -> bool {
    &&& bytes.len() >= 4
    &&& bytes.len() % 4 == 0
    &&& forall|j: int|
        0 <= j < blob_count(bytes) ==> #[trigger] blob_position(bytes, j) < blob_len(bytes)
    &&& forall|i: int, j: int|
        0 <= i < j < blob_count(bytes) ==> #[trigger] blob_position(bytes, i)
            < #[trigger] blob_position(bytes, j)
}

/// The bit vector that a blob stands for.
pub open spec fn decoded(bytes: Seq<u8>) -> Seq<bool> {
    Seq::new(
        blob_len(bytes),
        |i: int| exists|j: int| 0 <= j < blob_count(bytes) && #[trigger] blob_position(bytes, j) == i,
    )
}

/// The words of a list of positions lie one after the other, four bytes
/// each.
pub proof fn lemma_encode_positions(positions: Seq<int>)
    ensures
        encode_positions(positions).len() == 4 * positions.len(),
        forall|j: int|
            0 <= j < positions.len() ==> #[trigger] encode_positions(positions).subrange(
                4 * j,
                4 * j + 4,
            ) == spec_u32_to_le_bytes(positions[j] as u32),
    decreases positions.len(),
{
    lemma_auto_spec_u32_to_from_le_bytes();
    if positions.len() > 0 {
        let front = positions.drop_last();
        lemma_encode_positions(front);
        let all = encode_positions(positions);
        let word = spec_u32_to_le_bytes(positions.last() as u32);
        assert(all == encode_positions(front) + word);
        assert forall|j: int| 0 <= j < positions.len() implies #[trigger] all.subrange(
            4 * j,
            4 * j + 4,
        ) == spec_u32_to_le_bytes(positions[j] as u32) by {
            if j < front.len() {
                assert(all.subrange(4 * j, 4 * j + 4) =~= encode_positions(front).subrange(
                    4 * j,
                    4 * j + 4,
                ));
                assert(front[j] == positions[j]);
            } else {
                assert(all.subrange(4 * j, 4 * j + 4) =~= word);
            }
        }
    }
}

/// A blob is as long as `encoded_len` says.
pub proof fn lemma_encoded_len(s: Seq<bool>)
    ensures
        encode(s).len() == encoded_len(s),
{
    lemma_auto_spec_u32_to_from_le_bytes();
    lemma_encode_positions(ones_of(s));
    lemma_ones_len(s, 0, s.len() as int);
}

/// A blob holds at most one word per bit, and one more.
pub proof fn lemma_encoded_len_bound(s: Seq<bool>)
    ensures
        encoded_len(s) <= 4 + 4 * s.len(),
{
    lemma_count_bound(s, 0, s.len() as int);
}

/// Decoding undoes encoding: the blob of a bit vector is well formed and
/// stands for that bit vector.
pub proof fn lemma_round_trip(s: Seq<bool>)
    requires
        s.len() < SIZE_UNSET,
    ensures
        well_formed(encode(s)),
        decoded(encode(s)) == s,
{
    lemma_auto_spec_u32_to_from_le_bytes();
    let positions = ones_of(s);
    let bytes = encode(s);
    let header = spec_u32_to_le_bytes(s.len() as u32);
    let payload = encode_positions(positions);
    lemma_encode_positions(positions);
    lemma_ones_ascending(s, 0, s.len() as int);
    assert(bytes.subrange(0, 4) =~= header);
    assert(word_at(bytes, 0) == s.len());
    assert(blob_len(bytes) == s.len());
    assert(blob_count(bytes) == positions.len());
    assert forall|j: int| 0 <= j < positions.len() implies #[trigger] blob_position(bytes, j)
        == positions[j] by {
        assert(bytes.subrange(4 * (j + 1), 4 * (j + 1) + 4) =~= payload.subrange(4 * j, 4 * j + 4));
    }
    assert forall|i: int| 0 <= i < s.len() implies decoded(bytes)[i] == s[i] by {
        lemma_ones_contains(s, 0, s.len() as int, i);
        if s[i] {
            let j = choose|j: int| 0 <= j < positions.len() && positions[j] == i;
            assert(blob_position(bytes, j) == i);
        }
    }
    assert(decoded(bytes) =~= s);
}

} // verus!
