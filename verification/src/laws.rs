//! What holds of the container whatever its contents, proved from the
//! contracts of its operations.

use vstd::prelude::*;
use crate::bits::{bit, combined, count_range, lists, longer, ones_of, resized, shorter, zeros};
use crate::bits::{lemma_ones_ascending, lemma_ones_contains, lemma_ones_len, Operation};
use crate::bvector::{length_for, subset, superset, BVector};
use crate::codec::{decoded, encode, lemma_round_trip, well_formed};
use crate::engine::{same_bits, SIZE_UNSET};
use crate::ops::{and_of, extended, lemma_extended_len, or_of, xor_of};

verus! {

/// A position below the length is set exactly if `ones` yields it.
pub proof fn law_contains_is_in_ones(x: &BVector, p: int)
    requires
        0 <= p < x@.len(),
    ensures
        bit(x@, p) == ones_of(x@).contains(p),
{
    lemma_ones_contains(x@, 0, x@.len() as int, p);
}

/// Deserializing what was serialized succeeds and gives the same length
/// and the same bits, so a container that equals the one serialized.
pub proof fn law_serialize_round_trip(x: &BVector)
    ensures
        well_formed(encode(x@)),
        decoded(encode(x@)) == x@,
        same_bits(decoded(encode(x@)), x@),
{
    x.lemma_len_bound();
    lemma_round_trip(x@);
}

/// Growing to a greater length that the engine can hold keeps every bit
/// below the old length and leaves every new position cleared.
pub proof fn law_grow_keeps_and_clears(x: &BVector, bits: usize)
    requires
        bits > x@.len(),
        bits < SIZE_UNSET,
    ensures
        resized(x@, length_for(bits)).len() == bits,
        forall|p: int|
            0 <= p < x@.len() ==> bit(resized(x@, length_for(bits)), p) == bit(x@, p),
        forall|p: int| x@.len() <= p < bits ==> !bit(resized(x@, length_for(bits)), p),
{
}

/// The AND of two containers is as long as the shorter of them.
pub proof fn law_and_length(a: &BVector, b: &BVector)
    ensures
        and_of(a@, b@).len() == shorter(a@.len(), b@.len()),
{
}

/// The OR and the XOR of two containers are as long as the longer of them.
pub proof fn law_or_xor_length(a: &BVector, b: &BVector)
    ensures
        or_of(a@, b@).len() == longer(a@.len(), b@.len()),
        xor_of(a@, b@).len() == or_of(a@, b@).len(),
{
}

/// A container filled from a list that holds exactly the set positions of
/// `target` has, once brought to the length of `target`, the bits of `target`.
pub proof fn law_collected(positions: Seq<usize>, target: Seq<bool>)
    requires
        forall|p: int|
            0 <= p ==> (bit(target, p) <==> exists|k: int|
                0 <= k < positions.len() && positions[k] == p),
    ensures
        resized(extended(zeros(0), positions), target.len()) == target,
        same_bits(extended(zeros(0), positions), target),
{
    let filled = extended(zeros(0), positions);
    lemma_extended_len(0, positions);
    assert forall|p: int| 0 <= p implies bit(filled, p) == bit(target, p) by {
        if bit(target, p) {
            let k = choose|k: int| 0 <= k < positions.len() && positions[k] == p;
            assert(p < filled.len());
        }
    }
    assert(resized(filled, target.len()) =~= target);
}

/// The positions that `intersection` yields, collected into a container,
/// give the bits that `intersect_with` leaves.
pub proof fn law_intersection_collected(a: &BVector, b: &BVector, positions: Seq<usize>)
    requires
        lists(positions, ones_of(combined(Operation::And, a@, b@))),
    ensures
        resized(extended(zeros(0), positions), combined(Operation::And, a@, b@).len()) == combined(
            Operation::And,
            a@,
            b@,
        ),
{
    let target = combined(Operation::And, a@, b@);
    lemma_listed(positions, target);
    law_collected(positions, target);
}

/// The positions that `difference` yields, collected into a container,
/// give the bits that `difference_with` leaves.
pub proof fn law_difference_collected(a: &BVector, b: &BVector, positions: Seq<usize>)
    requires
        lists(positions, ones_of(combined(Operation::Sub, a@, b@))),
    ensures
        resized(extended(zeros(0), positions), combined(Operation::Sub, a@, b@).len()) == combined(
            Operation::Sub,
            a@,
            b@,
        ),
{
    let target = combined(Operation::Sub, a@, b@);
    lemma_listed(positions, target);
    law_collected(positions, target);
}

/// The positions that `union` yields, collected into a container, give the
/// bits that `union_with` leaves.
pub proof fn law_union_collected(a: &BVector, b: &BVector, positions: Seq<usize>)
    requires
        lists(positions, ones_of(a@) + ones_of(combined(Operation::Sub, b@, a@))),
    ensures
        resized(extended(zeros(0), positions), combined(Operation::Or, a@, b@).len()) == combined(
            Operation::Or,
            a@,
            b@,
        ),
{
    let first = ones_of(a@);
    let rest = combined(Operation::Sub, b@, a@);
    let second = ones_of(rest);
    let target = combined(Operation::Or, a@, b@);
    lemma_listed_chain(positions, a@, rest, target);
    law_collected(positions, target);
}

/// The positions that `symmetric_difference` yields, collected into a
/// container, give the bits that `symmetric_difference_with` leaves.
pub proof fn law_symmetric_difference_collected(a: &BVector, b: &BVector, positions: Seq<usize>)
    requires
        lists(
            positions,
            ones_of(combined(Operation::Sub, a@, b@)) + ones_of(combined(Operation::Sub, b@, a@)),
        ),
    ensures
        resized(extended(zeros(0), positions), combined(Operation::Xor, a@, b@).len()) == combined(
            Operation::Xor,
            a@,
            b@,
        ),
{
    let target = combined(Operation::Xor, a@, b@);
    lemma_listed_chain(
        positions,
        combined(Operation::Sub, a@, b@),
        combined(Operation::Sub, b@, a@),
        target,
    );
    law_collected(positions, target);
}

/// `union` yields no position twice, though it need not ascend from the
/// positions of the first container to those of the second.
pub proof fn law_union_yields_once(a: &BVector, b: &BVector)
    ensures
        (ones_of(a@) + ones_of(combined(Operation::Sub, b@, a@))).no_duplicates(),
{
    lemma_chain_once(a@, combined(Operation::Sub, b@, a@));
}

/// `symmetric_difference` yields no position twice.
pub proof fn law_symmetric_difference_yields_once(a: &BVector, b: &BVector)
    ensures
        (ones_of(combined(Operation::Sub, a@, b@)) + ones_of(
            combined(Operation::Sub, b@, a@),
        )).no_duplicates(),
{
    lemma_chain_once(combined(Operation::Sub, a@, b@), combined(Operation::Sub, b@, a@));
}

/// `a` is a subset of `b` exactly if `b` is a superset of `a`.
pub proof fn law_subset_superset(a: &BVector, b: &BVector)
    ensures
        subset(a@, b@) == superset(b@, a@),
{
}

/// Counting over the full range gives the number of positions that `ones`
/// yields.
pub proof fn law_count_is_number_of_ones(x: &BVector)
    ensures
        count_range(x@, 0, x@.len() as int) == ones_of(x@).len(),
{
    lemma_ones_len(x@, 0, x@.len() as int);
}

/// A range of width zero counts zero, wherever it lies.
pub proof fn law_count_zero_width(x: &BVector, at: int)
    ensures
        count_range(x@, at, at) == 0,
{
}

/// A list of the set positions of `target` holds a position exactly if its
/// bit is set.
proof fn lemma_listed(positions: Seq<usize>, target: Seq<bool>)
    requires
        lists(positions, ones_of(target)),
    ensures
        forall|p: int|
            0 <= p ==> (bit(target, p) <==> exists|k: int|
                0 <= k < positions.len() && positions[k] == p),
{
    let wanted = ones_of(target);
    assert forall|p: int| 0 <= p implies (bit(target, p) <==> exists|k: int|
        0 <= k < positions.len() && positions[k] == p) by {
        lemma_ones_contains(target, 0, target.len() as int, p);
        if bit(target, p) {
            let k = choose|k: int| 0 <= k < wanted.len() && wanted[k] == p;
            assert(positions[k] == p);
        }
        if exists|k: int| 0 <= k < positions.len() && positions[k] == p {
            let k = choose|k: int| 0 <= k < positions.len() && positions[k] == p;
            assert(wanted[k] == p);
        }
    }
}

/// The set positions of two bit vectors without a common set bit, one list
/// after the other, hold no position twice.
proof fn lemma_chain_once(first: Seq<bool>, second: Seq<bool>)
    requires
        forall|p: int| 0 <= p ==> !(bit(first, p) && bit(second, p)),
    ensures
        (ones_of(first) + ones_of(second)).no_duplicates(),
{
    let one = ones_of(first);
    let two = ones_of(second);
    let all = one + two;
    lemma_ones_ascending(first, 0, first.len() as int);
    lemma_ones_ascending(second, 0, second.len() as int);
    assert forall|i: int, j: int| 0 <= i < all.len() && 0 <= j < all.len() && i != j implies all[i]
        != all[j] by {
        if i < one.len() && j < one.len() {
            assert(all[i] == one[i] && all[j] == one[j]);
        } else if i >= one.len() && j >= one.len() {
            assert(all[i] == two[i - one.len()] && all[j] == two[j - one.len()]);
        } else if i < one.len() {
            assert(all[i] == one[i] && all[j] == two[j - one.len()]);
            assert(bit(first, one[i]) && bit(second, two[j - one.len()]));
        } else {
            assert(all[j] == one[j] && all[i] == two[i - one.len()]);
            assert(bit(first, one[j]) && bit(second, two[i - one.len()]));
        }
    }
}

/// A list of the set positions of `first`, then those of `second`, holds a
/// position exactly if its bit is set in a `target` that has the set bits of
/// both.
proof fn lemma_listed_chain(
    positions: Seq<usize>,
    first: Seq<bool>,
    second: Seq<bool>,
    target: Seq<bool>,
)
    requires
        lists(positions, ones_of(first) + ones_of(second)),
        forall|p: int| 0 <= p ==> bit(target, p) == (bit(first, p) || bit(second, p)),
    ensures
        forall|p: int|
            0 <= p ==> (bit(target, p) <==> exists|k: int|
                0 <= k < positions.len() && positions[k] == p),
{
    let one = ones_of(first);
    let two = ones_of(second);
    let wanted = one + two;
    assert forall|p: int| 0 <= p implies (bit(target, p) <==> exists|k: int|
        0 <= k < positions.len() && positions[k] == p) by {
        lemma_ones_contains(first, 0, first.len() as int, p);
        lemma_ones_contains(second, 0, second.len() as int, p);
        if bit(first, p) {
            let k = choose|k: int| 0 <= k < one.len() && one[k] == p;
            assert(wanted[k] == p);
            assert(positions[k] == p);
        } else if bit(second, p) {
            let k = choose|k: int| 0 <= k < two.len() && two[k] == p;
            assert(wanted[one.len() + k] == p);
            assert(positions[one.len() + k] == p);
        }
        if exists|k: int| 0 <= k < positions.len() && positions[k] == p {
            let k = choose|k: int| 0 <= k < positions.len() && positions[k] == p;
            assert(wanted[k] == p);
            if k < one.len() {
                assert(one[k] == p);
            } else {
                assert(two[k - one.len()] == p);
            }
        }
    }
}

} // verus!
