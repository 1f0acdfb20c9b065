//! The mathematical model: a bit vector is a `Seq<bool>`, and everything the
//! container computes is a function on such sequences.

use vstd::prelude::*;

verus! {

/// The bit at position `i`; positions outside the sequence read as `false`.
pub open spec fn bit(s: Seq<bool>, i: int) -> bool {
    0 <= i < s.len() && s[i]
}

/// `n` cleared bits.
pub open spec fn zeros(n: nat) -> Seq<bool> {
    Seq::new(n, |i: int| false)
}

/// `s` cut or padded with cleared bits to length `n`.
pub open spec fn resized(s: Seq<bool>, n: nat) -> Seq<bool> {
    Seq::new(n, |i: int| bit(s, i))
}

/// `s` with the bits in `[lo, hi)` replaced by `value`.
pub open spec fn with_range(s: Seq<bool>, lo: int, hi: int, value: bool) -> Seq<bool> {
    Seq::new(s.len(), |i: int| if lo <= i < hi { value } else { s[i] })
}

/// `s` with the bits in `[lo, hi)` inverted.
pub open spec fn with_range_toggled(s: Seq<bool>, lo: int, hi: int) -> Seq<bool> {
    Seq::new(s.len(), |i: int| if lo <= i < hi { !s[i] } else { s[i] })
}

/// Number of set bits of `s` in `[lo, hi)`.
pub open spec fn count_range(s: Seq<bool>, lo: int, hi: int) -> nat
    decreases hi - lo,
{
    if lo >= hi {
        0
    } else {
        count_range(s, lo, hi - 1) + if bit(s, hi - 1) { 1nat } else { 0nat }
    }
}

/// The positions of the set bits of `s` in `[lo, hi)`, in ascending order.
pub open spec fn ones_in(s: Seq<bool>, lo: int, hi: int) -> Seq<int>
    decreases hi - lo,
{
    if lo >= hi {
        Seq::empty()
    } else if bit(s, hi - 1) {
        ones_in(s, lo, hi - 1).push(hi - 1)
    } else {
        ones_in(s, lo, hi - 1)
    }
}

/// The positions of all set bits of `s`, in ascending order.
pub open spec fn ones_of(s: Seq<bool>) -> Seq<int> {
    ones_in(s, 0, s.len() as int)
}

/// The number of positions up to and including the highest set bit; 0 where
/// no bit is set.
pub open spec fn span(s: Seq<bool>) -> nat
    decreases s.len(),
{
    if s.len() == 0 {
        0
    } else if s.last() {
        s.len()
    } else {
        span(s.drop_last())
    }
}

/// Whether `items` holds the positions `wanted`, one for one.
pub open spec fn lists(items: Seq<usize>, wanted: Seq<int>) -> bool {
    &&& items.len() == wanted.len()
    &&& forall|k: int| 0 <= k < items.len() ==> items[k] == wanted[k]
}

/// The four ways in which the engine combines two bit vectors.
#[derive(Clone, Copy, Debug)]
pub enum Operation {
    And,
    Or,
    Xor,
    Sub,
}

/// One bit of a combination.
pub open spec fn apply(op: Operation, a: bool, b: bool) -> bool {
    match op {
        Operation::And => a && b,
        Operation::Or => a || b,
        Operation::Xor => a != b,
        Operation::Sub => a && !b,
    }
}

/// The longer of two lengths.
pub open spec fn longer(a: nat, b: nat) -> nat {
    if a >= b { a } else { b }
}

/// The shorter of two lengths.
pub open spec fn shorter(a: nat, b: nat) -> nat {
    if a <= b { a } else { b }
}

/// The engine's combination of `a` with `b`: bit by bit, over the longer of
/// the two lengths, with absent bits read as cleared.
pub open spec fn combined(op: Operation, a: Seq<bool>, b: Seq<bool>) -> Seq<bool> {
    Seq::new(longer(a.len(), b.len()), |i: int| apply(op, bit(a, i), bit(b, i)))
}

/// A count never exceeds the width of its range.
pub proof fn lemma_count_bound(s: Seq<bool>, lo: int, hi: int)
    ensures
        count_range(s, lo, hi) <= if hi >= lo { hi - lo } else { 0 },
    decreases hi - lo,
{
    if lo < hi {
        lemma_count_bound(s, lo, hi - 1);
    }
}

/// The span ends behind a set bit that only cleared bits follow.
pub proof fn lemma_span(s: Seq<bool>, n: int)
    requires
        0 <= n <= s.len(),
        n > 0 ==> s[n - 1],
        forall|i: int| n <= i < s.len() ==> !s[i],
    ensures
        span(s) == n,
    decreases s.len() - n,
{
    if n < s.len() {
        lemma_span(s.drop_last(), n);
    }
}

/// A range with a set bit counts at least one.
pub proof fn lemma_count_positive(s: Seq<bool>, lo: int, hi: int, p: int)
    requires
        lo <= p < hi,
        bit(s, p),
    ensures
        count_range(s, lo, hi) > 0,
    decreases hi - lo,
{
    if p < hi - 1 {
        lemma_count_positive(s, lo, hi - 1, p);
    }
}

/// A range without set bits counts zero.
pub proof fn lemma_count_clear(s: Seq<bool>, lo: int, hi: int)
    requires
        forall|i: int| lo <= i < hi ==> !bit(s, i),
    ensures
        count_range(s, lo, hi) == 0,
    decreases hi - lo,
{
    if lo < hi {
        lemma_count_clear(s, lo, hi - 1);
    }
}

/// A count over `[lo, hi)` is the sum of the counts over its two parts.
pub proof fn lemma_count_split(s: Seq<bool>, lo: int, mid: int, hi: int)
    requires
        lo <= mid <= hi,
    ensures
        count_range(s, lo, hi) == count_range(s, lo, mid) + count_range(s, mid, hi),
    decreases hi - mid,
{
    if mid < hi {
        lemma_count_split(s, lo, mid, hi - 1);
    }
}

/// The positions in `[lo, hi)` start with `lo` exactly if that bit is set.
pub proof fn lemma_ones_peel_front(s: Seq<bool>, lo: int, hi: int)
    requires
        lo < hi,
    ensures
        ones_in(s, lo, hi) == if bit(s, lo) {
            seq![lo] + ones_in(s, lo + 1, hi)
        } else {
            ones_in(s, lo + 1, hi)
        },
    decreases hi - lo,
{
    if lo + 1 < hi {
        lemma_ones_peel_front(s, lo, hi - 1);
        let inner = ones_in(s, lo + 1, hi - 1);
        if bit(s, lo) && bit(s, hi - 1) {
            assert((seq![lo] + inner).push(hi - 1) =~= seq![lo] + inner.push(hi - 1));
        }
    } else {
        assert(ones_in(s, lo, lo) =~= Seq::<int>::empty());
        assert(ones_in(s, lo + 1, hi) =~= Seq::<int>::empty());
        if bit(s, lo) {
            assert(Seq::<int>::empty().push(lo) =~= seq![lo] + Seq::<int>::empty());
        }
    }
}

/// Cleared bits in front of `p` contribute no position.
pub proof fn lemma_ones_skip(s: Seq<bool>, lo: int, p: int, hi: int)
    requires
        lo <= p <= hi,
        forall|i: int| lo <= i < p ==> !bit(s, i),
    ensures
        ones_in(s, lo, hi) == ones_in(s, p, hi),
    decreases p - lo,
{
    if lo < p {
        lemma_ones_peel_front(s, lo, hi);
        lemma_ones_skip(s, lo + 1, p, hi);
    }
}

/// Cleared bits at the end of a range contribute no position.
pub proof fn lemma_ones_trim(s: Seq<bool>, lo: int, m: int, hi: int)
    requires
        lo <= m <= hi,
        forall|i: int| m <= i < hi ==> !bit(s, i),
    ensures
        ones_in(s, lo, hi) == ones_in(s, lo, m),
    decreases hi - m,
{
    if m < hi {
        lemma_ones_trim(s, lo, m, hi - 1);
    }
}

/// A range without set bits has no position.
pub proof fn lemma_ones_clear(s: Seq<bool>, lo: int, hi: int)
    requires
        forall|i: int| lo <= i < hi ==> !bit(s, i),
    ensures
        ones_in(s, lo, hi) == Seq::<int>::empty(),
{
    if lo <= hi {
        lemma_ones_trim(s, lo, lo, hi);
    }
}

/// The first set bit at or after `lo` heads the positions in `[lo, hi)`.
pub proof fn lemma_ones_first(s: Seq<bool>, lo: int, p: int, hi: int)
    requires
        lo <= p < hi,
        bit(s, p),
        forall|i: int| lo <= i < p ==> !bit(s, i),
    ensures
        ones_in(s, lo, hi) == seq![p] + ones_in(s, p + 1, hi),
{
    lemma_ones_skip(s, lo, p, hi);
    lemma_ones_peel_front(s, p, hi);
}

/// A position is listed exactly if it lies in the range and its bit is set.
pub proof fn lemma_ones_contains(s: Seq<bool>, lo: int, hi: int, p: int)
    ensures
        ones_in(s, lo, hi).contains(p) <==> (lo <= p < hi && bit(s, p)),
    decreases hi - lo,
{
    if lo < hi {
        lemma_ones_contains(s, lo, hi - 1, p);
        let rest = ones_in(s, lo, hi - 1);
        if bit(s, hi - 1) {
            let all = rest.push(hi - 1);
            assert(all[rest.len() as int] == hi - 1);
            if rest.contains(p) {
                let k = choose|k: int| 0 <= k < rest.len() && rest[k] == p;
                assert(all[k] == p);
            }
            if all.contains(p) {
                let k = choose|k: int| 0 <= k < all.len() && all[k] == p;
                if k < rest.len() {
                    assert(rest[k] == p);
                }
            }
        }
    }
}

/// The positions are strictly ascending and lie in the range.
pub proof fn lemma_ones_ascending(s: Seq<bool>, lo: int, hi: int)
    ensures
        forall|k: int|
            0 <= k < ones_in(s, lo, hi).len() ==> lo <= #[trigger] ones_in(s, lo, hi)[k] < hi && bit(
                s,
                ones_in(s, lo, hi)[k],
            ),
        forall|j: int, k: int|
            0 <= j < k < ones_in(s, lo, hi).len() ==> #[trigger] ones_in(s, lo, hi)[j] < #[trigger] ones_in(
                s,
                lo,
                hi,
            )[k],
    decreases hi - lo,
{
    if lo < hi {
        lemma_ones_ascending(s, lo, hi - 1);
        let rest = ones_in(s, lo, hi - 1);
        let all = ones_in(s, lo, hi);
        assert forall|k: int| 0 <= k < all.len() implies lo <= #[trigger] all[k] < hi && bit(
            s,
            all[k],
        ) by {
            if k < rest.len() {
                assert(all[k] == rest[k]);
            }
        }
        assert forall|j: int, k: int| 0 <= j < k < all.len() implies #[trigger] all[j] < #[trigger] all[k] by {
            assert(all[j] == rest[j]);
            if k < rest.len() {
                assert(all[k] == rest[k]);
            }
        }
    }
}

/// There are as many positions in a range as set bits.
pub proof fn lemma_ones_len(s: Seq<bool>, lo: int, hi: int)
    ensures
        ones_in(s, lo, hi).len() == count_range(s, lo, hi),
    decreases hi - lo,
{
    if lo < hi {
        lemma_ones_len(s, lo, hi - 1);
    }
}

} // verus!
