//! Ranges of bit positions, half-open, with either end optional.

use vstd::prelude::*;
use core::ops::{Range, RangeFrom, RangeFull, RangeTo};

verus! {

/// Makes `core::ops::RangeFull`, the type of `..`, known to the verifier.
/// It has no fields and nothing is claimed of it.
#[verifier::external_type_specification]
#[verifier::external_body]
pub struct ExRangeFull(RangeFull);

/// Makes `core::ops::RangeFrom`, the type of `a..`, known to the verifier,
/// with its one public field `start`, which the code below reads. Nothing
/// else is claimed of it.
#[verifier::external_type_specification]
#[verifier::reject_recursive_types(Idx)]
pub struct ExRangeFrom<Idx>(RangeFrom<Idx>);

/// Makes `core::ops::RangeTo`, the type of `..b`, known to the verifier,
/// with its one public field `end`, which the code below reads. Nothing
/// else is claimed of it.
#[verifier::external_type_specification]
#[verifier::reject_recursive_types(Idx)]
pub struct ExRangeTo<Idx>(RangeTo<Idx>);

/// **IndexRange** is implemented by Rust's built-in range types, produced
/// by range syntax like `..`, `a..`, `..b` or `c..d`.
pub trait IndexRange<T = usize> {
    /// Start index (inclusive), if the range has one.
    spec fn start_spec(&self) -> Option<T>;

    /// End index (exclusive), if the range has one.
    spec fn end_spec(&self) -> Option<T>;

    /// Start index (inclusive)
    fn start(&self) -> (r: Option<T>)
        ensures
            r == self.start_spec(),
    ;

    /// End index (exclusive)
    fn end(&self) -> (r: Option<T>)
        ensures
            r == self.end_spec(),
    ;
}

impl<T> IndexRange<T> for RangeFull {
    open spec fn start_spec(&self) -> Option<T> {
        None
    }

    open spec fn end_spec(&self) -> Option<T> {
        None
    }

    fn start(&self) -> (r: Option<T>) {
        None
    }

    fn end(&self) -> (r: Option<T>) {
        None
    }
}

impl<T: Copy> IndexRange<T> for RangeFrom<T> {
    open spec fn start_spec(&self) -> Option<T> {
        Some(self.start)
    }

    open spec fn end_spec(&self) -> Option<T> {
        None
    }

    fn start(&self) -> (r: Option<T>) {
        Some(self.start)
    }

    fn end(&self) -> (r: Option<T>) {
        None
    }
}

impl<T: Copy> IndexRange<T> for RangeTo<T> {
    open spec fn start_spec(&self) -> Option<T> {
        None
    }

    open spec fn end_spec(&self) -> Option<T> {
        Some(self.end)
    }

    fn start(&self) -> (r: Option<T>) {
        None
    }

    fn end(&self) -> (r: Option<T>) {
        Some(self.end)
    }
}

impl<T: Copy> IndexRange<T> for Range<T> {
    open spec fn start_spec(&self) -> Option<T> {
        Some(self.start)
    }

    open spec fn end_spec(&self) -> Option<T> {
        Some(self.end)
    }

    fn start(&self) -> (r: Option<T>) {
        Some(self.start)
    }

    fn end(&self) -> (r: Option<T>) {
        Some(self.end)
    }
}

/// Where a range over `usize` starts: at its start index, or at 0.
pub open spec fn range_start<T: IndexRange>(range: T) -> int {
    match range.start_spec() {
        Some(start) => start as int,
        None => 0,
    }
}

/// Where a range over `usize` ends in a vector of `len` bits: before its end
/// index, or at `len`.
pub open spec fn range_end<T: IndexRange>(range: T, len: nat) -> int {
    match range.end_spec() {
        Some(end) => end as int,
        None => len as int,
    }
}

/// Whether a range can be used on a vector of `len` bits: it does not run
/// backwards and does not extend past the end.
pub open spec fn range_valid<T: IndexRange>(range: T, len: nat) -> bool {
    range_start(range) <= range_end(range, len) <= len
}

} // verus!
