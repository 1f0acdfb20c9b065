//! Status codes of the storage engine, and the one place where they are checked.

use vstd::prelude::*;
use vstd::pervasive::unreached;

verus! {

/// The primitive completed.
pub const BM_OK: i32 = 0;

/// Backing storage could not be allocated.
pub const BM_ERR_BADALLOC: i32 = 1;

/// An argument was missing or invalid.
pub const BM_ERR_BADARG: i32 = 2;

/// A position or a range lies outside the addressable bits.
pub const BM_ERR_RANGE: i32 = 3;

/// A blob is not in the engine's serialization format.
pub const BM_ERR_SERIALFORMAT: i32 = 5;

/// Statistics that the engine reports after compacting its storage.
#[allow(non_camel_case_types)]
#[derive(Debug, Clone, Copy)]
pub struct BM_bvector_statistics {
    /// Number of plain storage blocks in use.
    pub bit_blocks: usize,
    /// Number of run-length blocks in use.
    pub gap_blocks: usize,
    /// Upper bound, in bytes, on the size of the serialized blob.
    pub max_serialize_mem: usize,
    /// Number of bytes of storage in use.
    pub memory_used: usize,
}

/// Checks the status of an engine primitive.
///
/// A status other than [`BM_OK`] is a failure that must not go unnoticed, so
/// the check is a precondition: every verified call site has to show that the
/// primitive succeeded before the state it produced is used. A caller that
/// nothing verified and that breaks the precondition is stopped here.
pub fn _check_res(res: i32)
    requires
        res == BM_OK,
{
    if res != BM_OK {
        unreached::<()>()
    }
}

} // verus!
