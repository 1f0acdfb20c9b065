//! A growable bit-vector container with a set-like API: membership, point and
//! range mutation, boolean set algebra, lazy iteration over the set bits, and
//! a binary codec that round-trips exactly.
//!
//! The container owns one storage engine and reaches it only through the
//! engine's primitives; every status that a primitive returns is checked.
//! Contracts are stated over the sequence of visible bits, `Seq<bool>`, whose
//! length is the container's logical length.

pub mod bits;
pub mod status;
pub mod codec;
pub mod engine;
pub mod range;
pub mod bvector;
pub mod iter;
pub mod ops;
pub mod order;
pub mod text;
pub mod laws;

pub use crate::bits::Operation;
pub use crate::status::{_check_res, BM_bvector_statistics};
pub use crate::engine::Engine;
pub use crate::range::IndexRange;
pub use crate::bvector::{BVector, DecodeError};
pub use crate::iter::{Difference, Intersection, Ones, SymmetricDifference, Union};
