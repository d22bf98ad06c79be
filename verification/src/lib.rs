//! Vectorized geometry kernels over columns of binary-encoded geometries.
//!
//! The crate decodes and encodes the extended well-known binary layout,
//! casts between shape variants, applies affine transforms, reprojects
//! between spatial reference systems, and joins two geometry columns on
//! bounding-box overlap — preserving null alignment, spatial reference
//! metadata and empty-geometry semantics throughout.
//!
//! Every coordinate travels as the 64-bit pattern of its binary64 value,
//! so the logic is plain data all the way down and is verified against the
//! mathematical descriptions in each module. The software math library
//! supplies the floating-point arithmetic behind the affine matrices, and
//! the projection engine supplies the projection mathematics; both stand
//! behind small trusted wrappers whose contracts say no more than those
//! crates promise.

#![allow(unused_imports)]

pub mod accessors;
pub mod affine;
pub mod bbox;
pub mod bits;
pub mod cast;
pub mod codec;
pub mod column;
pub mod error;
pub mod fp;
pub mod geometry;
pub mod join;
pub mod ops;
pub mod reproject;
