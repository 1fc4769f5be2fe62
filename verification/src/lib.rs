//! Dot-product kernels over slices of numbers.
//!
//! Four strategies compute the sum of the element-wise products of two
//! slices of equal length: one element at a time, eight lanes at a time, eight
//! lanes at a time with accumulators of a wider type, and eight lanes at a
//! time with the lane groups shared out among workers. Of the last the
//! library holds what one worker computes and how the workers' results are
//! combined; to run the workers side by side is left to the caller.
//!
//! The kernels are generic over the element type and reach its arithmetic
//! only through `+`, `*`, `Default` and `From`. They are written for the
//! primitive floating-point numbers, whose addition rounds and is therefore
//! not associative: the order in which a kernel adds is part of what it
//! computes, and the contracts state that order.
//!
//! - `arith`: the operations of an element type, as relations.
//! - `chain`: what each kernel may return, built from those relations.
//! - `kernels`: the sequential kernel and the two lane-parallel kernels.
//! - `layout`: lane groups, and their distribution among workers.
//! - `fanout`: the work of one worker, and the combination of the workers'
//!   results.
//! - `determinism`: operations with one result give kernels with one result.
//! - `exact`: under exact addition all kernels return the same sum.
//! - `short`: on fewer elements than lanes all kernels add in the same order.
use vstd::prelude::*;

pub mod arith;
pub mod chain;
pub mod determinism;
pub mod exact;
pub mod fanout;
pub mod kernels;
pub mod layout;
pub mod short;

pub use crate::kernels::dot_product;
pub use crate::kernels::simd_dot_product;
pub use crate::kernels::simd_dot_product_mixed_precision;

verus! {

/// The number of elements that the lane-parallel kernels process together.
pub const NUM_LANES: usize = 8;

} // verus!
