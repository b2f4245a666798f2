//! Decoder for a query optimizer's JSON execution-plan reports.
//!
//! The input is a JSON value tree; the decoder validates it strictly against
//! the plan grammar (rejecting unknown fields) and produces a typed,
//! recursive `Explanation` tree. Encoding is the structural inverse, used
//! for round-trip checks.

pub mod decode;
pub mod encode;
pub mod error;
pub mod grammar;
pub mod json;
pub mod laws;
pub mod tree;

use vstd::prelude::*;

verus! {

/// Overflow-checked addition on `usize`.
pub fn add(left: usize, right: usize) -> (r: usize)
    requires
        left + right <= usize::MAX,
    ensures
        r == left + right,
{
    left + right
}

} // verus!
