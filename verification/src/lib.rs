//! Generic sequence algorithms over capability-based range abstractions.
//!
//! A *range* is a linear, traversable view of a container; what a range can
//! do is described by a small hierarchy of capability traits (traversal in
//! [`range::InputRange`] through [`range::RandomAccessRange`], mutation in
//! [`range::SemiOutputRange`] and [`range::OutputRange`]).  The algorithms
//! (`copy`, `copy_if`, and the `unique` family) are written once against the
//! weakest capability each needs, in [`algo`] (explicit bounds) and [`rng`]
//! (whole-range convenience).  [`array`] and [`vec_range`] show a fixed-size
//! array and a growable buffer satisfying every capability.
//!
//! No algorithm reports a runtime error: every contract is
//! precondition-based (a destination too small, a position out of its
//! range, a dereferenced sentinel), and each precondition is stated in a
//! `requires` clause that callers discharge statically, so no violating
//! call ever compiles into a run.  The only values returned are positions:
//! a new logical end, or one past the last element written.

use vstd::prelude::*;

pub mod algo;
pub mod array;
pub mod model;
pub mod range;
pub mod rng;
pub mod vec_range;

verus! {

/// Sum of two machine words; the caller rules out overflow.
pub fn add(a: u64, b: u64) -> (r: u64)
    requires
        a + b <= u64::MAX,
    ensures
        r == a + b,
{
    a + b
}

} // verus!
