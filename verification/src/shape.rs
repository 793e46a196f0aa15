//! Linear layout of dense X/Y/Z voxel arrays, through ndshape.

use vstd::prelude::*;
use ndshape::{RuntimeShape, Shape};

verus! {

/// Linear index of `p` in a dense X/Y/Z array with extents `dims`.
pub open spec fn linear_index(dims: Seq<u32>, p: Seq<int>) -> int {
    p[0] + dims[0] * p[1] + dims[0] * dims[1] * p[2]
}

/// The array's size and the linear index of `p` fit in `u32`.
pub open spec fn linearize_fits(dims: Seq<u32>, p: Seq<u32>) -> bool {
    &&& dims[0] * dims[1] * dims[2] <= u32::MAX
    &&& dims[0] * dims[1] <= u32::MAX
    &&& linear_index(dims, seq![p[0] as int, p[1] as int, p[2] as int]) <= u32::MAX
}

/// ndshape's `RuntimeShape::<u32, 3>::new(dims).linearize(p)`:
/// `p[0] + dims[0] * p[1] + dims[0] * dims[1] * p[2]`. Building the shape
/// multiplies the extents and linearizing adds the terms, both in `u32`
/// arithmetic that panics on overflow; `requires` rules that out.
#[verifier::external_body]
pub(crate) fn linearize(dims: [u32; 3], p: [u32; 3]) -> (index: u32)
    requires
        linearize_fits(dims@, p@),
    ensures
        index == linear_index(dims@, seq![p[0] as int, p[1] as int, p[2] as int]),
{
    RuntimeShape::<u32, 3>::new(dims).linearize(p)
}

} // verus!
