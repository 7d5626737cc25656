//! Integer arithmetic on `i32` that never overflows.

use vstd::prelude::*;

verus! {

/// The sum of `a` and `b`, for operands whose sum fits in `i32`.
pub fn add(a: i32, b: i32) -> (sum: i32)
    requires
        i32::MIN <= a + b <= i32::MAX,
    ensures
        sum == a + b,
{
    a + b
}

/// The difference of `a` and `b`, for operands whose difference fits in `i32`.
pub fn subtract(a: i32, b: i32) -> (difference: i32)
    requires
        i32::MIN <= a - b <= i32::MAX,
    ensures
        difference == a - b,
{
    a - b
}

} // verus!
