//! Facts of arithmetic that the other modules share.

use vstd::prelude::*;

verus! {

/// A product of two bounded naturals is bounded by the product of the bounds.
pub proof fn lemma_product_bounded(a: int, b: int, a_max: int, b_max: int)
    by (nonlinear_arith)
    requires
        0 <= a <= a_max,
        0 <= b <= b_max,
    ensures
        0 <= a * b <= a_max * b_max,
{
}

/// A product of two positive numbers is positive.
pub proof fn lemma_product_positive(a: int, b: int)
    by (nonlinear_arith)
    requires
        0 < a,
        0 < b,
    ensures
        0 < a * b,
{
}

/// The quotient of a natural number by a positive one is the whole part of
/// their fraction.
pub proof fn lemma_quotient_is_floor(x: int, d: int)
    by (nonlinear_arith)
    requires
        0 <= x,
        0 < d,
    ensures
        0 <= x / d,
        (x / d) * d <= x < (x / d + 1) * d,
{
}

/// A number of at least 2^64, divided by a positive `u32`, is beyond the
/// `u32`s.
pub proof fn lemma_quotient_beyond(x: int, d: int)
    by (nonlinear_arith)
    requires
        x >= 0x1_0000_0000_0000_0000,
        0 < d <= u32::MAX,
    ensures
        x / d > u32::MAX,
{
}

/// A natural number divided by a larger one gives zero.
pub proof fn lemma_quotient_vanishes(x: int, d: int)
    by (nonlinear_arith)
    requires
        0 <= x < d,
    ensures
        x / d == 0,
{
}

/// A number below `count * stride` has a quotient by `stride` below `count`.
pub proof fn lemma_quotient_below(i: int, stride: int, count: int)
    by (nonlinear_arith)
    requires
        0 < stride,
        0 <= i < count * stride,
    ensures
        0 <= i / stride < count,
        0 <= i % stride < stride,
{
}

} // verus!
