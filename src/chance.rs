//! Draws from the process-wide random source.
use vstd::prelude::*;

verus! {

/// Relies on `rand::random_range` over an inclusive range: the value lies in
/// `[lo, hi]`; the function panics on an empty range, which `requires` rules out.
#[verifier::external_body]
pub(crate) fn draw_between(lo: i32, hi: i32) -> (r: i32)
    requires
        lo <= hi,
    ensures
        lo <= r <= hi,
{
    rand::random_range(lo..=hi)
}

/// Relies on `rand::random_ratio`: true with chance `numerator / denominator`;
/// always true when the two are equal, always false when `numerator` is zero.
/// It panics when `denominator` is zero or below `numerator`.
#[verifier::external_body]
pub(crate) fn draw_ratio(numerator: u32, denominator: u32) -> (r: bool)
    requires
        0 < denominator,
        numerator <= denominator,
    ensures
        numerator == denominator ==> r,
        numerator == 0 ==> !r,
{
    rand::random_ratio(numerator, denominator)
}

} // verus!
