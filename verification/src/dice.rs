//! Random draws. What is drawn is not known before it is drawn, so nothing
//! here says more of a draw than holds of every outcome.

use rand::Rng;
use vstd::prelude::*;

verus! {

/// Draws 32 bits with `Rng::gen::<u32>` on `rand::thread_rng()`. Nothing is
/// claimed of the value: it is random.
#[verifier::external_body]
pub(crate) fn draw_bits() -> (bits: u32) {
    rand::thread_rng().gen::<u32>()
}

/// Draws a boolean with `Rng::gen_ratio` on `rand::thread_rng()`: true with
/// odds of `numerator` to `denominator`. The call panics on a zero
/// denominator and on odds above one; it never hits at odds of zero, and
/// always at odds of one. Nothing else is claimed: the value is random.
#[verifier::external_body]
pub(crate) fn draw_ratio(numerator: u32, denominator: u32) -> (hit: bool)
    requires
        0 < denominator,
        numerator <= denominator,
    ensures
        numerator == 0 ==> !hit,
        numerator == denominator ==> hit,
{
    rand::thread_rng().gen_ratio(numerator, denominator)
}

} // verus!
