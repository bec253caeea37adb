//! Random draws for tie-breaking and colour variance.
use vstd::prelude::*;

verus! {

/// Relies on rand::random_ratio: a draw that is `true` with chance
/// `numerator / denominator`, never `true` when the numerator is 0 and always
/// `true` when it equals the denominator. It panics when the denominator is 0
/// or below the numerator, which `requires` leaves out.
#[verifier::external_body]
pub(crate) fn chance(numerator: u32, denominator: u32) -> (r: bool)
    requires
        0 < denominator,
        numerator <= denominator,
    ensures
        numerator == 0 ==> !r,
        numerator == denominator ==> r,
{
    rand::random_ratio(numerator, denominator)
}

} // verus!
