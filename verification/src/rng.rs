//! Trusted boundary to the process-wide random number generator, used only
//! to draw fresh exploration destinations.

use rand::Rng;
use vstd::prelude::*;

verus! {

/// Relies on `rand::Rng::gen_range` over `rand::thread_rng()`: the drawn
/// value lies in the half-open range `[low, high)`.  Nothing more is
/// promised of it; every caller must be correct for every value in range.
#[verifier::external_body]
pub fn random_in_range(low: i32, high: i32) -> (r: i32)
    requires
        low < high,
    ensures
        low <= r < high,
{
    rand::thread_rng().gen_range(low..high)
}

} // verus!
