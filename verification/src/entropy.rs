//! The one source of randomness: a uniformly random index below a bound.

use vstd::prelude::*;

verus! {

/// Relies on rand::random_range over `0..n`: a uniformly random value of
/// the non-empty range. Nothing beyond the range is promised of the
/// outcome.
#[verifier::external_body]
pub fn random_below(n: usize) -> (r: usize)
    requires
        n > 0,
    ensures
        r < n,
{
    rand::random_range(0..n)
}

} // verus!
