//! Random draws.
use rand::Rng;
use vstd::prelude::*;

verus! {

/// Relies on rand::rng and rand::Rng::random_range: a draw from the thread's
/// generator, uniform over the half-open range `0..bound`, which is not empty
/// (random_range panics only on an empty range).
#[verifier::external_body]
pub(crate) fn random_below(bound: u64) -> (r: u64)
    requires
        bound > 0,
    ensures
        r < bound,
{
    rand::rng().random_range(0..bound)
}

} // verus!
