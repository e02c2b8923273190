use vstd::prelude::*;

verus! {

/// Draws a uniformly random number below `n`.  Relies on
/// rand::random_range: the result lies in the given range, and the call
/// panics on an empty range, which the precondition rules out.
#[verifier::external_body]
pub(crate) fn random_below(n: u128) -> (r: u128)
    requires
        n > 0,
    ensures
        r < n,
{
    rand::random_range(0..n)
}

} // verus!
