//! The one place where the library asks for a random number.

use rand::Rng;
use vstd::prelude::*;

verus! {

/// A number drawn uniformly from `0..bound`.
///
/// Trusted: the body calls `rand::thread_rng()` and `Rng::gen_range` with the
/// half-open range `0..bound`. `gen_range` panics on an empty range, which the
/// precondition rules out, and returns a value inside the range it was given.
/// Nothing else is claimed: which value comes back is up to the generator,
/// and two calls with the same bound need not agree. The generator of a
/// thread seeds itself from the operating system when it is first used, and
/// panics if the system cannot give it a seed.
#[verifier::external_body]
pub(crate) fn random_below(bound: usize) -> (n: usize)
    requires
        bound > 0,
    ensures
        n < bound,
{
    rand::thread_rng().gen_range(0..bound)
}

} // verus!
