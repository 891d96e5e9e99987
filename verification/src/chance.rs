//! Random draws.

use rand::Rng;
use vstd::prelude::*;

verus! {

/// A draw from the half-open range `0..bound`.
///
/// Calls `rand::Rng::gen_range` on the generator of `rand::thread_rng`. That
/// method panics on an empty range, which the precondition rules out, and
/// returns a member of the range; which member is left open.
#[verifier::external_body]
pub(crate) fn below(bound: usize) -> (draw: usize)
    requires
        bound > 0,
    ensures
        draw < bound,
{
    rand::thread_rng().gen_range(0..bound)
}

/// A random byte.
///
/// Calls `rand::Rng::gen` on the generator of `rand::thread_rng`. Any byte may
/// come back.
#[verifier::external_body]
pub(crate) fn byte() -> u8 {
    rand::thread_rng().gen()
}

} // verus!
