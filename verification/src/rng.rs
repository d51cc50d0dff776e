//! The one source of randomness the library draws on: a bounded sample
//! from the thread-local generator.
//!
//! Nothing is assumed about which value comes back, only that it lies
//! below the bound, so every caller is verified for every outcome.

use vstd::prelude::*;

verus! {

/// Relies on rand::Rng::gen_range over rand::thread_rng: the sample lies in
/// the half-open range it is given, and the call panics only on an empty
/// range, which the precondition rules out.
#[verifier::external_body]
pub(crate) fn rand_below(bound: usize) -> (r: usize)
    requires
        1 <= bound,
    ensures
        r < bound,
{
    rand::Rng::gen_range(&mut rand::thread_rng(), 0..bound)
}

} // verus!
