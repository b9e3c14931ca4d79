//! The seeded random number generator used for mutation coordinates.
//!
//! The library draws only integer indices itself; the backend draws the
//! floating-point samples from the same generator.

use vstd::prelude::*;

verus! {

#[verifier::external_type_specification]
#[verifier::external_body]
pub struct ExStdRng(rand::rngs::StdRng);

/// Relies on rand's `Rng::gen_range(0, n)`: a value uniform in `[0, n)`.
/// `gen_range` panics when the range is empty, so `n` must be positive.
#[verifier::external_body]
pub(crate) fn gen_index(rng: &mut rand::rngs::StdRng, n: usize) -> (r: usize)
    requires
        n > 0,
    ensures
        r < n,
{
    rand::Rng::gen_range(rng, 0, n)
}

/// Relies on rand's `thread_rng` and `RngCore::next_u64`: some 64-bit
/// value, promised nothing about.
#[verifier::external_body]
pub(crate) fn fresh_seed() -> u64 {
    rand::RngCore::next_u64(&mut rand::thread_rng())
}

} // verus!
