//! The randomness source for mine placement, behind trusted wrappers
//! around the `rand` crate.

use rand::Rng;
use vstd::prelude::*;

verus! {

#[verifier::external_type_specification]
#[verifier::external_body]
pub struct ExThreadRng(rand::rngs::ThreadRng);

/// Relies on rand::thread_rng: returns a handle to the thread-local
/// generator. Nothing is assumed of the values it will produce.
#[verifier::external_body]
pub(crate) fn fresh_rng() -> rand::rngs::ThreadRng {
    rand::thread_rng()
}

/// Relies on rand::Rng::gen_range on the nonempty range lo..=hi: the
/// sample is uniform over the range, so in particular it lies within it,
/// which is all later proofs use. gen_range panics on an empty range,
/// which `lo <= hi` rules out.
#[verifier::external_body]
pub(crate) fn sample_inclusive(rng: &mut rand::rngs::ThreadRng, lo: usize, hi: usize) -> (r: usize)
    requires
        lo <= hi,
    ensures
        lo <= r <= hi,
{
    rng.gen_range(lo..=hi)
}

} // verus!
