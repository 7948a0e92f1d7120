//! The crate's only trusted boundary: drawing pseudo-random values from
//! the `rand` crate. Nothing is assumed of a draw beyond its range, so every
//! function that consumes one is verified for every value it may take.

use vstd::prelude::*;

verus! {

#[verifier::external_type_specification]
#[verifier::external_body]
pub struct ExThreadRng(rand::rngs::ThreadRng);

/// Relies on `rand::thread_rng`: a handle to the thread-local generator.
/// Nothing is assumed of the handle itself.
#[verifier::external_body]
pub(crate) fn thread_rng_handle() -> rand::rngs::ThreadRng {
    rand::thread_rng()
}

/// Relies on `rand::Rng::gen_range` over `0..n`: it panics only on an empty
/// range, and otherwise returns a value of the range, so the result is below
/// `n`. Which value comes back is left entirely open.
#[verifier::external_body]
pub(crate) fn random_below(rng: &mut rand::rngs::ThreadRng, n: u32) -> (r: u32)
    requires
        n > 0,
    ensures
        r < n,
{
    rand::Rng::gen_range(rng, 0..n)
}

} // verus!
