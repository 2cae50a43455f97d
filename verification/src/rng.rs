use vstd::prelude::*;
use rand::RngExt;
use rand::rngs::ThreadRng;

verus! {

/// `rand::rngs::ThreadRng`, the thread-local generator, carried through opaquely.
#[verifier::external_type_specification]
#[verifier::external_body]
pub struct ExThreadRng(rand::rngs::ThreadRng);

/// Calls `rand::rng()`, which hands out the thread-local generator.
/// Nothing is stated of it: its state is chance. (The first call on a
/// thread panics if the operating system's random source fails.)
#[verifier::external_body]
pub(crate) fn thread_rng() -> (r: ThreadRng) {
    rand::rng()
}

/// Calls `RngExt::random_range` on `0..bound`, which draws a value of the
/// half-open range; the value itself is chance. The call panics on an empty
/// range, which `bound > 0` rules out.
#[verifier::external_body]
pub(crate) fn random_below(rng: &mut ThreadRng, bound: usize) -> (r: usize)
    requires
        bound > 0,
    ensures
        r < bound,
{
    rng.random_range(0..bound)
}

} // verus!
