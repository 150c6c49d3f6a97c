use rand::Rng;
use vstd::prelude::*;

verus! {

/// The largest number of hyper threads that the library disperses work over.
/// It is also the number of stripes in a bag.
pub const MAXIMUM_SUPPORTED_HYPER_THREADS: usize = 16;

/// Calls `rand::thread_rng()` and `rand::Rng::gen::<usize>()` on the generator it returns.
/// The generator is seeded by the system and local to the calling thread, so nothing is
/// claimed of the number that comes back.
#[verifier::external_body]
pub(crate) fn generate_hyper_thread_safe_random_usize() -> (random: usize) {
    rand::thread_rng().gen::<usize>()
}

/// The stripe that a hyper thread, or a random number, is dispersed to.
pub open spec fn stripe_for(value: usize) -> usize {
    value % MAXIMUM_SUPPORTED_HYPER_THREADS
}

/// Reduces the index of a hyper thread, or a random number, to the index of a stripe.
pub fn hyper_thread_index(value: usize) -> (index: usize)
    ensures
        index == stripe_for(value),
        index < MAXIMUM_SUPPORTED_HYPER_THREADS,
{
    value % MAXIMUM_SUPPORTED_HYPER_THREADS
}

/// Picks a stripe pseudo-randomly.
pub fn random_stripe_index() -> (index: usize)
    ensures
        index < MAXIMUM_SUPPORTED_HYPER_THREADS,
{
    hyper_thread_index(generate_hyper_thread_safe_random_usize())
}

} // verus!
