//! The random source of the train/test partition. Nothing here is proved: the
//! contracts state what the `rand` crate does.

use rand::seq::SliceRandom;
use vstd::prelude::*;

verus! {

/// `rand::rngs::ThreadRng`, the handle to the thread-local generator. Its
/// state is opaque to the verifier.
#[verifier::external_type_specification]
#[verifier::external_body]
pub struct ExThreadRng(rand::rngs::ThreadRng);

/// `rand::thread_rng`: a handle to the calling thread's generator, which the
/// operating system seeds on first use. Nothing is claimed of its state. The
/// call panics if the operating system has no entropy to seed it with.
pub assume_specification[ rand::thread_rng ]() -> (rng: rand::rngs::ThreadRng)
;

/// `SliceRandom::shuffle` on a slice of row indices: reorders the slice in
/// place by a run of swaps, so it holds the same values as before, each as
/// often as before. Which order comes out is left open.
#[verifier::external_body]
pub(crate) fn shuffle(values: &mut Vec<usize>, rng: &mut rand::rngs::ThreadRng)
    ensures
        final(values)@.to_multiset() == old(values)@.to_multiset(),
{
    values.shuffle(rng);
}

} // verus!
