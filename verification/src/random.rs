//! Random choices, drawn from the generator of the `rand` crate.
use rand::seq::SliceRandom;
use vstd::prelude::*;

verus! {

/// The thread-local generator of `rand`, a value that is only passed on.
#[verifier::external_type_specification]
#[verifier::external_body]
pub struct ExThreadRng(rand::rngs::ThreadRng);

/// `rand::thread_rng` hands out the calling thread's generator, which the
/// system seeds. Nothing is claimed of it.
pub assume_specification[ rand::thread_rng ]() -> (rng: rand::rngs::ThreadRng);

/// One element of `items`, picked by `SliceRandom::choose` with `rng`.
///
/// Believed of `choose`: on an empty slice it returns `None`; on any other
/// it returns one of the slice's elements. Which one is left open.
#[verifier::external_body]
pub(crate) fn pick(items: &Vec<usize>, rng: &mut rand::rngs::ThreadRng) -> (picked: Option<usize>)
    ensures
        items@.len() == 0 ==> picked is None,
        items@.len() > 0 ==> picked is Some && items@.contains(picked->0),
{
    items.choose(rng).copied()
}

} // verus!
