//! Chance: the draws that the path finder and the choice of a trip make.

use rand::rngs::ThreadRng;
use rand::seq::{IteratorRandom, SliceRandom};
use vstd::prelude::*;

verus! {

/// `rand::rngs::ThreadRng`: the random number generator of the thread.
/// Nothing is known of what it will draw.
#[verifier::external_type_specification]
#[verifier::external_body]
pub struct ExThreadRng(rand::rngs::ThreadRng);

/// `rand::thread_rng`: the generator of the calling thread.
#[verifier::external_body]
pub(crate) fn thread_rng() -> ThreadRng {
    rand::thread_rng()
}

/// `SliceRandom::shuffle`: afterwards the list holds the items that it
/// held, each as often as before, in an order that chance picks.
#[verifier::external_body]
pub(crate) fn shuffle<T>(items: &mut Vec<T>, rng: &mut ThreadRng)
    ensures
        final(items)@.to_multiset() == old(items)@.to_multiset(),
{
    items.shuffle(rng);
}

/// `IteratorRandom::choose_multiple` for two items: two items from two
/// places of the list, or all of a list that holds fewer. Which places,
/// and in which order, is up to chance.
#[verifier::external_body]
pub(crate) fn choose_two(items: &Vec<u64>, rng: &mut ThreadRng) -> (chosen: Vec<u64>)
    ensures
        items@.len() >= 2 ==> chosen@.len() == 2,
        items@.len() < 2 ==> chosen@ == items@,
        chosen@.len() == 2 ==> exists|i: int, j: int|
            0 <= i < items@.len() && 0 <= j < items@.len() && i != j && #[trigger] items@[i]
                == chosen@[0] && #[trigger] items@[j] == chosen@[1],
{
    items.iter().copied().choose_multiple(rng, 2)
}

} // verus!
