use vstd::prelude::*;
use rand::seq::SliceRandom;
use rand::Rng;
use crate::card::Card;

verus! {

/// Relies on rand's `SliceRandom::shuffle` with the thread-local generator:
/// it reorders the cards in place by swaps, so the same cards remain.
#[verifier::external_body]
pub(crate) fn shuffle_cards(cards: &mut Vec<Card>)
    ensures
        final(cards)@.to_multiset() == old(cards)@.to_multiset(),
{
    cards.shuffle(&mut rand::thread_rng());
}

/// Relies on rand's `Rng::gen_range` over `low..=high` with the thread-local
/// generator: a value within both bounds. It panics on an empty range, which
/// `requires` rules out.
#[verifier::external_body]
pub(crate) fn random_between(low: u32, high: u32) -> (r: u32)
    requires
        low <= high,
    ensures
        low <= r <= high,
{
    rand::thread_rng().gen_range(low..=high)
}

} // verus!
