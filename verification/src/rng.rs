//! The randomness the game consumes: one die roll and one deck shuffle,
//! both drawn from a seedable generator so that runs can be reproduced.
use vstd::prelude::*;
use rand::rngs::StdRng;
use rand::RngExt;
use rand::seq::SliceRandom;
use crate::cards::Card;

verus! {

/// The pseudo-random generator behind every roll and shuffle.
#[verifier::external_type_specification]
#[verifier::external_body]
pub struct ExStdRng(StdRng);

/// Rolls one six-sided die.
/// Relies on rand's `RngExt::random_range`: a sample of `1..=6` lies in that
/// range; nothing more is known of it.
#[verifier::external_body]
pub(crate) fn d6(rng: &mut StdRng) -> (r: u32)
    ensures
        1 <= r <= 6,
{
    rng.random_range(1..=6)
}

/// Puts the cards into a random order.
/// Relies on rand's `SliceRandom::shuffle`: it permutes the slice in place,
/// so the cards afterwards are exactly the cards before, reordered.
#[verifier::external_body]
pub(crate) fn shuffle_cards(cards: &mut Vec<Card>, rng: &mut StdRng)
    ensures
        final(cards)@.to_multiset() == old(cards)@.to_multiset(),
{
    cards.shuffle(rng)
}

} // verus!
