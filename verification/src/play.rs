//! The game: one attempt against a drawn toast, a full run against one deck,
//! and the Monte Carlo driver that counts winning runs.
use vstd::prelude::*;
use rand::rngs::StdRng;
use crate::cards::{Card, Deck, all_valid, sum_values};
use crate::rng::d6;

verus! {

/// An attempt's rolls budget — the value-sum of a freshly drawn three-card
/// toast — always lies between 3 and 18.
pub proof fn lemma_rolls_budget_range(t: Seq<Card>)
    requires
        all_valid(t),
        t.len() == 3,
    ensures
        3 <= sum_values(t) <= 18,
{
    crate::cards::lemma_sum_three(t);
    assert(crate::cards::valid_card(t[0]));
    assert(crate::cards::valid_card(t[1]));
    assert(crate::cards::valid_card(t[2]));
}

/// One playthrough of a single toast: draw three cards from the deck's tail,
/// then roll two dice per cycle against the front card until the toast is
/// cleared (winning the score fixed at draw time) or the rolls budget — that
/// same value-sum — runs out.
///
/// Whatever the dice show, the deck loses exactly its last three cards, and a
/// win always reports the value-sum of the three cards as drawn.
#[verifier::loop_isolation(false)]
pub fn attempt(deck: &mut Deck, rng: &mut StdRng) -> (r: Option<u32>)
    requires
        old(deck).wf(),
        old(deck)@.len() >= 3,
    ensures
        final(deck).wf(),
        final(deck)@ == old(deck)@.take(old(deck)@.len() - 3),
        r matches Some(score) ==> score as int == sum_values(
            old(deck)@.skip(old(deck)@.len() - 3),
        ),
        r matches Some(score) ==> 3 <= score <= 18,
{
    let ghost pre = deck@;
    let ghost n = deck@.len() as int;
    let mut t = deck.toast();
    proof {
        lemma_rolls_budget_range(t@);
        crate::cards::lemma_sum_three(t@);
        crate::cards::lemma_sum_three(pre.skip(n - 3));
        assert(pre.skip(n - 3)[0] == pre[n - 3]);
        assert(pre.skip(n - 3)[1] == pre[n - 2]);
        assert(pre.skip(n - 3)[2] == pre[n - 1]);
    }
    let mut rolls = t.sum();
    let score_if_win = t.sum();
    while rolls > 0
        invariant
            t.wf(),
            t@.len() > 0,
        decreases rolls,
    {
        rolls = rolls - 1;
        let r0 = d6(rng);
        let r1 = d6(rng);
        t.try_clear_first(r0, r1);
        if t.is_empty() {
            return Some(score_if_win);
        }
    }
    None
}

/// One full run against a freshly shuffled deck: attempts follow one another
/// until one is lost (the run is forfeit) or the deck is exhausted (the run is
/// won). The deck always shrinks by exactly three cards per attempt, so from
/// 24 it can never strand one or two cards.
#[verifier::loop_isolation(false)]
pub fn max_score_attempt(rng: &mut StdRng) -> bool {
    let mut deck = Deck::new(rng);
    loop
        invariant
            deck.wf(),
            deck@.len() % 3 == 0,
            deck@.len() > 0,
        decreases deck@.len(),
    {
        assert(deck@.len() >= 3);
        if attempt(&mut deck, rng).is_none() {
            return false;
        }
        if deck.is_empty() {
            return true;
        }
    }
}

/// Runs the given number of independent games, each against its own freshly
/// shuffled deck, and counts how many were won.
#[verifier::loop_isolation(false)]
pub fn simulate(trials: u32, rng: &mut StdRng) -> (wins: u32)
    ensures
        wins <= trials,
{
    let mut wins: u32 = 0;
    let mut i: u32 = 0;
    while i < trials
        invariant
            wins <= i,
            i <= trials,
        decreases trials - i,
    {
        if max_score_attempt(rng) {
            wins = wins + 1;
        }
        i = i + 1;
    }
    wins
}

} // verus!
