//! A solitaire dice-and-card elimination game ("Toast"), with a Monte Carlo
//! driver that estimates the probability of clearing a whole deck.
pub mod cards;
pub mod play;
pub mod rng;
