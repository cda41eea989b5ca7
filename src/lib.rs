//! A single-player blackjack engine: cards and shoe, hands with soft/hard
//! scoring, a wager ledger, the dealer's stand-on-17 policy, the outcome
//! resolver, a basic-strategy advisor and the round orchestrator.

pub mod card;
pub mod error;
pub mod money;
pub mod deck;
mod random;
pub mod hand;
pub mod strategy;
pub mod game;
