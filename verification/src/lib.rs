//! Rules core of a Texas-Hold'em-style card game.
//!
//! The crate manages a shuffled deck, advances a round through its
//! community-card stages, and determines the best five-card hand a
//! participant can form from private and community cards.

pub mod arrangement;
pub mod card;
pub mod classifier;
pub mod combination;
pub mod deck;
pub mod error;
pub mod ranking;
pub mod round;

pub use card::{Card, CardSuit};
pub use combination::{CardCombination, Classification, CombinationKind};
pub use deck::Deck;
pub use error::Error;
pub use round::{Player, Round, RoundView, Stage};
