//! The failures that rule operations report.

use vstd::prelude::*;

verus! {

/// Every failure is handed back to the caller as a value; no operation aborts.
#[derive(Clone, Copy, Debug, PartialEq, Eq, Structural)]
pub enum Error {
    /// A card was requested with a rank above the ace.
    InvalidRank,
    /// A draw was requested but too few cards remain in the deck.
    DeckExhausted,
    /// A reveal was requested after the fifth community card.
    RoundAlreadyFinished,
    /// The operation named an identity that is not active in the round.
    ParticipantNotFound,
    /// A round was started with the same identity named twice.
    DuplicateParticipant,
    /// A hand was evaluated with fewer than five or more than seven cards.
    InvalidHandSize,
    /// A hand was evaluated that holds the same card twice.
    DuplicateCard,
}

} // verus!
