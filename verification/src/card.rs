//! Playing cards: a suit and a rank.

use vstd::prelude::*;
use crate::error::Error;

verus! {

/// The highest rank, the ace. Ranks run from 0 (the two) to 12 (the ace).
pub const MAX_RANK: u8 = 12;

/// One of the four suits.
#[derive(Clone, Copy, Debug, PartialEq, Eq, Structural)]
pub enum CardSuit {
    Hearts,
    Diamonds,
    Crosses,
    Spades,
}

/// An immutable playing card. Its rank never exceeds [`MAX_RANK`].
#[derive(Clone, Copy, Debug, PartialEq, Eq, Structural)]
pub struct Card {
    suit: CardSuit,
    rank: u8,
}

impl Card {
    /// Every card has one of the thirteen ranks.
    #[verifier::type_invariant]
    spec fn rank_in_range(self) -> bool {
        self.rank <= MAX_RANK
    }

    /// The suit of the card, for use in contracts.
    pub closed spec fn spec_suit(&self) -> CardSuit {
        self.suit
    }

    /// The rank of the card, for use in contracts.
    pub closed spec fn spec_rank(&self) -> u8 {
        self.rank
    }

    /// The card of the given suit and rank, for use in contracts.
    pub closed spec fn of(suit: CardSuit, rank: u8) -> Card {
        Card { suit, rank }
    }

    /// Builds a card, refusing a rank above the ace.
    pub fn new(suit: CardSuit, rank: u8) -> (res: Result<Card, Error>)
        ensures
            rank <= MAX_RANK ==> res == Ok::<Card, Error>(Card::of(suit, rank)) && res->Ok_0.suit()
                == suit && res->Ok_0.rank() == rank,
            rank > MAX_RANK ==> res == Err::<Card, Error>(Error::InvalidRank),
    {
        if rank > MAX_RANK {
            Err(Error::InvalidRank)
        } else {
            Ok(Card { suit, rank })
        }
    }

    /// Builds a card whose rank is known to be in range.
    pub(crate) fn from_parts(suit: CardSuit, rank: u8) -> (card: Card)
        requires
            rank <= MAX_RANK,
        ensures
            card == Card::of(suit, rank),
    {
        Card { suit, rank }
    }

    /// The suit of the card.
    #[verifier::when_used_as_spec(spec_suit)]
    pub fn suit(&self) -> (s: CardSuit)
        ensures
            s == self.spec_suit(),
    {
        self.suit
    }

    /// The rank of the card, from 0 (the two) to 12 (the ace).
    #[verifier::when_used_as_spec(spec_rank)]
    pub fn rank(&self) -> (r: u8)
        ensures
            r == self.spec_rank(),
            r <= MAX_RANK,
    {
        proof {
            use_type_invariant(self);
        }
        self.rank
    }

    /// Two cards are the same card exactly when suit and rank agree.
    pub proof fn lemma_same_card(a: Card, b: Card)
        ensures
            (a.spec_suit() == b.spec_suit() && a.spec_rank() == b.spec_rank()) <==> a == b,
    {
    }

    /// A card is made of its suit and its rank, and of nothing else.
    pub broadcast proof fn lemma_of(suit: CardSuit, rank: u8)
        ensures
            (#[trigger] Card::of(suit, rank)).spec_suit() == suit,
            Card::of(suit, rank).spec_rank() == rank,
    {
    }
}

} // verus!
