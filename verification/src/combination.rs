//! Hand classifications: one of ten kinds, with the ranks that break ties.

use vstd::prelude::*;

verus! {

/// The ten kinds of poker hand, from the weakest to the strongest.
#[derive(Clone, Copy, Debug, PartialEq, Eq, Structural)]
pub enum CombinationKind {
    HighCard,
    Pair,
    TwoPair,
    Three,
    Straight,
    Flush,
    FullHouse,
    Four,
    FlushStreet,
    RoyalFlush,
}

impl CombinationKind {
    /// The fixed precedence of the kind, from 1 (high card) to 10 (royal
    /// flush), for use in contracts.
    pub open spec fn spec_precedence(self) -> u8 {
        match self {
            CombinationKind::HighCard => 1,
            CombinationKind::Pair => 2,
            CombinationKind::TwoPair => 3,
            CombinationKind::Three => 4,
            CombinationKind::Straight => 5,
            CombinationKind::Flush => 6,
            CombinationKind::FullHouse => 7,
            CombinationKind::Four => 8,
            CombinationKind::FlushStreet => 9,
            CombinationKind::RoyalFlush => 10,
        }
    }

    /// The fixed precedence of the kind, from 1 (high card) to 10 (royal
    /// flush).
    #[verifier::when_used_as_spec(spec_precedence)]
    pub fn precedence(self) -> (p: u8)
        ensures
            p == self.spec_precedence(),
    {
        match self {
            CombinationKind::HighCard => 1,
            CombinationKind::Pair => 2,
            CombinationKind::TwoPair => 3,
            CombinationKind::Three => 4,
            CombinationKind::Straight => 5,
            CombinationKind::Flush => 6,
            CombinationKind::FullHouse => 7,
            CombinationKind::Four => 8,
            CombinationKind::FlushStreet => 9,
            CombinationKind::RoyalFlush => 10,
        }
    }

    /// No two kinds share a precedence.
    pub proof fn lemma_precedence_injective(a: CombinationKind, b: CombinationKind)
        ensures
            a.precedence() == b.precedence() <==> a == b,
            1 <= a.precedence() <= 10,
    {
    }
}

/// What a hand is worth: its kind, and the ranks that decide between two
/// hands of that kind, the most significant first.
pub struct Classification {
    pub kind: CombinationKind,
    pub kickers: Seq<u8>,
}

/// A classified hand. Each variant carries its tie-break ranks, the most
/// significant first.
#[derive(Debug, PartialEq, Eq)]
pub enum CardCombination {
    RoyalFlush(Vec<u8>),
    FlushStreet(Vec<u8>),
    Four(Vec<u8>),
    FullHouse(Vec<u8>),
    Flush(Vec<u8>),
    Straight(Vec<u8>),
    Three(Vec<u8>),
    TwoPair(Vec<u8>),
    Pair(Vec<u8>),
    HighCard(Vec<u8>),
}

impl View for CardCombination {
    type V = Classification;

    open spec fn view(&self) -> Classification {
        Classification { kind: self.spec_kind(), kickers: self.spec_kickers()@ }
    }
}

impl Clone for CardCombination {
    fn clone(&self) -> (copy: CardCombination)
        ensures
            copy@ == self@,
    {
        let kickers = self.kickers().clone();
        assert(kickers@ =~= self.kickers()@);
        CardCombination::new(self.kind(), kickers)
    }
}

impl CardCombination {
    /// The kind of the hand, for use in contracts.
    pub open spec fn spec_kind(&self) -> CombinationKind {
        match self {
            CardCombination::RoyalFlush(_) => CombinationKind::RoyalFlush,
            CardCombination::FlushStreet(_) => CombinationKind::FlushStreet,
            CardCombination::Four(_) => CombinationKind::Four,
            CardCombination::FullHouse(_) => CombinationKind::FullHouse,
            CardCombination::Flush(_) => CombinationKind::Flush,
            CardCombination::Straight(_) => CombinationKind::Straight,
            CardCombination::Three(_) => CombinationKind::Three,
            CardCombination::TwoPair(_) => CombinationKind::TwoPair,
            CardCombination::Pair(_) => CombinationKind::Pair,
            CardCombination::HighCard(_) => CombinationKind::HighCard,
        }
    }

    /// The tie-break ranks of the hand, for use in contracts.
    pub open spec fn spec_kickers(&self) -> &Vec<u8> {
        match self {
            CardCombination::RoyalFlush(k) => k,
            CardCombination::FlushStreet(k) => k,
            CardCombination::Four(k) => k,
            CardCombination::FullHouse(k) => k,
            CardCombination::Flush(k) => k,
            CardCombination::Straight(k) => k,
            CardCombination::Three(k) => k,
            CardCombination::TwoPair(k) => k,
            CardCombination::Pair(k) => k,
            CardCombination::HighCard(k) => k,
        }
    }

    /// Builds the hand of the given kind with the given tie-break ranks.
    pub fn new(kind: CombinationKind, kickers: Vec<u8>) -> (hand: CardCombination)
        ensures
            hand@ == (Classification { kind, kickers: kickers@ }),
    {
        match kind {
            CombinationKind::RoyalFlush => CardCombination::RoyalFlush(kickers),
            CombinationKind::FlushStreet => CardCombination::FlushStreet(kickers),
            CombinationKind::Four => CardCombination::Four(kickers),
            CombinationKind::FullHouse => CardCombination::FullHouse(kickers),
            CombinationKind::Flush => CardCombination::Flush(kickers),
            CombinationKind::Straight => CardCombination::Straight(kickers),
            CombinationKind::Three => CardCombination::Three(kickers),
            CombinationKind::TwoPair => CardCombination::TwoPair(kickers),
            CombinationKind::Pair => CardCombination::Pair(kickers),
            CombinationKind::HighCard => CardCombination::HighCard(kickers),
        }
    }

    /// The kind of the hand.
    #[verifier::when_used_as_spec(spec_kind)]
    pub fn kind(&self) -> (kind: CombinationKind)
        ensures
            kind == self.spec_kind(),
    {
        match self {
            CardCombination::RoyalFlush(_) => CombinationKind::RoyalFlush,
            CardCombination::FlushStreet(_) => CombinationKind::FlushStreet,
            CardCombination::Four(_) => CombinationKind::Four,
            CardCombination::FullHouse(_) => CombinationKind::FullHouse,
            CardCombination::Flush(_) => CombinationKind::Flush,
            CardCombination::Straight(_) => CombinationKind::Straight,
            CardCombination::Three(_) => CombinationKind::Three,
            CardCombination::TwoPair(_) => CombinationKind::TwoPair,
            CardCombination::Pair(_) => CombinationKind::Pair,
            CardCombination::HighCard(_) => CombinationKind::HighCard,
        }
    }

    /// The tie-break ranks of the hand, the most significant first.
    #[verifier::when_used_as_spec(spec_kickers)]
    pub fn kickers(&self) -> (kickers: &Vec<u8>)
        ensures
            kickers == self.spec_kickers(),
    {
        match self {
            CardCombination::RoyalFlush(k) => k,
            CardCombination::FlushStreet(k) => k,
            CardCombination::Four(k) => k,
            CardCombination::FullHouse(k) => k,
            CardCombination::Flush(k) => k,
            CardCombination::Straight(k) => k,
            CardCombination::Three(k) => k,
            CardCombination::TwoPair(k) => k,
            CardCombination::Pair(k) => k,
            CardCombination::HighCard(k) => k,
        }
    }

    /// The precedence of the hand's kind: 1 for a high card, 2 for a pair,
    /// 3 for two pair, 4 for three of a kind, 5 for a straight, 6 for a
    /// flush, 7 for a full house, 8 for four of a kind, 9 for a straight
    /// flush and 10 for a royal flush.
    pub fn combination_rank(&self) -> (rank: u8)
        ensures
            rank == self@.kind.precedence(),
            1 <= rank <= 10,
    {
        self.kind().precedence()
    }
}

} // verus!
