//! The deck: a pool of distinct cards that only ever shrinks.

use vstd::prelude::*;
use vstd::seq_lib::*;
use rand::seq::SliceRandom;
use crate::card::{Card, CardSuit, MAX_RANK};
use crate::error::Error;

verus! {

/// Number of cards in a full deck: four suits of thirteen ranks.
pub const DECK_SIZE: usize = 52;

/// Number of community cards a round reveals in all.
pub const COMMUNITY_CARDS: usize = 5;

/// The suit that stands at position `i` of the unshuffled deck.
pub open spec fn suit_at(i: int) -> CardSuit {
    if i % 4 == 0 {
        CardSuit::Hearts
    } else if i % 4 == 1 {
        CardSuit::Diamonds
    } else if i % 4 == 2 {
        CardSuit::Crosses
    } else {
        CardSuit::Spades
    }
}

/// The unshuffled deck: rank by rank from the two to the ace, each rank in
/// the order hearts, diamonds, crosses, spades.
pub open spec fn ordered_cards() -> Seq<Card> {
    Seq::new(DECK_SIZE as nat, |i: int| Card::of(suit_at(i), (i / 4) as u8))
}

/// What is left of `cards` after `n` draws, each of which takes the last
/// card.
pub open spec fn remaining_after(cards: Seq<Card>, n: nat) -> Seq<Card>
    decreases n,
{
    if n == 0 {
        cards
    } else {
        remaining_after(cards, (n - 1) as nat).drop_last()
    }
}

/// The cards that `n` draws take from `cards`, each draw taking the last
/// card, first drawn first.
pub open spec fn drawn_after(cards: Seq<Card>, n: nat) -> Seq<Card>
    decreases n,
{
    if n == 0 {
        Seq::empty()
    } else {
        drawn_after(cards, (n - 1) as nat).push(remaining_after(cards, (n - 1) as nat).last())
    }
}

/// Whether `available` cards suffice to deal two private cards to each of
/// `players` participants and to reveal all five community cards.
pub open spec fn enough_cards(available: nat, players: nat) -> bool {
    available >= 2 * players + COMMUNITY_CARDS
}

/// A mutable pool of distinct cards. The view is the sequence of remaining
/// cards; draws take from its end.
pub struct Deck {
    cards: Vec<Card>,
}

impl View for Deck {
    type V = Seq<Card>;

    closed spec fn view(&self) -> Seq<Card> {
        self.cards@
    }
}

/// Calls `rand::seq::SliceRandom::shuffle` on the cards with the generator
/// that `rand::rng()` hands out. The call swaps elements of the slice in
/// place, so the cards afterwards are a rearrangement of the cards before;
/// nothing is claimed about which rearrangement.
#[verifier::external_body]
fn shuffle_cards(cards: &mut Vec<Card>)
    ensures
        final(cards)@.to_multiset() == old(cards)@.to_multiset(),
{
    cards.shuffle(&mut rand::rng());
}

impl Deck {
    /// No card occurs twice among the remaining cards, and there are never
    /// more of them than a full deck holds.
    #[verifier::type_invariant]
    pub open spec fn distinct(&self) -> bool {
        self@.no_duplicates() && self@.len() <= DECK_SIZE
    }

    /// The 52 cards in their unshuffled order.
    fn ordered_vec() -> (cards: Vec<Card>)
        ensures
            cards@ == ordered_cards(),
    {
        let mut cards: Vec<Card> = Vec::new();
        let mut rank: u8 = 0;
        while rank <= MAX_RANK
            invariant
                rank <= MAX_RANK + 1,
                cards@.len() == 4 * rank,
                forall|i: int| 0 <= i < cards@.len() ==> cards@[i] == #[trigger] ordered_cards()[i],
            decreases MAX_RANK + 1 - rank,
        {
            cards.push(Card::from_parts(CardSuit::Hearts, rank));
            cards.push(Card::from_parts(CardSuit::Diamonds, rank));
            cards.push(Card::from_parts(CardSuit::Crosses, rank));
            cards.push(Card::from_parts(CardSuit::Spades, rank));
            rank = rank + 1;
        }
        cards
    }

    /// A full deck in its unshuffled order, for reproducible play.
    pub fn unshuffled() -> (deck: Deck)
        ensures
            deck@ == ordered_cards(),
    {
        let cards = Deck::ordered_vec();
        proof {
            lemma_ordered_cards_distinct();
        }
        Deck { cards }
    }

    /// A full deck in random order: all 52 combinations of suit and rank,
    /// each exactly once.
    pub fn new() -> (deck: Deck)
        ensures
            deck@.to_multiset() == ordered_cards().to_multiset(),
            deck@.len() == DECK_SIZE,
            deck@.no_duplicates(),
    {
        let mut cards = Deck::ordered_vec();
        shuffle_cards(&mut cards);
        proof {
            lemma_ordered_cards_distinct();
            lemma_rearranged_distinct(ordered_cards(), cards@);
        }
        Deck { cards }
    }

    /// The number of remaining cards.
    pub fn len(&self) -> (n: usize)
        ensures
            n == self@.len(),
    {
        self.cards.len()
    }

    /// The remaining cards; the next card to be drawn stands last.
    pub fn cards(&self) -> (cards: &Vec<Card>)
        ensures
            cards@ == self@,
    {
        &self.cards
    }

    /// Reports whether enough cards remain to deal two private cards to each
    /// of `players` participants and to reveal five community cards. The
    /// bound is inclusive: with two participants, nine cards are enough.
    pub fn are_cards_available(&self, players: u8) -> (available: bool)
        ensures
            available == enough_cards(self@.len(), players as nat),
    {
        self.cards.len() >= 2 * (players as usize) + COMMUNITY_CARDS
    }

    /// Removes two cards from the end of the deck and returns them in the
    /// order drawn. A deck with fewer than two cards is left as it is.
    pub fn pop_cards_for_player(&mut self) -> (res: Result<[Card; 2], Error>)
        ensures
            old(self)@.len() < 2 ==> res == Err::<[Card; 2], Error>(Error::DeckExhausted)
                && final(self)@ == old(self)@,
            old(self)@.len() >= 2 ==> res is Ok && res->Ok_0@ == seq![
                old(self)@[old(self)@.len() - 1],
                old(self)@[old(self)@.len() - 2],
            ] && final(self)@ == old(self)@.drop_last().drop_last(),
    {
        proof {
            use_type_invariant(&*self);
        }
        if self.cards.len() < 2 {
            return Err(Error::DeckExhausted);
        }
        let mut cards = Vec::new();
        std::mem::swap(&mut cards, &mut self.cards);
        let first = cards.pop();
        let second = cards.pop();
        self.cards = cards;
        match (first, second) {
            (Some(a), Some(b)) => {
                let pair = [a, b];
                assert(pair@ =~= seq![
                    old(self)@[old(self)@.len() - 1],
                    old(self)@[old(self)@.len() - 2],
                ]);
                Ok(pair)
            },
            _ => Err(Error::DeckExhausted),
        }
    }

    /// Removes and returns the card at the end of the deck.
    pub fn open_card(&mut self) -> (res: Result<Card, Error>)
        ensures
            old(self)@.len() == 0 ==> res == Err::<Card, Error>(Error::DeckExhausted) && final(self)@
                == old(self)@,
            old(self)@.len() > 0 ==> res == Ok::<Card, Error>(old(self)@.last()) && final(self)@ == old(
                self,
            )@.drop_last(),
    {
        proof {
            use_type_invariant(&*self);
        }
        let mut cards = Vec::new();
        std::mem::swap(&mut cards, &mut self.cards);
        let top = cards.pop();
        self.cards = cards;
        match top {
            Some(card) => Ok(card),
            None => Err(Error::DeckExhausted),
        }
    }
}

/// The unshuffled deck holds 52 cards and none of them twice.
pub proof fn lemma_ordered_cards_distinct()
    ensures
        ordered_cards().len() == DECK_SIZE,
        ordered_cards().no_duplicates(),
{
    broadcast use Card::lemma_of;

    let cards = ordered_cards();
    assert forall|i: int, j: int| 0 <= i < cards.len() && 0 <= j < cards.len() && i != j implies cards[i]
        != cards[j] by {
        if i / 4 == j / 4 {
            assert(i % 4 != j % 4);
            assert(cards[i].spec_suit() != cards[j].spec_suit());
        } else {
            assert(cards[i].spec_rank() != cards[j].spec_rank());
        }
    }
}

/// A rearrangement of distinct cards holds as many cards, all distinct.
pub proof fn lemma_rearranged_distinct(before: Seq<Card>, after: Seq<Card>)
    requires
        before.no_duplicates(),
        after.to_multiset() == before.to_multiset(),
    ensures
        after.no_duplicates(),
        after.len() == before.len(),
{
    before.to_multiset_ensures();
    after.to_multiset_ensures();
    before.lemma_multiset_has_no_duplicates();
    after.lemma_multiset_has_no_duplicates_conv();
}

/// Draws take cards from the end: after `n` draws the first `len - n`
/// cards remain, and the drawn cards are the last `n` in reverse.
pub proof fn lemma_draws(cards: Seq<Card>, n: nat)
    requires
        n <= cards.len(),
    ensures
        remaining_after(cards, n) == cards.take(cards.len() - n),
        drawn_after(cards, n).len() == n,
        forall|i: int| 0 <= i < n ==> #[trigger] drawn_after(cards, n)[i] == cards[cards.len() - 1 - i],
    decreases n,
{
    if n > 0 {
        lemma_draws(cards, (n - 1) as nat);
        assert(remaining_after(cards, n) =~= cards.take(cards.len() - n));
    }
}

/// However many cards are drawn from a deck of distinct cards, the number
/// of remaining cards falls by that many, and no card occurs twice among
/// the drawn and the remaining cards together. For a full deck the
/// remaining count after `n` draws is `52 - n`.
pub proof fn lemma_draws_keep_cards_distinct(cards: Seq<Card>, n: nat)
    requires
        cards.no_duplicates(),
        n <= cards.len(),
    ensures
        remaining_after(cards, n).len() == cards.len() - n,
        drawn_after(cards, n).len() == n,
        (drawn_after(cards, n) + remaining_after(cards, n)).no_duplicates(),
        (drawn_after(cards, n) + remaining_after(cards, n)).to_multiset() == cards.to_multiset(),
{
    lemma_draws(cards, n);
    let drawn = drawn_after(cards, n);
    let rest = remaining_after(cards, n);
    let all = drawn + rest;
    let len = cards.len() as int;
    assert forall|i: int, j: int| 0 <= i < all.len() && 0 <= j < all.len() && i != j implies all[i]
        != all[j] by {
        let pi = if i < n { len - 1 - i } else { i - n };
        let pj = if j < n { len - 1 - j } else { j - n };
        assert(all[i] == cards[pi]);
        assert(all[j] == cards[pj]);
        assert(pi != pj);
    }
    assert(drawn =~= cards.skip(len - n).reverse());
    cards.skip(len - n).lemma_reverse_to_multiset();
    lemma_multiset_commutative(drawn, rest);
    lemma_multiset_commutative(rest, cards.skip(len - n));
    assert(rest + cards.skip(len - n) =~= cards);
}

} // verus!
