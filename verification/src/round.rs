//! A round of play: dealing, revealing community cards, folding, and
//! evaluating a participant's hand.

use vstd::prelude::*;
use crate::card::Card;
use crate::classifier::{best_of, is_best};
use crate::combination::CardCombination;
use crate::deck::{enough_cards, Deck, COMMUNITY_CARDS};
use crate::error::Error;

verus! {

/// How many private cards each participant is dealt.
pub const HOLE_CARDS: usize = 2;

/// How many community cards are revealed when a round begins.
pub const FLOP_CARDS: usize = 3;

/// A participant of a round: an identity chosen by the caller, and the two
/// private cards dealt to it.
#[derive(Clone, Copy, Debug, PartialEq, Eq)]
pub struct Player {
    pub id: usize,
    pub cards: [Card; 2],
}

/// How far the reveal of community cards has come.
#[derive(Clone, Copy, Debug, PartialEq, Eq, Structural)]
pub enum Stage {
    /// Three community cards are revealed.
    Flop,
    /// Four community cards are revealed.
    Turn,
    /// All five community cards are revealed; the round is finished.
    River,
}

/// The state of a round: the active participants in dealing order, the
/// community cards in the order revealed, and the cards left in the deck.
#[verifier::ext_equal]
pub struct RoundView {
    pub participants: Seq<Player>,
    pub opened_cards: Seq<Card>,
    pub deck: Seq<Card>,
}

impl Player {
    /// Whether the card is one of the participant's private cards.
    pub open spec fn holds(self, card: Card) -> bool {
        self.cards@[0] == card || self.cards@[1] == card
    }
}

impl RoundView {
    /// Whether the state is one a round can be in: three to five community
    /// cards are revealed, the deck still holds the community cards to come,
    /// no identity is active twice, and no card is in two places.
    pub open spec fn wf(self) -> bool {
        &&& FLOP_CARDS <= self.opened_cards.len() <= COMMUNITY_CARDS
        &&& self.opened_cards.len() + self.deck.len() >= COMMUNITY_CARDS
        &&& forall|i: int, j: int|
            0 <= i < self.participants.len() && 0 <= j < self.participants.len() && i != j
                ==> self.participants[i].id != self.participants[j].id
        &&& self.opened_cards.no_duplicates()
        &&& self.deck.no_duplicates()
        &&& forall|i: int, j: int|
            0 <= i < self.opened_cards.len() && 0 <= j < self.deck.len() ==> self.opened_cards[i]
                != self.deck[j]
        &&& forall|i: int|
            0 <= i < self.participants.len() ==> (#[trigger] self.participants[i]).cards@[0]
                != self.participants[i].cards@[1]
        &&& forall|i: int, j: int|
            0 <= i < self.participants.len() && 0 <= j < self.opened_cards.len()
                ==> !(#[trigger] self.participants[i]).holds(#[trigger] self.opened_cards[j])
        &&& forall|i: int, j: int|
            0 <= i < self.participants.len() && 0 <= j < self.deck.len() ==> !(
            #[trigger] self.participants[i]).holds(#[trigger] self.deck[j])
        &&& forall|i: int, j: int, k: int|
            0 <= i < self.participants.len() && 0 <= j < self.participants.len() && i != j && 0
                <= k < 2 ==> !(#[trigger] self.participants[i]).holds(
                #[trigger] self.participants[j].cards@[k],
            )
    }

    /// Whether the identity is active in the round.
    pub open spec fn has_participant(self, id: usize) -> bool {
        exists|i: int| 0 <= i < self.participants.len() && (#[trigger] self.participants[i]).id == id
    }

    /// The position of the identity among the active participants.
    pub open spec fn seat_of(self, id: usize) -> int {
        choose|i: int| 0 <= i < self.participants.len() && (#[trigger] self.participants[i]).id == id
    }

    /// Whether all five community cards are revealed.
    pub open spec fn is_finished(self) -> bool {
        self.opened_cards.len() >= COMMUNITY_CARDS
    }

    /// How far the reveal of community cards has come.
    pub open spec fn stage(self) -> Stage {
        if self.opened_cards.len() <= FLOP_CARDS {
            Stage::Flop
        } else if self.opened_cards.len() < COMMUNITY_CARDS {
            Stage::Turn
        } else {
            Stage::River
        }
    }

    /// The state after the next community card is revealed from the end of
    /// the deck, or why none can be revealed.
    pub open spec fn open_card(self) -> Result<RoundView, Error> {
        if self.is_finished() {
            Err(Error::RoundAlreadyFinished)
        } else {
            Ok(
                RoundView {
                    participants: self.participants,
                    opened_cards: self.opened_cards.push(self.deck.last()),
                    deck: self.deck.drop_last(),
                },
            )
        }
    }

    /// The state after the identity has folded, or why it cannot fold.
    pub open spec fn pass_participant(self, id: usize) -> Result<RoundView, Error> {
        if self.has_participant(id) {
            Ok(
                RoundView {
                    participants: self.participants.remove(self.seat_of(id)),
                    opened_cards: self.opened_cards,
                    deck: self.deck,
                },
            )
        } else {
            Err(Error::ParticipantNotFound)
        }
    }

    /// The cards the identity can form a hand from: its two private cards,
    /// then the community cards revealed so far.
    pub open spec fn cards_of(self, id: usize) -> Seq<Card> {
        self.participants[self.seat_of(id)].cards@ + self.opened_cards
    }

    /// Whether the state is what dealing from `deck` to the identities `ids`
    /// leaves: each identity in turn has drawn two cards from the end of the
    /// deck, the next three cards lie revealed, and the rest is the round's
    /// deck.
    pub open spec fn is_deal(self, ids: Seq<usize>, deck: Seq<Card>) -> bool {
        let dealt = HOLE_CARDS * ids.len();
        &&& self.participants.len() == ids.len()
        &&& forall|i: int|
            0 <= i < ids.len() ==> (#[trigger] self.participants[i]).id == ids[i]
                && self.participants[i].cards@ == seq![
                deck[deck.len() - 1 - HOLE_CARDS * i],
                deck[deck.len() - 2 - HOLE_CARDS * i],
            ]
        &&& self.opened_cards == seq![
            deck[deck.len() - 1 - dealt],
            deck[deck.len() - 2 - dealt],
            deck[deck.len() - 3 - dealt],
        ]
        &&& self.deck == deck.take(deck.len() - dealt - FLOP_CARDS)
    }
}

/// A round in progress. It owns its deck and the community cards, and knows
/// the active participants by the identities the caller gave them.
pub struct Round {
    participants: Vec<Player>,
    opened_cards: Vec<Card>,
    deck: Deck,
}

impl View for Round {
    type V = RoundView;

    closed spec fn view(&self) -> RoundView {
        RoundView {
            participants: self.participants@,
            opened_cards: self.opened_cards@,
            deck: self.deck@,
        }
    }
}

/// Tells whether some identity is named twice.
fn has_duplicate_ids(ids: &Vec<usize>) -> (twice: bool)
    ensures
        twice == !ids@.no_duplicates(),
{
    let n = ids.len();
    let mut i: usize = 0;
    while i < n
        invariant
            n == ids@.len(),
            i <= n,
            forall|p: int, q: int| 0 <= p < i && p < q < n ==> ids@[p] != ids@[q],
        decreases n - i,
    {
        let mut j: usize = i + 1;
        while j < n
            invariant
                n == ids@.len(),
                i < j <= n,
                forall|q: int| i < q < j ==> ids@[i as int] != ids@[q],
            decreases n - j,
        {
            if ids[i] == ids[j] {
                return true;
            }
            j = j + 1;
        }
        i = i + 1;
    }
    proof {
        assert forall|p: int, q: int| 0 <= p < n && 0 <= q < n && p != q implies ids@[p] != ids@[q] by {
            if p < q {
                assert(ids@[p] != ids@[q]);
            } else {
                assert(ids@[q] != ids@[p]);
            }
        }
    }
    false
}

impl Round {
    /// Whether the round is in a state a round can be in.
    pub open spec fn wf(&self) -> bool {
        self@.wf()
    }

    /// Begins a round: deals two private cards to each identity in turn, then
    /// reveals three community cards.
    ///
    /// A deck that cannot serve every participant and all five community
    /// cards is refused as `DeckExhausted`; identities of which one is named
    /// twice are refused as `DuplicateParticipant`.
    pub fn new(participants: Vec<usize>, deck: Deck) -> (res: Result<Round, Error>)
        ensures
            !enough_cards(deck@.len(), participants@.len()) ==> res is Err && res->Err_0
                == Error::DeckExhausted,
            enough_cards(deck@.len(), participants@.len()) && !participants@.no_duplicates()
                ==> res is Err && res->Err_0 == Error::DuplicateParticipant,
            enough_cards(deck@.len(), participants@.len()) && participants@.no_duplicates()
                ==> res is Ok && res->Ok_0.wf() && res->Ok_0@.is_deal(participants@, deck@)
                && res->Ok_0@.stage() == Stage::Flop,
    {
        let n = participants.len();
        proof {
            use_type_invariant(&deck);
        }
        if n > u8::MAX as usize || !deck.are_cards_available(n as u8) {
            return Err(Error::DeckExhausted);
        }
        if has_duplicate_ids(&participants) {
            return Err(Error::DuplicateParticipant);
        }
        let ghost full = deck@;
        let mut deck = deck;
        let mut players: Vec<Player> = Vec::new();
        let mut i: usize = 0;
        while i < n
            invariant
                n == participants@.len(),
                i <= n,
                enough_cards(full.len(), n as nat),
                players@.len() == i,
                deck@ == full.take(full.len() - HOLE_CARDS * i),
                forall|k: int|
                    0 <= k < i ==> (#[trigger] players@[k]).id == participants@[k] && players@[k].cards@
                        == seq![full[full.len() - 1 - HOLE_CARDS * k], full[full.len() - 2 - HOLE_CARDS * k]],
            decreases n - i,
        {
            match deck.pop_cards_for_player() {
                Ok(cards) => {
                    players.push(Player { id: participants[i], cards });
                },
                Err(e) => {
                    return Err(e);
                },
            }
            proof {
                assert(deck@ =~= full.take(full.len() - HOLE_CARDS * (i + 1)));
            }
            i = i + 1;
        }
        let ghost dealt = (HOLE_CARDS * n) as int;
        let mut opened_cards: Vec<Card> = Vec::new();
        let mut revealed: usize = 0;
        while revealed < FLOP_CARDS
            invariant
                revealed <= FLOP_CARDS,
                0 <= dealt,
                dealt + FLOP_CARDS <= full.len(),
                deck@ == full.take(full.len() - dealt - revealed),
                opened_cards@.len() == revealed,
                forall|k: int|
                    0 <= k < revealed ==> #[trigger] opened_cards@[k] == full[full.len() - 1 - dealt - k],
            decreases FLOP_CARDS - revealed,
        {
            match deck.open_card() {
                Ok(card) => {
                    opened_cards.push(card);
                },
                Err(e) => {
                    return Err(e);
                },
            }
            proof {
                assert(deck@ =~= full.take(full.len() - dealt - (revealed + 1)));
            }
            revealed = revealed + 1;
        }
        let round = Round { participants: players, opened_cards, deck };
        proof {
            assert(round@.opened_cards =~= seq![
                full[full.len() - 1 - dealt],
                full[full.len() - 2 - dealt],
                full[full.len() - 3 - dealt],
            ]);
            lemma_deal_well_formed(round@, participants@, full);
        }
        Ok(round)
    }

    /// The active participants, in the order they were dealt to.
    pub fn participants(&self) -> (participants: &Vec<Player>)
        ensures
            participants@ == self@.participants,
    {
        &self.participants
    }

    /// The community cards revealed so far, in the order revealed.
    pub fn opened_cards(&self) -> (cards: &Vec<Card>)
        ensures
            cards@ == self@.opened_cards,
    {
        &self.opened_cards
    }

    /// The deck the round draws from.
    pub fn deck(&self) -> (deck: &Deck)
        ensures
            deck@ == self@.deck,
    {
        &self.deck
    }

    /// How far the reveal of community cards has come.
    pub fn stage(&self) -> (stage: Stage)
        ensures
            stage == self@.stage(),
    {
        let revealed = self.opened_cards.len();
        if revealed <= FLOP_CARDS {
            Stage::Flop
        } else if revealed < COMMUNITY_CARDS {
            Stage::Turn
        } else {
            Stage::River
        }
    }

    /// Whether all five community cards are revealed.
    pub fn is_finished(&self) -> (finished: bool)
        ensures
            finished == self@.is_finished(),
    {
        self.opened_cards.len() >= COMMUNITY_CARDS
    }

    /// Folds the participant with the given identity: it leaves the active
    /// participants, and its private cards leave with it. Every other
    /// participant stays as it is.
    pub fn pass_participant(&mut self, id: usize) -> (res: Result<(), Error>)
        requires
            old(self).wf(),
        ensures
            final(self).wf(),
            old(self)@.has_participant(id) ==> res is Ok && Ok::<RoundView, Error>(final(self)@) == old(
                self,
            )@.pass_participant(id),
            !old(self)@.has_participant(id) ==> res is Err && res->Err_0 == Error::ParticipantNotFound
                && final(self)@ == old(self)@,
            res is Ok ==> !final(self)@.has_participant(id),
            forall|other: usize|
                other != id ==> #[trigger] final(self)@.has_participant(other) == old(
                    self,
                )@.has_participant(other),
    {
        let mut i: usize = 0;
        while i < self.participants.len()
            invariant
                self@ == old(self)@,
                self.wf(),
                i <= self.participants@.len(),
                forall|k: int| 0 <= k < i ==> (#[trigger] self.participants@[k]).id != id,
            decreases self.participants@.len() - i,
        {
            if self.participants[i].id == id {
                proof {
                    lemma_seat(self@, id, i as int);
                    lemma_fold_removes_the_identity(self@, id);
                    assert forall|other: usize| other != id implies #[trigger] self@.pass_participant(
                        id,
                    )->Ok_0.has_participant(other) == self@.has_participant(other) by {
                        lemma_fold_keeps_the_others(self@, id, other);
                    }
                }
                self.participants.remove(i);
                return Ok(());
            }
            i = i + 1;
        }
        Err(Error::ParticipantNotFound)
    }

    /// Reveals the next community card. With the fifth card the round is
    /// finished, and the settlement hook runs.
    pub fn open_card(&mut self) -> (res: Result<(), Error>)
        requires
            old(self).wf(),
        ensures
            final(self).wf(),
            !old(self)@.is_finished() ==> res is Ok && Ok::<RoundView, Error>(final(self)@) == old(
                self,
            )@.open_card(),
            old(self)@.is_finished() ==> res is Err && res->Err_0 == Error::RoundAlreadyFinished
                && final(self)@ == old(self)@,
    {
        if self.opened_cards.len() >= COMMUNITY_CARDS {
            return Err(Error::RoundAlreadyFinished);
        }
        proof {
            lemma_open_card(self@);
        }
        match self.deck.open_card() {
            Ok(card) => {
                self.opened_cards.push(card);
            },
            Err(e) => {
                return Err(e);
            },
        }
        if self.opened_cards.len() == COMMUNITY_CARDS {
            self.finish();
        }
        Ok(())
    }

    /// The settlement hook, run when the fifth community card is revealed.
    /// The rules core settles nothing itself.
    pub fn finish(&self) {
    }

    /// Evaluates the best hand the participant can form from its two private
    /// cards and the community cards revealed so far.
    pub fn get_combination(&self, id: usize) -> (res: Result<CardCombination, Error>)
        requires
            self.wf(),
        ensures
            self@.has_participant(id) ==> res is Ok && res->Ok_0@ == best_of(self@.cards_of(id))
                && is_best(self@.cards_of(id), res->Ok_0@),
            !self@.has_participant(id) ==> res is Err && res->Err_0 == Error::ParticipantNotFound,
    {
        let mut i: usize = 0;
        while i < self.participants.len()
            invariant
                self.wf(),
                i <= self.participants@.len(),
                forall|k: int| 0 <= k < i ==> (#[trigger] self.participants@[k]).id != id,
            decreases self.participants@.len() - i,
        {
            if self.participants[i].id == id {
                let player = &self.participants[i];
                let mut cards: Vec<Card> = Vec::new();
                cards.push(player.cards[0]);
                cards.push(player.cards[1]);
                let mut j: usize = 0;
                while j < self.opened_cards.len()
                    invariant
                        j <= self.opened_cards@.len(),
                        cards@ == player.cards@ + self.opened_cards@.take(j as int),
                    decreases self.opened_cards@.len() - j,
                {
                    cards.push(self.opened_cards[j]);
                    proof {
                        assert(self.opened_cards@.take(j + 1) =~= self.opened_cards@.take(j as int).push(
                            self.opened_cards@[j as int],
                        ));
                    }
                    j = j + 1;
                }
                proof {
                    assert(self.opened_cards@.take(j as int) =~= self.opened_cards@);
                    lemma_seat(self@, id, i as int);
                    lemma_hand_is_admissible(self@, id);
                }
                return CardCombination::best_of(cards.as_slice());
            }
            i = i + 1;
        }
        Err(Error::ParticipantNotFound)
    }
}

/// Dealing from a deck of distinct cards that is large enough, to
/// identities that are all different, leaves a round in good state at the
/// flop.
pub proof fn lemma_deal_well_formed(round: RoundView, ids: Seq<usize>, deck: Seq<Card>)
    requires
        round.is_deal(ids, deck),
        ids.no_duplicates(),
        deck.no_duplicates(),
        enough_cards(deck.len(), ids.len()),
    ensures
        round.wf(),
        round.stage() == Stage::Flop,
{
    let n = ids.len() as int;
    let len = deck.len() as int;
    assert forall|i: int| 0 <= i < n implies (#[trigger] round.participants[i]).cards@[0] == deck[len - 1
        - 2 * i] && round.participants[i].cards@[1] == deck[len - 2 - 2 * i] by {}
    assert forall|j: int| 0 <= j < round.deck.len() implies #[trigger] round.deck[j] == deck[j] by {}
}

/// In a round in good state an identity sits at one position only.
pub proof fn lemma_seat(round: RoundView, id: usize, seat: int)
    requires
        round.wf(),
        0 <= seat < round.participants.len(),
        round.participants[seat].id == id,
    ensures
        round.has_participant(id),
        round.seat_of(id) == seat,
{
}

/// Revealing a card keeps a round in good state.
pub proof fn lemma_open_card(round: RoundView)
    requires
        round.wf(),
        !round.is_finished(),
    ensures
        round.open_card() is Ok,
        round.open_card()->Ok_0.wf(),
        round.open_card()->Ok_0.opened_cards.len() == round.opened_cards.len() + 1,
        round.deck.len() > 0,
{
}

/// A round that has just been dealt permits exactly two further reveals:
/// the first leads to the turn, the second to the river, and a third is
/// refused because the round is finished.
pub proof fn lemma_two_reveals_remain(round: RoundView)
    requires
        round.wf(),
        round.stage() == Stage::Flop,
    ensures
        round.open_card() is Ok,
        round.open_card()->Ok_0.wf(),
        round.open_card()->Ok_0.stage() == Stage::Turn,
        round.open_card()->Ok_0.open_card() is Ok,
        round.open_card()->Ok_0.open_card()->Ok_0.wf(),
        round.open_card()->Ok_0.open_card()->Ok_0.stage() == Stage::River,
        round.open_card()->Ok_0.open_card()->Ok_0.open_card() == Err::<RoundView, Error>(
            Error::RoundAlreadyFinished,
        ),
{
    lemma_open_card(round);
    lemma_open_card(round.open_card()->Ok_0);
}

/// Folding removes exactly the participant with the given identity from a
/// round in good state: the identity is no longer active, so folding it
/// again is refused. The community cards and the deck are untouched, and the
/// round stays in good state.
pub proof fn lemma_fold_removes_the_identity(round: RoundView, id: usize)
    requires
        round.wf(),
        round.has_participant(id),
    ensures
        round.pass_participant(id) is Ok,
        round.pass_participant(id)->Ok_0.wf(),
        0 <= round.seat_of(id) < round.participants.len(),
        round.participants[round.seat_of(id)].id == id,
        round.pass_participant(id)->Ok_0.participants.len() == round.participants.len() - 1,
        !round.pass_participant(id)->Ok_0.has_participant(id),
        round.pass_participant(id)->Ok_0.pass_participant(id) == Err::<RoundView, Error>(
            Error::ParticipantNotFound,
        ),
        round.pass_participant(id)->Ok_0.opened_cards == round.opened_cards,
        round.pass_participant(id)->Ok_0.deck == round.deck,
{
    let seat = round.seat_of(id);
    let after = round.pass_participant(id)->Ok_0;
    assert forall|i: int| 0 <= i < after.participants.len() implies #[trigger] after.participants[i]
        == round.participants[if i < seat {
        i
    } else {
        i + 1
    }] by {}
}

/// Folding leaves every other participant as it was: an identity other than
/// the folded one is active afterwards exactly if it was active before, and
/// with the same private cards.
pub proof fn lemma_fold_keeps_the_others(round: RoundView, id: usize, other: usize)
    requires
        round.wf(),
        round.has_participant(id),
        other != id,
    ensures
        round.pass_participant(id)->Ok_0.has_participant(other) == round.has_participant(other),
        round.has_participant(other) ==> round.pass_participant(id)->Ok_0.participants[round.pass_participant(
            id,
        )->Ok_0.seat_of(other)] == round.participants[round.seat_of(other)],
{
    lemma_fold_removes_the_identity(round, id);
    let seat = round.seat_of(id);
    let after = round.pass_participant(id)->Ok_0;
    assert forall|i: int| 0 <= i < after.participants.len() implies #[trigger] after.participants[i]
        == round.participants[if i < seat {
        i
    } else {
        i + 1
    }] by {}
    if round.has_participant(other) {
        let there = round.seat_of(other);
        let here = if there < seat {
            there
        } else {
            there - 1
        };
        assert(after.participants[here] == round.participants[there]);
        lemma_seat(after, other, here);
    }
    if after.has_participant(other) {
        let here = after.seat_of(other);
        assert(after.participants[here] == round.participants[if here < seat {
            here
        } else {
            here + 1
        }]);
    }
}

/// In a round in good state an active participant's private cards and the
/// community cards are five to seven cards, all different.
pub proof fn lemma_hand_is_admissible(round: RoundView, id: usize)
    requires
        round.wf(),
        round.has_participant(id),
    ensures
        5 <= round.cards_of(id).len() <= 7,
        round.cards_of(id).no_duplicates(),
{
    let seat = round.seat_of(id);
    let player = round.participants[seat];
    let cards = round.cards_of(id);
    assert(player.cards@.len() == 2);
    assert forall|i: int, j: int| 0 <= i < cards.len() && 0 <= j < cards.len() && i != j implies cards[i]
        != cards[j] by {
        if i >= 2 {
            assert(cards[i] == round.opened_cards[i - 2]);
        }
        if j >= 2 {
            assert(cards[j] == round.opened_cards[j - 2]);
        }
        if i < 2 && j >= 2 {
            assert(!player.holds(round.opened_cards[j - 2]));
        }
        if j < 2 && i >= 2 {
            assert(!player.holds(round.opened_cards[i - 2]));
        }
    }
}

} // verus!
