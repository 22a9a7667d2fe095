use holdem::{Card, CardCombination, CardSuit, Deck, Error, Player, Round, Stage};
use holdem::CardSuit::{Crosses, Diamonds, Hearts, Spades};

fn c(suit: CardSuit, rank: u8) -> Card {
    Card::new(suit, rank).unwrap()
}

fn deck_of(cards_left: usize) -> Deck {
    let mut deck = Deck::unshuffled();
    while deck.len() > cards_left {
        deck.open_card().unwrap();
    }
    deck
}

fn all_cards(round: &Round) -> Vec<Card> {
    let mut cards = Vec::new();
    for player in round.participants() {
        cards.push(player.cards[0]);
        cards.push(player.cards[1]);
    }
    cards.extend(round.opened_cards().iter().copied());
    cards.extend(round.deck().cards().iter().copied());
    cards
}

fn count_distinct(cards: &[Card]) -> usize {
    let mut seen: Vec<Card> = Vec::new();
    for card in cards {
        if !seen.contains(card) {
            seen.push(*card);
        }
    }
    seen.len()
}

#[test]
fn a_new_round_deals_two_cards_to_each_participant_in_turn() {
    let round = Round::new(vec![10, 20, 30], Deck::unshuffled()).expect("enough cards");
    assert_eq!(
        round.participants(),
        &vec![
            Player { id: 10, cards: [c(Spades, 12), c(Crosses, 12)] },
            Player { id: 20, cards: [c(Diamonds, 12), c(Hearts, 12)] },
            Player { id: 30, cards: [c(Spades, 11), c(Crosses, 11)] },
        ]
    );
}

#[test]
fn a_new_round_reveals_the_flop() {
    let round = Round::new(vec![10, 20, 30], Deck::unshuffled()).expect("enough cards");
    assert_eq!(round.opened_cards(), &vec![c(Diamonds, 11), c(Hearts, 11), c(Spades, 10)]);
    assert_eq!(round.stage(), Stage::Flop);
    assert!(!round.is_finished());
    assert_eq!(round.deck().len(), 43);
}

#[test]
fn a_new_round_takes_its_cards_from_the_deck() {
    let round = Round::new(vec![1, 2, 3, 4], Deck::new()).expect("enough cards");
    assert_eq!(round.participants().len(), 4);
    assert_eq!(round.opened_cards().len(), 3);
    assert_eq!(round.deck().len(), 52 - 8 - 3);
    let cards = all_cards(&round);
    assert_eq!(cards.len(), 52);
    assert_eq!(count_distinct(&cards), 52);
}

#[test]
fn no_card_is_in_two_places_while_a_round_goes_on() {
    let mut round = Round::new(vec![1, 2, 3, 4, 5], Deck::new()).expect("enough cards");
    round.open_card().unwrap();
    assert_eq!(count_distinct(&all_cards(&round)), 52);
    round.pass_participant(3).unwrap();
    assert_eq!(all_cards(&round).len(), 50);
    assert_eq!(count_distinct(&all_cards(&round)), 50);
    round.open_card().unwrap();
    assert_eq!(all_cards(&round).len(), 50);
    assert_eq!(count_distinct(&all_cards(&round)), 50);
}

#[test]
fn a_round_without_participants_still_reveals_the_flop() {
    let round = Round::new(vec![], Deck::unshuffled()).expect("enough cards");
    assert_eq!(round.participants().len(), 0);
    assert_eq!(round.opened_cards(), &vec![c(Spades, 12), c(Crosses, 12), c(Diamonds, 12)]);
    assert_eq!(round.deck().len(), 49);
}

#[test]
fn a_fresh_round_permits_exactly_two_more_cards() {
    let mut round = Round::new(vec![1, 2], Deck::new()).expect("enough cards");
    assert_eq!(round.opened_cards().len(), 3);
    assert_eq!(round.open_card(), Ok(()));
    assert_eq!(round.opened_cards().len(), 4);
    assert_eq!(round.open_card(), Ok(()));
    assert_eq!(round.opened_cards().len(), 5);
    assert_eq!(round.open_card(), Err(Error::RoundAlreadyFinished));
    assert_eq!(round.opened_cards().len(), 5);
    assert_eq!(round.open_card(), Err(Error::RoundAlreadyFinished));
}

#[test]
fn the_stages_follow_the_revealed_cards() {
    let mut round = Round::new(vec![1, 2], Deck::new()).expect("enough cards");
    assert_eq!(round.stage(), Stage::Flop);
    assert!(!round.is_finished());
    round.open_card().unwrap();
    assert_eq!(round.stage(), Stage::Turn);
    assert!(!round.is_finished());
    round.open_card().unwrap();
    assert_eq!(round.stage(), Stage::River);
    assert!(round.is_finished());
    assert_eq!(round.open_card(), Err(Error::RoundAlreadyFinished));
    assert_eq!(round.stage(), Stage::River);
}

#[test]
fn open_card_reveals_the_next_card_of_the_deck() {
    let mut round = Round::new(vec![10, 20, 30], Deck::unshuffled()).expect("enough cards");
    round.open_card().unwrap();
    assert_eq!(
        round.opened_cards(),
        &vec![c(Diamonds, 11), c(Hearts, 11), c(Spades, 10), c(Crosses, 10)]
    );
    assert_eq!(round.deck().len(), 42);
    round.open_card().unwrap();
    assert_eq!(
        round.opened_cards(),
        &vec![c(Diamonds, 11), c(Hearts, 11), c(Spades, 10), c(Crosses, 10), c(Diamonds, 10)]
    );
    assert_eq!(round.deck().len(), 41);
}

#[test]
fn a_refused_card_changes_nothing() {
    let mut round = Round::new(vec![10, 20], Deck::unshuffled()).expect("enough cards");
    round.open_card().unwrap();
    round.open_card().unwrap();
    let opened = round.opened_cards().clone();
    let players = round.participants().clone();
    let left = round.deck().len();
    assert_eq!(round.open_card(), Err(Error::RoundAlreadyFinished));
    assert_eq!(round.opened_cards(), &opened);
    assert_eq!(round.participants(), &players);
    assert_eq!(round.deck().len(), left);
}

#[test]
fn finish_leaves_the_round_as_it_is() {
    let mut round = Round::new(vec![10, 20], Deck::unshuffled()).expect("enough cards");
    round.open_card().unwrap();
    round.open_card().unwrap();
    let opened = round.opened_cards().clone();
    round.finish();
    assert_eq!(round.opened_cards(), &opened);
    assert_eq!(round.participants().len(), 2);
}

#[test]
fn pass_participant_removes_exactly_the_matching_id() {
    let mut round = Round::new(vec![10, 20, 30], Deck::unshuffled()).expect("enough cards");
    assert_eq!(round.pass_participant(20), Ok(()));
    assert_eq!(
        round.participants(),
        &vec![
            Player { id: 10, cards: [c(Spades, 12), c(Crosses, 12)] },
            Player { id: 30, cards: [c(Spades, 11), c(Crosses, 11)] },
        ]
    );
    assert_eq!(round.opened_cards(), &vec![c(Diamonds, 11), c(Hearts, 11), c(Spades, 10)]);
    assert_eq!(round.deck().len(), 43);
}

#[test]
fn passing_the_same_id_twice_fails_the_second_time() {
    let mut round = Round::new(vec![10, 20, 30], Deck::new()).expect("enough cards");
    assert_eq!(round.pass_participant(10), Ok(()));
    assert_eq!(round.pass_participant(10), Err(Error::ParticipantNotFound));
    assert_eq!(round.participants().len(), 2);
}

#[test]
fn passing_an_unknown_id_fails_and_changes_nothing() {
    let mut round = Round::new(vec![10, 20, 30], Deck::new()).expect("enough cards");
    let before = round.participants().clone();
    assert_eq!(round.pass_participant(40), Err(Error::ParticipantNotFound));
    assert_eq!(round.participants(), &before);
}

#[test]
fn every_participant_can_pass() {
    let mut round = Round::new(vec![3, 1, 2], Deck::new()).expect("enough cards");
    assert_eq!(round.pass_participant(1), Ok(()));
    assert_eq!(round.pass_participant(2), Ok(()));
    assert_eq!(round.pass_participant(3), Ok(()));
    assert_eq!(round.participants().len(), 0);
    assert_eq!(round.pass_participant(3), Err(Error::ParticipantNotFound));
}

#[test]
fn passing_keeps_the_cards_of_the_others() {
    let mut round = Round::new(vec![7, 8, 9], Deck::new()).expect("enough cards");
    let seven = round.participants()[0];
    let nine = round.participants()[2];
    let before = round.get_combination(9);
    round.pass_participant(8).unwrap();
    assert_eq!(round.participants(), &vec![seven, nine]);
    assert_eq!(round.get_combination(9), before);
}

#[test]
fn get_combination_evaluates_private_and_community_cards() {
    let round = Round::new(vec![10, 20, 30], Deck::unshuffled()).expect("enough cards");
    assert_eq!(round.get_combination(10), Ok(CardCombination::TwoPair(vec![12, 11, 10])));
    assert_eq!(round.get_combination(20), Ok(CardCombination::TwoPair(vec![12, 11, 10])));
    assert_eq!(round.get_combination(30), Ok(CardCombination::Four(vec![11, 10])));
}

#[test]
fn get_combination_follows_the_revealed_cards() {
    let mut round = Round::new(vec![10, 20, 30], Deck::unshuffled()).expect("enough cards");
    round.open_card().unwrap();
    assert_eq!(round.get_combination(10), Ok(CardCombination::TwoPair(vec![12, 11, 10])));
    assert_eq!(round.get_combination(30), Ok(CardCombination::Four(vec![11, 10])));
    round.open_card().unwrap();
    assert_eq!(round.get_combination(10), Ok(CardCombination::FullHouse(vec![10, 12])));
    assert_eq!(round.get_combination(20), Ok(CardCombination::FullHouse(vec![10, 12])));
    assert_eq!(round.get_combination(30), Ok(CardCombination::Four(vec![11, 10])));
}

#[test]
fn get_combination_agrees_with_the_classifier() {
    let mut round = Round::new(vec![5, 6, 7, 8], Deck::new()).expect("enough cards");
    for _ in 0..3 {
        for player in round.participants().clone() {
            let mut cards = vec![player.cards[0], player.cards[1]];
            cards.extend(round.opened_cards().iter().copied());
            assert_eq!(round.get_combination(player.id), CardCombination::best_of(&cards));
            assert!(round.get_combination(player.id).is_ok());
        }
        let _ = round.open_card();
    }
}

#[test]
fn get_combination_fails_for_an_unknown_id() {
    let round = Round::new(vec![10, 20, 30], Deck::new()).expect("enough cards");
    assert_eq!(round.get_combination(0), Err(Error::ParticipantNotFound));
}

#[test]
fn get_combination_fails_for_a_passed_participant() {
    let mut round = Round::new(vec![10, 20, 30], Deck::new()).expect("enough cards");
    round.pass_participant(20).unwrap();
    assert_eq!(round.get_combination(20), Err(Error::ParticipantNotFound));
    assert!(round.get_combination(10).is_ok());
    assert!(round.get_combination(30).is_ok());
}

#[test]
fn nine_cards_serve_a_round_of_two() {
    let mut round = Round::new(vec![1, 2], deck_of(9)).expect("exactly enough cards");
    assert_eq!(round.deck().len(), 2);
    assert_eq!(round.open_card(), Ok(()));
    assert_eq!(round.open_card(), Ok(()));
    assert_eq!(round.deck().len(), 0);
    assert_eq!(round.open_card(), Err(Error::RoundAlreadyFinished));
}

#[test]
fn eight_cards_do_not_serve_a_round_of_two() {
    assert_eq!(Round::new(vec![1, 2], deck_of(8)).err(), Some(Error::DeckExhausted));
}

#[test]
fn an_empty_deck_serves_no_round() {
    assert_eq!(Round::new(vec![], deck_of(0)).err(), Some(Error::DeckExhausted));
    assert_eq!(Round::new(vec![], deck_of(4)).err(), Some(Error::DeckExhausted));
    assert!(Round::new(vec![], deck_of(5)).is_ok());
}

#[test]
fn a_full_deck_serves_23_participants_but_not_24() {
    let ids: Vec<usize> = (0..23).collect();
    let round = Round::new(ids, Deck::new()).expect("enough cards");
    assert_eq!(round.participants().len(), 23);
    assert_eq!(round.deck().len(), 3);
    let ids: Vec<usize> = (0..24).collect();
    assert_eq!(Round::new(ids, Deck::new()).err(), Some(Error::DeckExhausted));
}

#[test]
fn a_crowd_exhausts_the_deck() {
    let ids: Vec<usize> = (0..300).collect();
    assert_eq!(Round::new(ids, Deck::new()).err(), Some(Error::DeckExhausted));
}

#[test]
fn an_id_named_twice_is_refused() {
    assert_eq!(Round::new(vec![1, 2, 1], Deck::new()).err(), Some(Error::DuplicateParticipant));
    assert_eq!(Round::new(vec![4, 4], Deck::new()).err(), Some(Error::DuplicateParticipant));
}

#[test]
fn a_short_deck_is_reported_before_a_repeated_id() {
    assert_eq!(Round::new(vec![1, 1], deck_of(8)).err(), Some(Error::DeckExhausted));
}
