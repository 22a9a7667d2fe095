use holdem::{Card, CardSuit, Deck, Error};

fn drain(deck: &mut Deck) -> Vec<Card> {
    let mut drawn = Vec::new();
    while let Ok(card) = deck.open_card() {
        drawn.push(card);
    }
    drawn
}

fn has_no_duplicates(cards: &[Card]) -> bool {
    for i in 0..cards.len() {
        for j in (i + 1)..cards.len() {
            if cards[i] == cards[j] {
                return false;
            }
        }
    }
    true
}

fn card(suit: CardSuit, rank: u8) -> Card {
    Card::new(suit, rank).unwrap()
}

#[test]
fn a_new_deck_holds_52_cards() {
    assert_eq!(Deck::new().len(), 52);
}

#[test]
fn a_new_deck_holds_every_card_once() {
    let mut deck = Deck::new();
    let drawn = drain(&mut deck);
    assert_eq!(drawn.len(), 52);
    assert!(has_no_duplicates(&drawn));
    for suit in [CardSuit::Hearts, CardSuit::Diamonds, CardSuit::Crosses, CardSuit::Spades] {
        for rank in 0..=12u8 {
            assert!(drawn.contains(&card(suit, rank)));
        }
    }
}

#[test]
fn a_new_deck_is_not_in_unshuffled_order() {
    let shuffled = drain(&mut Deck::new());
    let ordered = drain(&mut Deck::unshuffled());
    assert_ne!(shuffled, ordered);
}

#[test]
fn two_new_decks_differ_in_order() {
    let first = drain(&mut Deck::new());
    let second = drain(&mut Deck::new());
    assert_ne!(first, second);
}

#[test]
fn the_unshuffled_deck_is_drawn_from_the_ace_of_spades_down() {
    let mut deck = Deck::unshuffled();
    assert_eq!(deck.open_card(), Ok(card(CardSuit::Spades, 12)));
    assert_eq!(deck.open_card(), Ok(card(CardSuit::Crosses, 12)));
    assert_eq!(deck.open_card(), Ok(card(CardSuit::Diamonds, 12)));
    assert_eq!(deck.open_card(), Ok(card(CardSuit::Hearts, 12)));
    assert_eq!(deck.open_card(), Ok(card(CardSuit::Spades, 11)));
}

#[test]
fn the_unshuffled_deck_ends_with_the_two_of_hearts() {
    let mut deck = Deck::unshuffled();
    let drawn = drain(&mut deck);
    assert_eq!(drawn.len(), 52);
    assert_eq!(drawn[51], card(CardSuit::Hearts, 0));
    assert_eq!(drawn[50], card(CardSuit::Diamonds, 0));
    assert_eq!(drawn[47], card(CardSuit::Hearts, 1));
}

#[test]
fn each_draw_leaves_one_card_fewer() {
    let mut deck = Deck::new();
    let mut drawn = Vec::new();
    for n in 1..=52usize {
        drawn.push(deck.open_card().expect("cards remain"));
        assert_eq!(deck.len(), 52 - n);
        assert!(has_no_duplicates(&drawn));
    }
    assert_eq!(deck.len(), 0);
}

#[test]
fn drawn_and_remaining_cards_never_repeat() {
    let mut deck = Deck::new();
    let mut drawn = Vec::new();
    for _ in 0..20 {
        drawn.push(deck.open_card().unwrap());
    }
    assert_eq!(deck.len(), 32);
    let rest = drain(&mut deck);
    assert_eq!(rest.len(), 32);
    drawn.extend(rest);
    assert_eq!(drawn.len(), 52);
    assert!(has_no_duplicates(&drawn));
}

#[test]
fn open_card_fails_on_an_empty_deck() {
    let mut deck = Deck::new();
    drain(&mut deck);
    assert_eq!(deck.open_card(), Err(Error::DeckExhausted));
    assert_eq!(deck.len(), 0);
}

#[test]
fn pop_cards_for_player_takes_two_cards_in_drawing_order() {
    let mut deck = Deck::unshuffled();
    let pair = deck.pop_cards_for_player().expect("cards remain");
    assert_eq!(pair, [card(CardSuit::Spades, 12), card(CardSuit::Crosses, 12)]);
    assert_eq!(deck.len(), 50);
    let next = deck.pop_cards_for_player().expect("cards remain");
    assert_eq!(next, [card(CardSuit::Diamonds, 12), card(CardSuit::Hearts, 12)]);
    assert_eq!(deck.len(), 48);
}

#[test]
fn pop_cards_for_player_fails_with_one_card_left() {
    let mut deck = Deck::unshuffled();
    for _ in 0..51 {
        deck.open_card().unwrap();
    }
    assert_eq!(deck.len(), 1);
    assert_eq!(deck.pop_cards_for_player(), Err(Error::DeckExhausted));
    assert_eq!(deck.len(), 1);
    assert_eq!(deck.open_card(), Ok(card(CardSuit::Hearts, 0)));
}

#[test]
fn pop_cards_for_player_fails_on_an_empty_deck() {
    let mut deck = Deck::new();
    drain(&mut deck);
    assert_eq!(deck.pop_cards_for_player(), Err(Error::DeckExhausted));
}

#[test]
fn pop_cards_for_player_takes_the_last_two_cards() {
    let mut deck = Deck::unshuffled();
    for _ in 0..50 {
        deck.open_card().unwrap();
    }
    let pair = deck.pop_cards_for_player().expect("two cards remain");
    assert_eq!(pair, [card(CardSuit::Diamonds, 0), card(CardSuit::Hearts, 0)]);
    assert_eq!(deck.len(), 0);
}

#[test]
fn nine_cards_are_enough_for_two_players() {
    let mut deck = Deck::new();
    for _ in 0..43 {
        deck.open_card().unwrap();
    }
    assert_eq!(deck.len(), 9);
    assert!(deck.are_cards_available(2));
}

#[test]
fn eight_cards_are_too_few_for_two_players() {
    let mut deck = Deck::new();
    for _ in 0..44 {
        deck.open_card().unwrap();
    }
    assert_eq!(deck.len(), 8);
    assert!(!deck.are_cards_available(2));
}

#[test]
fn ten_cards_are_enough_for_two_players() {
    let mut deck = Deck::new();
    for _ in 0..42 {
        deck.open_card().unwrap();
    }
    assert_eq!(deck.len(), 10);
    assert!(deck.are_cards_available(2));
    assert!(!deck.are_cards_available(3));
}

#[test]
fn a_full_deck_serves_up_to_23_players() {
    let deck = Deck::new();
    assert!(deck.are_cards_available(0));
    assert!(deck.are_cards_available(1));
    assert!(deck.are_cards_available(23));
    assert!(!deck.are_cards_available(24));
    assert!(!deck.are_cards_available(255));
}

#[test]
fn five_cards_are_enough_for_no_players() {
    let mut deck = Deck::new();
    for _ in 0..47 {
        deck.open_card().unwrap();
    }
    assert!(deck.are_cards_available(0));
    deck.open_card().unwrap();
    assert!(!deck.are_cards_available(0));
}

#[test]
fn cards_lists_the_remaining_cards_with_the_next_one_last() {
    let mut deck = Deck::unshuffled();
    assert_eq!(deck.cards().len(), 52);
    assert_eq!(deck.cards()[0], card(CardSuit::Hearts, 0));
    assert_eq!(deck.cards()[51], card(CardSuit::Spades, 12));
    let top = deck.open_card().unwrap();
    assert_eq!(top, card(CardSuit::Spades, 12));
    assert_eq!(deck.cards().len(), 51);
    assert!(!deck.cards().contains(&top));
}
