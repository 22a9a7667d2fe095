use holdem::{Card, CardSuit, Error};

#[test]
fn new_accepts_every_rank_up_to_the_ace() {
    for rank in 0..=12u8 {
        let card = Card::new(CardSuit::Hearts, rank).expect("rank in range");
        assert_eq!(card.rank(), rank);
        assert_eq!(card.suit(), CardSuit::Hearts);
    }
}

#[test]
fn new_keeps_the_suit() {
    for suit in [CardSuit::Hearts, CardSuit::Diamonds, CardSuit::Crosses, CardSuit::Spades] {
        let card = Card::new(suit, 7).expect("rank in range");
        assert_eq!(card.suit(), suit);
        assert_eq!(card.rank(), 7);
    }
}

#[test]
fn new_rejects_rank_thirteen() {
    assert_eq!(Card::new(CardSuit::Spades, 13), Err(Error::InvalidRank));
}

#[test]
fn new_rejects_the_largest_rank() {
    assert_eq!(Card::new(CardSuit::Diamonds, 255), Err(Error::InvalidRank));
}

#[test]
fn cards_are_equal_when_suit_and_rank_agree() {
    let a = Card::new(CardSuit::Crosses, 4).unwrap();
    let b = Card::new(CardSuit::Crosses, 4).unwrap();
    assert_eq!(a, b);
}

#[test]
fn cards_differ_when_the_suit_differs() {
    let a = Card::new(CardSuit::Crosses, 4).unwrap();
    let b = Card::new(CardSuit::Spades, 4).unwrap();
    assert_ne!(a, b);
}

#[test]
fn cards_differ_when_the_rank_differs() {
    let a = Card::new(CardSuit::Crosses, 4).unwrap();
    let b = Card::new(CardSuit::Crosses, 5).unwrap();
    assert_ne!(a, b);
}

#[test]
fn a_copied_card_is_the_same_card() {
    let a = Card::new(CardSuit::Hearts, 12).unwrap();
    let b = a;
    assert_eq!(a, b);
    assert_eq!(a.clone(), b);
}
