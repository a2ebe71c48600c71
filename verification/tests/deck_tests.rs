use pokercalc::card::{Card, Suit, Value};
use pokercalc::deck::Deck;

fn card(token: &str) -> Card {
    Card::parse(token).unwrap()
}

#[test]
fn a_fresh_deck_has_52_different_cards() {
    let deck = Deck::new();
    let cards = deck.cards();
    assert_eq!(cards.len(), 52);
    for i in 0..cards.len() {
        for j in 0..i {
            assert_ne!(cards[i], cards[j]);
        }
    }
}

#[test]
fn a_fresh_deck_goes_suit_by_suit_from_the_two_up() {
    let deck = Deck::new();
    let cards = deck.cards();
    assert_eq!(cards[0], Card { value: Value::Two, suit: Suit::Heart });
    assert_eq!(cards[12], Card { value: Value::Ace, suit: Suit::Heart });
    assert_eq!(cards[13], Card { value: Value::Two, suit: Suit::Diamond });
    assert_eq!(cards[26], Card { value: Value::Two, suit: Suit::Club });
    assert_eq!(cards[39], Card { value: Value::Two, suit: Suit::Spade });
    assert_eq!(cards[51], Card { value: Value::Ace, suit: Suit::Spade });
    for (i, c) in cards.iter().enumerate() {
        assert_eq!(c.value().to_u32() as usize, 2 + i % 13);
        assert_eq!(Suit::from_index((i / 13) as u32), Some(c.suit()));
    }
}

#[test]
fn removing_seven_known_cards_leaves_45() {
    let mut deck = Deck::new();
    for token in ["Ad", "9h", "Js", "Jc", "3h", "Ks", "7c"] {
        deck.remove(&card(token));
    }
    assert_eq!(deck.cards().len(), 45);
    for token in ["Ad", "9h", "Js", "Jc", "3h", "Ks", "7c"] {
        assert!(!deck.cards().contains(&card(token)));
    }
    assert!(deck.cards().contains(&card("Ah")));
}

#[test]
fn removing_an_absent_card_changes_nothing() {
    let mut deck = Deck::new();
    deck.remove(&card("Qh"));
    assert_eq!(deck.cards().len(), 51);
    let before = deck.cards().clone();
    deck.remove(&card("Qh"));
    assert_eq!(deck.cards().len(), 51);
    assert_eq!(deck.cards(), &before);
}

#[test]
fn removing_a_card_keeps_the_order_of_the_others() {
    let mut deck = Deck::new();
    deck.remove(&card("3h"));
    let cards = deck.cards();
    assert_eq!(cards[0], card("2h"));
    assert_eq!(cards[1], card("4h"));
    assert_eq!(cards[50], card("As"));
}

#[test]
fn a_deck_can_be_emptied() {
    let mut deck = Deck::new();
    let all = deck.cards().clone();
    for c in all.iter() {
        deck.remove(c);
    }
    assert_eq!(deck.cards().len(), 0);
    deck.remove(&card("As"));
    assert_eq!(deck.cards().len(), 0);
}
