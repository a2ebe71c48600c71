use pokercalc::card::Card;
use pokercalc::deck::Deck;
use pokercalc::equity::{beaten_by, Equity};
use pokercalc::hand::Hand;

fn search(tokens: &[&str]) -> (Hand, Equity, usize) {
    let mut hand = Hand::new();
    let mut community = Hand::new();
    let mut deck = Deck::new();
    for (i, token) in tokens.iter().enumerate() {
        let card = Card::parse(token).unwrap();
        hand.add(card);
        if i >= 2 {
            community.add(card);
        }
        deck.remove(&card);
    }
    hand.calc();
    let unseen = deck.cards().len();
    let equity = beaten_by(&hand, &community, &deck);
    (hand, equity, unseen)
}

fn shown(pair: &(Card, Card)) -> String {
    format!("{} {}", pair.0.token(), pair.1.token())
}

#[test]
fn every_pair_of_the_unseen_cards_is_tried_once() {
    for tokens in [
        vec!["Ad", "9h"],
        vec!["Ad", "9h", "Js", "Jc", "3h"],
        vec!["Ad", "9h", "Js", "Jc", "3h", "Ks"],
        vec!["Ad", "9h", "Js", "Jc", "3h", "Ks", "7c"],
    ] {
        let (_, equity, unseen) = search(&tokens);
        assert_eq!(unseen, 52 - tokens.len());
        assert_eq!(equity.examined, unseen * (unseen - 1) / 2);
    }
    let (_, equity, _) = search(&["Ad", "9h", "Js", "Jc", "3h", "Ks", "7c"]);
    assert_eq!(equity.examined, 990);
}

#[test]
fn pair_of_jacks_on_the_flop() {
    let (hand, equity, unseen) = search(&["Ad", "9h", "Js", "Jc", "3h"]);
    assert_eq!(hand.score(), 0x1be930);
    assert_eq!(unseen, 47);
    assert_eq!(equity.examined, 1081);
    assert_eq!(equity.beaten_by.len(), 316);
    assert_eq!(equity.odds(), (316, 1081));
    assert_eq!(shown(&equity.beaten_by[0]), "AS TH");
    assert_eq!(shown(&equity.beaten_by[1]), "AS JH");
    assert_eq!(shown(&equity.beaten_by[2]), "AS QH");
    assert_eq!(shown(&equity.beaten_by[315]), "JH TH");
    assert_eq!(shown(&equity.beaten_by[314]), "JH 8H");
}

#[test]
fn pair_of_jacks_on_the_river() {
    let (_, equity, unseen) = search(&["Ad", "9h", "Js", "Jc", "3h", "Ks", "7c"]);
    assert_eq!(unseen, 45);
    assert_eq!(equity.examined, 990);
    assert_eq!(equity.beaten_by.len(), 501);
    let chance = equity.beaten_by.len() as f64 / equity.examined as f64;
    let summed: f64 =
        equity.beaten_by.iter().map(|_| 2.0 / (unseen as f64 * (unseen as f64 - 1.0))).sum();
    assert!((chance - summed).abs() < 1e-9);
    assert!((chance * 100.0 - 50.606).abs() < 0.001);
}

#[test]
fn nothing_beats_a_royal_flush() {
    let (_, equity, _) = search(&["As", "Ks", "Qs", "Js", "Ts"]);
    assert_eq!(equity.beaten_by.len(), 0);
    assert_eq!(equity.examined, 1081);
    assert_eq!(equity.odds(), (0, 1081));
}

#[test]
fn a_tie_does_not_beat_the_player() {
    let (hand, equity, _) = search(&["2c", "3d", "As", "Ks", "Qs", "Js", "Ts"]);
    assert_eq!(hand.score(), 0x9e0000);
    assert_eq!(equity.examined, 990);
    assert_eq!(equity.beaten_by.len(), 0);
    let (_, equity, _) = search(&["Kh", "Kd", "Ks", "Jc", "Jh"]);
    assert_eq!(equity.beaten_by.len(), 1);
    assert_eq!(shown(&equity.beaten_by[0]), "JS JD");
}

#[test]
fn the_wheel_is_beaten_by_the_higher_straights() {
    let (_, equity, _) = search(&["As", "2h", "3d", "4c", "5s"]);
    assert_eq!(equity.beaten_by.len(), 28);
    assert_eq!(shown(&equity.beaten_by[0]), "7S 6H");
    let (_, equity, _) = search(&["As", "2s", "3s", "4s", "5s"]);
    assert_eq!(equity.beaten_by.len(), 1);
    assert_eq!(shown(&equity.beaten_by[0]), "7S 6S");
}

#[test]
fn hole_cards_alone() {
    let (_, equity, unseen) = search(&["Ah", "Ad"]);
    assert_eq!(unseen, 50);
    assert_eq!(equity.examined, 1225);
    assert_eq!(equity.beaten_by.len(), 0);
    let (_, equity, _) = search(&["2h", "7d"]);
    assert_eq!(equity.beaten_by.len(), 1072);
}

#[test]
fn a_deck_of_fewer_than_two_cards_gives_no_pair() {
    let mut deck = Deck::new();
    let all = deck.cards().clone();
    for card in all.iter().skip(1) {
        deck.remove(card);
    }
    assert_eq!(deck.cards().len(), 1);
    let hand = Hand::new();
    let community = Hand::new();
    let equity = beaten_by(&hand, &community, &deck);
    assert_eq!(equity.examined, 0);
    assert_eq!(equity.beaten_by.len(), 0);
    deck.remove(&all[0]);
    let equity = beaten_by(&hand, &community, &deck);
    assert_eq!(equity.examined, 0);
    assert_eq!(equity.beaten_by.len(), 0);
}

#[test]
fn a_deck_of_three_cards_gives_three_pairs_the_last_card_first() {
    let mut deck = Deck::new();
    let all = deck.cards().clone();
    for card in all.iter().skip(3) {
        deck.remove(card);
    }
    let hand = Hand::new();
    let community = Hand::new();
    let equity = beaten_by(&hand, &community, &deck);
    assert_eq!(equity.examined, 3);
    let pairs: Vec<String> = equity.beaten_by.iter().map(shown).collect();
    assert_eq!(pairs, vec!["4H 2H", "4H 3H", "3H 2H"]);
}

#[test]
fn no_pair_is_tried_twice_in_either_order() {
    let deck = Deck::new();
    let hand = Hand::new();
    let community = Hand::new();
    let equity = beaten_by(&hand, &community, &deck);
    assert_eq!(equity.examined, 52 * 51 / 2);
    assert_eq!(equity.beaten_by.len(), 1326);
    let mut seen = std::collections::HashSet::new();
    for (first, second) in equity.beaten_by.iter() {
        assert_ne!(first, second);
        assert!(!seen.contains(&(*second, *first)));
        assert!(seen.insert((*first, *second)));
    }
    assert_eq!(shown(&equity.beaten_by[0]), "AS 2H");
    assert_eq!(shown(&equity.beaten_by[50]), "AS KS");
    assert_eq!(shown(&equity.beaten_by[51]), "KS 2H");
    assert_eq!(shown(&equity.beaten_by[1325]), "3H 2H");
}
