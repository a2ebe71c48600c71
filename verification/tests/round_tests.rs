use pokercalc::card::{Card, ParseError};
use pokercalc::hand::Strength;
use pokercalc::round::{analyse, is_valid_count, parse_cards, process, InputError};

fn line(text: &str) -> Vec<String> {
    text.split_whitespace().map(|t| t.to_string()).collect()
}

#[test]
fn rounds_are_played_with_two_five_six_or_seven_cards() {
    let valid: Vec<usize> = (0..10).filter(|n| is_valid_count(*n)).collect();
    assert_eq!(valid, vec![2, 5, 6, 7]);
}

#[test]
fn a_line_of_a_wrong_number_of_tokens_is_refused() {
    assert!(matches!(process(&line("")), Err(InputError::Count(0))));
    assert!(matches!(process(&line("Ad")), Err(InputError::Count(1))));
    assert!(matches!(process(&line("Ad 9h Js")), Err(InputError::Count(3))));
    assert!(matches!(process(&line("Ad 9h Js Jc")), Err(InputError::Count(4))));
    assert!(matches!(
        process(&line("Ad 9h Js Jc 3h Ks 7c 2c")),
        Err(InputError::Count(8))
    ));
    assert!(matches!(process(&line("xx yy zz")), Err(InputError::Count(3))));
}

#[test]
fn a_line_with_a_bad_token_is_refused_as_a_whole() {
    assert!(matches!(
        process(&line("Ad 9x Js Jc 3h")),
        Err(InputError::Token(1, ParseError::InvalidSuit))
    ));
    assert!(matches!(
        process(&line("Ad 9h Js Jc 1h")),
        Err(InputError::Token(4, ParseError::InvalidRank))
    ));
    assert!(matches!(
        process(&line("A 9h")),
        Err(InputError::Token(0, ParseError::InvalidLength))
    ));
    assert!(matches!(
        process(&line("Ad zz Js Jc 3")),
        Err(InputError::Token(1, ParseError::InvalidRank))
    ));
    assert!(matches!(
        process(&line("Ad 9h Jsx Jc 3h")),
        Err(InputError::Token(2, ParseError::InvalidLength))
    ));
    assert!(matches!(
        process(&line("Adx 9h")),
        Err(InputError::Token(0, ParseError::InvalidLength))
    ));
}

#[test]
fn tokens_are_read_in_order() {
    assert_eq!(
        parse_cards(&line("Ad 9h")),
        Ok(vec![Card::parse("Ad").unwrap(), Card::parse("9h").unwrap()])
    );
    assert_eq!(parse_cards(&line("")), Ok(vec![]));
    assert_eq!(parse_cards(&line("Ad 9 Jx")), Err((1, ParseError::InvalidLength)));
    assert_eq!(parse_cards(&line("Ad 9hh Jx")), Err((1, ParseError::InvalidLength)));
}

#[test]
fn pair_of_jacks_end_to_end() {
    let report = process(&line("Ad 9h Js Jc 3h")).ok().unwrap();
    assert_eq!(report.hand.strength(), Strength::Pair);
    assert_eq!(report.description, "pair of jacks");
    assert_eq!(report.unseen, 47);
    assert_eq!(report.equity.examined, 1081);
    assert_eq!(report.equity.beaten_by.len(), 316);
}

#[test]
fn king_high_straight_flush_end_to_end() {
    let report = process(&line("Ks Qs Js Ts 9s")).ok().unwrap();
    assert_ne!(report.hand.strength(), Strength::RoyalFlush);
    assert_eq!(report.hand.strength(), Strength::StraightFlush);
    assert_eq!(report.description, "straight flush, king high");
    assert_eq!(report.equity.beaten_by.len(), 0);
}

#[test]
fn lower_case_reads_the_same() {
    let upper = process(&line("AD 9H JS JC 3H")).ok().unwrap();
    let lower = process(&line("ad 9h js jc 3h")).ok().unwrap();
    assert_eq!(upper.description, lower.description);
    assert_eq!(upper.hand.score(), lower.hand.score());
    assert_eq!(upper.equity.beaten_by, lower.equity.beaten_by);
}

#[test]
fn the_community_cards_are_all_but_the_first_two() {
    let cards: Vec<Card> =
        ["Qh", "Qd", "7s", "7c", "2h"].iter().map(|t| Card::parse(t).unwrap()).collect();
    let report = analyse(&cards);
    assert_eq!(report.description, "two pair, queens and sevens");
    assert_eq!(report.unseen, 47);
    assert_eq!(report.equity.beaten_by.len(), 106);
    let swapped: Vec<Card> =
        ["7s", "7c", "Qh", "Qd", "2h"].iter().map(|t| Card::parse(t).unwrap()).collect();
    let other = analyse(&swapped);
    assert_eq!(other.hand.score(), report.hand.score());
    assert_ne!(other.equity.beaten_by.len(), report.equity.beaten_by.len());
}

#[test]
fn a_card_named_twice_leaves_the_deck_once() {
    let report = process(&line("Ad Ad")).ok().unwrap();
    assert_eq!(report.unseen, 51);
    assert_eq!(report.equity.examined, 1275);
    assert_eq!(report.description, "pair of aces");
}

#[test]
fn any_number_of_cards_can_be_analysed() {
    let none = analyse(&vec![]);
    assert_eq!(none.hand.strength(), Strength::Empty);
    assert_eq!(none.description, "empty");
    assert_eq!(none.unseen, 52);
    assert_eq!(none.equity.examined, 1326);
    assert_eq!(none.equity.beaten_by.len(), 1326);
    let one = analyse(&vec![Card::parse("As").unwrap()]);
    assert_eq!(one.description, "ace high");
    assert_eq!(one.unseen, 51);
    assert_eq!(one.equity.examined, 1275);
}
