use pokercalc::card::{Card, Value};
use pokercalc::hand::{base_of, encode_score, Hand, Strength};
use pokercalc::histogram::{SuitTotal, ValueTotal};

fn hand_of(tokens: &[&str]) -> Hand {
    let mut hand = Hand::new();
    for token in tokens {
        hand.add(Card::parse(token).unwrap());
    }
    hand.calc();
    hand
}

fn ranks(hand: &Hand) -> Vec<u32> {
    hand.best().iter().map(|v| v.to_u32()).collect()
}

#[test]
fn a_new_hand_is_empty() {
    let hand = Hand::new();
    assert_eq!(hand.cards().len(), 0);
    assert_eq!(hand.strength(), Strength::Empty);
    assert_eq!(hand.best().len(), 0);
    assert_eq!(hand.score(), 0);
    assert_eq!(hand.describe(), "empty");
}

#[test]
fn evaluating_no_cards_gives_the_empty_category() {
    let mut hand = Hand::new();
    hand.calc();
    assert_eq!(hand.strength(), Strength::Empty);
    assert_eq!(hand.score(), 0);
    assert_eq!(hand.describe(), "empty");
}

#[test]
fn adding_a_card_leaves_the_evaluation_as_it_was() {
    let mut hand = hand_of(&["Ad", "9h", "Js", "Jc", "3h"]);
    let score = hand.score();
    hand.add(Card::parse("Jd").unwrap());
    assert_eq!(hand.cards().len(), 6);
    assert_eq!(hand.cards()[5], Card::parse("Jd").unwrap());
    assert_eq!(hand.strength(), Strength::Pair);
    assert_eq!(hand.score(), score);
    hand.calc();
    assert_eq!(hand.strength(), Strength::ThreeofaKind);
    assert_eq!(ranks(&hand), vec![11, 14, 9]);
    assert_eq!(hand.describe(), "three of a kind, jacks");
}

#[test]
fn evaluating_twice_gives_the_same() {
    let mut hand = hand_of(&["Qh", "Qd", "7s", "7c", "2h"]);
    let score = hand.score();
    let best = hand.best().clone();
    hand.calc();
    assert_eq!(hand.score(), score);
    assert_eq!(hand.best(), &best);
    assert_eq!(hand.strength(), Strength::TwoPair);
}

#[test]
fn evaluation_sorts_the_cards_by_rank() {
    let hand = hand_of(&["3h", "Ad", "Js", "9h", "Jc"]);
    let tokens: Vec<String> = hand.cards().iter().map(|c| c.token()).collect();
    assert_eq!(tokens, vec!["AD", "JS", "JC", "9H", "3H"]);
}

#[test]
fn wheel_is_a_five_high_straight() {
    let hand = hand_of(&["As", "2h", "3d", "4c", "5s"]);
    assert_eq!(hand.strength(), Strength::Straight);
    assert_ne!(hand.strength(), Strength::HighCard);
    assert_eq!(hand.best(), &vec![Value::Five]);
    assert_eq!(ranks(&hand), vec![5]);
    assert_eq!(hand.describe(), "straight, five high");
    assert_eq!(hand.score(), (4 << 20) + (5 << 16));
}

#[test]
fn royal_flush_is_the_ace_high_straight_flush() {
    let hand = hand_of(&["As", "Ks", "Qs", "Js", "Ts"]);
    assert_eq!(hand.strength(), Strength::RoyalFlush);
    assert_eq!(hand.describe(), "royal flush");
    assert_eq!(hand.score(), 0x9e0000);
}

#[test]
fn nine_high_straight_flush() {
    let hand = hand_of(&["9s", "8s", "7s", "6s", "5s"]);
    assert_eq!(hand.strength(), Strength::StraightFlush);
    assert_eq!(hand.best(), &vec![Value::Nine]);
    assert_eq!(hand.describe(), "straight flush, nine high");
    assert_eq!(hand.score(), 0x890000);
}

#[test]
fn king_high_straight_flush_is_not_royal() {
    let hand = hand_of(&["Ks", "Qs", "Js", "Ts", "9s"]);
    assert_ne!(hand.strength(), Strength::RoyalFlush);
    assert_eq!(hand.strength(), Strength::StraightFlush);
    assert_eq!(hand.best(), &vec![Value::King]);
    assert_eq!(hand.describe(), "straight flush, king high");
    assert_eq!(hand.score(), 0x8d0000);
}

#[test]
fn wheel_in_one_suit_is_a_five_high_straight_flush() {
    let hand = hand_of(&["As", "2s", "3s", "4s", "5s"]);
    assert_eq!(hand.strength(), Strength::StraightFlush);
    assert_eq!(hand.best(), &vec![Value::Five]);
    assert_eq!(hand.describe(), "straight flush, five high");
    assert_eq!(hand.score(), 0x850000);
}

#[test]
fn pair_of_jacks_with_kickers() {
    let hand = hand_of(&["Ad", "9h", "Js", "Jc", "3h"]);
    assert_eq!(hand.strength(), Strength::Pair);
    assert_eq!(hand.best()[0], Value::Jack);
    assert_eq!(hand.best()[1], Value::Ace);
    assert_eq!(hand.best(), &vec![Value::Jack, Value::Ace, Value::Nine, Value::Three]);
    assert_eq!(hand.describe(), "pair of jacks");
    assert_eq!(hand.score(), 0x1be930);
}

#[test]
fn four_of_a_kind() {
    let hand = hand_of(&["Kh", "Kd", "Ks", "Kc", "3h"]);
    assert_eq!(hand.strength(), Strength::FourofaKind);
    assert_eq!(ranks(&hand), vec![13, 3]);
    assert_eq!(hand.describe(), "four of a kind, kings");
    assert_eq!(hand.score(), 0x7d3000);
}

#[test]
fn full_house() {
    let hand = hand_of(&["Jc", "Kh", "Kd", "Jh", "Ks"]);
    assert_eq!(hand.strength(), Strength::FullHouse);
    assert_eq!(ranks(&hand), vec![13, 11]);
    assert_eq!(hand.describe(), "full house, kings over jacks");
    assert_eq!(hand.score(), 0x6db000);
}

#[test]
fn flush() {
    let hand = hand_of(&["9h", "Ah", "7h", "4h", "2h"]);
    assert_eq!(hand.strength(), Strength::Flush);
    assert_eq!(ranks(&hand), vec![14]);
    assert_eq!(hand.describe(), "flush, ace high");
    assert_eq!(hand.score(), 0x5e0000);
}

#[test]
fn straight() {
    let hand = hand_of(&["9h", "Kd", "Js", "Qc", "Th"]);
    assert_eq!(hand.strength(), Strength::Straight);
    assert_eq!(ranks(&hand), vec![13]);
    assert_eq!(hand.describe(), "straight, king high");
    assert_eq!(hand.score(), 0x4d0000);
}

#[test]
fn three_of_a_kind() {
    let hand = hand_of(&["Qh", "Qd", "Qs", "7c", "2h"]);
    assert_eq!(hand.strength(), Strength::ThreeofaKind);
    assert_eq!(ranks(&hand), vec![12, 7, 2]);
    assert_eq!(hand.describe(), "three of a kind, queens");
    assert_eq!(hand.score(), 0x3c7200);
}

#[test]
fn two_pair_names_the_higher_pair_first() {
    let hand = hand_of(&["7s", "Qh", "2h", "7c", "Qd"]);
    assert_eq!(hand.strength(), Strength::TwoPair);
    assert_eq!(ranks(&hand), vec![12, 7, 2]);
    assert_eq!(hand.describe(), "two pair, queens and sevens");
    assert_eq!(hand.score(), 0x2c7200);
}

#[test]
fn pair_of_nines() {
    let hand = hand_of(&["9s", "9h", "Ad", "4c", "2h"]);
    assert_eq!(hand.strength(), Strength::Pair);
    assert_eq!(hand.describe(), "pair of nines");
}

#[test]
fn descriptions_name_ranks_by_their_words_with_an_s() {
    assert_eq!(hand_of(&["6s", "6h", "Ad", "4c", "2h"]).describe(), "pair of sixs");
    assert_eq!(hand_of(&["2s", "2h", "2d", "2c", "Ah"]).describe(), "four of a kind, twos");
    assert_eq!(
        hand_of(&["Ts", "Th", "Td", "3c", "3h"]).describe(),
        "full house, tens over threes"
    );
    assert_eq!(hand_of(&["8s", "8h", "5d", "5c", "Ah"]).describe(), "two pair, eights and fives");
    assert_eq!(hand_of(&["Ks", "Qh", "7d", "4c", "2h"]).describe(), "king high");
    assert_eq!(hand_of(&["7s", "6h", "5d", "4c", "3h"]).describe(), "straight, seven high");
    assert_eq!(hand_of(&["Qh", "9h", "7h", "4h", "2h"]).describe(), "flush, queen high");
}

#[test]
fn high_card_takes_the_five_ranks_in_descending_order() {
    let hand = hand_of(&["7c", "Ah", "2h", "Kd", "9s"]);
    assert_eq!(hand.strength(), Strength::HighCard);
    assert_eq!(ranks(&hand), vec![14, 13, 9, 7, 2]);
    assert_eq!(hand.describe(), "ace high");
    assert_eq!(hand.score(), 0x0ed972);
}

#[test]
fn two_hole_cards_alone() {
    let pair = hand_of(&["Ah", "Ad"]);
    assert_eq!(pair.strength(), Strength::Pair);
    assert_eq!(ranks(&pair), vec![14]);
    assert_eq!(pair.score(), 0x1e0000);
    let high = hand_of(&["2h", "7d"]);
    assert_eq!(high.strength(), Strength::HighCard);
    assert_eq!(ranks(&high), vec![7, 2]);
    assert_eq!(high.score(), 0x072000);
    assert_eq!(high.describe(), "seven high");
}

#[test]
fn four_cards_of_a_suit_are_no_flush() {
    let hand = hand_of(&["Ah", "9h", "7h", "4h"]);
    assert_eq!(hand.strength(), Strength::HighCard);
    let hand = hand_of(&["Ah", "9h", "7h", "4h", "2s"]);
    assert_eq!(hand.strength(), Strength::HighCard);
}

#[test]
fn four_ranks_in_a_row_are_no_straight() {
    let hand = hand_of(&["9h", "8d", "7s", "6c", "2h"]);
    assert_eq!(hand.strength(), Strength::HighCard);
    let hand = hand_of(&["Kh", "Ad", "2s", "3c", "4h"]);
    assert_eq!(hand.strength(), Strength::HighCard);
    let hand = hand_of(&["2h", "3d", "4s", "5c", "7h"]);
    assert_eq!(hand.strength(), Strength::HighCard);
}

#[test]
fn seven_cards_straight_below_an_ace() {
    let hand = hand_of(&["Ah", "9c", "8d", "7s", "6h", "5c", "2d"]);
    assert_eq!(hand.strength(), Strength::Straight);
    assert_eq!(ranks(&hand), vec![9]);
    assert_eq!(hand.describe(), "straight, nine high");
}

#[test]
fn seven_cards_straight_through_a_pair() {
    let hand = hand_of(&["9h", "8c", "8d", "7s", "6h", "5c", "2d"]);
    assert_eq!(hand.strength(), Strength::Straight);
    assert_eq!(ranks(&hand), vec![9]);
    assert_eq!(hand.score(), 0x490000);
}

#[test]
fn the_highest_of_two_straights_counts() {
    let hand = hand_of(&["4h", "5c", "6d", "7s", "8h", "9c", "Td"]);
    assert_eq!(hand.strength(), Strength::Straight);
    assert_eq!(ranks(&hand), vec![10]);
    let hand = hand_of(&["Ah", "2c", "3d", "4s", "5h", "6c", "Kd"]);
    assert_eq!(hand.strength(), Strength::Straight);
    assert_eq!(ranks(&hand), vec![6]);
}

#[test]
fn seven_cards_wheel() {
    let hand = hand_of(&["Ah", "Kc", "Qd", "5s", "4h", "3c", "2d"]);
    assert_eq!(hand.strength(), Strength::Straight);
    assert_eq!(ranks(&hand), vec![5]);
}

#[test]
fn seven_cards_two_threes_are_a_full_house() {
    let hand = hand_of(&["Kh", "Kd", "Ks", "Jc", "Jh", "Jd", "2c"]);
    assert_eq!(hand.strength(), Strength::FullHouse);
    assert_eq!(ranks(&hand), vec![13, 11]);
    assert_eq!(hand.describe(), "full house, kings over jacks");
}

#[test]
fn seven_cards_three_pairs_are_two_pair() {
    let hand = hand_of(&["Kh", "Kd", "9s", "9c", "4h", "4d", "Ac"]);
    assert_eq!(hand.strength(), Strength::TwoPair);
    assert_eq!(ranks(&hand), vec![13, 9, 4]);
}

#[test]
fn seven_cards_flush_goes_before_three_of_a_kind() {
    let hand = hand_of(&["Kh", "Kd", "Ks", "9h", "7h", "4h", "2h"]);
    assert_eq!(hand.strength(), Strength::Flush);
    assert_eq!(ranks(&hand), vec![13]);
}

#[test]
fn histograms_stand_in_descending_order() {
    let mut hand = Hand::new();
    for token in ["7s", "Qh", "2h", "7c", "Qd", "2d", "Ah"] {
        hand.add(Card::parse(token).unwrap());
    }
    assert_eq!(
        hand.count_values(),
        vec![
            ValueTotal { value: Value::Queen, total: 2 },
            ValueTotal { value: Value::Seven, total: 2 },
            ValueTotal { value: Value::Two, total: 2 },
            ValueTotal { value: Value::Ace, total: 1 },
        ]
    );
    assert_eq!(
        hand.count_suits(),
        vec![SuitTotal { total: 3 }, SuitTotal { total: 2 }, SuitTotal { total: 1 }, SuitTotal { total: 1 }]
    );
    assert_eq!(Hand::new().count_values(), vec![]);
    assert_eq!(Hand::new().count_suits(), vec![]);
}

#[test]
fn score_puts_category_and_ranks_in_fields_of_four_bits() {
    assert_eq!(encode_score(Strength::HighCard, &vec![]), 0);
    assert_eq!(encode_score(Strength::RoyalFlush, &vec![Value::Ace]), (9 << 20) + (14 << 16));
    assert_eq!(
        encode_score(
            Strength::HighCard,
            &vec![Value::Ace, Value::King, Value::Queen, Value::Jack, Value::Nine]
        ),
        0x0edcb9
    );
    assert_eq!(
        encode_score(Strength::Pair, &vec![Value::Two, Value::Five, Value::Four, Value::Three]),
        (1 << 20) + (2 << 16) + (5 << 12) + (4 << 8) + (3 << 4)
    );
    assert_eq!(
        encode_score(
            Strength::HighCard,
            &vec![Value::Two, Value::Two, Value::Two, Value::Two, Value::Two, Value::Ace]
        ),
        0x022222
    );
    let bases: Vec<u32> = [
        Strength::HighCard,
        Strength::Pair,
        Strength::TwoPair,
        Strength::ThreeofaKind,
        Strength::Straight,
        Strength::Flush,
        Strength::FullHouse,
        Strength::FourofaKind,
        Strength::StraightFlush,
        Strength::RoyalFlush,
    ]
    .iter()
    .map(|s| base_of(*s))
    .collect();
    assert_eq!(bases, vec![0, 1, 2, 3, 4, 5, 6, 7, 8, 9]);
}

#[test]
fn a_higher_category_beats_any_kickers() {
    let weakest_pair = hand_of(&["2h", "2d", "3s", "4c", "5h"]);
    let strongest_high_card = hand_of(&["Ah", "Kd", "Qs", "Jc", "9h"]);
    assert!(weakest_pair.score() > strongest_high_card.score());
    let six_high_straight = hand_of(&["2h", "3d", "4s", "5c", "6h"]);
    let wheel = hand_of(&["Ah", "2d", "3s", "4c", "5h"]);
    let three_aces = hand_of(&["Ah", "Ad", "As", "Kc", "Qh"]);
    assert!(six_high_straight.score() > wheel.score());
    assert!(wheel.score() > three_aces.score());
}

#[test]
fn kickers_decide_inside_a_category() {
    let better = hand_of(&["Jh", "Jd", "As", "9c", "4h"]);
    let worse = hand_of(&["Js", "Jc", "Ad", "9h", "3h"]);
    assert!(better.score() > worse.score());
    let same = hand_of(&["Js", "Jc", "Ad", "9h", "4d"]);
    assert_eq!(better.score(), same.score());
}

#[test]
fn the_order_of_the_cards_plays_no_part() {
    let one = hand_of(&["Ad", "9h", "Js", "Jc", "3h", "Ks", "7c"]);
    let other = hand_of(&["7c", "Ks", "3h", "Jc", "Js", "9h", "Ad"]);
    assert_eq!(one.strength(), other.strength());
    assert_eq!(one.best(), other.best());
    assert_eq!(one.score(), other.score());
    assert_eq!(one.score(), 0x1bed90);
}

#[test]
fn a_copy_holds_the_same_hand() {
    let hand = hand_of(&["Ad", "9h", "Js", "Jc", "3h"]);
    let copy = hand.clone();
    assert_eq!(copy.cards(), hand.cards());
    assert_eq!(copy.strength(), hand.strength());
    assert_eq!(copy.best(), hand.best());
    assert_eq!(copy.score(), hand.score());
}
