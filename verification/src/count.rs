//! How often a rank or a suit occurs among some cards, and the highest rank
//! among them.

use vstd::prelude::*;
use crate::card::{Card, Suit, Value};

verus! {

/// The number of cards of the given rank.
pub open spec fn rank_count(cards: Seq<Card>, value: Value) -> nat
    decreases cards.len(),
{
    if cards.len() == 0 {
        0
    } else {
        rank_count(cards.drop_last(), value) + if cards.last().value == value {
            1nat
        } else {
            0nat
        }
    }
}

/// The number of cards of the given suit.
pub open spec fn suit_count(cards: Seq<Card>, suit: Suit) -> nat
    decreases cards.len(),
{
    if cards.len() == 0 {
        0
    } else {
        suit_count(cards.drop_last(), suit) + if cards.last().suit == suit {
            1nat
        } else {
            0nat
        }
    }
}

/// The number of the highest rank among the cards; 0 where there is no card.
pub open spec fn highest_rank(cards: Seq<Card>) -> int
    decreases cards.len(),
{
    if cards.len() == 0 {
        0
    } else if highest_rank(cards.drop_last()) >= cards.last().value.rank() {
        highest_rank(cards.drop_last())
    } else {
        cards.last().value.rank()
    }
}

/// Whether some card has the rank with the number `r`.
pub open spec fn has_rank(cards: Seq<Card>, r: int) -> bool {
    2 <= r <= 14 && rank_count(cards, Value::of_rank(r)) > 0
}

/// A count is at most the number of cards.
pub proof fn lemma_rank_count_bound(cards: Seq<Card>, value: Value)
    ensures
        rank_count(cards, value) <= cards.len(),
    decreases cards.len(),
{
    if cards.len() > 0 {
        lemma_rank_count_bound(cards.drop_last(), value);
    }
}

/// A count is at most the number of cards.
pub proof fn lemma_suit_count_bound(cards: Seq<Card>, suit: Suit)
    ensures
        suit_count(cards, suit) <= cards.len(),
    decreases cards.len(),
{
    if cards.len() > 0 {
        lemma_suit_count_bound(cards.drop_last(), suit);
    }
}

/// A rank is counted exactly where some card has it.
pub proof fn lemma_rank_count_positive(cards: Seq<Card>, value: Value)
    ensures
        rank_count(cards, value) > 0 <==> exists|i: int|
            0 <= i < cards.len() && (#[trigger] cards[i]).value == value,
    decreases cards.len(),
{
    if cards.len() > 0 {
        let init = cards.drop_last();
        lemma_rank_count_positive(init, value);
        if rank_count(cards, value) > 0 {
            if cards.last().value == value {
                assert(cards[cards.len() - 1].value == value);
            } else {
                let i = choose|i: int| 0 <= i < init.len() && (#[trigger] init[i]).value == value;
                assert(cards[i].value == value);
            }
        }
        if exists|i: int| 0 <= i < cards.len() && (#[trigger] cards[i]).value == value {
            let i = choose|i: int| 0 <= i < cards.len() && (#[trigger] cards[i]).value == value;
            if i < init.len() {
                assert(init[i].value == value);
            }
        }
    }
}

/// The highest rank is the rank of a card, and no card has a higher one.
pub proof fn lemma_highest_rank(cards: Seq<Card>)
    ensures
        cards.len() == 0 ==> highest_rank(cards) == 0,
        cards.len() > 0 ==> has_rank(cards, highest_rank(cards)),
        forall|i: int| 0 <= i < cards.len() ==> (#[trigger] cards[i]).value.rank() <= highest_rank(cards),
    decreases cards.len(),
{
    if cards.len() > 0 {
        let init = cards.drop_last();
        lemma_highest_rank(init);
        let h = highest_rank(cards);
        assert forall|i: int| 0 <= i < cards.len() implies (#[trigger] cards[i]).value.rank()
            <= h by {
            if i < init.len() {
                assert(init[i].value.rank() <= highest_rank(init));
            }
        }
        if highest_rank(init) >= cards.last().value.rank() {
            assert(init.len() > 0);
        } else {
            assert(Value::of_rank(h) == cards.last().value);
        }
    }
}

/// Counts the cards of one rank.
pub fn count_rank(cards: &Vec<Card>, value: Value) -> (n: usize)
    ensures
        n == rank_count(cards@, value),
{
    let mut n: usize = 0;
    let mut i: usize = 0;
    while i < cards.len()
        invariant
            0 <= i <= cards.len(),
            n == rank_count(cards@.take(i as int), value),
            n <= i,
        decreases cards.len() - i,
    {
        proof {
            assert(cards@.take(i as int + 1).drop_last() =~= cards@.take(i as int));
        }
        if cards[i].value == value {
            n = n + 1;
        }
        i = i + 1;
    }
    proof {
        assert(cards@.take(i as int) =~= cards@);
    }
    n
}

/// Counts the cards of one suit.
pub fn count_suit(cards: &Vec<Card>, suit: Suit) -> (n: usize)
    ensures
        n == suit_count(cards@, suit),
{
    let mut n: usize = 0;
    let mut i: usize = 0;
    while i < cards.len()
        invariant
            0 <= i <= cards.len(),
            n == suit_count(cards@.take(i as int), suit),
            n <= i,
        decreases cards.len() - i,
    {
        proof {
            assert(cards@.take(i as int + 1).drop_last() =~= cards@.take(i as int));
        }
        if cards[i].suit == suit {
            n = n + 1;
        }
        i = i + 1;
    }
    proof {
        assert(cards@.take(i as int) =~= cards@);
    }
    n
}

/// The highest rank among the cards, if there is a card.
pub fn top_value(cards: &Vec<Card>) -> (top: Option<Value>)
    ensures
        top is Some <==> cards@.len() > 0,
        top is Some ==> top->0.rank() == highest_rank(cards@),
{
    if cards.len() == 0 {
        return None;
    }
    let mut best: Value = cards[0].value;
    proof {
        assert(cards@.take(1).drop_last() =~= cards@.take(0));
        assert(highest_rank(cards@.take(0)) == 0);
    }
    let mut i: usize = 1;
    while i < cards.len()
        invariant
            1 <= i <= cards.len(),
            best.rank() == highest_rank(cards@.take(i as int)),
        decreases cards.len() - i,
    {
        proof {
            assert(cards@.take(i as int + 1).drop_last() =~= cards@.take(i as int));
        }
        if cards[i].value.to_u32() > best.to_u32() {
            best = cards[i].value;
        }
        i = i + 1;
    }
    proof {
        assert(cards@.take(i as int) =~= cards@);
    }
    Some(best)
}

} // verus!
