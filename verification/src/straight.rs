//! Straights: five ranks in a row among the cards of a hand. The ace plays
//! high, and it plays low in the wheel, the straight from five down to ace.

use vstd::prelude::*;
use crate::card::{Card, Value};
use crate::count::{count_rank, has_rank};

verus! {

/// Whether the cards can fill the place numbered `r` of a straight. The ace
/// fills place 14 and, playing low, place 1.
pub open spec fn plays(cards: Seq<Card>, r: int) -> bool {
    if r == 1 {
        has_rank(cards, 14)
    } else {
        has_rank(cards, r)
    }
}

/// Whether the cards hold the straight whose highest place is `top`.
pub open spec fn run_at(cards: Seq<Card>, top: int) -> bool {
    &&& 5 <= top <= 14
    &&& plays(cards, top)
    &&& plays(cards, top - 1)
    &&& plays(cards, top - 2)
    &&& plays(cards, top - 3)
    &&& plays(cards, top - 4)
}

/// The highest place, not above `top`, at which the cards hold a straight.
pub open spec fn straight_from(cards: Seq<Card>, top: int) -> Option<int>
    decreases top,
{
    if top < 5 {
        None
    } else if run_at(cards, top) {
        Some(top)
    } else {
        straight_from(cards, top - 1)
    }
}

/// The highest place at which the cards hold a straight: 14 for ace high down
/// to 5 for the wheel. `None` where they hold no straight.
pub open spec fn straight_top(cards: Seq<Card>) -> Option<int> {
    straight_from(cards, 14)
}

/// Places that hold no straight can be passed over.
pub proof fn lemma_straight_from_skip(cards: Seq<Card>, low: int, high: int)
    requires
        4 <= low <= high,
        forall|t: int| low < t <= high ==> !#[trigger] run_at(cards, t),
    ensures
        straight_from(cards, high) == straight_from(cards, low),
    decreases high - low,
{
    if low < high {
        assert(!run_at(cards, high));
        lemma_straight_from_skip(cards, low, high - 1);
    }
}

/// The straight top is the place of a straight that no straight lies above,
/// and there is none exactly where no place holds a straight.
pub proof fn lemma_straight_top(cards: Seq<Card>)
    ensures
        straight_top(cards) matches Some(top) ==> run_at(cards, top) && forall|t: int|
            top < t ==> !#[trigger] run_at(cards, t),
        straight_top(cards) is None ==> forall|t: int| !#[trigger] run_at(cards, t),
{
    lemma_straight_from(cards, 14);
}

/// What `straight_from` finds is the highest straight not above `top`.
pub proof fn lemma_straight_from(cards: Seq<Card>, top: int)
    ensures
        straight_from(cards, top) matches Some(found) ==> found <= top && run_at(cards, found)
            && forall|t: int| found < t <= top ==> !#[trigger] run_at(cards, t),
        straight_from(cards, top) is None ==> forall|t: int|
            t <= top ==> !#[trigger] run_at(cards, t),
    decreases top,
{
    if top >= 5 && !run_at(cards, top) {
        lemma_straight_from(cards, top - 1);
    }
}

/// Looks for the highest straight among the cards. The ranks are gone through
/// from the ace down; a counter holds the number of ranks in a row that occur,
/// and it starts over at a rank that does not occur. At the two, a run of four
/// with an ace among the cards is the wheel. The search ends at the first run
/// of five.
pub fn find_straight(cards: &Vec<Card>) -> (top: Option<Value>)
    ensures
        top is Some <==> straight_top(cards@) is Some,
        top is Some ==> straight_top(cards@) == Some(top->0.rank()),
{
    let ace: bool = count_rank(cards, Value::Ace) > 0;
    let mut run: u32 = 0;
    let mut r: u32 = 14;
    while r >= 2
        invariant
            1 <= r <= 14,
            run <= 4,
            r + run <= 14,
            ace == has_rank(cards@, 14),
            forall|k: int| r < k <= r + run ==> #[trigger] has_rank(cards@, k),
            r + run < 14 ==> !has_rank(cards@, r + run + 1),
            forall|t: int| r + 4 < t <= 14 ==> !#[trigger] run_at(cards@, t),
            r == 1 ==> !run_at(cards@, 5),
        decreases r,
    {
        let value: Value = Value::from_u32(r).unwrap();
        let present: bool = count_rank(cards, value) > 0;
        if present {
            run = run + 1;
            if run == 5 {
                proof {
                    assert(has_rank(cards@, r as int));
                    assert(has_rank(cards@, r + 1));
                    assert(has_rank(cards@, r + 2));
                    assert(has_rank(cards@, r + 3));
                    assert(has_rank(cards@, r + 4));
                    assert(run_at(cards@, r + 4));
                    lemma_straight_from_skip(cards@, r + 4, 14);
                }
                return Value::from_u32(r + 4);
            }
            if run == 4 && r == 2 && ace {
                proof {
                    assert(has_rank(cards@, 2));
                    assert(has_rank(cards@, 3));
                    assert(has_rank(cards@, 4));
                    assert(has_rank(cards@, 5));
                    assert(run_at(cards@, 5));
                    assert(!has_rank(cards@, 6));
                    assert(!run_at(cards@, 6));
                    lemma_straight_from_skip(cards@, 5, 14);
                }
                return Some(Value::Five);
            }
        } else {
            run = 0;
        }
        proof {
            assert(!run_at(cards@, r + 4)) by {
                if present {
                    assert(!has_rank(cards@, r + run));
                } else {
                    assert(!has_rank(cards@, r as int));
                }
            }
            if r == 2 {
                assert(!run_at(cards@, 5)) by {
                    if !has_rank(cards@, 2) {
                    } else if run == 4 {
                        assert(!ace);
                    } else {
                        assert(!has_rank(cards@, r + run));
                    }
                }
            }
        }
        r = r - 1;
    }
    proof {
        lemma_straight_from_skip(cards@, 4, 14);
    }
    None
}

} // verus!
