//! What holds of the evaluation of every hand.

use vstd::prelude::*;
use vstd::seq_lib::*;
use crate::card::{Card, Suit, Value};
use crate::count::{
    has_rank, highest_rank, lemma_highest_rank, lemma_rank_count_bound, lemma_rank_count_positive,
    lemma_suit_count_bound, rank_count, suit_count,
};
use crate::hand::{best_of, hand_score, shape_strength, strength_of, Strength};
use crate::histogram::{has_flush, lemma_rank_histogram, rank_entries, rank_histogram, ValueTotal};
use crate::order::{insert_point, lemma_insert_point, sort_desc};
use crate::straight::{lemma_straight_top, plays, run_at, straight_from, straight_top};

verus! {

/// Two lists of cards hold each rank and each suit equally often.
pub open spec fn same_counts(a: Seq<Card>, b: Seq<Card>) -> bool {
    &&& a.len() == b.len()
    &&& forall|value: Value| #![trigger rank_count(a, value)] rank_count(a, value) == rank_count(b, value)
    &&& forall|suit: Suit| #![trigger suit_count(a, suit)] suit_count(a, suit) == suit_count(b, suit)
}

/// How often a card occurs among the cards.
pub open spec fn card_count(cards: Seq<Card>, card: Card) -> nat {
    cards.to_multiset().count(card)
}

/// The count of a rank is the sum of the counts of its four cards, and the
/// count of a suit the sum of the counts of its thirteen.
pub proof fn lemma_counts_by_card(cards: Seq<Card>)
    ensures
        forall|value: Value| #![trigger rank_count(cards, value)]
            rank_count(cards, value) == card_count(cards, Card { value, suit: Suit::Heart })
                + card_count(cards, Card { value, suit: Suit::Diamond }) + card_count(
                cards,
                Card { value, suit: Suit::Club },
            ) + card_count(cards, Card { value, suit: Suit::Spade }),
        forall|suit: Suit| #![trigger suit_count(cards, suit)]
            suit_count(cards, suit) == card_count(cards, Card { value: Value::Two, suit })
                + card_count(cards, Card { value: Value::Three, suit }) + card_count(
                cards,
                Card { value: Value::Four, suit },
            ) + card_count(cards, Card { value: Value::Five, suit }) + card_count(
                cards,
                Card { value: Value::Six, suit },
            ) + card_count(cards, Card { value: Value::Seven, suit }) + card_count(
                cards,
                Card { value: Value::Eight, suit },
            ) + card_count(cards, Card { value: Value::Nine, suit }) + card_count(
                cards,
                Card { value: Value::Ten, suit },
            ) + card_count(cards, Card { value: Value::Jack, suit }) + card_count(
                cards,
                Card { value: Value::Queen, suit },
            ) + card_count(cards, Card { value: Value::King, suit }) + card_count(
                cards,
                Card { value: Value::Ace, suit },
            ),
    decreases cards.len(),
{
    broadcast use vstd::multiset::group_multiset_axioms;

    if cards.len() == 0 {
        assert(cards.to_multiset() =~= vstd::multiset::Multiset::<Card>::empty()) by {
            cards.to_multiset_ensures();
        }
    } else {
        let init = cards.drop_last();
        let last = cards.last();
        lemma_counts_by_card(init);
        to_multiset_build(init, last);
        assert(init.push(last) =~= cards);
        assert(cards.to_multiset() == init.to_multiset().insert(last));
        assert forall|card: Card| #![trigger card_count(cards, card)]
            card_count(cards, card) == card_count(init, card) + if card == last {
                1nat
            } else {
                0nat
            } by {}
        assert forall|value: Value| #![trigger rank_count(cards, value)]
            rank_count(cards, value) == card_count(cards, Card { value, suit: Suit::Heart })
                + card_count(cards, Card { value, suit: Suit::Diamond }) + card_count(
                cards,
                Card { value, suit: Suit::Club },
            ) + card_count(cards, Card { value, suit: Suit::Spade }) by {
            assert(rank_count(init, value) == card_count(init, Card { value, suit: Suit::Heart })
                + card_count(init, Card { value, suit: Suit::Diamond }) + card_count(
                init,
                Card { value, suit: Suit::Club },
            ) + card_count(init, Card { value, suit: Suit::Spade }));
        }
        assert forall|suit: Suit| #![trigger suit_count(cards, suit)]
            suit_count(cards, suit) == card_count(cards, Card { value: Value::Two, suit })
                + card_count(cards, Card { value: Value::Three, suit }) + card_count(
                cards,
                Card { value: Value::Four, suit },
            ) + card_count(cards, Card { value: Value::Five, suit }) + card_count(
                cards,
                Card { value: Value::Six, suit },
            ) + card_count(cards, Card { value: Value::Seven, suit }) + card_count(
                cards,
                Card { value: Value::Eight, suit },
            ) + card_count(cards, Card { value: Value::Nine, suit }) + card_count(
                cards,
                Card { value: Value::Ten, suit },
            ) + card_count(cards, Card { value: Value::Jack, suit }) + card_count(
                cards,
                Card { value: Value::Queen, suit },
            ) + card_count(cards, Card { value: Value::King, suit }) + card_count(
                cards,
                Card { value: Value::Ace, suit },
            ) by {
            assert(suit_count(init, suit) == card_count(init, Card { value: Value::Two, suit })
                + card_count(init, Card { value: Value::Three, suit }) + card_count(
                init,
                Card { value: Value::Four, suit },
            ) + card_count(init, Card { value: Value::Five, suit }) + card_count(
                init,
                Card { value: Value::Six, suit },
            ) + card_count(init, Card { value: Value::Seven, suit }) + card_count(
                init,
                Card { value: Value::Eight, suit },
            ) + card_count(init, Card { value: Value::Nine, suit }) + card_count(
                init,
                Card { value: Value::Ten, suit },
            ) + card_count(init, Card { value: Value::Jack, suit }) + card_count(
                init,
                Card { value: Value::Queen, suit },
            ) + card_count(init, Card { value: Value::King, suit }) + card_count(
                init,
                Card { value: Value::Ace, suit },
            ));
        }
    }
}

/// Lists that hold the same cards, in whatever order, hold each rank and each
/// suit equally often.
pub proof fn lemma_same_cards_same_counts(a: Seq<Card>, b: Seq<Card>)
    requires
        a.to_multiset() == b.to_multiset(),
    ensures
        same_counts(a, b),
{
    lemma_counts_by_card(a);
    lemma_counts_by_card(b);
    to_multiset_len(a);
    to_multiset_len(b);
}

/// Equal counts give equal rank entries.
proof fn lemma_same_rank_entries(a: Seq<Card>, b: Seq<Card>, upto: int)
    requires
        same_counts(a, b),
    ensures
        rank_entries(a, upto) == rank_entries(b, upto),
    decreases upto,
{
    if upto >= 2 {
        lemma_same_rank_entries(a, b, upto - 1);
        assert(rank_count(a, Value::of_rank(upto)) == rank_count(b, Value::of_rank(upto)));
    }
}

/// Equal counts give equal straights.
proof fn lemma_same_straight(a: Seq<Card>, b: Seq<Card>, top: int)
    requires
        same_counts(a, b),
    ensures
        straight_from(a, top) == straight_from(b, top),
    decreases top,
{
    assert forall|r: int| has_rank(a, r) == has_rank(b, r) by {
        assert(rank_count(a, Value::of_rank(r)) == rank_count(b, Value::of_rank(r)));
    }
    assert forall|r: int| plays(a, r) == plays(b, r) by {
        assert(has_rank(a, r) == has_rank(b, r));
        assert(has_rank(a, 14) == has_rank(b, 14));
    }
    if top >= 5 {
        assert(run_at(a, top) == run_at(b, top)) by {
            assert(plays(a, top) == plays(b, top));
            assert(plays(a, top - 1) == plays(b, top - 1));
            assert(plays(a, top - 2) == plays(b, top - 2));
            assert(plays(a, top - 3) == plays(b, top - 3));
            assert(plays(a, top - 4) == plays(b, top - 4));
        }
        lemma_same_straight(a, b, top - 1);
    }
}

/// Equal counts give the same highest rank.
proof fn lemma_same_highest_rank(a: Seq<Card>, b: Seq<Card>)
    requires
        same_counts(a, b),
    ensures
        highest_rank(a) == highest_rank(b),
{
    lemma_highest_rank(a);
    lemma_highest_rank(b);
    if a.len() > 0 {
        let ha = highest_rank(a);
        let hb = highest_rank(b);
        assert(rank_count(a, Value::of_rank(ha)) == rank_count(b, Value::of_rank(ha)));
        assert(rank_count(a, Value::of_rank(hb)) == rank_count(b, Value::of_rank(hb)));
        lemma_rank_count_positive(b, Value::of_rank(ha));
        lemma_rank_count_positive(a, Value::of_rank(hb));
        let i = choose|i: int| 0 <= i < b.len() && (#[trigger] b[i]).value == Value::of_rank(ha);
        assert(b[i].value.rank() <= hb);
        let k = choose|k: int| 0 <= k < a.len() && (#[trigger] a[k]).value == Value::of_rank(hb);
        assert(a[k].value.rank() <= ha);
    }
}

/// Hands that hold each rank and each suit equally often have the same
/// category, the same deciding ranks and the same score.
pub proof fn lemma_same_counts_same_hand(a: Seq<Card>, b: Seq<Card>)
    requires
        same_counts(a, b),
    ensures
        strength_of(a) == strength_of(b),
        best_of(a) == best_of(b),
        hand_score(a) == hand_score(b),
{
    lemma_same_rank_entries(a, b, 14);
    lemma_same_straight(a, b, 14);
    lemma_same_highest_rank(a, b);
    assert(has_flush(a) == has_flush(b)) by {
        if has_flush(a) {
            let suit = choose|suit: Suit| #[trigger] suit_count(a, suit) >= 5;
            assert(suit_count(b, suit) >= 5);
        }
        if has_flush(b) {
            let suit = choose|suit: Suit| #[trigger] suit_count(b, suit) >= 5;
            assert(suit_count(a, suit) == suit_count(b, suit));
        }
    }
    assert(rank_histogram(a) == rank_histogram(b));
    assert(straight_top(a) == straight_top(b));
}

/// The order of its cards plays no part in what a hand is worth: hands that
/// hold the same cards have the same category, the same deciding ranks and
/// the same score.
pub proof fn lemma_order_plays_no_part(a: Seq<Card>, b: Seq<Card>)
    requires
        a.to_multiset() == b.to_multiset(),
    ensures
        strength_of(a) == strength_of(b),
        best_of(a) == best_of(b),
        hand_score(a) == hand_score(b),
{
    lemma_same_cards_same_counts(a, b);
    lemma_same_counts_same_hand(a, b);
}

/// The sum of the totals of a list of rank entries.
pub open spec fn total_of(entries: Seq<ValueTotal>) -> int
    decreases entries.len(),
{
    if entries.len() == 0 {
        0
    } else {
        total_of(entries.drop_last()) + entries.last().total
    }
}

/// The number of cards whose rank has a number of `upto` at most.
pub open spec fn count_upto(cards: Seq<Card>, upto: int) -> int
    decreases upto,
{
    if upto < 2 {
        0
    } else {
        count_upto(cards, upto - 1) + rank_count(cards, Value::of_rank(upto))
    }
}

/// An entry put into a list adds its total to the sum.
proof fn lemma_total_of_insert(entries: Seq<ValueTotal>, at: int, entry: ValueTotal)
    requires
        0 <= at <= entries.len(),
    ensures
        total_of(entries.insert(at, entry)) == total_of(entries) + entry.total,
    decreases entries.len(),
{
    let longer = entries.insert(at, entry);
    if at == entries.len() {
        assert(longer.drop_last() =~= entries);
    } else {
        assert(longer.drop_last() =~= entries.drop_last().insert(at, entry));
        assert(longer.last() == entries.last());
        lemma_total_of_insert(entries.drop_last(), at, entry);
    }
}

/// Sorting leaves the sum of the totals as it is.
proof fn lemma_total_of_sorted(entries: Seq<ValueTotal>)
    ensures
        total_of(sort_desc(entries)) == total_of(entries),
    decreases entries.len(),
{
    if entries.len() > 0 {
        let init = entries.drop_last();
        lemma_total_of_sorted(init);
        lemma_insert_point(sort_desc(init), entries.last());
        lemma_total_of_insert(
            sort_desc(init),
            insert_point(sort_desc(init), entries.last()),
            entries.last(),
        );
    }
}

/// The totals of the rank entries up to a rank sum to the number of cards of
/// those ranks.
proof fn lemma_total_of_entries(cards: Seq<Card>, upto: int)
    requires
        cards.len() <= usize::MAX,
        upto <= 14,
    ensures
        total_of(rank_entries(cards, upto)) == count_upto(cards, upto),
    decreases upto,
{
    if upto >= 2 {
        lemma_total_of_entries(cards, upto - 1);
        lemma_rank_count_bound(cards, Value::of_rank(upto));
        if rank_count(cards, Value::of_rank(upto)) > 0 {
            assert(rank_entries(cards, upto).drop_last() =~= rank_entries(cards, upto - 1));
        }
    }
}

/// One more card is one more card of its rank.
proof fn lemma_count_upto_push(cards: Seq<Card>, card: Card, upto: int)
    requires
        upto <= 14,
    ensures
        count_upto(cards.push(card), upto) == count_upto(cards, upto) + if card.value.rank()
            <= upto {
            1int
        } else {
            0int
        },
    decreases upto,
{
    if upto >= 2 {
        lemma_count_upto_push(cards, card, upto - 1);
        assert(cards.push(card).drop_last() =~= cards);
    }
}

/// Every card has one of the thirteen ranks.
proof fn lemma_count_upto_all(cards: Seq<Card>)
    ensures
        count_upto(cards, 14) == cards.len(),
    decreases cards.len(),
{
    if cards.len() == 0 {
        lemma_count_upto_none(cards, 14);
    } else {
        lemma_count_upto_all(cards.drop_last());
        lemma_count_upto_push(cards.drop_last(), cards.last(), 14);
        assert(cards.drop_last().push(cards.last()) =~= cards);
    }
}

/// No cards, no counts.
proof fn lemma_count_upto_none(cards: Seq<Card>, upto: int)
    requires
        cards.len() == 0,
    ensures
        count_upto(cards, upto) == 0,
    decreases upto,
{
    if upto >= 2 {
        lemma_count_upto_none(cards, upto - 1);
    }
}

/// The totals of the rank histogram sum to the number of cards.
pub proof fn lemma_histogram_total(cards: Seq<Card>)
    requires
        cards.len() <= usize::MAX,
    ensures
        total_of(rank_histogram(cards)) == cards.len(),
{
    lemma_total_of_sorted(rank_entries(cards, 14));
    lemma_total_of_entries(cards, 14);
    lemma_count_upto_all(cards);
}

/// Among cards of different ranks no rank is counted twice.
proof fn lemma_distinct_ranks(cards: Seq<Card>, value: Value)
    requires
        forall|i: int, j: int|
            0 <= i < j < cards.len() ==> (#[trigger] cards[i]).value != (#[trigger] cards[j]).value,
    ensures
        rank_count(cards, value) <= 1,
    decreases cards.len(),
{
    if cards.len() > 0 {
        let init = cards.drop_last();
        assert forall|i: int, j: int| 0 <= i < j < init.len() implies (#[trigger] init[i]).value
            != (#[trigger] init[j]).value by {
            assert(init[i] == cards[i] && init[j] == cards[j]);
        }
        lemma_distinct_ranks(init, value);
        if cards.last().value == value && rank_count(init, value) > 0 {
            lemma_rank_count_positive(init, value);
            let i = choose|i: int| 0 <= i < init.len() && (#[trigger] init[i]).value == value;
            assert(cards[i].value == cards[cards.len() - 1].value);
        }
    }
}

/// Where every card counts for a suit, every card has that suit.
pub proof fn lemma_all_of_a_suit(cards: Seq<Card>, suit: Suit)
    requires
        suit_count(cards, suit) >= cards.len(),
    ensures
        forall|i: int| 0 <= i < cards.len() ==> (#[trigger] cards[i]).suit == suit,
    decreases cards.len(),
{
    if cards.len() > 0 {
        let init = cards.drop_last();
        lemma_suit_count_bound(init, suit);
        lemma_all_of_a_suit(init, suit);
        assert forall|i: int| 0 <= i < cards.len() implies (#[trigger] cards[i]).suit == suit by {
            if i < init.len() {
                assert(init[i] == cards[i]);
            }
        }
    }
}

/// Entries that each count one card are as many as the cards they count.
proof fn lemma_total_of_ones(entries: Seq<ValueTotal>)
    requires
        forall|k: int| 0 <= k < entries.len() ==> (#[trigger] entries[k]).total == 1,
    ensures
        total_of(entries) == entries.len(),
    decreases entries.len(),
{
    if entries.len() > 0 {
        let init = entries.drop_last();
        assert forall|k: int| 0 <= k < init.len() implies (#[trigger] init[k]).total == 1 by {
            assert(init[k] == entries[k]);
        }
        lemma_total_of_ones(init);
    }
}

/// The rank histogram of cards of different ranks: one entry for each card,
/// each with the total 1, in descending order of rank.
pub proof fn lemma_distinct_histogram(cards: Seq<Card>)
    requires
        cards.len() <= usize::MAX,
        forall|i: int, j: int|
            0 <= i < j < cards.len() ==> (#[trigger] cards[i]).value != (#[trigger] cards[j]).value,
    ensures
        rank_histogram(cards).len() == cards.len(),
        forall|k: int|
            0 <= k < rank_histogram(cards).len() ==> (#[trigger] rank_histogram(cards)[k]).total
                == 1,
        forall|i: int, j: int|
            0 <= i < j < rank_histogram(cards).len() ==> (#[trigger] rank_histogram(
                cards,
            )[i]).value.rank() > (#[trigger] rank_histogram(cards)[j]).value.rank(),
        forall|i: int|
            0 <= i < rank_histogram(cards).len() ==> holds_rank(
                cards,
                (#[trigger] rank_histogram(cards)[i]).value,
            ),
        forall|k: int|
            0 <= k < cards.len() ==> lists_rank(rank_histogram(cards), (#[trigger] cards[k]).value),
{
    let hist = rank_histogram(cards);
    lemma_histogram_total(cards);
    assert forall|k: int| 0 <= k < hist.len() implies (#[trigger] hist[k]).total == 1 by {
        lemma_rank_histogram(cards);
        lemma_distinct_ranks(cards, hist[k].value);
    }
    lemma_total_of_ones(hist);
    assert forall|i: int, j: int| 0 <= i < j < hist.len() implies (#[trigger] hist[i]).value.rank()
        > (#[trigger] hist[j]).value.rank() by {
        lemma_rank_histogram(cards);
        assert(hist[i].total == 1 && hist[j].total == 1);
    }
    assert forall|i: int| 0 <= i < hist.len() implies holds_rank(
        cards,
        (#[trigger] hist[i]).value,
    ) by {
        lemma_rank_histogram(cards);
        lemma_rank_count_positive(cards, hist[i].value);
    }
    assert forall|k: int| 0 <= k < cards.len() implies lists_rank(
        hist,
        (#[trigger] cards[k]).value,
    ) by {
        let value = cards[k].value;
        lemma_rank_count_positive(cards, value);
        lemma_rank_histogram(cards);
        let entry = ValueTotal { value, total: rank_count(cards, value) as usize };
        assert(hist.contains(entry));
        let i = choose|i: int| 0 <= i < hist.len() && hist[i] == entry;
        assert(hist[i].value == value);
    }
}

/// Whether some card has the rank.
pub open spec fn holds_rank(cards: Seq<Card>, value: Value) -> bool {
    exists|k: int| 0 <= k < cards.len() && (#[trigger] cards[k]).value == value
}

/// Whether some entry is the entry of the rank.
pub open spec fn lists_rank(entries: Seq<ValueTotal>, value: Value) -> bool {
    exists|i: int| 0 <= i < entries.len() && (#[trigger] entries[i]).value == value
}

/// Cards that are not all of one suit, five or fewer, hold no flush.
proof fn lemma_mixed_suits(cards: Seq<Card>)
    requires
        0 < cards.len() <= 5,
        exists|i: int| 0 <= i < cards.len() && (#[trigger] cards[i]).suit != cards[0].suit,
    ensures
        !has_flush(cards),
{
    if has_flush(cards) {
        let suit = choose|suit: Suit| #[trigger] suit_count(cards, suit) >= 5;
        lemma_all_of_a_suit(cards, suit);
        let i = choose|i: int| 0 <= i < cards.len() && (#[trigger] cards[i]).suit != cards[0].suit;
        assert(cards[i].suit == suit && cards[0].suit == suit);
    }
}

/// Five cards of five different ranks, not all of one suit, that hold no
/// straight (neither five ranks in a row nor the wheel) are a high card, and
/// their deciding ranks are the five ranks in descending order.
pub proof fn lemma_high_card(cards: Seq<Card>)
    requires
        cards.len() == 5,
        forall|i: int, j: int|
            0 <= i < j < 5 ==> (#[trigger] cards[i]).value != (#[trigger] cards[j]).value,
        exists|i: int| 0 <= i < 5 && (#[trigger] cards[i]).suit != cards[0].suit,
        forall|top: int| !#[trigger] run_at(cards, top),
    ensures
        strength_of(cards) == Strength::HighCard,
        best_of(cards).len() == 5,
        forall|i: int, j: int|
            0 <= i < j < 5 ==> (#[trigger] best_of(cards)[i]).rank() > (#[trigger] best_of(
                cards,
            )[j]).rank(),
        forall|i: int| 0 <= i < 5 ==> holds_rank(cards, #[trigger] best_of(cards)[i]),
        forall|k: int|
            0 <= k < 5 ==> exists|i: int|
                0 <= i < 5 && #[trigger] best_of(cards)[i] == (#[trigger] cards[k]).value,
{
    let hist = rank_histogram(cards);
    lemma_distinct_histogram(cards);
    lemma_mixed_suits(cards);
    assert(straight_top(cards) is None) by {
        lemma_straight_top(cards);
        if straight_top(cards) is Some {
            assert(run_at(cards, straight_top(cards)->0));
        }
    }
    assert(hist.len() == 5);
    assert(hist[0].total == 1);
    assert(shape_strength(hist) == Strength::HighCard);
    assert(strength_of(cards) == Strength::HighCard);
    let best = best_of(cards);
    assert(best =~= Seq::new(5, |k: int| hist[k].value));
    assert forall|i: int| 0 <= i < 5 implies holds_rank(cards, #[trigger] best[i]) by {
        assert(holds_rank(cards, hist[i].value));
    }
    assert forall|k: int| 0 <= k < 5 implies exists|i: int|
        0 <= i < 5 && #[trigger] best[i] == (#[trigger] cards[k]).value by {
        assert(lists_rank(hist, cards[k].value));
        let i = choose|i: int| 0 <= i < hist.len() && (#[trigger] hist[i]).value == cards[k].value;
        assert(best[i] == cards[k].value);
    }
    assert forall|i: int, j: int| 0 <= i < j < 5 implies (#[trigger] best[i]).rank() > (
    #[trigger] best[j]).rank() by {
        assert(hist[i].value.rank() > hist[j].value.rank());
    }
}

} // verus!
