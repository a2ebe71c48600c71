//! The ranking of five-card hands as the rules of poker give it, and the
//! proof that the score puts hands in that order.

use vstd::prelude::*;
use crate::card::{Card, Suit, Value};
use crate::count::{highest_rank, lemma_highest_rank, rank_count, suit_count};
use crate::hand::{
    base_score, best_of, hand_score, score_of, select_count, shape_strength, slot, strength_of,
    Strength,
};
use crate::histogram::{has_flush, lemma_rank_histogram, rank_histogram, ValueTotal};
use crate::laws::{
    card_count, lemma_all_of_a_suit, lemma_counts_by_card, lemma_histogram_total, total_of,
};
use crate::straight::{lemma_straight_top, plays, run_at, straight_top};

verus! {

/// The total of the entry at position `i` of a histogram, 0 behind its end.
pub open spec fn total_at(hist: Seq<ValueTotal>, i: int) -> int {
    if 0 <= i < hist.len() {
        hist[i].total as int
    } else {
        0
    }
}

/// Entries that each count a card are no more than the cards they count.
proof fn lemma_total_of_at_least(entries: Seq<ValueTotal>)
    requires
        forall|k: int| 0 <= k < entries.len() ==> (#[trigger] entries[k]).total >= 1,
    ensures
        total_of(entries) >= entries.len(),
    decreases entries.len(),
{
    if entries.len() > 0 {
        let init = entries.drop_last();
        assert forall|k: int| 0 <= k < init.len() implies (#[trigger] init[k]).total >= 1 by {
            assert(init[k] == entries[k]);
        }
        lemma_total_of_at_least(init);
    }
}

/// The sum of the totals of at most five entries, written out.
proof fn lemma_total_of_five(entries: Seq<ValueTotal>)
    requires
        entries.len() <= 5,
    ensures
        total_of(entries) == total_at(entries, 0) + total_at(entries, 1) + total_at(entries, 2)
            + total_at(entries, 3) + total_at(entries, 4),
    decreases entries.len(),
{
    if entries.len() > 0 {
        let init = entries.drop_last();
        lemma_total_of_five(init);
        assert forall|k: int| 0 <= k < init.len() implies total_at(init, k) == total_at(
            entries,
            k,
        ) by {
            assert(init[k] == entries[k]);
        }
        assert(total_at(init, entries.len() - 1) == 0);
    }
}

/// Among cards of which none occurs twice, a rank occurs four times at most.
pub proof fn lemma_four_suits(cards: Seq<Card>, value: Value)
    requires
        cards.no_duplicates(),
    ensures
        rank_count(cards, value) <= 4,
{
    broadcast use vstd::multiset::group_multiset_axioms;

    lemma_counts_by_card(cards);
    cards.lemma_multiset_has_no_duplicates();
    assert(card_count(cards, Card { value, suit: Suit::Heart }) <= 1);
    assert(card_count(cards, Card { value, suit: Suit::Diamond }) <= 1);
    assert(card_count(cards, Card { value, suit: Suit::Club }) <= 1);
    assert(card_count(cards, Card { value, suit: Suit::Spade }) <= 1);
}

/// What the rank histogram of five cards, none of them twice, looks like.
pub open spec fn five_card_shape(cards: Seq<Card>, hist: Seq<ValueTotal>) -> bool {
    &&& 1 <= hist.len() <= 5
    &&& total_at(hist, 0) + total_at(hist, 1) + total_at(hist, 2) + total_at(hist, 3) + total_at(
        hist,
        4,
    ) == 5
    &&& forall|k: int|
        0 <= k < hist.len() ==> 1 <= (#[trigger] hist[k]).total <= 4 && hist[k].total
            == rank_count(cards, hist[k].value)
    &&& forall|i: int, j: int|
        0 <= i < j < hist.len() ==> {
            let a = #[trigger] hist[i];
            let b = #[trigger] hist[j];
            a.value != b.value && (a.total > b.total || (a.total == b.total && a.value.rank()
                > b.value.rank()))
        }
}

/// The rank histogram of five cards, none of them twice, has the shape of
/// `five_card_shape`.
pub proof fn lemma_five_card_shape(cards: Seq<Card>)
    requires
        cards.len() == 5,
        cards.no_duplicates(),
    ensures
        five_card_shape(cards, rank_histogram(cards)),
{
    let hist = rank_histogram(cards);
    lemma_rank_histogram(cards);
    lemma_histogram_total(cards);
    lemma_total_of_at_least(hist);
    lemma_total_of_five(hist);
    assert forall|k: int| 0 <= k < hist.len() implies 1 <= (#[trigger] hist[k]).total <= 4
        && hist[k].total == rank_count(cards, hist[k].value) by {
        lemma_four_suits(cards, hist[k].value);
    }
}

/// The entry of a rank that occurs among the cards.
pub proof fn lemma_entry_of(cards: Seq<Card>, value: Value) -> (i: int)
    requires
        cards.len() <= usize::MAX,
        rank_count(cards, value) > 0,
    ensures
        0 <= i < rank_histogram(cards).len(),
        rank_histogram(cards)[i].value == value,
        rank_histogram(cards)[i].total == rank_count(cards, value),
{
    let hist = rank_histogram(cards);
    lemma_rank_histogram(cards);
    let entry = ValueTotal { value, total: rank_count(cards, value) as usize };
    assert(hist.contains(entry));
    let i = choose|i: int| 0 <= i < hist.len() && hist[i] == entry;
    i
}

/// All the cards are of one suit.
pub open spec fn one_suit(cards: Seq<Card>) -> bool {
    forall|i: int| 0 <= i < cards.len() ==> (#[trigger] cards[i]).suit == cards[0].suit
}

/// Some rank occurs exactly `n` times.
pub open spec fn has_group(cards: Seq<Card>, n: int) -> bool {
    exists|value: Value| (#[trigger] rank_count(cards, value)) == n
}

/// Some rank occurs exactly `n` times and another exactly `m` times.
pub open spec fn has_groups(cards: Seq<Card>, n: int, m: int) -> bool {
    exists|value: Value, other: Value|
        value != other && (#[trigger] rank_count(cards, value)) == n && (#[trigger] rank_count(
            cards,
            other,
        )) == m
}

/// The groups of equal ranks among five cards, none of them twice, read off
/// the first two totals of the rank histogram.
pub proof fn lemma_groups(cards: Seq<Card>)
    requires
        cards.len() == 5,
        cards.no_duplicates(),
    ensures
        has_group(cards, 4) <==> total_at(rank_histogram(cards), 0) == 4,
        has_groups(cards, 3, 2) <==> total_at(rank_histogram(cards), 0) == 3 && total_at(
            rank_histogram(cards),
            1,
        ) == 2,
        has_group(cards, 3) <==> total_at(rank_histogram(cards), 0) == 3,
        has_groups(cards, 2, 2) <==> total_at(rank_histogram(cards), 0) == 2 && total_at(
            rank_histogram(cards),
            1,
        ) == 2,
        has_group(cards, 2) <==> total_at(rank_histogram(cards), 0) == 2 || (total_at(
            rank_histogram(cards),
            0,
        ) == 3 && total_at(rank_histogram(cards), 1) == 2),
        1 <= total_at(rank_histogram(cards), 0) <= 4,
        total_at(rank_histogram(cards), 0) == 3 ==> 1 <= total_at(rank_histogram(cards), 1) <= 2,
{
    let hist = rank_histogram(cards);
    lemma_five_card_shape(cards);
    lemma_group_found(cards, 4);
    lemma_group_found(cards, 3);
    lemma_group_found(cards, 2);
    lemma_groups_found(cards, 3, 2);
    lemma_groups_found(cards, 2, 2);
    lemma_group_shown(cards, 0);
    if hist.len() > 1 {
        lemma_group_shown(cards, 1);
        lemma_groups_shown(cards);
    }
}

/// A rank that occurs `n` times has an entry with the total `n`.
proof fn lemma_group_found(cards: Seq<Card>, n: int)
    requires
        cards.len() == 5,
        cards.no_duplicates(),
        n >= 2,
    ensures
        has_group(cards, n) ==> exists|i: int|
            0 <= i < rank_histogram(cards).len() && (#[trigger] rank_histogram(cards)[i]).total
                == n,
        has_group(cards, n) ==> total_at(rank_histogram(cards), 0) == n || (n == 2 && total_at(
            rank_histogram(cards),
            0,
        ) == 3 && total_at(rank_histogram(cards), 1) == 2),
{
    let hist = rank_histogram(cards);
    lemma_five_card_shape(cards);
    if has_group(cards, n) {
        let value = choose|value: Value| (#[trigger] rank_count(cards, value)) == n;
        let i = lemma_entry_of(cards, value);
        assert(hist[i].total == n);
        assert(i == 0 || i == 1 || i == 2 || i == 3 || i == 4);
        if i > 0 {
            assert(hist[0].total >= hist[i].total);
            assert(total_at(hist, 0) + total_at(hist, i) <= 5);
        }
        if i > 1 {
            assert(hist[1].total >= hist[i].total);
            assert(total_at(hist, 0) + total_at(hist, 1) + total_at(hist, i) <= 5);
        }
    }
}

/// Two ranks that occur `n` and `m` times have the first two entries.
proof fn lemma_groups_found(cards: Seq<Card>, n: int, m: int)
    requires
        cards.len() == 5,
        cards.no_duplicates(),
        n >= m >= 2,
    ensures
        has_groups(cards, n, m) ==> total_at(rank_histogram(cards), 0) == n && total_at(
            rank_histogram(cards),
            1,
        ) == m,
{
    let hist = rank_histogram(cards);
    lemma_five_card_shape(cards);
    if has_groups(cards, n, m) {
        let (value, other) = choose|value: Value, other: Value|
            value != other && (#[trigger] rank_count(cards, value)) == n && (
            #[trigger] rank_count(cards, other)) == m;
        let i = lemma_entry_of(cards, value);
        let j = lemma_entry_of(cards, other);
        assert(i != j);
        assert(i == 0 || i == 1 || i == 2 || i == 3 || i == 4);
        assert(j == 0 || j == 1 || j == 2 || j == 3 || j == 4);
        assert(total_at(hist, i) + total_at(hist, j) <= 5);
        assert(hist.len() >= 2);
        if i > 1 {
            assert(hist[0].total >= hist[i].total && hist[1].total >= hist[i].total);
        }
        if j > 1 {
            assert(hist[0].total >= hist[j].total && hist[1].total >= hist[j].total);
        }
        if i < j {
            assert(hist[i].total >= hist[j].total);
        } else {
            assert(hist[j].total >= hist[i].total);
        }
    }
}

/// The total of an entry is the number of times its rank occurs.
proof fn lemma_group_shown(cards: Seq<Card>, i: int)
    requires
        cards.len() == 5,
        cards.no_duplicates(),
        0 <= i < rank_histogram(cards).len(),
    ensures
        has_group(cards, rank_histogram(cards)[i].total as int),
{
    let hist = rank_histogram(cards);
    lemma_five_card_shape(cards);
    assert(rank_count(cards, hist[i].value) == hist[i].total);
}

/// The totals of the first two entries are the numbers of times two
/// different ranks occur.
proof fn lemma_groups_shown(cards: Seq<Card>)
    requires
        cards.len() == 5,
        cards.no_duplicates(),
        rank_histogram(cards).len() >= 2,
    ensures
        has_groups(
            cards,
            rank_histogram(cards)[0].total as int,
            rank_histogram(cards)[1].total as int,
        ),
{
    let hist = rank_histogram(cards);
    lemma_five_card_shape(cards);
    assert(hist[0].value != hist[1].value);
    assert(rank_count(cards, hist[0].value) == hist[0].total);
    assert(rank_count(cards, hist[1].value) == hist[1].total);
}

/// Where every card has the suit, the suit is counted once for each card.
proof fn lemma_suit_of_all(cards: Seq<Card>, suit: Suit)
    requires
        forall|i: int| 0 <= i < cards.len() ==> (#[trigger] cards[i]).suit == suit,
    ensures
        suit_count(cards, suit) == cards.len(),
    decreases cards.len(),
{
    if cards.len() > 0 {
        let init = cards.drop_last();
        assert forall|i: int| 0 <= i < init.len() implies (#[trigger] init[i]).suit == suit by {
            assert(init[i] == cards[i]);
        }
        lemma_suit_of_all(init, suit);
        assert(cards[cards.len() - 1].suit == suit);
    }
}

/// Five cards hold a flush exactly where they are all of one suit.
pub proof fn lemma_one_suit(cards: Seq<Card>)
    requires
        cards.len() == 5,
    ensures
        has_flush(cards) <==> one_suit(cards),
{
    if has_flush(cards) {
        let suit = choose|suit: Suit| #[trigger] suit_count(cards, suit) >= 5;
        lemma_all_of_a_suit(cards, suit);
        assert(cards[0].suit == suit);
    }
    if one_suit(cards) {
        lemma_suit_of_all(cards, cards[0].suit);
    }
}

/// Cards of one suit, none of them twice, are of different ranks.
proof fn lemma_one_suit_distinct(cards: Seq<Card>)
    requires
        cards.no_duplicates(),
        one_suit(cards),
    ensures
        forall|i: int, j: int|
            0 <= i < j < cards.len() ==> (#[trigger] cards[i]).value != (#[trigger] cards[j]).value,
{
    assert forall|i: int, j: int| 0 <= i < j < cards.len() implies (#[trigger] cards[i]).value != (
    #[trigger] cards[j]).value by {
        assert(cards[i].suit == cards[0].suit && cards[j].suit == cards[0].suit);
        assert(cards[i] != cards[j]);
    }
}

/// Five cards of one suit, none of them twice, hold five ranks once each.
pub proof fn lemma_flush_shape(cards: Seq<Card>)
    requires
        cards.len() == 5,
        cards.no_duplicates(),
        one_suit(cards),
    ensures
        rank_histogram(cards).len() == 5,
        total_at(rank_histogram(cards), 0) == 1,
{
    lemma_one_suit_distinct(cards);
    crate::laws::lemma_distinct_histogram(cards);
}

/// Five cards that hold a straight hold five ranks once each.
pub proof fn lemma_straight_shape(cards: Seq<Card>)
    requires
        cards.len() == 5,
        cards.no_duplicates(),
        straight_top(cards) is Some,
    ensures
        rank_histogram(cards).len() == 5,
        total_at(rank_histogram(cards), 0) == 1,
{
    let hist = rank_histogram(cards);
    lemma_five_card_shape(cards);
    lemma_straight_top(cards);
    let top = straight_top(cards)->0;
    assert(run_at(cards, top));
    let low = if top == 5 {
        14
    } else {
        top - 4
    };
    assert(plays(cards, top - 4));
    let i0 = lemma_entry_of(cards, Value::of_rank(top));
    let i1 = lemma_entry_of(cards, Value::of_rank(top - 1));
    let i2 = lemma_entry_of(cards, Value::of_rank(top - 2));
    let i3 = lemma_entry_of(cards, Value::of_rank(top - 3));
    let i4 = lemma_entry_of(cards, Value::of_rank(low));
    assert(Value::of_rank(top).rank() == top);
    assert(Value::of_rank(top - 1).rank() == top - 1);
    assert(Value::of_rank(top - 2).rank() == top - 2);
    assert(Value::of_rank(top - 3).rank() == top - 3);
    assert(Value::of_rank(low).rank() == low);
    assert(i0 != i1 && i0 != i2 && i0 != i3 && i0 != i4);
    assert(i1 != i2 && i1 != i3 && i1 != i4);
    assert(i2 != i3 && i2 != i4);
    assert(i3 != i4);
    assert(hist.len() == 5);
}

/// The category of five cards by the rules of poker: a straight in one suit
/// is a straight flush, royal where it is ace high; then come four of a kind,
/// a full house of three and two of a kind, a flush of one suit, a straight,
/// three of a kind, two pairs, a pair, and a high card.
pub open spec fn standard_category(cards: Seq<Card>) -> Strength {
    if straight_top(cards) is Some && one_suit(cards) {
        if straight_top(cards) == Some(14int) {
            Strength::RoyalFlush
        } else {
            Strength::StraightFlush
        }
    } else if has_group(cards, 4) {
        Strength::FourofaKind
    } else if has_groups(cards, 3, 2) {
        Strength::FullHouse
    } else if one_suit(cards) {
        Strength::Flush
    } else if straight_top(cards) is Some {
        Strength::Straight
    } else if has_group(cards, 3) {
        Strength::ThreeofaKind
    } else if has_groups(cards, 2, 2) {
        Strength::TwoPair
    } else if has_group(cards, 2) {
        Strength::Pair
    } else {
        Strength::HighCard
    }
}

/// The ranks that decide between five-card hands of one category by the
/// rules of poker: for a straight the rank it is topped by, the five for the
/// wheel; otherwise the ranks of the hand, those that occur more often first
/// and of those that occur equally often the higher first.
pub open spec fn standard_ranks(cards: Seq<Card>) -> Seq<Value> {
    if straight_top(cards) is Some {
        seq![Value::of_rank(straight_top(cards)->0)]
    } else {
        Seq::new(rank_histogram(cards).len(), |k: int| rank_histogram(cards)[k].value)
    }
}

/// The evaluation gives five cards, none of them twice, the category that the
/// rules of poker give them.
pub proof fn lemma_standard_category(cards: Seq<Card>)
    requires
        cards.len() == 5,
        cards.no_duplicates(),
    ensures
        strength_of(cards) == standard_category(cards),
{
    let hist = rank_histogram(cards);
    lemma_five_card_shape(cards);
    lemma_groups(cards);
    lemma_one_suit(cards);
    if one_suit(cards) {
        lemma_flush_shape(cards);
    }
    if straight_top(cards) is Some {
        lemma_straight_shape(cards);
    }
    assert(hist[0].total == total_at(hist, 0));
    if hist.len() > 1 {
        assert(hist[1].total == total_at(hist, 1));
    }
}

/// The deciding ranks that the evaluation finds are those of the rules of
/// poker, but for a flush, of which it keeps the highest rank alone.
pub proof fn lemma_standard_ranks(cards: Seq<Card>)
    requires
        cards.len() == 5,
        cards.no_duplicates(),
    ensures
        strength_of(cards) != Strength::Flush ==> best_of(cards) == standard_ranks(cards),
        strength_of(cards) == Strength::Flush ==> standard_ranks(cards).len() == 5 && best_of(
            cards,
        ) == seq![standard_ranks(cards)[0]],
        standard_ranks(cards).len() <= 5,
{
    let hist = rank_histogram(cards);
    lemma_five_card_shape(cards);
    lemma_groups(cards);
    lemma_one_suit(cards);
    lemma_standard_category(cards);
    let strength = strength_of(cards);
    if straight_top(cards) is Some {
        assert(best_of(cards) =~= standard_ranks(cards));
    } else if strength == Strength::Flush {
        lemma_flush_shape(cards);
        lemma_flush_top(cards);
        assert(best_of(cards) =~= seq![standard_ranks(cards)[0]]);
    } else {
        assert(hist[0].total == total_at(hist, 0));
        if hist.len() > 1 {
            assert(hist[1].total == total_at(hist, 1));
        }
        assert(select_count(strength) >= hist.len()) by {
            lemma_select_all(cards);
        }
        assert(best_of(cards) =~= standard_ranks(cards));
    }
}

/// The category of five cards is decided by as many ranks as the cards hold.
proof fn lemma_select_all(cards: Seq<Card>)
    requires
        cards.len() == 5,
        cards.no_duplicates(),
    ensures
        select_count(shape_strength(rank_histogram(cards))) >= rank_histogram(cards).len(),
{
    let hist = rank_histogram(cards);
    lemma_five_card_shape(cards);
    assert(hist[0].total == total_at(hist, 0));
    if hist.len() > 1 {
        assert(hist[1].total == total_at(hist, 1));
        assert(hist[0].total >= hist[1].total);
    }
    if hist.len() > 2 {
        assert(hist[2].total == total_at(hist, 2));
        assert(hist[1].total >= hist[2].total);
    }
    if hist.len() > 3 {
        assert(hist[3].total == total_at(hist, 3));
        assert(hist[2].total >= hist[3].total);
    }
    if hist.len() > 4 {
        assert(hist[4].total == total_at(hist, 4));
        assert(hist[3].total >= hist[4].total);
    }
}

/// The first entry of the histogram of five cards of one suit is that of the
/// highest rank among them.
proof fn lemma_flush_top(cards: Seq<Card>)
    requires
        cards.len() == 5,
        cards.no_duplicates(),
        one_suit(cards),
    ensures
        rank_histogram(cards)[0].value == Value::of_rank(highest_rank(cards)),
{
    let hist = rank_histogram(cards);
    lemma_one_suit_distinct(cards);
    crate::laws::lemma_distinct_histogram(cards);
    lemma_highest_rank(cards);
    let high = highest_rank(cards);
    let i = lemma_entry_of(cards, Value::of_rank(high));
    assert(Value::of_rank(high).rank() == high);
    if i > 0 {
        assert(hist[0].value.rank() > hist[i].value.rank());
    }
    assert(crate::laws::holds_rank(cards, hist[0].value));
    let k = choose|k: int| 0 <= k < cards.len() && (#[trigger] cards[k]).value == hist[0].value;
    assert(cards[k].value.rank() <= high);
}

/// Whether the first rank in which two lists differ is higher in `a`. A
/// list that has ended counts as lower than any rank.
pub open spec fn decides_for(a: Seq<Value>, b: Seq<Value>) -> bool {
    slot(a, 0) > slot(b, 0) || (slot(a, 0) == slot(b, 0) && (slot(a, 1) > slot(b, 1) || (slot(
        a,
        1,
    ) == slot(b, 1) && (slot(a, 2) > slot(b, 2) || (slot(a, 2) == slot(b, 2) && (slot(a, 3)
        > slot(b, 3) || (slot(a, 3) == slot(b, 3) && slot(a, 4) > slot(b, 4))))))))
}

/// Whether two lists agree in their first five ranks.
pub open spec fn same_slots(a: Seq<Value>, b: Seq<Value>) -> bool {
    &&& slot(a, 0) == slot(b, 0)
    &&& slot(a, 1) == slot(b, 1)
    &&& slot(a, 2) == slot(b, 2)
    &&& slot(a, 3) == slot(b, 3)
    &&& slot(a, 4) == slot(b, 4)
}

/// The score orders by category first: the higher category has the higher
/// score, whatever the deciding ranks. Inside a category it orders by the
/// deciding ranks, the first difference deciding. Scores are equal exactly
/// where the categories count the same and the first five deciding ranks
/// agree.
pub proof fn lemma_score_order(
    strength: Strength,
    best: Seq<Value>,
    other_strength: Strength,
    other_best: Seq<Value>,
)
    ensures
        score_of(strength, best) > score_of(other_strength, other_best) <==> base_score(strength)
            > base_score(other_strength) || (base_score(strength) == base_score(other_strength)
            && decides_for(best, other_best)),
        score_of(strength, best) == score_of(other_strength, other_best) <==> base_score(strength)
            == base_score(other_strength) && same_slots(best, other_best),
        0 <= score_of(strength, best) < 0xa00000,
{
    assert(0 <= slot(best, 0) <= 14 && 0 <= slot(other_best, 0) <= 14);
    assert(0 <= slot(best, 1) <= 14 && 0 <= slot(other_best, 1) <= 14);
    assert(0 <= slot(best, 2) <= 14 && 0 <= slot(other_best, 2) <= 14);
    assert(0 <= slot(best, 3) <= 14 && 0 <= slot(other_best, 3) <= 14);
    assert(0 <= slot(best, 4) <= 14 && 0 <= slot(other_best, 4) <= 14);
}

/// Whether five cards stand above five others by the rules of poker: by a
/// higher category, or in the same category by the ranks that decide in it.
pub open spec fn stands_above(a: Seq<Card>, b: Seq<Card>) -> bool {
    base_score(standard_category(a)) > base_score(standard_category(b)) || (base_score(
        standard_category(a),
    ) == base_score(standard_category(b)) && decides_for(standard_ranks(a), standard_ranks(b)))
}

/// Whether two hands are flushes with the same highest rank of which the
/// lower ranks decide for `a`. Of a flush the score holds the highest rank
/// alone, so it gives such hands the same score.
pub open spec fn flush_decided_below_top(a: Seq<Card>, b: Seq<Card>) -> bool {
    &&& standard_category(a) == Strength::Flush
    &&& standard_category(b) == Strength::Flush
    &&& slot(standard_ranks(a), 0) == slot(standard_ranks(b), 0)
    &&& decides_for(standard_ranks(a), standard_ranks(b))
}

/// The score orders five-card hands as the rules of poker do: of two hands of
/// five cards each, none twice in its hand, the first has the higher score
/// exactly where it stands above the second. Left out are two flushes that
/// differ below their highest rank only.
pub proof fn lemma_score_ranks_five_cards(a: Seq<Card>, b: Seq<Card>)
    requires
        a.len() == 5,
        b.len() == 5,
        a.no_duplicates(),
        b.no_duplicates(),
        !flush_decided_below_top(a, b),
    ensures
        hand_score(a) > hand_score(b) <==> stands_above(a, b),
{
    lemma_standard_category(a);
    lemma_standard_category(b);
    lemma_standard_ranks(a);
    lemma_standard_ranks(b);
    lemma_score_order(strength_of(a), best_of(a), strength_of(b), best_of(b));
    let sa = strength_of(a);
    let sb = strength_of(b);
    assert(sa != Strength::Empty && sb != Strength::Empty);
    if base_score(sa) == base_score(sb) {
        assert(sa == sb);
        if sa == Strength::Flush {
            let ra = standard_ranks(a);
            let rb = standard_ranks(b);
            assert(slot(best_of(a), 0) == slot(ra, 0));
            assert(slot(best_of(b), 0) == slot(rb, 0));
            assert(decides_for(best_of(a), best_of(b)) <==> slot(ra, 0) > slot(rb, 0));
        }
    }
}

/// Two five-card hands, none of whose cards is twice in its hand, have the
/// same score exactly where they are of one category and agree in the ranks
/// that the score holds of it.
pub proof fn lemma_score_ties_five_cards(a: Seq<Card>, b: Seq<Card>)
    requires
        a.len() == 5,
        b.len() == 5,
        a.no_duplicates(),
        b.no_duplicates(),
    ensures
        hand_score(a) == hand_score(b) <==> standard_category(a) == standard_category(b) && if
            standard_category(a) == Strength::Flush {
            slot(standard_ranks(a), 0) == slot(standard_ranks(b), 0)
        } else {
            same_slots(standard_ranks(a), standard_ranks(b))
        },
{
    lemma_standard_category(a);
    lemma_standard_category(b);
    lemma_standard_ranks(a);
    lemma_standard_ranks(b);
    lemma_score_order(strength_of(a), best_of(a), strength_of(b), best_of(b));
    let sa = strength_of(a);
    let sb = strength_of(b);
    assert(sa != Strength::Empty && sb != Strength::Empty);
    if base_score(sa) == base_score(sb) {
        assert(sa == sb);
        if sa == Strength::Flush {
            assert(slot(best_of(a), 0) == slot(standard_ranks(a), 0));
            assert(slot(best_of(b), 0) == slot(standard_ranks(b), 0));
        }
    }
}

} // verus!
