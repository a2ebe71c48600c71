//! Histograms of a hand: for each rank, and for each suit, that occurs among
//! the cards, how often it does. Entries stand in descending order of their
//! totals; rank entries of equal total stand in descending order of rank.

use vstd::prelude::*;
use crate::card::{Card, Suit, Value};
use crate::count::{count_rank, count_suit, rank_count, suit_count};
use crate::order::{descending, lemma_sort_desc, lemma_sort_desc_contains, lemma_sort_desc_push, place_in, sort_desc, Keyed};

verus! {

/// How many cards of a hand have one rank.
#[derive(Debug, Clone, Copy, PartialEq, Eq, Structural)]
pub struct ValueTotal {
    pub value: Value,
    pub total: usize,
}

/// How many cards of a hand have one suit. Which suit it is plays no part.
#[derive(Debug, Clone, Copy, PartialEq, Eq, Structural)]
pub struct SuitTotal {
    pub total: usize,
}

/// Rank entries are ordered by total, and by rank where totals are equal.
impl Keyed for ValueTotal {
    open spec fn key(&self) -> int {
        self.total * 16 + self.value.rank()
    }

    fn outranks(&self, other: &Self) -> (b: bool) {
        self.total > other.total || (self.total == other.total && self.value.to_u32()
            > other.value.to_u32())
    }
}

/// Suit entries are ordered by total.
impl Keyed for SuitTotal {
    open spec fn key(&self) -> int {
        self.total as int
    }

    fn outranks(&self, other: &Self) -> (b: bool) {
        self.total > other.total
    }
}

/// The entries of the ranks numbered 2 to `upto` that occur among the cards,
/// in ascending order of rank.
pub open spec fn rank_entries(cards: Seq<Card>, upto: int) -> Seq<ValueTotal>
    decreases upto,
{
    if upto < 2 {
        Seq::empty()
    } else if rank_count(cards, Value::of_rank(upto)) > 0 {
        rank_entries(cards, upto - 1).push(
            ValueTotal {
                value: Value::of_rank(upto),
                total: rank_count(cards, Value::of_rank(upto)) as usize,
            },
        )
    } else {
        rank_entries(cards, upto - 1)
    }
}

/// The rank histogram of the cards: one entry for each rank that occurs, the
/// higher total first, and of equal totals the higher rank first.
pub open spec fn rank_histogram(cards: Seq<Card>) -> Seq<ValueTotal> {
    sort_desc(rank_entries(cards, 14))
}

/// The entries of the suits at positions 0 to `upto` that occur among the
/// cards.
pub open spec fn suit_entries(cards: Seq<Card>, upto: int) -> Seq<SuitTotal>
    decreases upto + 1,
{
    if upto < 0 {
        Seq::empty()
    } else if suit_count(cards, Suit::of_index(upto)) > 0 {
        suit_entries(cards, upto - 1).push(
            SuitTotal { total: suit_count(cards, Suit::of_index(upto)) as usize },
        )
    } else {
        suit_entries(cards, upto - 1)
    }
}

/// The suit histogram of the cards: the total of each suit that occurs, the
/// higher total first.
pub open spec fn suit_histogram(cards: Seq<Card>) -> Seq<SuitTotal> {
    sort_desc(suit_entries(cards, 3))
}

/// Whether five or more of the cards share a suit.
pub open spec fn has_flush(cards: Seq<Card>) -> bool {
    exists|suit: Suit| #[trigger] suit_count(cards, suit) >= 5
}

/// The rank histogram of the cards: an entry for each rank that occurs, with
/// the number of cards that have it; the higher total first, and of equal
/// totals the higher rank first.
pub fn rank_totals(cards: &Vec<Card>) -> (list: Vec<ValueTotal>)
    ensures
        list@ == rank_histogram(cards@),
        is_rank_histogram(cards@, list@),
        cards@.len() > 0 ==> list@.len() > 0,
{
    proof {
        assert(cards@.len() == cards.len());
        lemma_rank_histogram(cards@);
    }
    let mut list: Vec<ValueTotal> = Vec::new();
    let mut r: u32 = 2;
    while r <= 14
        invariant
            2 <= r <= 15,
            list@ == sort_desc(rank_entries(cards@, r - 1)),
        decreases 15 - r,
    {
        let value: Value = Value::from_u32(r).unwrap();
        let total: usize = count_rank(cards, value);
        if total > 0 {
            proof {
                lemma_sort_desc_push(rank_entries(cards@, r - 1), ValueTotal { value, total });
            }
            place_in(&mut list, ValueTotal { value, total });
        }
        r = r + 1;
    }
    list
}

/// The suit histogram of the cards: the total of each suit that occurs, the
/// higher total first.
pub fn suit_totals(cards: &Vec<Card>) -> (list: Vec<SuitTotal>)
    ensures
        list@ == suit_histogram(cards@),
        descending(list@),
        cards@.len() > 0 ==> list@.len() > 0,
        has_flush(cards@) <==> list@.len() > 0 && list@[0].total >= 5,
{
    proof {
        assert(cards@.len() == cards.len());
        lemma_suit_histogram(cards@);
    }
    let mut list: Vec<SuitTotal> = Vec::new();
    let mut i: u32 = 0;
    while i <= 3
        invariant
            0 <= i <= 4,
            list@ == sort_desc(suit_entries(cards@, i - 1)),
        decreases 4 - i,
    {
        let suit: Suit = Suit::from_index(i).unwrap();
        let total: usize = count_suit(cards, suit);
        if total > 0 {
            proof {
                lemma_sort_desc_push(suit_entries(cards@, i - 1), SuitTotal { total });
            }
            place_in(&mut list, SuitTotal { total });
        }
        i = i + 1;
    }
    list
}

/// What the rank entries up to a rank hold: an entry for each rank that
/// occurs, with its count, in ascending order of rank.
pub proof fn lemma_rank_entries(cards: Seq<Card>, upto: int)
    requires
        cards.len() <= usize::MAX,
        upto <= 14,
    ensures
        forall|k: int|
            0 <= k < rank_entries(cards, upto).len() ==> {
                let e = #[trigger] rank_entries(cards, upto)[k];
                &&& 2 <= e.value.rank() <= upto
                &&& e.total == rank_count(cards, e.value)
                &&& e.total > 0
            },
        forall|j: int, k: int|
            0 <= j < k < rank_entries(cards, upto).len() ==> (#[trigger] rank_entries(
                cards,
                upto,
            )[j]).value.rank() < (#[trigger] rank_entries(cards, upto)[k]).value.rank(),
        forall|value: Value|
            value.rank() <= upto && #[trigger] rank_count(cards, value) > 0 ==> rank_entries(
                cards,
                upto,
            ).contains(ValueTotal { value, total: rank_count(cards, value) as usize }),
    decreases upto,
{
    if upto >= 2 {
        lemma_rank_entries(cards, upto - 1);
        let before = rank_entries(cards, upto - 1);
        let now = rank_entries(cards, upto);
        let top = Value::of_rank(upto);
        crate::count::lemma_rank_count_bound(cards, top);
        assert forall|value: Value|
            value.rank() <= upto && #[trigger] rank_count(cards, value) > 0 implies now.contains(
            ValueTotal { value, total: rank_count(cards, value) as usize },
        ) by {
            let e = ValueTotal { value, total: rank_count(cards, value) as usize };
            if value.rank() == upto {
                assert(value == top);
                assert(now[now.len() - 1] == e);
            } else {
                assert(before.contains(e));
                let k = choose|k: int| 0 <= k < before.len() && before[k] == e;
                assert(now[k] == e);
            }
        }
    }
}

/// Whether `hist` is the rank histogram of the cards: each entry gives a rank
/// that occurs and the number of cards that have it; every rank that occurs
/// has an entry; an entry precedes every entry of a lower total and every
/// entry of the same total and a lower rank.
pub open spec fn is_rank_histogram(cards: Seq<Card>, hist: Seq<ValueTotal>) -> bool {
    &&& forall|k: int|
        0 <= k < hist.len() ==> {
            let e = #[trigger] hist[k];
            &&& e.total == rank_count(cards, e.value)
            &&& e.total > 0
        }
    &&& forall|value: Value| #[trigger]
        rank_count(cards, value) > 0 ==> hist.contains(
            ValueTotal { value, total: rank_count(cards, value) as usize },
        )
    &&& forall|j: int, k: int|
        0 <= j < k < hist.len() ==> {
            let a = #[trigger] hist[j];
            let b = #[trigger] hist[k];
            a.total > b.total || (a.total == b.total && a.value.rank() > b.value.rank())
        }
}

/// What the rank histogram holds, and in what order; and that cards have
/// a histogram with an entry.
pub proof fn lemma_rank_histogram(cards: Seq<Card>)
    requires
        cards.len() <= usize::MAX,
    ensures
        is_rank_histogram(cards, rank_histogram(cards)),
        cards.len() > 0 ==> rank_histogram(cards).len() > 0,
{
    let entries = rank_entries(cards, 14);
    let hist = rank_histogram(cards);
    lemma_rank_entries(cards, 14);
    lemma_sort_desc(entries);
    assert forall|k: int| 0 <= k < hist.len() implies {
        let e = #[trigger] hist[k];
        &&& e.total == rank_count(cards, e.value)
        &&& e.total > 0
    } by {
        let e = hist[k];
        assert(hist.contains(e));
        lemma_sort_desc_contains(entries, e);
        let i = choose|i: int| 0 <= i < entries.len() && entries[i] == e;
        assert(entries[i] == e);
    }
    assert forall|value: Value| #[trigger] rank_count(cards, value) > 0 implies hist.contains(
        ValueTotal { value, total: rank_count(cards, value) as usize },
    ) by {
        lemma_sort_desc_contains(
            entries,
            ValueTotal { value, total: rank_count(cards, value) as usize },
        );
    }
    assert(entries.no_duplicates());
    entries.lemma_multiset_has_no_duplicates();
    hist.lemma_multiset_has_no_duplicates_conv();
    assert forall|j: int, k: int| 0 <= j < k < hist.len() implies {
        let a = #[trigger] hist[j];
        let b = #[trigger] hist[k];
        a.total > b.total || (a.total == b.total && a.value.rank() > b.value.rank())
    } by {
        let a = hist[j];
        let b = hist[k];
        assert(a.key() >= b.key());
        assert(a != b);
        assert(hist.contains(a) && hist.contains(b));
        lemma_sort_desc_contains(entries, a);
        lemma_sort_desc_contains(entries, b);
        let ia = choose|i: int| 0 <= i < entries.len() && entries[i] == a;
        let ib = choose|i: int| 0 <= i < entries.len() && entries[i] == b;
        assert(entries[ia] == a && entries[ib] == b);
        assert(2 <= a.value.rank() <= 14 && 2 <= b.value.rank() <= 14);
        if a.total == b.total && a.value.rank() == b.value.rank() {
            assert(a.value == b.value);
        }
    }
    if cards.len() > 0 {
        let value = cards.last().value;
        assert(rank_count(cards, value) > 0);
        assert(hist.contains(ValueTotal { value, total: rank_count(cards, value) as usize }));
    }
}

/// What the suit entries up to a position hold: the count of each suit that
/// occurs.
pub proof fn lemma_suit_entries(cards: Seq<Card>, upto: int)
    requires
        cards.len() <= usize::MAX,
        upto <= 3,
    ensures
        forall|k: int|
            0 <= k < suit_entries(cards, upto).len() ==> exists|suit: Suit|
                suit.index() <= upto && (#[trigger] suit_entries(cards, upto)[k]).total
                    == #[trigger] suit_count(cards, suit),
        forall|suit: Suit|
            suit.index() <= upto && #[trigger] suit_count(cards, suit) > 0 ==> suit_entries(
                cards,
                upto,
            ).contains(SuitTotal { total: suit_count(cards, suit) as usize }),
    decreases upto + 1,
{
    if upto >= 0 {
        lemma_suit_entries(cards, upto - 1);
        let before = suit_entries(cards, upto - 1);
        let now = suit_entries(cards, upto);
        let top = Suit::of_index(upto);
        crate::count::lemma_suit_count_bound(cards, top);
        assert forall|k: int| 0 <= k < now.len() implies exists|suit: Suit|
            suit.index() <= upto && (#[trigger] now[k]).total == #[trigger] suit_count(
                cards,
                suit,
            ) by {
            if k < before.len() {
                let suit = choose|suit: Suit|
                    suit.index() <= upto - 1 && before[k].total == #[trigger] suit_count(
                        cards,
                        suit,
                    );
                assert(now[k] == before[k]);
                assert(suit.index() <= upto && now[k].total == suit_count(cards, suit));
            } else {
                assert(top.index() <= upto && now[k].total == suit_count(cards, top));
            }
        }
        assert forall|suit: Suit|
            suit.index() <= upto && #[trigger] suit_count(cards, suit) > 0 implies now.contains(
            SuitTotal { total: suit_count(cards, suit) as usize },
        ) by {
            let e = SuitTotal { total: suit_count(cards, suit) as usize };
            if suit.index() == upto {
                assert(suit == top);
                assert(now[now.len() - 1] == e);
            } else {
                assert(before.contains(e));
                let k = choose|k: int| 0 <= k < before.len() && before[k] == e;
                assert(now[k] == e);
            }
        }
    }
}

/// The suit histogram is descending, and it begins with a total of five or
/// more exactly where five or more cards share a suit.
pub proof fn lemma_suit_histogram(cards: Seq<Card>)
    requires
        cards.len() <= usize::MAX,
    ensures
        descending(suit_histogram(cards)),
        cards.len() > 0 ==> suit_histogram(cards).len() > 0,
        has_flush(cards) <==> suit_histogram(cards).len() > 0 && suit_histogram(cards)[0].total
            >= 5,
{
    let entries = suit_entries(cards, 3);
    let hist = suit_histogram(cards);
    lemma_suit_entries(cards, 3);
    lemma_sort_desc(entries);
    if has_flush(cards) {
        let suit = choose|suit: Suit| #[trigger] suit_count(cards, suit) >= 5;
        crate::count::lemma_suit_count_bound(cards, suit);
        let e = SuitTotal { total: suit_count(cards, suit) as usize };
        assert(entries.contains(e));
        lemma_sort_desc_contains(entries, e);
        let k = choose|k: int| 0 <= k < hist.len() && hist[k] == e;
        assert(hist[0].key() >= hist[k].key());
    }
    if hist.len() > 0 && hist[0].total >= 5 {
        let e = hist[0];
        assert(hist.contains(e));
        lemma_sort_desc_contains(entries, e);
        let k = choose|k: int| 0 <= k < entries.len() && entries[k] == e;
        let suit = choose|suit: Suit|
            suit.index() <= 3 && entries[k].total == #[trigger] suit_count(cards, suit);
        assert(suit_count(cards, suit) >= 5);
    }
    if cards.len() > 0 {
        let suit = cards.last().suit;
        assert(suit_count(cards, suit) > 0);
        let e = SuitTotal { total: suit_count(cards, suit) as usize };
        assert(entries.contains(e));
        lemma_sort_desc_contains(entries, e);
    }
}

} // verus!
