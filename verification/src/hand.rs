//! A hand of cards, its category, the ranks that break ties inside the
//! category, and the score that orders hands.

use vstd::prelude::*;
use vstd::string::*;
use crate::card::{Card, Value};
use crate::count::{highest_rank, top_value};
use crate::histogram::{
    has_flush, is_rank_histogram, lemma_rank_histogram, rank_histogram, rank_totals,
    suit_histogram, suit_totals, SuitTotal, ValueTotal,
};
use crate::laws::lemma_order_plays_no_part;
use crate::order::{descending, lemma_sort_desc, sort_desc, sorted_descending};
use crate::straight::{find_straight, straight_top};

verus! {

/// The category of a hand, strongest first. `Empty` is the category of a hand
/// without cards.
#[derive(Debug, Clone, Copy, PartialEq, Eq, Hash, Structural)]
pub enum Strength {
    RoyalFlush,
    StraightFlush,
    FourofaKind,
    FullHouse,
    Flush,
    Straight,
    ThreeofaKind,
    TwoPair,
    Pair,
    HighCard,
    Empty,
}

/// The category that the totals of a rank histogram give: by the highest
/// total, and for three or two of a kind by the total that follows it.
pub open spec fn shape_strength(hist: Seq<ValueTotal>) -> Strength {
    if hist.len() == 0 {
        Strength::Empty
    } else {
        let top = hist[0].total;
        let second = if hist.len() > 1 {
            hist[1].total
        } else {
            0
        };
        if top == 4 {
            Strength::FourofaKind
        } else if top == 3 {
            if second >= 2 {
                Strength::FullHouse
            } else {
                Strength::ThreeofaKind
            }
        } else if top == 2 {
            if second == 2 {
                Strength::TwoPair
            } else {
                Strength::Pair
            }
        } else {
            Strength::HighCard
        }
    }
}

/// The category of the cards. A straight goes before everything else, and
/// with a flush beside it is a straight flush, royal where it is ace high. A
/// flush goes before what the rank histogram gives.
pub open spec fn strength_of(cards: Seq<Card>) -> Strength {
    if cards.len() == 0 {
        Strength::Empty
    } else {
        match straight_top(cards) {
            Some(top) => if has_flush(cards) {
                if top == 14 {
                    Strength::RoyalFlush
                } else {
                    Strength::StraightFlush
                }
            } else {
                Strength::Straight
            },
            None => if has_flush(cards) {
                Strength::Flush
            } else {
                shape_strength(rank_histogram(cards))
            },
        }
    }
}

/// How many ranks of the rank histogram a category is decided by.
pub open spec fn select_count(strength: Strength) -> nat {
    match strength {
        Strength::FourofaKind | Strength::FullHouse => 2,
        Strength::ThreeofaKind | Strength::TwoPair => 3,
        Strength::Pair => 4,
        Strength::HighCard => 5,
        _ => 0,
    }
}

/// The ranks of the first `n` entries of a histogram, or of all its entries
/// where it has fewer.
pub open spec fn leading_values(hist: Seq<ValueTotal>, n: nat) -> Seq<Value> {
    Seq::new(
        if n <= hist.len() {
            n
        } else {
            hist.len()
        },
        |k: int| hist[k].value,
    )
}

/// The ranks that decide between hands of the category of the cards, the
/// most significant first: for a straight of any kind the rank it is topped
/// by, the five for the wheel; for a flush the highest rank among the cards;
/// otherwise the leading ranks of the rank histogram, as many as the category
/// is decided by.
pub open spec fn best_of(cards: Seq<Card>) -> Seq<Value> {
    match strength_of(cards) {
        Strength::Empty => Seq::empty(),
        Strength::RoyalFlush | Strength::StraightFlush | Strength::Straight => seq![
            Value::of_rank(straight_top(cards)->0),
        ],
        Strength::Flush => seq![Value::of_rank(highest_rank(cards))],
        other => leading_values(rank_histogram(cards), select_count(other)),
    }
}

/// The number a category contributes to the score: 0 for a high card up to 9
/// for a royal flush.
pub open spec fn base_score(strength: Strength) -> int {
    match strength {
        Strength::RoyalFlush => 9,
        Strength::StraightFlush => 8,
        Strength::FourofaKind => 7,
        Strength::FullHouse => 6,
        Strength::Flush => 5,
        Strength::Straight => 4,
        Strength::ThreeofaKind => 3,
        Strength::TwoPair => 2,
        Strength::Pair => 1,
        Strength::HighCard => 0,
        Strength::Empty => 0,
    }
}

/// The number of the rank at position `i` of a list, 0 behind its end.
pub open spec fn slot(best: Seq<Value>, i: int) -> int {
    if 0 <= i < best.len() {
        best[i].rank()
    } else {
        0
    }
}

/// The score of a category and its deciding ranks: six fields of four bits,
/// the category in the highest, then the first five ranks of the list.
pub open spec fn score_of(strength: Strength, best: Seq<Value>) -> int {
    base_score(strength) * 0x100000 + slot(best, 0) * 0x10000 + slot(best, 1) * 0x1000 + slot(
        best,
        2,
    ) * 0x100 + slot(best, 3) * 0x10 + slot(best, 4)
}

/// The score of the cards.
pub open spec fn hand_score(cards: Seq<Card>) -> int {
    score_of(strength_of(cards), best_of(cards))
}

/// How many deciding ranks the description of a category names.
pub open spec fn named_count(strength: Strength) -> nat {
    match strength {
        Strength::RoyalFlush | Strength::Empty => 0,
        Strength::FullHouse | Strength::TwoPair => 2,
        _ => 1,
    }
}

/// The description of a category and its deciding ranks, the ranks named by
/// their words.
pub open spec fn describe_spec(strength: Strength, best: Seq<Value>) -> Seq<char> {
    match strength {
        Strength::RoyalFlush => "royal flush"@,
        Strength::StraightFlush => "straight flush, "@ + best[0].name() + " high"@,
        Strength::FourofaKind => "four of a kind, "@ + best[0].name() + "s"@,
        Strength::FullHouse => "full house, "@ + best[0].name() + "s over "@ + best[1].name()
            + "s"@,
        Strength::Flush => "flush, "@ + best[0].name() + " high"@,
        Strength::Straight => "straight, "@ + best[0].name() + " high"@,
        Strength::ThreeofaKind => "three of a kind, "@ + best[0].name() + "s"@,
        Strength::TwoPair => "two pair, "@ + best[0].name() + "s and "@ + best[1].name() + "s"@,
        Strength::Pair => "pair of "@ + best[0].name() + "s"@,
        Strength::HighCard => best[0].name() + " high"@,
        Strength::Empty => "empty"@,
    }
}

/// The deciding ranks of a hand with cards are at most five, and as many as
/// the description of its category names.
pub proof fn lemma_best_of_len(cards: Seq<Card>)
    requires
        cards.len() <= usize::MAX,
    ensures
        named_count(strength_of(cards)) <= best_of(cards).len() <= 5,
{
    lemma_rank_histogram(cards);
}

/// The field of four bits that `x` fills at position `slots` from the right.
fn field(x: u32, slots: u32) -> (r: u32)
    requires
        x <= 15,
        slots <= 5,
    ensures
        slots == 0 ==> r == x,
        slots == 1 ==> r == x * 0x10,
        slots == 2 ==> r == x * 0x100,
        slots == 3 ==> r == x * 0x1000,
        slots == 4 ==> r == x * 0x10000,
        slots == 5 ==> r == x * 0x100000,
{
    let shift: u32 = slots * 4;
    assert(x << 0u32 == x) by (bit_vector);
    assert(x << 4u32 == x * 0x10) by (bit_vector)
        requires
            x <= 15,
    ;
    assert(x << 8u32 == x * 0x100) by (bit_vector)
        requires
            x <= 15,
    ;
    assert(x << 12u32 == x * 0x1000) by (bit_vector)
        requires
            x <= 15,
    ;
    assert(x << 16u32 == x * 0x10000) by (bit_vector)
        requires
            x <= 15,
    ;
    assert(x << 20u32 == x * 0x100000) by (bit_vector)
        requires
            x <= 15,
    ;
    x << shift
}

/// The number of the rank at position `i` of a list, 0 behind its end.
fn slot_at(best: &Vec<Value>, i: usize) -> (n: u32)
    ensures
        n == slot(best@, i as int),
        n <= 14,
{
    if i < best.len() {
        best[i].to_u32()
    } else {
        0
    }
}

/// The number a category contributes to the score.
pub fn base_of(strength: Strength) -> (n: u32)
    ensures
        n == base_score(strength),
        n <= 9,
{
    match strength {
        Strength::RoyalFlush => 9,
        Strength::StraightFlush => 8,
        Strength::FourofaKind => 7,
        Strength::FullHouse => 6,
        Strength::Flush => 5,
        Strength::Straight => 4,
        Strength::ThreeofaKind => 3,
        Strength::TwoPair => 2,
        Strength::Pair => 1,
        Strength::HighCard => 0,
        Strength::Empty => 0,
    }
}

/// The score of a category and its deciding ranks.
pub fn encode_score(strength: Strength, best: &Vec<Value>) -> (score: u32)
    ensures
        score == score_of(strength, best@),
        score < 0xa00000,
{
    let score: u32 = field(base_of(strength), 5) + field(slot_at(best, 0), 4) + field(
        slot_at(best, 1),
        3,
    ) + field(slot_at(best, 2), 2) + field(slot_at(best, 3), 1) + field(slot_at(best, 4), 0);
    score
}

/// A hand: the cards it was given, and the category, deciding ranks and score
/// that the last evaluation found. Adding a card leaves the three as they
/// are, so they speak of the cards as they were when `calc` last ran.
pub struct Hand {
    cards: Vec<Card>,
    best: Vec<Value>,
    score: u32,
    strength: Strength,
}

impl View for Hand {
    type V = Seq<Card>;

    /// The cards of the hand, in the order in which it holds them.
    closed spec fn view(&self) -> Seq<Card> {
        self.cards@
    }
}

impl Hand {
    /// The category, deciding ranks and score belong together: the ranks are
    /// as many as the category's description names, and the score is theirs.
    #[verifier::type_invariant]
    spec fn consistent(self) -> bool {
        &&& named_count(self.strength) <= self.best@.len()
        &&& self.score == score_of(self.strength, self.best@)
    }

    /// The category found by the last evaluation.
    pub closed spec fn spec_strength(&self) -> Strength {
        self.strength
    }

    /// The deciding ranks found by the last evaluation.
    pub closed spec fn spec_best(&self) -> &Vec<Value> {
        &self.best
    }

    /// The score found by the last evaluation.
    pub closed spec fn spec_score(&self) -> u32 {
        self.score
    }

    /// Whether category, deciding ranks and score are those of the cards the
    /// hand holds now.
    pub open spec fn is_current(&self) -> bool {
        &&& self.strength() == strength_of(self@)
        &&& self.best()@ == best_of(self@)
        &&& self.score() == hand_score(self@)
    }

    /// A hand without cards.
    pub fn new() -> (hand: Hand)
        ensures
            hand@ == Seq::<Card>::empty(),
            hand.strength() == Strength::Empty,
            hand.best()@ == Seq::<Value>::empty(),
            hand.score() == 0,
            hand.is_current(),
    {
        Hand { cards: Vec::new(), best: Vec::new(), score: 0, strength: Strength::Empty }
    }

    /// Adds a card behind the cards of the hand. Category, deciding ranks and
    /// score stay as they are.
    pub fn add(&mut self, card: Card)
        ensures
            final(self)@ == old(self)@.push(card),
            final(self).strength() == old(self).strength(),
            final(self).best()@ == old(self).best()@,
            final(self).score() == old(self).score(),
    {
        proof {
            use_type_invariant(&*self);
        }
        let mut cards: Vec<Card> = Vec::new();
        std::mem::swap(&mut cards, &mut self.cards);
        cards.push(card);
        self.cards = cards;
    }

    /// The cards of the hand.
    pub fn cards(&self) -> (cards: &Vec<Card>)
        ensures
            cards@ == self@,
    {
        &self.cards
    }

    /// The category found by the last evaluation.
    #[verifier::when_used_as_spec(spec_strength)]
    pub fn strength(&self) -> (strength: Strength)
        ensures
            strength == self.spec_strength(),
    {
        self.strength
    }

    /// The deciding ranks found by the last evaluation.
    #[verifier::when_used_as_spec(spec_best)]
    pub fn best(&self) -> (best: &Vec<Value>)
        ensures
            best == self.spec_best(),
    {
        &self.best
    }

    /// The score found by the last evaluation: that of the category and the
    /// deciding ranks it found.
    #[verifier::when_used_as_spec(spec_score)]
    pub fn score(&self) -> (score: u32)
        ensures
            score == self.spec_score(),
            score == score_of(self.strength(), self.best()@),
    {
        proof {
            use_type_invariant(&*self);
        }
        self.score
    }

    /// The rank histogram of the cards: an entry for each rank that occurs,
    /// with the number of cards that have it; the higher total first, and of
    /// equal totals the higher rank first.
    pub fn count_values(&self) -> (list: Vec<ValueTotal>)
        ensures
            list@ == rank_histogram(self@),
            is_rank_histogram(self@, list@),
            self@.len() > 0 ==> list@.len() > 0,
    {
        rank_totals(&self.cards)
    }

    /// The suit histogram of the cards: the total of each suit that occurs,
    /// the higher total first.
    pub fn count_suits(&self) -> (list: Vec<SuitTotal>)
        ensures
            list@ == suit_histogram(self@),
            descending(list@),
            self@.len() > 0 ==> list@.len() > 0,
            has_flush(self@) <==> list@.len() > 0 && list@[0].total >= 5,
    {
        suit_totals(&self.cards)
    }

    /// Describes the hand as the last evaluation found it.
    pub fn describe(&self) -> (text: String)
        ensures
            text@ == describe_spec(self.strength(), self.best()@),
    {
        proof {
            use_type_invariant(&*self);
        }
        match self.strength {
            Strength::RoyalFlush => String::from_str("royal flush"),
            Strength::StraightFlush => {
                let mut text: String = String::from_str("straight flush, ");
                text.append(self.best[0].to_str());
                text.append(" high");
                text
            },
            Strength::FourofaKind => {
                let mut text: String = String::from_str("four of a kind, ");
                text.append(self.best[0].to_str());
                text.append("s");
                text
            },
            Strength::FullHouse => {
                let mut text: String = String::from_str("full house, ");
                text.append(self.best[0].to_str());
                text.append("s over ");
                text.append(self.best[1].to_str());
                text.append("s");
                text
            },
            Strength::Flush => {
                let mut text: String = String::from_str("flush, ");
                text.append(self.best[0].to_str());
                text.append(" high");
                text
            },
            Strength::Straight => {
                let mut text: String = String::from_str("straight, ");
                text.append(self.best[0].to_str());
                text.append(" high");
                text
            },
            Strength::ThreeofaKind => {
                let mut text: String = String::from_str("three of a kind, ");
                text.append(self.best[0].to_str());
                text.append("s");
                text
            },
            Strength::TwoPair => {
                let mut text: String = String::from_str("two pair, ");
                text.append(self.best[0].to_str());
                text.append("s and ");
                text.append(self.best[1].to_str());
                text.append("s");
                text
            },
            Strength::Pair => {
                let mut text: String = String::from_str("pair of ");
                text.append(self.best[0].to_str());
                text.append("s");
                text
            },
            Strength::HighCard => {
                let mut text: String = String::from_str(self.best[0].to_str());
                text.append(" high");
                text
            },
            Strength::Empty => String::from_str("empty"),
        }
    }

    /// Evaluates the hand: finds the category, the deciding ranks and the
    /// score of its cards, and leaves the cards in descending order of rank,
    /// cards of one rank in the order they had.
    pub fn calc(&mut self)
        ensures
            final(self)@ == sort_desc(old(self)@),
            descending(final(self)@),
            final(self)@.len() == old(self)@.len(),
            final(self)@.to_multiset() == old(self)@.to_multiset(),
            final(self).strength() == strength_of(old(self)@),
            final(self).best()@ == best_of(old(self)@),
            final(self).score() == hand_score(old(self)@),
            final(self).is_current(),
    {
        let sorted: Vec<Card> = sorted_descending(&self.cards);
        proof {
            lemma_sort_desc(self.cards@);
            lemma_order_plays_no_part(sorted@, self.cards@);
        }
        if self.cards.len() == 0 {
            *self = Hand { cards: sorted, best: Vec::new(), score: 0, strength: Strength::Empty };
            return;
        }
        let values: Vec<ValueTotal> = self.count_values();
        let mut strength: Strength = Strength::HighCard;
        if values[0].total == 4 {
            strength = Strength::FourofaKind;
        }
        if values[0].total == 3 {
            if values.len() > 1 && values[1].total >= 2 {
                strength = Strength::FullHouse;
            } else {
                strength = Strength::ThreeofaKind;
            }
        }
        if values[0].total == 2 {
            if values.len() > 1 && values[1].total == 2 {
                strength = Strength::TwoPair;
            } else {
                strength = Strength::Pair;
            }
        }
        let suits: Vec<SuitTotal> = self.count_suits();
        if suits[0].total >= 5 {
            strength = Strength::Flush;
        }
        let straight: Option<Value> = find_straight(&self.cards);
        let mut best: Vec<Value> = Vec::new();
        match straight {
            Some(top) => {
                if strength == Strength::Flush {
                    if top == Value::Ace {
                        strength = Strength::RoyalFlush;
                    } else {
                        strength = Strength::StraightFlush;
                    }
                } else {
                    strength = Strength::Straight;
                }
                best.push(top);
            },
            None => {
                if strength == Strength::Flush {
                    best.push(top_value(&self.cards).unwrap());
                } else {
                    let mut select: usize = match strength {
                        Strength::FourofaKind | Strength::FullHouse => 2,
                        Strength::ThreeofaKind | Strength::TwoPair => 3,
                        Strength::Pair => 4,
                        _ => 5,
                    };
                    if select > values.len() {
                        select = values.len();
                    }
                    let mut i: usize = 0;
                    while i < select
                        invariant
                            0 <= i <= select <= values.len(),
                            best@ == Seq::new(i as nat, |k: int| values@[k].value),
                        decreases select - i,
                    {
                        best.push(values[i].value);
                        assert(best@ =~= Seq::new((i + 1) as nat, |k: int| values@[k].value));
                        i = i + 1;
                    }
                }
            },
        }
        assert(best@ =~= best_of(self.cards@));
        let score: u32 = encode_score(strength, &best);
        *self = Hand { cards: sorted, best, score, strength };
    }
}

/// A copy of a hand holds the same cards and the same evaluation.
impl Clone for Hand {
    fn clone(&self) -> (copy: Self)
        ensures
            copy@ == self@,
            copy.strength() == self.strength(),
            copy.best()@ == self.best()@,
            copy.score() == self.score(),
    {
        proof {
            use_type_invariant(&*self);
        }
        let mut cards: Vec<Card> = Vec::new();
        let mut i: usize = 0;
        while i < self.cards.len()
            invariant
                0 <= i <= self.cards.len(),
                cards@ == self.cards@.take(i as int),
            decreases self.cards.len() - i,
        {
            cards.push(self.cards[i]);
            assert(cards@ =~= self.cards@.take(i + 1));
            i = i + 1;
        }
        let mut best: Vec<Value> = Vec::new();
        let mut k: usize = 0;
        while k < self.best.len()
            invariant
                0 <= k <= self.best.len(),
                best@ == self.best@.take(k as int),
            decreases self.best.len() - k,
        {
            best.push(self.best[k]);
            assert(best@ =~= self.best@.take(k + 1));
            k = k + 1;
        }
        assert(cards@ =~= self.cards@);
        assert(best@ =~= self.best@);
        Hand { cards, best, score: self.score, strength: self.strength }
    }
}

} // verus!
