//! The search over what an unseen opponent may hold: every pair of cards that
//! is left in the deck, joined to the community cards and scored against the
//! player's hand.

use vstd::prelude::*;
use crate::card::Card;
use crate::deck::Deck;
use crate::hand::{hand_score, Hand};

verus! {

/// The number of ways to take two of `n` cards, in no order.
pub open spec fn pair_count(n: int) -> int {
    n * (n - 1) / 2
}

/// The pairs that the card at index `i` forms with each card in front of it,
/// in the order of those cards.
pub open spec fn row(deck: Seq<Card>, i: int) -> Seq<(Card, Card)> {
    Seq::new(i as nat, |j: int| (deck[i], deck[j]))
}

/// The pairs whose first card stands at index `i` or behind it; those of the
/// last card come first.
pub open spec fn pairs_from(deck: Seq<Card>, i: int) -> Seq<(Card, Card)>
    decreases deck.len() - i,
{
    if i < 0 || i >= deck.len() {
        Seq::empty()
    } else {
        pairs_from(deck, i + 1) + row(deck, i)
    }
}

/// Every pair of two cards of the deck, each once and in one order only: the
/// card that stands behind in the deck is the first of the pair.
pub open spec fn all_pairs(deck: Seq<Card>) -> Seq<(Card, Card)> {
    pairs_from(deck, 0)
}

/// Whether a pair, joined to the community cards, scores strictly above
/// `score`.
pub open spec fn outscores(community: Seq<Card>, score: int) -> spec_fn((Card, Card)) -> bool {
    |pair: (Card, Card)| hand_score(community.push(pair.0).push(pair.1)) > score
}

/// The pairs of the deck that, joined to the community cards, score strictly
/// above `score`, in the order of `all_pairs`.
pub open spec fn winners(deck: Seq<Card>, community: Seq<Card>, score: int) -> Seq<(Card, Card)> {
    all_pairs(deck).filter(outscores(community, score))
}

/// The product of two numbers in a row is twice the pair count.
pub proof fn lemma_pair_count_even(n: int)
    requires
        0 <= n,
    ensures
        n * (n - 1) == 2 * pair_count(n),
    decreases n,
{
    if n == 0 {
        assert(n * (n - 1) == 0) by (nonlinear_arith)
            requires
                n == 0,
        ;
    } else {
        lemma_pair_count_even(n - 1);
        assert(n * (n - 1) == (n - 1) * (n - 2) + 2 * (n - 1)) by (nonlinear_arith);
    }
}

/// Two of `n + 1` cards can be taken in `n` ways more than two of `n`.
pub proof fn lemma_pair_count_step(n: int)
    requires
        0 <= n,
    ensures
        pair_count(0) == 0,
        pair_count(n + 1) == pair_count(n) + n,
        pair_count(n) >= 0,
{
    lemma_pair_count_even(0);
    lemma_pair_count_even(n);
    lemma_pair_count_even(n + 1);
    assert((n + 1) * n == n * (n - 1) + 2 * n) by (nonlinear_arith);
    assert(n * (n - 1) >= 0) by (nonlinear_arith)
        requires
            0 <= n,
    ;
}

/// The number of pairs whose first card stands at index `i` or behind it.
pub proof fn lemma_pairs_from_len(deck: Seq<Card>, i: int)
    requires
        0 <= i <= deck.len(),
    ensures
        pairs_from(deck, i).len() == pair_count(deck.len() as int) - pair_count(i),
    decreases deck.len() - i,
{
    if i < deck.len() {
        lemma_pairs_from_len(deck, i + 1);
        lemma_pair_count_step(i);
    }
}

/// The index, among all pairs of `n` cards, of the pair of the cards at the
/// places `first` and `second`, where `second` is in front of `first`.
pub open spec fn pair_index(n: int, first: int, second: int) -> int {
    pair_count(n) - pair_count(first + 1) + second
}

/// Whether `pair` is made of two cards at different places of the deck, the
/// one that stands behind first, and `k` is the index of the pair of those
/// places.
pub open spec fn is_pair_at(deck: Seq<Card>, k: int, pair: (Card, Card)) -> bool {
    exists|first: int, second: int|
        0 <= second < first < deck.len() && #[trigger] pair_index(
            deck.len() as int,
            first,
            second,
        ) == k && pair == (deck[first], deck[second])
}

/// More cards make no fewer pairs.
pub proof fn lemma_pair_count_monotone(a: int, b: int)
    requires
        0 <= a <= b,
    ensures
        pair_count(a) <= pair_count(b),
    decreases b - a,
{
    if a < b {
        lemma_pair_count_monotone(a, b - 1);
        lemma_pair_count_step(b - 1);
    }
}

/// Where a pair stands among the pairs from index `i` on.
pub proof fn lemma_pairs_from_index(deck: Seq<Card>, i: int, first: int, second: int)
    requires
        0 <= i <= first < deck.len(),
        0 <= second < first,
    ensures
        0 <= pair_index(deck.len() as int, first, second) < pairs_from(deck, i).len(),
        pairs_from(deck, i)[pair_index(deck.len() as int, first, second)] == (
            deck[first],
            deck[second],
        ),
    decreases first - i,
{
    lemma_pairs_from_len(deck, i);
    lemma_pairs_from_len(deck, i + 1);
    lemma_pairs_from_len(deck, first + 1);
    lemma_pair_count_step(first);
    lemma_pair_count_step(i);
    lemma_pair_count_monotone(first + 1, deck.len() as int);
    if i < first {
        lemma_pairs_from_index(deck, i + 1, first, second);
        lemma_pair_count_monotone(i + 1, first);
    } else {
        assert(row(deck, first)[second] == (deck[first], deck[second]));
    }
}

/// Every pair among the pairs from index `i` on is made of two cards of the
/// deck, and stands at the index of their places.
pub proof fn lemma_pairs_from_origin(deck: Seq<Card>, i: int, k: int)
    requires
        0 <= i <= deck.len(),
        0 <= k < pairs_from(deck, i).len(),
    ensures
        is_pair_at(deck, k, pairs_from(deck, i)[k]),
    decreases deck.len() - i,
{
    if i < deck.len() {
        let behind = pairs_from(deck, i + 1);
        if k < behind.len() {
            lemma_pairs_from_origin(deck, i + 1, k);
            assert(pairs_from(deck, i)[k] == behind[k]);
        } else {
            let second = k - behind.len();
            lemma_pairs_from_len(deck, i + 1);
            assert(pairs_from(deck, i)[k] == row(deck, i)[second]);
            assert(pairs_from(deck, i)[k] == (deck[i], deck[second]));
            assert(pair_index(deck.len() as int, i, second) == k);
        }
    }
}

/// The pairs of `n` cards are `n * (n - 1) / 2`; each is made of two cards at
/// different places of the deck, the one behind first; and every two places
/// give one of the pairs.
pub proof fn lemma_all_pairs(deck: Seq<Card>)
    ensures
        all_pairs(deck).len() == pair_count(deck.len() as int),
        all_pairs(deck).len() == deck.len() * (deck.len() - 1) / 2,
        forall|k: int|
            0 <= k < all_pairs(deck).len() ==> is_pair_at(deck, k, #[trigger] all_pairs(deck)[k]),
        forall|first: int, second: int|
            0 <= second < first < deck.len() ==> {
                let k = #[trigger] pair_index(deck.len() as int, first, second);
                0 <= k < all_pairs(deck).len() && all_pairs(deck)[k] == (deck[first], deck[second])
            },
{
    lemma_pairs_from_len(deck, 0);
    assert(pair_count(0) == 0);
    assert forall|k: int| 0 <= k < all_pairs(deck).len() implies is_pair_at(
        deck,
        k,
        #[trigger] all_pairs(deck)[k],
    ) by {
        lemma_pairs_from_origin(deck, 0, k);
    }
    assert forall|first: int, second: int| 0 <= second < first < deck.len() implies {
        let k = #[trigger] pair_index(deck.len() as int, first, second);
        0 <= k < all_pairs(deck).len() && all_pairs(deck)[k] == (deck[first], deck[second])
    } by {
        lemma_pairs_from_index(deck, 0, first, second);
    }
}

/// Of a deck in which no card is twice, no pair is tried twice, in the same
/// order of its cards or in the other.
pub proof fn lemma_pairs_differ(deck: Seq<Card>, k: int, other: int)
    requires
        deck.no_duplicates(),
        0 <= k < all_pairs(deck).len(),
        0 <= other < all_pairs(deck).len(),
        k != other,
    ensures
        all_pairs(deck)[k] != all_pairs(deck)[other],
        all_pairs(deck)[k] != (all_pairs(deck)[other].1, all_pairs(deck)[other].0),
        all_pairs(deck)[k].0 != all_pairs(deck)[k].1,
{
    lemma_all_pairs(deck);
    let n = deck.len() as int;
    assert(is_pair_at(deck, k, all_pairs(deck)[k]));
    assert(is_pair_at(deck, other, all_pairs(deck)[other]));
    let (first, second) = choose|first: int, second: int|
        0 <= second < first < deck.len() && #[trigger] pair_index(n, first, second) == k
            && all_pairs(deck)[k] == (deck[first], deck[second]);
    let (other_first, other_second) = choose|first: int, second: int|
        0 <= second < first < deck.len() && #[trigger] pair_index(n, first, second) == other
            && all_pairs(deck)[other] == (deck[first], deck[second]);
    assert((first, second) != (other_first, other_second));
    assert(deck[first] != deck[second]);
    if first != other_first {
        assert(deck[first] != deck[other_first]);
    } else {
        assert(deck[second] != deck[other_second]);
    }
    if first == other_second {
        assert(second != other_first);
        assert(deck[second] != deck[other_first]);
    } else {
        assert(deck[first] != deck[other_second]);
    }
}

/// What the search found.
pub struct Equity {
    /// The pairs of hole cards with which the opponent beats the player.
    pub beaten_by: Vec<(Card, Card)>,
    /// The number of pairs that were tried.
    pub examined: usize,
}

impl Equity {
    /// The chance that the opponent holds a winning pair, as a fraction: the
    /// number of winning pairs over the number of pairs tried. Each pair of
    /// `n` unseen cards is dealt with the chance `2 / (n * (n - 1))`.
    pub fn odds(&self) -> (fraction: (usize, usize))
        ensures
            fraction.0 == self.beaten_by@.len(),
            fraction.1 == self.examined,
    {
        (self.beaten_by.len(), self.examined)
    }
}

/// Tries every pair of cards of the deck as the opponent's hole cards: joins
/// it to the community cards, evaluates that hand and keeps the pair where its
/// score is strictly above the score of the player's hand. A tie keeps
/// nothing. With fewer than two cards in the deck no pair is tried.
pub fn beaten_by(hand: &Hand, community: &Hand, deck: &Deck) -> (equity: Equity)
    ensures
        equity.beaten_by@ == winners(deck@, community@, hand.score() as int),
        equity.examined == all_pairs(deck@).len(),
        equity.examined == deck@.len() * (deck@.len() - 1) / 2,
        equity.beaten_by@.len() <= equity.examined,
{
    let cards: &Vec<Card> = deck.cards();
    let n: usize = cards.len();
    let target: u32 = hand.score();
    let ghost wins = outscores(community@, target as int);
    let mut found: Vec<(Card, Card)> = Vec::new();
    let mut examined: usize = 0;
    let mut i: usize = n;
    proof {
        assert(pairs_from(cards@, n as int) =~= Seq::<(Card, Card)>::empty());
        assert(Seq::<(Card, Card)>::empty().filter(wins) =~= Seq::<(Card, Card)>::empty()) by {
            reveal(Seq::filter);
        }
    }
    while i > 0
        invariant
            0 <= i <= n,
            n == cards@.len(),
            n <= 52,
            wins == outscores(community@, target as int),
            found@ == pairs_from(cards@, i as int).filter(wins),
            examined == pairs_from(cards@, i as int).len(),
            examined <= (n - i) * 52,
        decreases i,
    {
        i = i - 1;
        let hole1: Card = cards[i];
        let ghost behind = pairs_from(cards@, i + 1);
        let mut j: usize = 0;
        proof {
            assert(behind + row(cards@, i as int).take(0) =~= behind);
        }
        while j < i
            invariant
                0 <= j <= i < n,
                n == cards@.len(),
                n <= 52,
                hole1 == cards@[i as int],
                behind == pairs_from(cards@, i + 1),
                wins == outscores(community@, target as int),
                found@ == (behind + row(cards@, i as int).take(j as int)).filter(wins),
                examined == behind.len() + j,
                behind.len() <= (n - i - 1) * 52,
            decreases i - j,
        {
            let hole2: Card = cards[j];
            let mut opponent: Hand = community.clone();
            opponent.add(hole1);
            opponent.add(hole2);
            opponent.calc();
            proof {
                let seen = behind + row(cards@, i as int).take(j as int);
                let pair = (hole1, hole2);
                assert(row(cards@, i as int)[j as int] == pair);
                assert(seen.push(pair) =~= behind + row(cards@, i as int).take(j + 1));
                seen.lemma_filter_push(pair, wins);
                assert(wins(pair) == (hand_score(community@.push(hole1).push(hole2)) > target));
            }
            if opponent.score() > target {
                found.push((hole1, hole2));
            }
            examined = examined + 1;
            j = j + 1;
        }
        proof {
            assert(row(cards@, i as int).take(i as int) =~= row(cards@, i as int));
        }
    }
    proof {
        lemma_all_pairs(cards@);
        all_pairs(cards@).lemma_filter_len(wins);
    }
    Equity { beaten_by: found, examined }
}

} // verus!
