//! The deck: the 52 cards, less those that are known to be in play.

use vstd::prelude::*;
use crate::card::{Card, Suit, Value};

verus! {

/// The place of a card in a fresh deck: suit by suit, and within a suit from
/// the two up to the ace.
pub open spec fn position(card: Card) -> int {
    card.suit.index() * 13 + card.value.rank() - 2
}

/// The card at place `i` of a fresh deck.
pub open spec fn card_at(i: int) -> Card {
    Card { value: Value::of_rank(2 + i % 13), suit: Suit::of_index(i / 13) }
}

/// The 52 cards in the order of a fresh deck.
pub open spec fn full_deck() -> Seq<Card> {
    Seq::new(52, |i: int| card_at(i))
}

/// The cards stand in the order of a fresh deck. No card then occurs twice.
pub open spec fn in_deck_order(cards: Seq<Card>) -> bool {
    forall|i: int, j: int|
        0 <= i < j < cards.len() ==> position(#[trigger] cards[i]) < position(#[trigger] cards[j])
}

/// The cards without the first card that equals `card`; the cards as they are
/// where none does.
pub open spec fn without(cards: Seq<Card>, card: Card) -> Seq<Card>
    decreases cards.len(),
{
    if cards.len() == 0 {
        cards
    } else if cards[0] == card {
        cards.drop_first()
    } else {
        seq![cards[0]] + without(cards.drop_first(), card)
    }
}

/// The cards without each of the cards `known`, taken out one after the other.
pub open spec fn without_all(cards: Seq<Card>, known: Seq<Card>) -> Seq<Card>
    decreases known.len(),
{
    if known.len() == 0 {
        cards
    } else {
        without(without_all(cards, known.drop_last()), known.last())
    }
}

/// Every card has its place in a fresh deck, and the card at a place is the
/// card whose place it is.
pub proof fn lemma_position(card: Card)
    ensures
        0 <= position(card) < 52,
        card_at(position(card)) == card,
{
}

/// A fresh deck has 52 cards in deck order, and it holds every card.
pub proof fn lemma_full_deck()
    ensures
        full_deck().len() == 52,
        in_deck_order(full_deck()),
        full_deck().no_duplicates(),
        forall|card: Card| #[trigger] full_deck().contains(card),
{
    assert forall|i: int| 0 <= i < 52 implies position(#[trigger] card_at(i)) == i by {
        lemma_card_at(i);
    }
    assert forall|card: Card| #[trigger] full_deck().contains(card) by {
        lemma_position(card);
        assert(full_deck()[position(card)] == card);
    }
    assert forall|i: int, j: int| 0 <= i < j < 52 implies full_deck()[i] != full_deck()[j] by {
        assert(position(card_at(i)) == i);
        assert(position(card_at(j)) == j);
    }
}

/// The card at a place of a fresh deck has that place.
pub proof fn lemma_card_at(i: int)
    requires
        0 <= i < 52,
    ensures
        position(card_at(i)) == i,
{
    let suit = i / 13;
    let rank = 2 + i % 13;
    assert(0 <= suit <= 3);
    assert(2 <= rank <= 14);
    assert(Suit::of_index(suit).index() == suit);
    assert(Value::of_rank(rank).rank() == rank);
}

/// Cards in deck order are at most 52, and no card occurs twice among them.
pub proof fn lemma_in_deck_order(cards: Seq<Card>)
    requires
        in_deck_order(cards),
    ensures
        cards.len() <= 52,
        cards.no_duplicates(),
{
    assert forall|i: int| 0 <= i < cards.len() implies position(#[trigger] cards[i]) >= i by {
        lemma_position_at_least(cards, i);
    }
    if cards.len() > 52 {
        lemma_position(cards[52]);
    }
}

/// In deck order a card's place is at least its index.
proof fn lemma_position_at_least(cards: Seq<Card>, i: int)
    requires
        in_deck_order(cards),
        0 <= i < cards.len(),
    ensures
        position(cards[i]) >= i,
    decreases i,
{
    if i > 0 {
        lemma_position_at_least(cards, i - 1);
    } else {
        lemma_position(cards[0]);
    }
}

/// Taking out a card that does not occur changes nothing.
pub proof fn lemma_without_absent(cards: Seq<Card>, card: Card)
    requires
        !cards.contains(card),
    ensures
        without(cards, card) == cards,
    decreases cards.len(),
{
    if cards.len() > 0 {
        assert(cards[0] != card);
        let rest = cards.drop_first();
        assert forall|i: int| 0 <= i < rest.len() implies rest[i] != card by {
            assert(rest[i] == cards[i + 1]);
        }
        lemma_without_absent(rest, card);
        assert(seq![cards[0]] + rest =~= cards);
    }
}

/// Taking out a card removes the first position that holds it.
pub proof fn lemma_without_at(cards: Seq<Card>, card: Card, i: int)
    requires
        0 <= i < cards.len(),
        cards[i] == card,
        forall|j: int| 0 <= j < i ==> cards[j] != card,
    ensures
        without(cards, card) == cards.remove(i),
    decreases cards.len(),
{
    if i == 0 {
        assert(cards.drop_first() =~= cards.remove(0));
    } else {
        let rest = cards.drop_first();
        assert(cards[0] != card);
        assert(rest[i - 1] == card);
        assert forall|j: int| 0 <= j < i - 1 implies rest[j] != card by {
            assert(rest[j] == cards[j + 1]);
        }
        lemma_without_at(rest, card, i - 1);
        assert(seq![cards[0]] + rest.remove(i - 1) =~= cards.remove(i));
    }
}

/// What is left when a card is taken out of cards in deck order: the card is
/// gone, every other card stays, the order stays, and the number of cards
/// falls by one exactly where the card was among them.
pub proof fn lemma_without(cards: Seq<Card>, card: Card)
    requires
        in_deck_order(cards),
    ensures
        in_deck_order(without(cards, card)),
        !without(cards, card).contains(card),
        forall|other: Card|
            other != card ==> (#[trigger] without(cards, card).contains(other) <==> cards.contains(
                other,
            )),
        cards.contains(card) ==> without(cards, card).len() == cards.len() - 1,
        !cards.contains(card) ==> without(cards, card) == cards,
{
    if cards.contains(card) {
        let i = choose|i: int| 0 <= i < cards.len() && cards[i] == card;
        assert forall|j: int| 0 <= j < cards.len() && j != i implies cards[j] != card by {
            if j < i {
                assert(position(cards[j]) < position(cards[i]));
            } else {
                assert(position(cards[i]) < position(cards[j]));
            }
        }
        lemma_without_at(cards, card, i);
        let rest = cards.remove(i);
        assert forall|a: int, b: int| 0 <= a < b < rest.len() implies position(
            #[trigger] rest[a],
        ) < position(#[trigger] rest[b]) by {
            let a0 = if a < i {
                a
            } else {
                a + 1
            };
            let b0 = if b < i {
                b
            } else {
                b + 1
            };
            assert(rest[a] == cards[a0] && rest[b] == cards[b0]);
        }
        assert forall|k: int| 0 <= k < rest.len() implies rest[k] != card by {
            let k0 = if k < i {
                k
            } else {
                k + 1
            };
            assert(rest[k] == cards[k0]);
        }
        assert forall|other: Card| other != card implies (#[trigger] rest.contains(other)
            <==> cards.contains(other)) by {
            if rest.contains(other) {
                let k = choose|k: int| 0 <= k < rest.len() && rest[k] == other;
                let k0 = if k < i {
                    k
                } else {
                    k + 1
                };
                assert(cards[k0] == other);
            }
            if cards.contains(other) {
                let k = choose|k: int| 0 <= k < cards.len() && cards[k] == other;
                let k1 = if k < i {
                    k
                } else {
                    k - 1
                };
                assert(rest[k1] == other);
            }
        }
    } else {
        lemma_without_absent(cards, card);
    }
}

/// Taking known cards out of cards in deck order leaves deck order, leaves
/// none of the known cards, and keeps each of the other cards.
pub proof fn lemma_without_all(cards: Seq<Card>, known: Seq<Card>)
    requires
        in_deck_order(cards),
    ensures
        in_deck_order(without_all(cards, known)),
        forall|card: Card| #[trigger]
            without_all(cards, known).contains(card) <==> cards.contains(card) && !known.contains(
                card,
            ),
    decreases known.len(),
{
    if known.len() > 0 {
        let init = known.drop_last();
        let last = known.last();
        lemma_without_all(cards, init);
        let mid = without_all(cards, init);
        lemma_without(mid, last);
        assert forall|card: Card| #[trigger]
            without_all(cards, known).contains(card) <==> cards.contains(card) && !known.contains(
                card,
            ) by {
            if known.contains(card) && card != last {
                let k = choose|k: int| 0 <= k < known.len() && known[k] == card;
                assert(init[k] == card);
            }
            if init.contains(card) {
                let k = choose|k: int| 0 <= k < init.len() && init[k] == card;
                assert(known[k] == card);
            }
            assert(known[known.len() - 1] == last);
        }
    }
}

/// Taking out known cards of which none occurs twice, and which all are among
/// the cards, leaves as many cards fewer as were known.
pub proof fn lemma_without_all_len(cards: Seq<Card>, known: Seq<Card>)
    requires
        in_deck_order(cards),
        known.no_duplicates(),
        forall|k: int| 0 <= k < known.len() ==> cards.contains(#[trigger] known[k]),
    ensures
        without_all(cards, known).len() == cards.len() - known.len(),
    decreases known.len(),
{
    if known.len() > 0 {
        let init = known.drop_last();
        let last = known.last();
        assert forall|k: int| 0 <= k < init.len() implies cards.contains(#[trigger] init[k]) by {
            assert(init[k] == known[k]);
        }
        lemma_without_all_len(cards, init);
        lemma_without_all(cards, init);
        let mid = without_all(cards, init);
        assert(cards.contains(known[known.len() - 1]));
        assert(!init.contains(last)) by {
            if init.contains(last) {
                let k = choose|k: int| 0 <= k < init.len() && init[k] == last;
                assert(known[k] == known[known.len() - 1]);
            }
        }
        assert(mid.contains(last));
        lemma_without(mid, last);
    }
}

/// A fresh deck less known cards of which none occurs twice holds 52 cards
/// less the number of the known ones.
pub proof fn lemma_residual_len(known: Seq<Card>)
    requires
        known.no_duplicates(),
    ensures
        without_all(full_deck(), known).len() == 52 - known.len(),
{
    lemma_full_deck();
    lemma_without_all_len(full_deck(), known);
}

/// A deck of cards: at first all 52, then fewer as cards are taken out. No
/// card is in it twice.
pub struct Deck {
    cards: Vec<Card>,
}

impl View for Deck {
    type V = Seq<Card>;

    /// The cards that are in the deck, in the order of a fresh deck.
    closed spec fn view(&self) -> Seq<Card> {
        self.cards@
    }
}

impl Deck {
    #[verifier::type_invariant]
    spec fn ordered(self) -> bool {
        in_deck_order(self.cards@)
    }

    /// A fresh deck of all 52 cards: hearts, diamonds, clubs, spades, each
    /// suit from the two up to the ace.
    pub fn new() -> (deck: Deck)
        ensures
            deck@ == full_deck(),
    {
        let mut cards: Vec<Card> = Vec::new();
        let mut suit_loop: u32 = 0;
        while suit_loop < 4
            invariant
                0 <= suit_loop <= 4,
                cards@ == Seq::new((suit_loop * 13) as nat, |i: int| card_at(i)),
            decreases 4 - suit_loop,
        {
            let suit: Suit = Suit::from_index(suit_loop).unwrap();
            let mut value_loop: u32 = 2;
            while value_loop < 15
                invariant
                    0 <= suit_loop < 4,
                    2 <= value_loop <= 15,
                    suit == Suit::of_index(suit_loop as int),
                    cards@ == Seq::new(
                        (suit_loop * 13 + value_loop - 2) as nat,
                        |i: int| card_at(i),
                    ),
                decreases 15 - value_loop,
            {
                let value: Value = Value::from_u32(value_loop).unwrap();
                proof {
                    let i = suit_loop * 13 + value_loop - 2;
                    assert(i / 13 == suit_loop && i % 13 == value_loop - 2);
                    assert(cards@.push(Card { value, suit }) =~= Seq::new(
                        (i + 1) as nat,
                        |i: int| card_at(i),
                    ));
                }
                cards.push(Card { value, suit });
                value_loop = value_loop + 1;
            }
            suit_loop = suit_loop + 1;
        }
        proof {
            lemma_full_deck();
            assert(cards@ =~= full_deck());
        }
        Deck { cards }
    }

    /// Takes a card out of the deck. A card that is not in the deck leaves
    /// the deck as it is.
    pub fn remove(&mut self, victim: &Card)
        ensures
            final(self)@ == without(old(self)@, *victim),
            !final(self)@.contains(*victim),
            old(self)@.contains(*victim) ==> final(self)@.len() == old(self)@.len() - 1,
            !old(self)@.contains(*victim) ==> final(self)@ == old(self)@,
    {
        proof {
            use_type_invariant(&*self);
            lemma_without(self.cards@, *victim);
        }
        let mut i: usize = 0;
        let mut found: bool = false;
        while i < self.cards.len()
            invariant_except_break
                !found,
            invariant
                0 <= i <= self.cards.len(),
                forall|j: int| 0 <= j < i ==> self.cards@[j] != *victim,
            ensures
                0 <= i <= self.cards.len(),
                forall|j: int| 0 <= j < i ==> self.cards@[j] != *victim,
                found ==> i < self.cards.len() && self.cards@[i as int] == *victim,
                !found ==> i == self.cards.len(),
            decreases self.cards.len() - i,
        {
            if self.cards[i].suit == victim.suit && self.cards[i].value == victim.value {
                found = true;
                break;
            }
            i = i + 1;
        }
        if found {
            proof {
                lemma_without_at(self.cards@, *victim, i as int);
            }
            let mut cards: Vec<Card> = Vec::new();
            std::mem::swap(&mut cards, &mut self.cards);
            cards.remove(i);
            self.cards = cards;
        } else {
            proof {
                lemma_without_absent(self.cards@, *victim);
            }
        }
    }

    /// The cards that are in the deck: each at most once, at most 52, in the
    /// order of a fresh deck.
    pub fn cards(&self) -> (cards: &Vec<Card>)
        ensures
            cards@ == self@,
            in_deck_order(cards@),
            cards@.no_duplicates(),
            cards@.len() <= 52,
    {
        proof {
            use_type_invariant(&*self);
            lemma_in_deck_order(self.cards@);
        }
        &self.cards
    }
}

} // verus!
