//! One round of play: the player's two hole cards and the community cards
//! that lie open, evaluated, and the search for what beats them.

use vstd::prelude::*;
use crate::card::{Card, ParseError};
use crate::deck::{full_deck, without_all, Deck};
use crate::equity::{beaten_by, pair_count, winners, Equity};
use crate::hand::{best_of, describe_spec, hand_score, strength_of, Hand};
use crate::order::sort_desc;

verus! {

/// Whether a round can be played with `n` cards: the two hole cards, and with
/// them no community card, or the three of the flop, or four, or five.
pub open spec fn valid_count(n: int) -> bool {
    n == 2 || n == 5 || n == 6 || n == 7
}

/// Why a line of tokens is no round.
#[derive(Debug, Clone, Copy, PartialEq, Eq, Structural)]
pub enum InputError {
    /// The line holds this number of tokens, with which no round is played.
    Count(usize),
    /// The token at this index is no card, for this reason.
    Token(usize, ParseError),
}

/// What a round comes to.
pub struct Report {
    /// The player's hand of hole cards and community cards, evaluated.
    pub hand: Hand,
    /// The description of the player's hand.
    pub description: String,
    /// The number of cards that the player does not see.
    pub unseen: usize,
    /// The hole cards with which an opponent beats the player.
    pub equity: Equity,
}

/// The cards that tokens read as, where each of them is a card.
pub open spec fn parsed(tokens: Seq<String>) -> Seq<Card> {
    Seq::new(tokens.len(), |i: int| Card::parse_spec(tokens[i]@)->Ok_0)
}

/// The community cards among the cards of a round: all but the first two.
pub open spec fn community_of(cards: Seq<Card>) -> Seq<Card> {
    if cards.len() <= 2 {
        Seq::empty()
    } else {
        cards.subrange(2, cards.len() as int)
    }
}

/// Whether a round can be played with `n` cards.
pub fn is_valid_count(n: usize) -> (valid: bool)
    ensures
        valid == valid_count(n as int),
{
    n == 2 || n == 5 || n == 6 || n == 7
}

/// Reads each token as a card. The first token that is no card ends the
/// reading, and nothing is returned of the cards read before it.
pub fn parse_cards(tokens: &Vec<String>) -> (r: Result<Vec<Card>, (usize, ParseError)>)
    ensures
        r is Ok <==> forall|i: int|
            0 <= i < tokens@.len() ==> Card::parse_spec(#[trigger] tokens@[i]@) is Ok,
        r matches Ok(cards) ==> cards@ == parsed(tokens@),
        r matches Err((at, error)) ==> {
            &&& at < tokens@.len()
            &&& Card::parse_spec(tokens@[at as int]@) == Err::<Card, ParseError>(error)
            &&& forall|i: int| 0 <= i < at ==> Card::parse_spec(#[trigger] tokens@[i]@) is Ok
        },
{
    let mut cards: Vec<Card> = Vec::new();
    let mut i: usize = 0;
    while i < tokens.len()
        invariant
            0 <= i <= tokens@.len(),
            cards@.len() == i,
            forall|k: int| 0 <= k < i ==> Card::parse_spec(#[trigger] tokens@[k]@) is Ok,
            forall|k: int|
                0 <= k < i ==> #[trigger] cards@[k] == Card::parse_spec(tokens@[k]@)->Ok_0,
        decreases tokens@.len() - i,
    {
        match Card::parse(tokens[i].as_str()) {
            Ok(card) => {
                cards.push(card);
            },
            Err(error) => {
                return Err((i, error));
            },
        }
        i = i + 1;
    }
    proof {
        assert(cards@ =~= parsed(tokens@));
    }
    Ok(cards)
}

/// Plays a round with the given cards, the first two of which are the
/// player's hole cards and the others the community cards: evaluates the
/// player's hand of all the cards, takes the cards out of a fresh deck, and
/// tries every pair of the cards left in it as an opponent's hole cards
/// beside the community cards. Any number of cards is played; `process`
/// refuses the numbers with which no round is played.
pub fn analyse(cards: &Vec<Card>) -> (report: Report)
    ensures
        report.hand@ == sort_desc(cards@),
        report.hand.strength() == strength_of(cards@),
        report.hand.best()@ == best_of(cards@),
        report.hand.score() == hand_score(cards@),
        report.description@ == describe_spec(strength_of(cards@), best_of(cards@)),
        report.unseen == without_all(full_deck(), cards@).len(),
        report.equity.beaten_by@ == winners(
            without_all(full_deck(), cards@),
            community_of(cards@),
            hand_score(cards@),
        ),
        report.equity.examined == pair_count(report.unseen as int),
{
    let mut hand: Hand = Hand::new();
    let mut community: Hand = Hand::new();
    let mut deck: Deck = Deck::new();
    let mut i: usize = 0;
    while i < cards.len()
        invariant
            0 <= i <= cards@.len(),
            hand@ == cards@.take(i as int),
            community@ == community_of(cards@.take(i as int)),
            deck@ == without_all(full_deck(), cards@.take(i as int)),
        decreases cards@.len() - i,
    {
        proof {
            assert(cards@.take(i + 1).drop_last() =~= cards@.take(i as int));
            assert(cards@.take(i as int).push(cards@[i as int]) =~= cards@.take(i + 1));
            if i >= 2 {
                assert(community_of(cards@.take(i as int)).push(cards@[i as int])
                    =~= community_of(cards@.take(i + 1)));
            }
        }
        hand.add(cards[i]);
        if i >= 2 {
            community.add(cards[i]);
        }
        deck.remove(&cards[i]);
        i = i + 1;
    }
    proof {
        assert(cards@.take(i as int) =~= cards@);
        crate::equity::lemma_all_pairs(deck@);
    }
    hand.calc();
    let description: String = hand.describe();
    let unseen: usize = deck.cards().len();
    let equity: Equity = beaten_by(&hand, &community, &deck);
    Report { hand, description, unseen, equity }
}

/// Plays a round with the cards that a line of tokens names. A line of a
/// number of tokens with which no round is played is refused before any
/// token is read; a line with a token that is no card is refused as a whole.
pub fn process(tokens: &Vec<String>) -> (r: Result<Report, InputError>)
    ensures
        r is Ok <==> valid_count(tokens@.len() as int) && forall|i: int|
            0 <= i < tokens@.len() ==> Card::parse_spec(#[trigger] tokens@[i]@) is Ok,
        r matches Err(InputError::Count(n)) ==> n == tokens@.len() && !valid_count(n as int),
        r matches Err(InputError::Token(at, error)) ==> {
            &&& valid_count(tokens@.len() as int)
            &&& at < tokens@.len()
            &&& Card::parse_spec(tokens@[at as int]@) == Err::<Card, ParseError>(error)
            &&& forall|i: int| 0 <= i < at ==> Card::parse_spec(#[trigger] tokens@[i]@) is Ok
        },
        r matches Ok(report) ==> {
            let cards = parsed(tokens@);
            &&& report.hand@ == sort_desc(cards)
            &&& report.hand.strength() == strength_of(cards)
            &&& report.hand.best()@ == best_of(cards)
            &&& report.hand.score() == hand_score(cards)
            &&& report.description@ == describe_spec(strength_of(cards), best_of(cards))
            &&& report.unseen == without_all(full_deck(), cards).len()
            &&& report.equity.beaten_by@ == winners(
                without_all(full_deck(), cards),
                community_of(cards),
                hand_score(cards),
            )
            &&& report.equity.examined == pair_count(report.unseen as int)
        },
{
    let count: usize = tokens.len();
    if !is_valid_count(count) {
        return Err(InputError::Count(count));
    }
    match parse_cards(tokens) {
        Ok(cards) => Ok(analyse(&cards)),
        Err((at, error)) => Err(InputError::Token(at, error)),
    }
}

} // verus!
