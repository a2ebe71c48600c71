//! Playing cards: rank, suit, and the two-character token they are written as.

use vstd::prelude::*;
use vstd::string::*;
use crate::order::Keyed;

verus! {

/// The rank of a card, from two (lowest) to ace (highest).
#[derive(Debug, Clone, Copy, PartialEq, Eq, Hash, Structural)]
pub enum Value {
    Two,
    Three,
    Four,
    Five,
    Six,
    Seven,
    Eight,
    Nine,
    Ten,
    Jack,
    Queen,
    King,
    Ace,
}

impl Value {
    /// The number a rank is compared by: 2 for a two up to 14 for an ace.
    pub open spec fn rank(self) -> int {
        match self {
            Value::Two => 2,
            Value::Three => 3,
            Value::Four => 4,
            Value::Five => 5,
            Value::Six => 6,
            Value::Seven => 7,
            Value::Eight => 8,
            Value::Nine => 9,
            Value::Ten => 10,
            Value::Jack => 11,
            Value::Queen => 12,
            Value::King => 13,
            Value::Ace => 14,
        }
    }

    /// The rank with the given number; numbers outside 2..=14 stand for no rank
    /// and are mapped to the two.
    pub open spec fn of_rank(r: int) -> Value {
        if r == 14 {
            Value::Ace
        } else if r == 13 {
            Value::King
        } else if r == 12 {
            Value::Queen
        } else if r == 11 {
            Value::Jack
        } else if r == 10 {
            Value::Ten
        } else if r == 9 {
            Value::Nine
        } else if r == 8 {
            Value::Eight
        } else if r == 7 {
            Value::Seven
        } else if r == 6 {
            Value::Six
        } else if r == 5 {
            Value::Five
        } else if r == 4 {
            Value::Four
        } else if r == 3 {
            Value::Three
        } else {
            Value::Two
        }
    }

    /// The character a rank is written with in a token.
    pub open spec fn symbol(self) -> char {
        match self {
            Value::Two => '2',
            Value::Three => '3',
            Value::Four => '4',
            Value::Five => '5',
            Value::Six => '6',
            Value::Seven => '7',
            Value::Eight => '8',
            Value::Nine => '9',
            Value::Ten => 'T',
            Value::Jack => 'J',
            Value::Queen => 'Q',
            Value::King => 'K',
            Value::Ace => 'A',
        }
    }

    /// The rank a character stands for, in either case; `None` for any other
    /// character.
    pub open spec fn of_symbol(c: char) -> Option<Value> {
        if c == '2' {
            Some(Value::Two)
        } else if c == '3' {
            Some(Value::Three)
        } else if c == '4' {
            Some(Value::Four)
        } else if c == '5' {
            Some(Value::Five)
        } else if c == '6' {
            Some(Value::Six)
        } else if c == '7' {
            Some(Value::Seven)
        } else if c == '8' {
            Some(Value::Eight)
        } else if c == '9' {
            Some(Value::Nine)
        } else if c == 'T' || c == 't' {
            Some(Value::Ten)
        } else if c == 'J' || c == 'j' {
            Some(Value::Jack)
        } else if c == 'Q' || c == 'q' {
            Some(Value::Queen)
        } else if c == 'K' || c == 'k' {
            Some(Value::King)
        } else if c == 'A' || c == 'a' {
            Some(Value::Ace)
        } else {
            None
        }
    }

    /// The English word for a rank, in lower case.
    pub open spec fn name(self) -> Seq<char> {
        match self {
            Value::Two => "two"@,
            Value::Three => "three"@,
            Value::Four => "four"@,
            Value::Five => "five"@,
            Value::Six => "six"@,
            Value::Seven => "seven"@,
            Value::Eight => "eight"@,
            Value::Nine => "nine"@,
            Value::Ten => "ten"@,
            Value::Jack => "jack"@,
            Value::Queen => "queen"@,
            Value::King => "king"@,
            Value::Ace => "ace"@,
        }
    }

    /// The word form of the rank.
    pub fn to_str(self) -> (s: &'static str)
        ensures
            s@ == self.name(),
    {
        match self {
            Value::Two => "two",
            Value::Three => "three",
            Value::Four => "four",
            Value::Five => "five",
            Value::Six => "six",
            Value::Seven => "seven",
            Value::Eight => "eight",
            Value::Nine => "nine",
            Value::Ten => "ten",
            Value::Jack => "jack",
            Value::Queen => "queen",
            Value::King => "king",
            Value::Ace => "ace",
        }
    }

    /// The token character of the rank.
    pub fn to_char(self) -> (c: char)
        ensures
            c == self.symbol(),
    {
        match self {
            Value::Two => '2',
            Value::Three => '3',
            Value::Four => '4',
            Value::Five => '5',
            Value::Six => '6',
            Value::Seven => '7',
            Value::Eight => '8',
            Value::Nine => '9',
            Value::Ten => 'T',
            Value::Jack => 'J',
            Value::Queen => 'Q',
            Value::King => 'K',
            Value::Ace => 'A',
        }
    }

    /// The number of the rank, between 2 (two) and 14 (ace).
    pub fn to_u32(self) -> (n: u32)
        ensures
            n == self.rank(),
            2 <= n <= 14,
    {
        match self {
            Value::Two => 2,
            Value::Three => 3,
            Value::Four => 4,
            Value::Five => 5,
            Value::Six => 6,
            Value::Seven => 7,
            Value::Eight => 8,
            Value::Nine => 9,
            Value::Ten => 10,
            Value::Jack => 11,
            Value::Queen => 12,
            Value::King => 13,
            Value::Ace => 14,
        }
    }

    /// The rank with the number `n`, if `n` is the number of a rank.
    pub fn from_u32(n: u32) -> (v: Option<Value>)
        ensures
            v is Some <==> 2 <= n <= 14,
            v is Some ==> v->0 == Value::of_rank(n as int) && v->0.rank() == n,
    {
        match n {
            2 => Some(Value::Two),
            3 => Some(Value::Three),
            4 => Some(Value::Four),
            5 => Some(Value::Five),
            6 => Some(Value::Six),
            7 => Some(Value::Seven),
            8 => Some(Value::Eight),
            9 => Some(Value::Nine),
            10 => Some(Value::Ten),
            11 => Some(Value::Jack),
            12 => Some(Value::Queen),
            13 => Some(Value::King),
            14 => Some(Value::Ace),
            _ => None,
        }
    }

    /// The rank that the character `c` is a token character of, in either case.
    pub fn from_char(c: char) -> (v: Option<Value>)
        ensures
            v == Value::of_symbol(c),
    {
        match c {
            '2' => Some(Value::Two),
            '3' => Some(Value::Three),
            '4' => Some(Value::Four),
            '5' => Some(Value::Five),
            '6' => Some(Value::Six),
            '7' => Some(Value::Seven),
            '8' => Some(Value::Eight),
            '9' => Some(Value::Nine),
            'T' | 't' => Some(Value::Ten),
            'J' | 'j' => Some(Value::Jack),
            'Q' | 'q' => Some(Value::Queen),
            'K' | 'k' => Some(Value::King),
            'A' | 'a' => Some(Value::Ace),
            _ => None,
        }
    }
}

/// The suit of a card. No suit ranks above another.
#[derive(Debug, Clone, Copy, PartialEq, Eq, Hash, Structural)]
pub enum Suit {
    Heart,
    Diamond,
    Club,
    Spade,
}

impl Suit {
    /// The glyph a suit is displayed with.
    pub open spec fn glyph(self) -> char {
        match self {
            Suit::Heart => '\u{2665}',
            Suit::Diamond => '\u{2666}',
            Suit::Club => '\u{2663}',
            Suit::Spade => '\u{2660}',
        }
    }

    /// The letter a suit is written with in a token.
    pub open spec fn letter(self) -> char {
        match self {
            Suit::Heart => 'H',
            Suit::Diamond => 'D',
            Suit::Club => 'C',
            Suit::Spade => 'S',
        }
    }

    /// The suit a letter stands for, in either case; `None` for any other
    /// character.
    pub open spec fn of_letter(c: char) -> Option<Suit> {
        if c == 'H' || c == 'h' {
            Some(Suit::Heart)
        } else if c == 'D' || c == 'd' {
            Some(Suit::Diamond)
        } else if c == 'C' || c == 'c' {
            Some(Suit::Club)
        } else if c == 'S' || c == 's' {
            Some(Suit::Spade)
        } else {
            None
        }
    }

    /// The position of a suit in the order in which a fresh deck is laid out.
    pub open spec fn index(self) -> int {
        match self {
            Suit::Heart => 0,
            Suit::Diamond => 1,
            Suit::Club => 2,
            Suit::Spade => 3,
        }
    }

    /// The suit at position `i`; positions outside 0..=3 are mapped to hearts.
    pub open spec fn of_index(i: int) -> Suit {
        if i == 3 {
            Suit::Spade
        } else if i == 2 {
            Suit::Club
        } else if i == 1 {
            Suit::Diamond
        } else {
            Suit::Heart
        }
    }

    /// The display glyph of the suit.
    pub fn to_char(self) -> (c: char)
        ensures
            c == self.glyph(),
    {
        match self {
            Suit::Heart => '\u{2665}',
            Suit::Diamond => '\u{2666}',
            Suit::Club => '\u{2663}',
            Suit::Spade => '\u{2660}',
        }
    }

    /// The token letter of the suit, in upper case.
    pub fn to_letter(self) -> (c: char)
        ensures
            c == self.letter(),
    {
        match self {
            Suit::Heart => 'H',
            Suit::Diamond => 'D',
            Suit::Club => 'C',
            Suit::Spade => 'S',
        }
    }

    /// The suit that the character `c` is a token letter of, in either case.
    pub fn from_char(c: char) -> (s: Option<Suit>)
        ensures
            s == Suit::of_letter(c),
    {
        match c {
            'H' | 'h' => Some(Suit::Heart),
            'D' | 'd' => Some(Suit::Diamond),
            'C' | 'c' => Some(Suit::Club),
            'S' | 's' => Some(Suit::Spade),
            _ => None,
        }
    }

    /// The suit at position `i` of the deck's layout.
    pub fn from_index(i: u32) -> (s: Option<Suit>)
        ensures
            s is Some <==> i <= 3,
            s is Some ==> s->0 == Suit::of_index(i as int) && s->0.index() == i,
    {
        match i {
            0 => Some(Suit::Heart),
            1 => Some(Suit::Diamond),
            2 => Some(Suit::Club),
            3 => Some(Suit::Spade),
            _ => None,
        }
    }
}

/// Why a token is not a card.
#[derive(Debug, Clone, Copy, PartialEq, Eq, Hash, Structural)]
pub enum ParseError {
    /// The first character is not a rank character.
    InvalidRank,
    /// The second character is not a suit letter.
    InvalidSuit,
    /// The token is empty, or ends after its rank character.
    InvalidLength,
}

/// One playing card.
#[derive(Debug, Clone, Copy, PartialEq, Eq, Hash, Structural)]
pub struct Card {
    pub value: Value,
    pub suit: Suit,
}

impl Card {
    /// What a token reads as: a card where the token is exactly a rank
    /// character and a suit letter. The rank character is looked at first,
    /// then the suit letter, then the length: a token of one character that
    /// is no rank character is an `InvalidRank`, and a token with anything
    /// behind a rank character and a suit letter is an `InvalidLength`.
    pub open spec fn parse_spec(token: Seq<char>) -> Result<Card, ParseError> {
        if token.len() == 0 {
            Err(ParseError::InvalidLength)
        } else {
            match Value::of_symbol(token[0]) {
                None => Err(ParseError::InvalidRank),
                Some(value) => if token.len() < 2 {
                    Err(ParseError::InvalidLength)
                } else {
                    match Suit::of_letter(token[1]) {
                        None => Err(ParseError::InvalidSuit),
                        Some(suit) => if token.len() > 2 {
                            Err(ParseError::InvalidLength)
                        } else {
                            Ok(Card { value, suit })
                        },
                    }
                },
            }
        }
    }

    /// The token of a card: its rank character, then its suit letter.
    pub open spec fn token_spec(self) -> Seq<char> {
        seq![self.value.symbol(), self.suit.letter()]
    }

    /// The display form of a card: its rank character, then its suit glyph.
    pub open spec fn display_spec(self) -> Seq<char> {
        seq![self.value.symbol(), self.suit.glyph()]
    }

    /// Reads a card from a token of exactly two characters: a rank character
    /// (`2`-`9`, `T`, `J`, `Q`, `K`, `A`) and a suit letter (`H`, `D`, `C`,
    /// `S`), in either case.
    pub fn parse(token: &str) -> (r: Result<Card, ParseError>)
        ensures
            r == Card::parse_spec(token@),
            r is Ok <==> token@.len() == 2 && Value::of_symbol(token@[0]) is Some
                && Suit::of_letter(token@[1]) is Some,
            r == Err::<Card, ParseError>(ParseError::InvalidRank) <==> token@.len() >= 1
                && Value::of_symbol(token@[0]) is None,
            r == Err::<Card, ParseError>(ParseError::InvalidSuit) <==> token@.len() >= 2
                && Value::of_symbol(token@[0]) is Some && Suit::of_letter(token@[1]) is None,
            r == Err::<Card, ParseError>(ParseError::InvalidLength) <==> token@.len() == 0 || (
            token@.len() == 1 && Value::of_symbol(token@[0]) is Some) || (token@.len() > 2
                && Value::of_symbol(token@[0]) is Some && Suit::of_letter(token@[1]) is Some),
            r is Ok ==> r->Ok_0.value == Value::of_symbol(token@[0])->0 && r->Ok_0.suit
                == Suit::of_letter(token@[1])->0,
    {
        let n: usize = token.unicode_len();
        if n == 0 {
            return Err(ParseError::InvalidLength);
        }
        let value: Value = match Value::from_char(token.get_char(0)) {
            Some(v) => v,
            None => {
                return Err(ParseError::InvalidRank);
            },
        };
        if n < 2 {
            return Err(ParseError::InvalidLength);
        }
        let suit: Suit = match Suit::from_char(token.get_char(1)) {
            Some(s) => s,
            None => {
                return Err(ParseError::InvalidSuit);
            },
        };
        if n > 2 {
            return Err(ParseError::InvalidLength);
        }
        Ok(Card { value, suit })
    }

    /// Reads a card from a token as `parse` does, without saying why a token
    /// was refused.
    pub fn new(desc: &str) -> (r: Option<Card>)
        ensures
            r is Some <==> Card::parse_spec(desc@) is Ok,
            r is Some <==> desc@.len() == 2 && Value::of_symbol(desc@[0]) is Some
                && Suit::of_letter(desc@[1]) is Some,
            r is Some ==> Card::parse_spec(desc@) == Ok::<Card, ParseError>(r->0),
    {
        match Card::parse(desc) {
            Ok(card) => Some(card),
            Err(_) => None,
        }
    }

    /// The card as it is displayed: rank character and suit glyph.
    pub fn describe(&self) -> (s: String)
        ensures
            s@ == self.display_spec(),
    {
        let mut desc: String = String::from_str(rank_text(self.value));
        desc.append(glyph_text(self.suit));
        assert(desc@ =~= self.display_spec());
        desc
    }

    /// The card as a token that `parse` reads back: rank character and suit
    /// letter.
    pub fn token(&self) -> (s: String)
        ensures
            s@ == self.token_spec(),
    {
        let mut text: String = String::from_str(rank_text(self.value));
        text.append(letter_text(self.suit));
        assert(text@ =~= self.token_spec());
        text
    }

    /// The suit of the card.
    pub fn suit(&self) -> (s: Suit)
        ensures
            s == self.suit,
    {
        self.suit
    }

    /// The rank of the card.
    pub fn value(&self) -> (v: Value)
        ensures
            v == self.value,
    {
        self.value
    }
}

/// Cards are ordered by rank alone.
impl Keyed for Card {
    open spec fn key(&self) -> int {
        self.value.rank()
    }

    fn outranks(&self, other: &Self) -> (b: bool) {
        self.value.to_u32() > other.value.to_u32()
    }
}

/// The rank character as a string of its own.
fn rank_text(value: Value) -> (s: &'static str)
    ensures
        s@ == seq![value.symbol()],
{
    proof {
        reveal_strlit("2");
        reveal_strlit("3");
        reveal_strlit("4");
        reveal_strlit("5");
        reveal_strlit("6");
        reveal_strlit("7");
        reveal_strlit("8");
        reveal_strlit("9");
        reveal_strlit("T");
        reveal_strlit("J");
        reveal_strlit("Q");
        reveal_strlit("K");
        reveal_strlit("A");
    }
    let s: &'static str = match value {
        Value::Two => "2",
        Value::Three => "3",
        Value::Four => "4",
        Value::Five => "5",
        Value::Six => "6",
        Value::Seven => "7",
        Value::Eight => "8",
        Value::Nine => "9",
        Value::Ten => "T",
        Value::Jack => "J",
        Value::Queen => "Q",
        Value::King => "K",
        Value::Ace => "A",
    };
    assert(s@ =~= seq![value.symbol()]);
    s
}

/// The suit glyph as a string of its own.
fn glyph_text(suit: Suit) -> (s: &'static str)
    ensures
        s@ == seq![suit.glyph()],
{
    proof {
        reveal_strlit("\u{2665}");
        reveal_strlit("\u{2666}");
        reveal_strlit("\u{2663}");
        reveal_strlit("\u{2660}");
    }
    let s: &'static str = match suit {
        Suit::Heart => "\u{2665}",
        Suit::Diamond => "\u{2666}",
        Suit::Club => "\u{2663}",
        Suit::Spade => "\u{2660}",
    };
    assert(s@ =~= seq![suit.glyph()]);
    s
}

/// The suit letter as a string of its own.
fn letter_text(suit: Suit) -> (s: &'static str)
    ensures
        s@ == seq![suit.letter()],
{
    proof {
        reveal_strlit("H");
        reveal_strlit("D");
        reveal_strlit("C");
        reveal_strlit("S");
    }
    let s: &'static str = match suit {
        Suit::Heart => "H",
        Suit::Diamond => "D",
        Suit::Club => "C",
        Suit::Spade => "S",
    };
    assert(s@ =~= seq![suit.letter()]);
    s
}

/// A card's token reads back as the card: `parse` undoes `token`.
pub proof fn lemma_token_round_trip(card: Card)
    ensures
        Card::parse_spec(card.token_spec()) == Ok::<Card, ParseError>(card),
{
}

/// The display form of a card is no token: its suit glyph is no suit letter.
pub proof fn lemma_display_is_no_token(card: Card)
    ensures
        Card::parse_spec(card.display_spec()) == Err::<Card, ParseError>(ParseError::InvalidSuit),
{
}

/// Only a token of exactly two characters reads as a card.
pub proof fn lemma_parse_length(token: Seq<char>)
    ensures
        Card::parse_spec(token) is Ok ==> token.len() == 2,
        token.len() != 2 ==> Card::parse_spec(token) is Err,
{
}

/// Reading a token and writing the card out again gives the token back in
/// upper case: the rank character and the suit letter are the ones the token
/// was written with, whatever their case.
pub proof fn lemma_parse_round_trip(token: Seq<char>)
    requires
        Card::parse_spec(token) is Ok,
    ensures
        token.len() == 2,
        Value::of_symbol(Card::parse_spec(token)->Ok_0.token_spec()[0]) == Value::of_symbol(
            token[0],
        ),
        Suit::of_letter(Card::parse_spec(token)->Ok_0.token_spec()[1]) == Suit::of_letter(
            token[1],
        ),
        Card::parse_spec(Card::parse_spec(token)->Ok_0.token_spec()) == Card::parse_spec(token),
{
}

} // verus!
