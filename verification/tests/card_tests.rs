use pokercalc::card::{Card, ParseError, Suit, Value};

const VALUES: [Value; 13] = [
    Value::Two,
    Value::Three,
    Value::Four,
    Value::Five,
    Value::Six,
    Value::Seven,
    Value::Eight,
    Value::Nine,
    Value::Ten,
    Value::Jack,
    Value::Queen,
    Value::King,
    Value::Ace,
];

const SUITS: [Suit; 4] = [Suit::Heart, Suit::Diamond, Suit::Club, Suit::Spade];

#[test]
fn values_count_from_two_to_fourteen() {
    for (i, value) in VALUES.iter().enumerate() {
        assert_eq!(value.to_u32(), i as u32 + 2);
        assert_eq!(Value::from_u32(i as u32 + 2), Some(*value));
    }
    assert_eq!(Value::from_u32(0), None);
    assert_eq!(Value::from_u32(1), None);
    assert_eq!(Value::from_u32(15), None);
}

#[test]
fn values_have_words_and_characters() {
    let words = [
        "two", "three", "four", "five", "six", "seven", "eight", "nine", "ten", "jack", "queen",
        "king", "ace",
    ];
    let chars = "23456789TJQKA";
    for (i, value) in VALUES.iter().enumerate() {
        assert_eq!(value.to_str(), words[i]);
        assert_eq!(value.to_char(), chars.chars().nth(i).unwrap());
    }
}

#[test]
fn value_characters_read_in_either_case() {
    for value in VALUES.iter() {
        let upper = value.to_char();
        assert_eq!(Value::from_char(upper), Some(*value));
        assert_eq!(Value::from_char(upper.to_ascii_lowercase()), Some(*value));
    }
    assert_eq!(Value::from_char('1'), None);
    assert_eq!(Value::from_char('0'), None);
    assert_eq!(Value::from_char('x'), None);
    assert_eq!(Value::from_char('H'), None);
}

#[test]
fn suits_have_glyphs_and_letters() {
    assert_eq!(Suit::Heart.to_char(), '\u{2665}');
    assert_eq!(Suit::Diamond.to_char(), '\u{2666}');
    assert_eq!(Suit::Club.to_char(), '\u{2663}');
    assert_eq!(Suit::Spade.to_char(), '\u{2660}');
    assert_eq!(Suit::Heart.to_letter(), 'H');
    assert_eq!(Suit::Diamond.to_letter(), 'D');
    assert_eq!(Suit::Club.to_letter(), 'C');
    assert_eq!(Suit::Spade.to_letter(), 'S');
    for (i, suit) in SUITS.iter().enumerate() {
        assert_eq!(Suit::from_index(i as u32), Some(*suit));
        assert_eq!(Suit::from_char(suit.to_letter()), Some(*suit));
        assert_eq!(Suit::from_char(suit.to_letter().to_ascii_lowercase()), Some(*suit));
        assert_eq!(Suit::from_char(suit.to_char()), None);
    }
    assert_eq!(Suit::from_index(4), None);
    assert_eq!(Suit::from_char('A'), None);
}

#[test]
fn parse_reads_rank_and_suit() {
    let card = Card::parse("Ad").unwrap();
    assert_eq!(card.value(), Value::Ace);
    assert_eq!(card.suit(), Suit::Diamond);
    assert_eq!(Card::parse("9h"), Ok(Card { value: Value::Nine, suit: Suit::Heart }));
    assert_eq!(Card::parse("tS"), Ok(Card { value: Value::Ten, suit: Suit::Spade }));
    assert_eq!(Card::parse("2C"), Ok(Card { value: Value::Two, suit: Suit::Club }));
}

#[test]
fn parse_refuses_a_bad_rank() {
    assert_eq!(Card::parse("1h"), Err(ParseError::InvalidRank));
    assert_eq!(Card::parse("Xs"), Err(ParseError::InvalidRank));
    assert_eq!(Card::parse("hA"), Err(ParseError::InvalidRank));
    assert_eq!(Card::parse("x"), Err(ParseError::InvalidRank));
    assert_eq!(Card::parse("10h"), Err(ParseError::InvalidRank));
}

#[test]
fn parse_refuses_a_bad_suit() {
    assert_eq!(Card::parse("Ax"), Err(ParseError::InvalidSuit));
    assert_eq!(Card::parse("AA"), Err(ParseError::InvalidSuit));
    assert_eq!(Card::parse("A\u{2660}"), Err(ParseError::InvalidSuit));
    assert_eq!(Card::parse("T0h"), Err(ParseError::InvalidSuit));
}

#[test]
fn parse_refuses_a_short_token() {
    assert_eq!(Card::parse(""), Err(ParseError::InvalidLength));
    assert_eq!(Card::parse("A"), Err(ParseError::InvalidLength));
    assert_eq!(Card::parse("7"), Err(ParseError::InvalidLength));
}

#[test]
fn parse_refuses_a_token_of_more_than_two_characters() {
    assert_eq!(Card::parse("Ahx"), Err(ParseError::InvalidLength));
    assert_eq!(Card::parse("adx"), Err(ParseError::InvalidLength));
    assert_eq!(Card::parse("AhAh"), Err(ParseError::InvalidLength));
    assert_eq!(Card::parse("Ah "), Err(ParseError::InvalidLength));
    assert_eq!(Card::parse("2c\u{2663}"), Err(ParseError::InvalidLength));
}

#[test]
fn rank_and_suit_are_looked_at_before_the_length() {
    assert_eq!(Card::parse("x"), Err(ParseError::InvalidRank));
    assert_eq!(Card::parse("10h"), Err(ParseError::InvalidRank));
    assert_eq!(Card::parse("xhh"), Err(ParseError::InvalidRank));
    assert_eq!(Card::parse("T0h"), Err(ParseError::InvalidSuit));
    assert_eq!(Card::parse("Axh"), Err(ParseError::InvalidSuit));
}

#[test]
fn only_tokens_of_two_characters_read_as_cards() {
    let alphabet = ['2', '9', 'T', 't', 'A', 'a', 'H', 'h', 'S', 's', 'x', '1', '\u{2660}'];
    let mut tokens: Vec<String> = vec![String::new()];
    for a in alphabet {
        tokens.push(a.to_string());
        for b in alphabet {
            tokens.push(format!("{}{}", a, b));
            for c in alphabet {
                tokens.push(format!("{}{}{}", a, b, c));
            }
        }
    }
    let mut read = 0;
    for token in tokens.iter() {
        let chars: Vec<char> = token.chars().collect();
        let expected = chars.len() == 2
            && Value::from_char(chars[0]).is_some()
            && Suit::from_char(chars[1]).is_some();
        assert_eq!(Card::parse(token).is_ok(), expected);
        assert_eq!(Card::new(token).is_some(), expected);
        if expected {
            read += 1;
        }
    }
    assert_eq!(read, 6 * 4);
}

#[test]
fn new_gives_the_card_or_nothing() {
    assert_eq!(Card::new("ks"), Some(Card { value: Value::King, suit: Suit::Spade }));
    assert_eq!(Card::new("k"), None);
    assert_eq!(Card::new("ksx"), None);
    assert_eq!(Card::new("adx"), None);
    assert_eq!(Card::new("kz"), None);
    assert_eq!(Card::new("zs"), None);
    assert_eq!(Card::new(""), None);
}

#[test]
fn describe_shows_the_glyph() {
    assert_eq!(Card::parse("as").unwrap().describe(), "A\u{2660}");
    assert_eq!(Card::parse("Th").unwrap().describe(), "T\u{2665}");
    assert_eq!(Card::parse("2d").unwrap().describe(), "2\u{2666}");
    assert_eq!(Card::parse("jc").unwrap().describe(), "J\u{2663}");
}

#[test]
fn token_reads_back_as_the_card() {
    for suit in SUITS.iter() {
        for value in VALUES.iter() {
            let card = Card { value: *value, suit: *suit };
            let token = card.token();
            assert_eq!(token.chars().count(), 2);
            assert_eq!(Card::parse(&token), Ok(card));
            assert_eq!(Card::parse(&token.to_lowercase()), Ok(card));
            assert_eq!(Card::parse(&token).unwrap().token(), token);
        }
    }
    assert_eq!(Card { value: Value::Queen, suit: Suit::Club }.token(), "QC");
}

#[test]
fn rendering_depends_on_rank_and_suit_alone() {
    let first = Card::parse("qd").unwrap();
    let second = Card { value: Value::Queen, suit: Suit::Diamond };
    assert_eq!(first, second);
    assert_eq!(first.describe(), second.describe());
    assert_eq!(first.token(), second.token());
    assert_eq!(first.describe(), first.describe());
}
