use gcode::{tokenize, Decimal, Error, Span, Token, TokenKind, Tokenizer};

fn chars(s: &str) -> Vec<char> {
    s.chars().collect()
}

fn kinds(s: &str) -> Vec<TokenKind> {
    tokenize(chars(s)).unwrap().iter().map(|t| t.kind()).collect()
}

#[test]
fn tokenizes_program_number() {
    assert_eq!(
        kinds("O1000"),
        vec![TokenKind::O, TokenKind::Number(Decimal::new(false, 1000, 0))]
    );
}

#[test]
fn tokenizes_letters_in_either_case() {
    assert_eq!(
        kinds("g m t n o x y z r s h p i j e f G M T N O X Y Z R S H P I J E F"),
        vec![
            TokenKind::G, TokenKind::M, TokenKind::T, TokenKind::N, TokenKind::O,
            TokenKind::X, TokenKind::Y, TokenKind::Z, TokenKind::R, TokenKind::S,
            TokenKind::H, TokenKind::P, TokenKind::I, TokenKind::J, TokenKind::E,
            TokenKind::FeedRate,
            TokenKind::G, TokenKind::M, TokenKind::T, TokenKind::N, TokenKind::O,
            TokenKind::X, TokenKind::Y, TokenKind::Z, TokenKind::R, TokenKind::S,
            TokenKind::H, TokenKind::P, TokenKind::I, TokenKind::J, TokenKind::E,
            TokenKind::FeedRate,
        ]
    );
}

#[test]
fn tokenizes_decimals_exactly() {
    assert_eq!(
        kinds("12.34 12.00001 12. 0.005 7"),
        vec![
            TokenKind::Number(Decimal::new(false, 1234, 2)),
            TokenKind::Number(Decimal::new(false, 1200001, 5)),
            TokenKind::Number(Decimal::new(false, 12, 0)),
            TokenKind::Number(Decimal::new(false, 5, 3)),
            TokenKind::Number(Decimal::new(false, 7, 0)),
        ]
    );
}

#[test]
fn minus_is_its_own_token() {
    assert_eq!(
        kinds("X-6"),
        vec![TokenKind::X, TokenKind::Minus, TokenKind::Number(Decimal::new(false, 6, 0))]
    );
}

#[test]
fn spans_follow_lines_and_columns() {
    let got = tokenize(chars("G1 X2\n  M3")).unwrap();
    let spans: Vec<Span> = got.iter().map(|t| t.span()).collect();
    assert_eq!(
        spans,
        vec![
            Span::new(0, 0),
            Span::new(0, 1),
            Span::new(0, 3),
            Span::new(0, 4),
            Span::new(1, 2),
            Span::new(1, 3),
        ]
    );
}

#[test]
fn empty_and_blank_input_have_no_tokens() {
    assert_eq!(tokenize(chars("")).unwrap(), vec![]);
    assert_eq!(tokenize(chars(" \t\r\n ")).unwrap(), vec![]);
}

#[test]
fn unrecognised_character_is_reported_with_its_place() {
    assert_eq!(
        tokenize(chars("G1\n X#")),
        Err(Error::UnrecognisedCharacter('#', Span::new(1, 2)))
    );
}

#[test]
fn leading_point_is_unrecognised() {
    assert_eq!(
        tokenize(chars(".5")),
        Err(Error::UnrecognisedCharacter('.', Span::new(0, 0)))
    );
}

#[test]
fn largest_literal_fits_and_one_more_does_not() {
    assert_eq!(
        kinds("18446744073709551615"),
        vec![TokenKind::Number(Decimal::new(false, u64::MAX, 0))]
    );
    assert_eq!(
        tokenize(chars("G 18446744073709551616")),
        Err(Error::NumberTooLarge(Span::new(0, 2)))
    );
    assert_eq!(
        tokenize(chars("1844674407370955161.6")),
        Err(Error::NumberTooLarge(Span::new(0, 0)))
    );
}

#[test]
fn tokenizer_stops_after_an_error() {
    let mut t = Tokenizer::new(chars("G?1"));
    assert_eq!(t.next_token(), Some(Ok(Token::new(TokenKind::G, Span::new(0, 0)))));
    assert_eq!(t.next_token(), Some(Err(Error::UnrecognisedCharacter('?', Span::new(0, 1)))));
    assert_eq!(t.next_token(), None);
    assert_eq!(t.next_token(), None);
}
