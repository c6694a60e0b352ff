use gcode::{Argument, ArgumentKind, BasicParser, CommandType, Decimal, Token, TokenKind};

fn tokens(kinds: &[TokenKind]) -> Vec<Token> {
    kinds.iter().map(|&k| Token::from_kind(k)).collect()
}

fn num(negative: bool, digits: u64, scale: u32) -> TokenKind {
    TokenKind::Number(Decimal::new(negative, digits, scale))
}

fn arg(kind: ArgumentKind, negative: bool, digits: u64, scale: u32) -> Argument {
    Argument::new(kind, Decimal::new(negative, digits, scale))
}

#[test]
fn parse_no_line_number() {
    let mut parser = BasicParser::new(vec![]);
    let got = parser.line_number().unwrap();
    assert_eq!(got, None);
}

#[test]
fn parse_line_number() {
    let mut parser = BasicParser::new(tokens(&[TokenKind::N, num(false, 10, 0)]));
    let got = parser.line_number().unwrap();
    assert_eq!(got, Some(10));
}

#[test]
fn parse_empty_arg() {
    let mut parser = BasicParser::new(vec![]);
    let got = parser.arg().unwrap();
    assert!(got.is_none());
}

#[test]
fn parse_x_arg() {
    let mut parser = BasicParser::new(tokens(&[TokenKind::X, num(false, 314, 2)]));
    let got = parser.arg().unwrap().unwrap();
    assert_eq!(got, arg(ArgumentKind::X, false, 314, 2));
}

#[test]
fn parse_empty_args() {
    let mut parser = BasicParser::new(vec![]);
    let got = parser.args().unwrap();
    assert!(got.is_empty());
}

#[test]
fn parse_single_args() {
    let mut parser = BasicParser::new(tokens(&[TokenKind::X, num(false, 314, 2)]));
    let got = parser.args().unwrap();
    assert_eq!(got.len(), 1);
    assert_eq!(got[0], arg(ArgumentKind::X, false, 314, 2));
}

#[test]
fn parse_multiple_args() {
    let src = tokens(&[
        TokenKind::X,
        num(false, 314, 2),
        TokenKind::Y,
        num(false, 21828, 4),
        TokenKind::Z,
        num(false, 6, 0),
    ]);
    let should_be = vec![
        arg(ArgumentKind::X, false, 314, 2),
        arg(ArgumentKind::Y, false, 21828, 4),
        arg(ArgumentKind::Z, false, 6, 0),
    ];
    let mut parser = BasicParser::new(src);
    let got = parser.args().unwrap();
    assert_eq!(got.as_slice(), &should_be[..]);
}

#[test]
fn parse_basic_command() {
    let mut parser = BasicParser::new(tokens(&[TokenKind::G, num(false, 90, 0)]));
    let got = parser.command().unwrap();
    assert_eq!(got.span(), gcode::Span::new(0, 0));
    assert_eq!(got.command(), (CommandType::G, 90));
    assert!(got.args().is_empty());
    assert_eq!(got.line_number(), None);
}

#[test]
fn parse_normal_g01() {
    let src = tokens(&[
        TokenKind::N,
        num(false, 10, 0),
        TokenKind::G,
        num(false, 91, 0),
        TokenKind::X,
        num(false, 1, 0),
        TokenKind::Y,
        num(false, 31415, 4),
        TokenKind::Z,
        num(true, 20, 0),
    ]);
    let should_be = vec![
        arg(ArgumentKind::X, false, 1, 0),
        arg(ArgumentKind::Y, false, 31415, 4),
        arg(ArgumentKind::Z, true, 20, 0),
    ];
    let mut parser = BasicParser::new(src);
    let got = parser.command().unwrap();
    assert_eq!(got.span(), gcode::Span::new(0, 0));
    assert_eq!(got.command(), (CommandType::G, 91));
    assert_eq!(got.line_number(), Some(10));
    assert_eq!(got.args(), &should_be[..]);
}

#[test]
fn parse_command_and_name() {
    let mut parser = BasicParser::new(tokens(&[TokenKind::G, num(false, 0, 0)]));
    let got = parser.command_name().unwrap();
    assert_eq!(got, (CommandType::G, 0));
}

#[test]
fn parse_program_number() {
    let mut parser = BasicParser::new(tokens(&[TokenKind::O, num(false, 50, 0)]));
    let got = parser.program_number().unwrap();
    assert_eq!(got, 50);
}

#[test]
fn tool_change_line() {
    let mut parser = BasicParser::new(tokens(&[TokenKind::T, num(false, 1, 0)]));
    let got = parser.command().unwrap();
    assert_eq!(got.span(), gcode::Span::new(0, 0));
    assert_eq!(got.line_number(), None);
    assert_eq!(got.command(), (CommandType::T, 1));
    assert!(got.args().is_empty());
}

#[test]
fn parse_negative_arg() {
    let mut parser = BasicParser::new(tokens(&[TokenKind::X, TokenKind::Minus, num(false, 6, 0)]));
    let got = parser.arg().unwrap().unwrap();
    assert_eq!(got, arg(ArgumentKind::X, true, 6, 0));
}

#[test]
fn spindle_speed() {
    let mut parser = BasicParser::new(tokens(&[TokenKind::S, num(false, 600, 0)]));
    let got = parser.arg().unwrap().unwrap();
    assert_eq!(got, arg(ArgumentKind::S, false, 600, 0));
}

#[test]
fn argument_kinds() {
    let inputs = vec![
        (TokenKind::X, ArgumentKind::X),
        (TokenKind::Y, ArgumentKind::Y),
        (TokenKind::Z, ArgumentKind::Z),
        (TokenKind::R, ArgumentKind::R),
        (TokenKind::S, ArgumentKind::S),
        (TokenKind::H, ArgumentKind::H),
        (TokenKind::P, ArgumentKind::P),
        (TokenKind::I, ArgumentKind::I),
        (TokenKind::J, ArgumentKind::J),
        (TokenKind::E, ArgumentKind::E),
        (TokenKind::FeedRate, ArgumentKind::FeedRate),
    ];
    for (input, should_be) in inputs.into_iter() {
        println!("{:?} => {:?}", input, should_be);
        let got = BasicParser::new(tokens(&[input])).arg_kind().unwrap();
        assert_eq!(got, should_be);
    }
}

#[test]
fn m_is_not_an_argument() {
    let input = vec![Token::from_kind(TokenKind::M)];

    let mut parser = BasicParser::new(input.clone());
    let got = parser.arg_kind();
    assert!(got.is_err());

    let mut parser = BasicParser::new(input);
    let got = parser.command_type();
    assert!(got.is_ok());
}
