use gcode::{
    tokenize, Argument, ArgumentKind, BasicParser, CommandType, Decimal, Error, Expected, Line, Span,
    Token, TokenKind,
};

fn chars(s: &str) -> Vec<char> {
    s.chars().collect()
}

fn tokens(kinds: &[TokenKind]) -> Vec<Token> {
    kinds.iter().map(|&k| Token::from_kind(k)).collect()
}

fn num(negative: bool, digits: u64, scale: u32) -> TokenKind {
    TokenKind::Number(Decimal::new(negative, digits, scale))
}

#[test]
fn program_number_line() {
    let mut parser = BasicParser::new(tokenize(chars("O1000")).unwrap());
    assert_eq!(parser.parse(), Ok(Line::ProgramNumber(1000)));
}

#[test]
fn full_line_from_text() {
    let mut parser = BasicParser::new(tokenize(chars("N10 G91 X1.0 Y3.1415 Z-20.0")).unwrap());
    match parser.parse() {
        Ok(Line::Cmd(c)) => {
            assert_eq!(c.line_number(), Some(10));
            assert_eq!(c.command(), (CommandType::G, 91));
            assert_eq!(
                c.args(),
                &[
                    Argument::new(ArgumentKind::X, Decimal::new(false, 10, 1)),
                    Argument::new(ArgumentKind::Y, Decimal::new(false, 31415, 4)),
                    Argument::new(ArgumentKind::Z, Decimal::new(true, 200, 1)),
                ][..]
            );
            assert_eq!(c.span(), Span::new(0, 0));
        }
        other => panic!("not a command: {:?}", other),
    }
    assert_eq!(parser.next(), None);
}

#[test]
fn minus_negates_a_negative_literal() {
    let mut parser = BasicParser::new(tokens(&[TokenKind::Minus, num(true, 25, 1)]));
    assert_eq!(parser.number(), Ok(Decimal::new(false, 25, 1)));
    let mut parser = BasicParser::new(tokens(&[num(true, 25, 1)]));
    assert_eq!(parser.number(), Ok(Decimal::new(true, 25, 1)));
}

#[test]
fn command_letters_are_command_types_not_arguments() {
    for k in [TokenKind::G, TokenKind::M, TokenKind::T] {
        assert!(BasicParser::new(tokens(&[k])).command_type().is_ok());
        assert!(BasicParser::new(tokens(&[k])).arg_kind().is_err());
    }
    for k in [TokenKind::N, TokenKind::O] {
        assert_eq!(
            BasicParser::new(tokens(&[k])).arg_kind(),
            Err(Error::SyntaxError(Expected::ArgumentKind, Span::new(0, 0)))
        );
    }
}

#[test]
fn empty_input_command_meets_end_of_input() {
    assert_eq!(BasicParser::new(vec![]).command(), Err(Error::UnexpectedEOF));
    assert_eq!(BasicParser::new(vec![]).parse(), Err(Error::UnexpectedEOF));
    assert_eq!(BasicParser::new(vec![]).next(), None);
}

#[test]
fn parsing_twice_gives_the_same_result() {
    let src = tokenize(chars("N5 G1 X-2.5 F300 M3 O7 G")).unwrap();
    let mut a = BasicParser::new(src.clone());
    let mut b = BasicParser::new(src);
    for _ in 0..5 {
        assert_eq!(a.next(), b.next());
    }
}

#[test]
fn malformed_sequences_give_errors_not_panics() {
    let cases: Vec<Vec<TokenKind>> = vec![
        vec![TokenKind::Minus],
        vec![TokenKind::O],
        vec![TokenKind::O, TokenKind::Minus, TokenKind::Minus],
        vec![TokenKind::X, num(false, 1, 0)],
        vec![TokenKind::G],
        vec![TokenKind::N, TokenKind::N, TokenKind::N],
        vec![num(false, 3, 0), TokenKind::FeedRate],
    ];
    for case in cases {
        let mut parser = BasicParser::new(tokens(&case));
        for _ in 0..(case.len() + 2) {
            let _ = parser.next();
        }
    }
}

#[test]
fn syntax_error_names_what_was_expected() {
    let src = vec![Token::new(TokenKind::G, Span::new(2, 0)), Token::new(TokenKind::X, Span::new(2, 1))];
    let mut parser = BasicParser::new(src);
    assert_eq!(
        parser.parse(),
        Err(Error::SyntaxError(Expected::Number, Span::new(2, 1)))
    );
    assert_eq!(Expected::Number.message(), "Expected a number");
}

#[test]
fn end_of_input_inside_a_line_is_an_error() {
    let mut parser = BasicParser::new(tokens(&[TokenKind::G]));
    assert_eq!(parser.next(), Some(Err(Error::UnexpectedEOF)));
    assert_eq!(parser.next(), None);
}

#[test]
fn malformed_line_number_is_dropped() {
    let mut parser = BasicParser::new(tokens(&[TokenKind::N, TokenKind::G, num(false, 1, 0)]));
    match parser.parse() {
        Ok(Line::Cmd(c)) => {
            assert_eq!(c.line_number(), None);
            assert_eq!(c.command(), (CommandType::G, 1));
        }
        other => panic!("not a command: {:?}", other),
    }
}

#[test]
fn argument_without_number_ends_the_arguments() {
    let mut parser = BasicParser::new(tokens(&[
        TokenKind::G, num(false, 1, 0), TokenKind::X, num(false, 2, 0), TokenKind::Y, TokenKind::M,
    ]));
    match parser.parse() {
        Ok(Line::Cmd(c)) => assert_eq!(c.args().len(), 1),
        other => panic!("not a command: {:?}", other),
    }
}

#[test]
fn ten_arguments_fit_and_eleven_do_not() {
    let ten = tokenize(chars("G1 X1 X2 X3 X4 X5 X6 X7 X8 X9 X10")).unwrap();
    match BasicParser::new(ten).parse() {
        Ok(Line::Cmd(c)) => assert_eq!(c.args().len(), 10),
        other => panic!("not a command: {:?}", other),
    }
    let eleven = tokenize(chars("G1 X1 X2 X3 X4 X5 X6 X7 X8 X9 X10 Y11")).unwrap();
    assert_eq!(
        BasicParser::new(eleven).parse(),
        Err(Error::TooManyArguments(Span::new(0, 34)))
    );
}

#[test]
fn command_numbers_truncate_and_saturate() {
    assert_eq!(Decimal::new(false, 1999, 3).to_u32(), 1);
    assert_eq!(Decimal::new(true, 5, 0).to_u32(), 0);
    assert_eq!(Decimal::new(false, 5_000_000_000, 0).to_u32(), u32::MAX);
    assert_eq!(Decimal::new(false, 123, 40).to_u32(), 0);
    let mut parser = BasicParser::new(tokenize(chars("G-1.5")).unwrap());
    match parser.parse() {
        Ok(Line::Cmd(c)) => assert_eq!(c.command(), (CommandType::G, 0)),
        other => panic!("not a command: {:?}", other),
    }
}

#[test]
fn command_takes_the_span_of_a_failed_program_number() {
    let src = vec![
        Token::new(TokenKind::O, Span::new(3, 4)),
        Token::new(TokenKind::M, Span::new(3, 5)),
        Token::new(num(false, 30, 0), Span::new(3, 6)),
    ];
    match BasicParser::new(src).parse() {
        Ok(Line::Cmd(c)) => {
            assert_eq!(c.span(), Span::new(3, 4));
            assert_eq!(c.command(), (CommandType::M, 30));
        }
        other => panic!("not a command: {:?}", other),
    }
}

#[test]
fn new_command_is_bare() {
    let c = gcode::Command::new(CommandType::M, 6);
    assert_eq!(c.command(), (CommandType::M, 6));
    assert_eq!(c.line_number(), None);
    assert!(c.args().is_empty());
}

#[test]
fn strict_parser_reports_malformed_line_number() {
    let src = vec![
        Token::new(TokenKind::N, Span::new(0, 0)),
        Token::new(TokenKind::G, Span::new(0, 1)),
        Token::new(num(false, 1, 0), Span::new(0, 2)),
    ];
    assert_eq!(
        BasicParser::new_strict(src.clone()).parse(),
        Err(Error::SyntaxError(Expected::Number, Span::new(0, 1)))
    );
    assert!(BasicParser::new(src).parse().is_ok());
}

#[test]
fn strict_parser_reports_argument_without_number() {
    let src = tokenize(chars("G1 X2 Y M3")).unwrap();
    assert_eq!(
        BasicParser::new_strict(src.clone()).parse(),
        Err(Error::SyntaxError(Expected::Number, Span::new(0, 8)))
    );
    match BasicParser::new(src).parse() {
        Ok(Line::Cmd(c)) => assert_eq!(c.args().len(), 1),
        other => panic!("not a command: {:?}", other),
    }
}

#[test]
fn strict_parser_reads_well_formed_lines() {
    let mut parser = BasicParser::new_strict(tokenize(chars("O12 N3 G2 X1 I-0.5")).unwrap());
    assert_eq!(parser.next(), Some(Ok(Line::ProgramNumber(12))));
    match parser.next() {
        Some(Ok(Line::Cmd(c))) => {
            assert_eq!(c.line_number(), Some(3));
            assert_eq!(c.command(), (CommandType::G, 2));
            assert_eq!(c.args().len(), 2);
            assert_eq!(c.args()[1], Argument::new(ArgumentKind::I, Decimal::new(true, 5, 1)));
        }
        other => panic!("not a command: {:?}", other),
    }
    assert_eq!(parser.next(), None);
}
