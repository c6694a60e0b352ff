use gcode::{tokenize, Argument, ArgumentKind, BasicParser, CommandType, Decimal, Line};

fn chars(s: &str) -> Vec<char> {
    s.chars().collect()
}

fn parse_text(s: &str) -> Line {
    BasicParser::new(tokenize(chars(s)).unwrap()).parse().unwrap()
}

#[test]
fn decimal_text_places_the_point() {
    assert_eq!(Decimal::new(false, 314, 2).to_text(), "3.14");
    assert_eq!(Decimal::new(true, 5, 3).to_text(), "-0.005");
    assert_eq!(Decimal::new(false, 12, 0).to_text(), "12");
    assert_eq!(Decimal::new(false, 0, 1).to_text(), "0.0");
    assert_eq!(Decimal::new(false, u64::MAX, 0).to_text(), "18446744073709551615");
}

#[test]
fn argument_text_uses_f_for_feed_rate() {
    assert_eq!(Argument::new(ArgumentKind::FeedRate, Decimal::new(false, 300, 0)).to_text(), "F300");
    assert_eq!(Argument::new(ArgumentKind::Z, Decimal::new(true, 200, 1)).to_text(), "Z-20.0");
    assert_eq!(ArgumentKind::J.letter(), 'J');
    assert_eq!(CommandType::T.letter(), 'T');
}

#[test]
fn command_text_with_and_without_span() {
    match parse_text("n10 g91 x1 y3.1415 z-20") {
        Line::Cmd(c) => {
            assert_eq!(c.canonical_text(), "N10 G91 X1 Y3.1415 Z-20");
            assert_eq!(c.to_text(), "N10 G91 X1 Y3.1415 Z-20\t(line: 0, column: 0)");
        }
        other => panic!("not a command: {:?}", other),
    }
    assert_eq!(gcode::Command::new(CommandType::M, 6).canonical_text(), "M6");
}

#[test]
fn line_text() {
    assert_eq!(Line::ProgramNumber(1000).to_text(), "O1000");
    let l = BasicParser::new(tokenize(chars("\n  G1 X2")).unwrap()).parse().unwrap();
    assert_eq!(l.to_text(), "G1 X2\t(line: 1, column: 2)");
}

#[test]
fn canonical_text_parses_back_to_the_same_command() {
    let sources = ["N10 G91 X1.0 Y3.1415 Z-20.0", "M3 S600", "G1 X-0.005 F12.", "T2", "N7 G0"];
    for src in sources.iter() {
        let first = match parse_text(src) {
            Line::Cmd(c) => c,
            other => panic!("not a command: {:?}", other),
        };
        let again = match parse_text(&first.canonical_text()) {
            Line::Cmd(c) => c,
            other => panic!("not a command: {:?}", other),
        };
        assert_eq!(again.command(), first.command());
        assert_eq!(again.line_number(), first.line_number());
        assert_eq!(again.args(), first.args());
    }
}
