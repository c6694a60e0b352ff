//! The errors that tokenizing and parsing report.
use vstd::prelude::*;
use crate::lexer::Span;

verus! {

/// The construct that a syntax error expected to find.
#[derive(Clone, Copy, Debug, PartialEq, Eq, Structural)]
pub enum Expected {
    /// The `O` that starts a program number.
    ProgramNumber,
    /// A numeric literal, possibly after a minus sign.
    Number,
    /// One of `G`, `M` or `T`.
    CommandType,
    /// One of the argument letters.
    ArgumentKind,
}

/// The description of what was expected.
pub open spec fn expected_message(e: Expected) -> Seq<char> {
    match e {
        Expected::ProgramNumber => "Expected a 'O'"@,
        Expected::Number => "Expected a number"@,
        Expected::CommandType => "Expected a command type"@,
        Expected::ArgumentKind => "Expected an argument kind"@,
    }
}

impl Expected {
    /// A human-readable description of what was expected.
    pub fn message(&self) -> (r: &'static str)
        ensures
            r@ == expected_message(*self),
    {
        match self {
            Expected::ProgramNumber => "Expected a 'O'",
            Expected::Number => "Expected a number",
            Expected::CommandType => "Expected a command type",
            Expected::ArgumentKind => "Expected an argument kind",
        }
    }
}

/// Everything that can go wrong while tokenizing or parsing.
#[derive(Clone, Copy, Debug, PartialEq, Eq, Structural)]
pub enum Error {
    /// The input ended where a token was still required.
    UnexpectedEOF,
    /// A token of the wrong kind stood where the grammar expected something.
    SyntaxError(Expected, Span),
    /// A character that starts no token.
    UnrecognisedCharacter(char, Span),
    /// A numeric literal with more digits than a `Decimal` can hold.
    NumberTooLarge(Span),
    /// A command with more arguments than its buffer can hold; the span is
    /// that of the first argument that did not fit.
    TooManyArguments(Span),
}

} // verus!
