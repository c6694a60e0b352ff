//! Turning tokens into lines: a recursive-descent parser with one token of
//! lookahead.
//!
//! ```text
//! line           ::= program_number | command
//! program_number ::= 'O' number
//! command        ::= line_number? command_name arg*
//! command_name   ::= command_type number
//! command_type   ::= 'G' | 'M' | 'T'
//! line_number    ::= 'N' number
//! arg            ::= arg_kind number
//! arg_kind       ::= 'X' | 'Y' | 'Z' | 'R' | 'S' | 'H' | 'P' | 'I' | 'J' | 'E' | 'F'
//! number         ::= '-'? NUMBER
//! ```
use vstd::prelude::*;
use crate::buffer::{
    ArgBuffer, ARG_CAPACITY, buffer_items, buffer_new, buffer_len, buffer_try_push, buffer_as_slice,
};
use crate::errors::{Error, Expected};
use crate::lexer::{Span, Token, TokenKind};
use crate::number::{Decimal, negated, truncated_u32};

verus! {

/// The kind of an argument.
#[derive(Clone, Copy, Debug, PartialEq, Eq, Structural)]
#[allow(missing_docs)]
pub enum ArgumentKind {
    X,
    Y,
    Z,
    R,
    S,
    H,
    FeedRate,
    P,
    I,
    J,
    E,
}

/// The type of a command.
#[derive(Clone, Copy, Debug, PartialEq, Eq, Structural)]
pub enum CommandType {
    /// A general G code.
    G,
    /// An M code.
    M,
    /// An instruction to change tools.
    T,
}

/// An argument of a command.
#[derive(Clone, Copy, Debug, PartialEq, Eq, Structural)]
pub struct Argument {
    /// What type of argument this is.
    pub kind: ArgumentKind,
    /// Its value.
    pub value: Decimal,
}

impl Argument {
    /// A new argument.
    pub fn new(kind: ArgumentKind, value: Decimal) -> (r: Argument)
        ensures
            r == (Argument { kind, value }),
    {
        Argument { kind, value }
    }
}

/// What a command holds, with its arguments as a sequence.
pub ghost struct CommandView {
    pub span: Span,
    pub line_number: Option<u32>,
    pub command_type: CommandType,
    pub command_number: u32,
    pub args: Seq<Argument>,
}

/// A command: an optional line number, a type and a number, and up to 10
/// arguments in the order they were written.
#[derive(Debug, PartialEq)]
pub struct Command {
    span: Span,
    line_number: Option<u32>,
    command_type: CommandType,
    command_number: u32,
    args: ArgBuffer,
}

impl View for Command {
    type V = CommandView;

    closed spec fn view(&self) -> CommandView {
        CommandView {
            span: self.span,
            line_number: self.line_number,
            command_type: self.command_type,
            command_number: self.command_number,
            args: buffer_items(self.args),
        }
    }
}

impl Command {
    /// A command of the given type and number, at line 0, column 0, with no
    /// line number and no arguments.
    pub fn new(command_type: CommandType, command_number: u32) -> (r: Command)
        ensures
            r@ == (CommandView {
                span: Span { line: 0, column: 0 },
                line_number: None,
                command_type,
                command_number,
                args: Seq::empty(),
            }),
    {
        Command {
            span: Span { line: 0, column: 0 },
            line_number: None,
            command_type,
            command_number,
            args: buffer_new(),
        }
    }

    /// Where the command stands in the source.
    pub fn span(&self) -> (r: Span)
        ensures
            r == self@.span,
    {
        self.span
    }

    /// The line number declared with `N` (if any).
    pub fn line_number(&self) -> (r: Option<u32>)
        ensures
            r == self@.line_number,
    {
        self.line_number
    }

    /// The command's type and number (e.g. `(G, 90)`).
    pub fn command(&self) -> (r: (CommandType, u32))
        ensures
            r == (self@.command_type, self@.command_number),
    {
        (self.command_type, self.command_number)
    }

    /// The arguments, in the order they were written.
    pub fn args(&self) -> (r: &[Argument])
        ensures
            r@ == self@.args,
            r@.len() <= ARG_CAPACITY,
    {
        let _len = buffer_len(&self.args);
        buffer_as_slice(&self.args)
    }
}

/// What a line holds.
pub ghost enum LineView {
    Cmd(CommandView),
    ProgramNumber(u32),
}

/// A line of code.
#[derive(Debug, PartialEq)]
pub enum Line {
    /// A command.
    Cmd(Command),
    /// A program number.
    ProgramNumber(u32),
}

impl View for Line {
    type V = LineView;

    open spec fn view(&self) -> LineView {
        match self {
            Line::Cmd(c) => LineView::Cmd(c@),
            Line::ProgramNumber(n) => LineView::ProgramNumber(*n),
        }
    }
}

/// A parse result with the line seen through its view.
pub open spec fn line_result_view(r: Result<Line, Error>) -> Result<LineView, Error> {
    match r {
        Ok(l) => Ok(l@),
        Err(e) => Err(e),
    }
}

/// The kind of the token at `i`, if there is one.
pub open spec fn kind_at(ts: Seq<Token>, i: int) -> Option<TokenKind> {
    if 0 <= i < ts.len() {
        Some(ts[i].kind)
    } else {
        None
    }
}

/// The error for a token at `i` that is not what was expected, or for the
/// end of the input.
pub open spec fn unexpected(ts: Seq<Token>, i: int, what: Expected) -> Error {
    if 0 <= i < ts.len() {
        Error::SyntaxError(what, ts[i].span)
    } else {
        Error::UnexpectedEOF
    }
}

/// The command type that a token kind names.
pub open spec fn command_type_of(k: Option<TokenKind>) -> Option<CommandType> {
    match k {
        Some(TokenKind::G) => Some(CommandType::G),
        Some(TokenKind::M) => Some(CommandType::M),
        Some(TokenKind::T) => Some(CommandType::T),
        _ => None,
    }
}

/// The argument kind that a token kind names.
pub open spec fn argument_kind_of(k: Option<TokenKind>) -> Option<ArgumentKind> {
    match k {
        Some(TokenKind::X) => Some(ArgumentKind::X),
        Some(TokenKind::Y) => Some(ArgumentKind::Y),
        Some(TokenKind::Z) => Some(ArgumentKind::Z),
        Some(TokenKind::R) => Some(ArgumentKind::R),
        Some(TokenKind::S) => Some(ArgumentKind::S),
        Some(TokenKind::H) => Some(ArgumentKind::H),
        Some(TokenKind::P) => Some(ArgumentKind::P),
        Some(TokenKind::I) => Some(ArgumentKind::I),
        Some(TokenKind::J) => Some(ArgumentKind::J),
        Some(TokenKind::E) => Some(ArgumentKind::E),
        Some(TokenKind::FeedRate) => Some(ArgumentKind::FeedRate),
        _ => None,
    }
}

/// `number ::= '-'? NUMBER` at `i`: the value and the position after it.
pub open spec fn number_at(ts: Seq<Token>, i: int) -> (Result<Decimal, Error>, int) {
    let minus = kind_at(ts, i) == Some(TokenKind::Minus);
    let j = if minus { i + 1 } else { i };
    match kind_at(ts, j) {
        Some(TokenKind::Number(n)) => (Ok(if minus { negated(n) } else { n }), j + 1),
        _ => (Err(unexpected(ts, j, Expected::Number)), j),
    }
}

/// `program_number ::= 'O' number` at `i`.
pub open spec fn program_number_at(ts: Seq<Token>, i: int) -> (Result<u32, Error>, int) {
    if kind_at(ts, i) == Some(TokenKind::O) {
        let (r, j) = number_at(ts, i + 1);
        (
            match r {
                Ok(n) => Ok(truncated_u32(n)),
                Err(e) => Err(e),
            },
            j,
        )
    } else {
        (Err(unexpected(ts, i, Expected::ProgramNumber)), i)
    }
}

/// `command_type ::= 'G' | 'M' | 'T'` at `i`.
pub open spec fn command_type_at(ts: Seq<Token>, i: int) -> (Result<CommandType, Error>, int) {
    match command_type_of(kind_at(ts, i)) {
        Some(t) => (Ok(t), i + 1),
        None => (Err(unexpected(ts, i, Expected::CommandType)), i),
    }
}

/// `command_name ::= command_type number` at `i`.
pub open spec fn command_name_at(ts: Seq<Token>, i: int) -> (Result<(CommandType, u32), Error>, int) {
    let (t, j) = command_type_at(ts, i);
    match t {
        Err(e) => (Err(e), j),
        Ok(ty) => {
            let (n, k) = number_at(ts, j);
            match n {
                Err(e) => (Err(e), k),
                Ok(v) => (Ok((ty, truncated_u32(v))), k),
            }
        },
    }
}

/// `line_number ::= 'N' number` at `i`. An `N` without a number is an error
/// when `strict`, and else counts as no line number (its tokens stay
/// consumed).
pub open spec fn line_number_at(ts: Seq<Token>, i: int, strict: bool) -> (Result<Option<u32>, Error>, int) {
    if kind_at(ts, i) == Some(TokenKind::N) {
        let (n, j) = number_at(ts, i + 1);
        (
            match n {
                Ok(v) => Ok(Some(truncated_u32(v))),
                Err(e) => if strict {
                    Err(e)
                } else {
                    Ok(None)
                },
            },
            j,
        )
    } else {
        (Ok(None), i)
    }
}

/// `arg_kind` at `i`.
pub open spec fn argument_kind_at(ts: Seq<Token>, i: int) -> (Result<ArgumentKind, Error>, int) {
    match argument_kind_of(kind_at(ts, i)) {
        Some(k) => (Ok(k), i + 1),
        None => (Err(unexpected(ts, i, Expected::ArgumentKind)), i),
    }
}

/// `arg ::= arg_kind number` at `i`: `None` where no argument letter stands
/// there, an error where the letter has no number after it.
pub open spec fn argument_at(ts: Seq<Token>, i: int) -> (Result<Option<Argument>, Error>, int) {
    let (k, j) = argument_kind_at(ts, i);
    match k {
        Err(_) => (Ok(None), j),
        Ok(kind) => {
            let (n, l) = number_at(ts, j);
            match n {
                Err(e) => (Err(e), l),
                Ok(value) => (Ok(Some(Argument { kind, value })), l),
            }
        },
    }
}

/// `arg*` at `i`, after the arguments `acc`: arguments are read while they
/// parse; one beyond the capacity is an error. An argument letter without a
/// number ends the arguments, or is an error when `strict`.
pub open spec fn arguments_from(ts: Seq<Token>, i: int, acc: Seq<Argument>, strict: bool) -> (
    Result<Seq<Argument>, Error>,
    int,
)
    decreases ts.len() - i,
    via arguments_from_decreases
{
    let (a, j) = argument_at(ts, i);
    match a {
        Ok(Some(arg)) => if acc.len() >= ARG_CAPACITY {
            (Err(Error::TooManyArguments(ts[i].span)), j)
        } else {
            arguments_from(ts, j, acc.push(arg), strict)
        },
        Err(e) => if strict {
            (Err(e), j)
        } else {
            (Ok(acc), j)
        },
        Ok(None) => (Ok(acc), j),
    }
}

#[via_fn]
proof fn arguments_from_decreases(ts: Seq<Token>, i: int, acc: Seq<Argument>, strict: bool) {
    let (a, j) = argument_at(ts, i);
    if a matches Ok(Some(_)) {
        assert(0 <= i < ts.len());
        assert(j > i);
    }
}

/// `command ::= line_number? command_name arg*` at `i`.
pub open spec fn command_at(ts: Seq<Token>, i: int, strict: bool) -> (Result<CommandView, Error>, int) {
    if !(0 <= i < ts.len()) {
        (Err(Error::UnexpectedEOF), i)
    } else {
        let (lr, j) = line_number_at(ts, i, strict);
        let ln = lr->Ok_0;
        let (name, k) = command_name_at(ts, j);
        match (lr, name) {
            (Err(e), _) => (Err(e), j),
            (_, Err(e)) => (Err(e), k),
            (_, Ok((ty, num))) => {
                let (args, l) = arguments_from(ts, k, Seq::empty(), strict);
                match args {
                    Err(e) => (Err(e), l),
                    Ok(a) => (
                        Ok(
                            CommandView {
                                span: ts[i].span,
                                line_number: ln,
                                command_type: ty,
                                command_number: num,
                                args: a,
                            },
                        ),
                        l,
                    ),
                }
            },
        }
    }
}

/// `line ::= program_number | command` at `i`. A failed program number
/// leaves the tokens it consumed consumed; a command takes the span of the
/// first token of the line.
pub open spec fn parse_at(ts: Seq<Token>, i: int, strict: bool) -> (Result<LineView, Error>, int) {
    let (p, j) = program_number_at(ts, i);
    match p {
        Ok(n) => (Ok(LineView::ProgramNumber(n)), j),
        Err(_) => {
            let (c, k) = command_at(ts, j, strict);
            match c {
                Err(e) => (Err(e), k),
                Ok(cmd) => (
                    Ok(
                        LineView::Cmd(
                            if 0 <= i < ts.len() {
                                CommandView { span: ts[i].span, ..cmd }
                            } else {
                                cmd
                            },
                        ),
                    ),
                    k,
                ),
            }
        },
    }
}

fn command_type_of_kind(k: Option<TokenKind>) -> (r: Option<CommandType>)
    ensures
        r == command_type_of(k),
{
    match k {
        Some(TokenKind::G) => Some(CommandType::G),
        Some(TokenKind::M) => Some(CommandType::M),
        Some(TokenKind::T) => Some(CommandType::T),
        _ => None,
    }
}

fn argument_kind_of_kind(k: Option<TokenKind>) -> (r: Option<ArgumentKind>)
    ensures
        r == argument_kind_of(k),
{
    match k {
        Some(TokenKind::X) => Some(ArgumentKind::X),
        Some(TokenKind::Y) => Some(ArgumentKind::Y),
        Some(TokenKind::Z) => Some(ArgumentKind::Z),
        Some(TokenKind::R) => Some(ArgumentKind::R),
        Some(TokenKind::S) => Some(ArgumentKind::S),
        Some(TokenKind::H) => Some(ArgumentKind::H),
        Some(TokenKind::P) => Some(ArgumentKind::P),
        Some(TokenKind::I) => Some(ArgumentKind::I),
        Some(TokenKind::J) => Some(ArgumentKind::J),
        Some(TokenKind::E) => Some(ArgumentKind::E),
        Some(TokenKind::FeedRate) => Some(ArgumentKind::FeedRate),
        _ => None,
    }
}

/// A parser over a sequence of tokens, with one token of lookahead.
///
/// Each production reads from the current position and leaves the position
/// after the tokens it consumed, also when it fails. A lenient parser drops
/// a malformed line number or argument; a strict one reports it.
#[derive(Debug)]
pub struct BasicParser {
    tokens: Vec<Token>,
    pos: usize,
    strict: bool,
}

impl BasicParser {
    /// The tokens being parsed.
    pub closed spec fn tokens(&self) -> Seq<Token> {
        self.tokens@
    }

    /// The position of the next token to read.
    pub closed spec fn position(&self) -> int {
        self.pos as int
    }

    /// Whether a malformed line number or argument is an error.
    pub closed spec fn is_strict(&self) -> bool {
        self.strict
    }

    /// The position lies within the tokens.
    pub closed spec fn wf(&self) -> bool {
        self.pos <= self.tokens@.len()
    }

    /// A lenient parser at the start of `tokens`.
    pub fn new(tokens: Vec<Token>) -> (r: BasicParser)
        ensures
            r.wf(),
            r.tokens() == tokens@,
            r.position() == 0,
            !r.is_strict(),
    {
        BasicParser { tokens, pos: 0, strict: false }
    }

    /// A strict parser at the start of `tokens`.
    pub fn new_strict(tokens: Vec<Token>) -> (r: BasicParser)
        ensures
            r.wf(),
            r.tokens() == tokens@,
            r.position() == 0,
            r.is_strict(),
    {
        BasicParser { tokens, pos: 0, strict: true }
    }

    /// The kind of the next token, without consuming it.
    pub fn peek(&self) -> (r: Option<TokenKind>)
        requires
            self.wf(),
        ensures
            r == kind_at(self.tokens(), self.position()),
    {
        if self.pos < self.tokens.len() {
            Some(self.tokens[self.pos].kind)
        } else {
            None
        }
    }

    /// The span of the next token, without consuming it.
    pub fn next_span(&self) -> (r: Option<Span>)
        requires
            self.wf(),
        ensures
            r == (if 0 <= self.position() < self.tokens().len() {
                Some(self.tokens()[self.position()].span)
            } else {
                None::<Span>
            }),
    {
        if self.pos < self.tokens.len() {
            Some(self.tokens[self.pos].span)
        } else {
            None
        }
    }

    fn bump(&mut self)
        requires
            old(self).wf(),
            old(self).pos < old(self).tokens@.len(),
        ensures
            final(self).wf(),
            final(self).tokens@ == old(self).tokens@,
            final(self).strict == old(self).strict,
            final(self).pos == old(self).pos + 1,
    {
        let _len = self.tokens.len();
        self.pos = self.pos + 1;
    }

    /// The error for the next token, which is not what was expected.
    fn unexpected_here(&self, what: Expected) -> (r: Error)
        requires
            self.wf(),
        ensures
            r == unexpected(self.tokens(), self.position(), what),
    {
        if self.pos < self.tokens.len() {
            Error::SyntaxError(what, self.tokens[self.pos].span)
        } else {
            Error::UnexpectedEOF
        }
    }

    /// `number ::= '-'? NUMBER`.
    pub fn number(&mut self) -> (r: Result<Decimal, Error>)
        requires
            old(self).wf(),
        ensures
            final(self).wf(),
            final(self).tokens() == old(self).tokens(),
            final(self).is_strict() == old(self).is_strict(),
            (r, final(self).position()) == number_at(old(self).tokens(), old(self).position()),
    {
        let minus = match self.peek() {
            Some(TokenKind::Minus) => {
                self.bump();
                true
            },
            _ => false,
        };
        match self.peek() {
            Some(TokenKind::Number(n)) => {
                self.bump();
                if minus {
                    Ok(n.negate())
                } else {
                    Ok(n)
                }
            },
            _ => Err(self.unexpected_here(Expected::Number)),
        }
    }

    /// `program_number ::= 'O' number`.
    pub fn program_number(&mut self) -> (r: Result<u32, Error>)
        requires
            old(self).wf(),
        ensures
            final(self).wf(),
            final(self).tokens() == old(self).tokens(),
            final(self).is_strict() == old(self).is_strict(),
            (r, final(self).position()) == program_number_at(old(self).tokens(), old(self).position()),
    {
        if self.peek() != Some(TokenKind::O) {
            return Err(self.unexpected_here(Expected::ProgramNumber));
        }
        self.bump();
        match self.number() {
            Ok(n) => Ok(n.to_u32()),
            Err(e) => Err(e),
        }
    }

    /// `command_type ::= 'G' | 'M' | 'T'`.
    pub fn command_type(&mut self) -> (r: Result<CommandType, Error>)
        requires
            old(self).wf(),
        ensures
            final(self).wf(),
            final(self).tokens() == old(self).tokens(),
            final(self).is_strict() == old(self).is_strict(),
            (r, final(self).position()) == command_type_at(old(self).tokens(), old(self).position()),
    {
        match command_type_of_kind(self.peek()) {
            Some(t) => {
                self.bump();
                Ok(t)
            },
            None => Err(self.unexpected_here(Expected::CommandType)),
        }
    }

    /// `command_name ::= command_type number`.
    pub fn command_name(&mut self) -> (r: Result<(CommandType, u32), Error>)
        requires
            old(self).wf(),
        ensures
            final(self).wf(),
            final(self).tokens() == old(self).tokens(),
            final(self).is_strict() == old(self).is_strict(),
            (r, final(self).position()) == command_name_at(old(self).tokens(), old(self).position()),
    {
        let ty = match self.command_type() {
            Ok(t) => t,
            Err(e) => return Err(e),
        };
        match self.number() {
            Ok(n) => Ok((ty, n.to_u32())),
            Err(e) => Err(e),
        }
    }

    /// `line_number ::= 'N' number`, which is optional: without an `N` it is
    /// absent. An `N` without a number makes it absent too, or is an error
    /// for a strict parser.
    pub fn line_number(&mut self) -> (r: Result<Option<u32>, Error>)
        requires
            old(self).wf(),
        ensures
            final(self).wf(),
            final(self).tokens() == old(self).tokens(),
            final(self).is_strict() == old(self).is_strict(),
            (r, final(self).position()) == line_number_at(old(self).tokens(), old(self).position(), old(self).is_strict()),
    {
        if self.peek() != Some(TokenKind::N) {
            return Ok(None);
        }
        self.bump();
        match self.number() {
            Ok(n) => Ok(Some(n.to_u32())),
            Err(e) => if self.strict {
                Err(e)
            } else {
                Ok(None)
            },
        }
    }

    /// The kind of an argument: one of the argument letters, never `G`, `M`,
    /// `T`, `N` or `O`.
    pub fn arg_kind(&mut self) -> (r: Result<ArgumentKind, Error>)
        requires
            old(self).wf(),
        ensures
            final(self).wf(),
            final(self).tokens() == old(self).tokens(),
            final(self).is_strict() == old(self).is_strict(),
            (r, final(self).position()) == argument_kind_at(old(self).tokens(), old(self).position()),
    {
        match argument_kind_of_kind(self.peek()) {
            Some(k) => {
                self.bump();
                Ok(k)
            },
            None => Err(self.unexpected_here(Expected::ArgumentKind)),
        }
    }

    /// `arg ::= arg_kind number`: `None` where no argument letter comes next.
    pub fn arg(&mut self) -> (r: Result<Option<Argument>, Error>)
        requires
            old(self).wf(),
        ensures
            final(self).wf(),
            final(self).tokens() == old(self).tokens(),
            final(self).is_strict() == old(self).is_strict(),
            (r, final(self).position()) == argument_at(old(self).tokens(), old(self).position()),
    {
        let kind = match self.arg_kind() {
            Ok(k) => k,
            Err(_) => return Ok(None),
        };
        match self.number() {
            Ok(value) => Ok(Some(Argument { kind, value })),
            Err(e) => Err(e),
        }
    }

    /// `arg*`: arguments are read while they parse. An argument beyond the
    /// buffer's capacity is an error, and so is an argument letter without a
    /// number for a strict parser.
    pub fn args(&mut self) -> (r: Result<ArgBuffer, Error>)
        requires
            old(self).wf(),
        ensures
            final(self).wf(),
            final(self).tokens() == old(self).tokens(),
            final(self).is_strict() == old(self).is_strict(),
            ({
                let (spec_r, j) = arguments_from(
                    old(self).tokens(),
                    old(self).position(),
                    Seq::empty(),
                    old(self).is_strict(),
                );
                &&& final(self).position() == j
                &&& match r {
                    Ok(b) => spec_r == Ok::<Seq<Argument>, Error>(buffer_items(b)),
                    Err(e) => spec_r == Err::<Seq<Argument>, Error>(e),
                }
            }),
    {
        let ghost ts = self.tokens@;
        let ghost start = self.pos as int;
        let mut buffer = buffer_new();
        loop
            invariant
                self.wf(),
                self.tokens@ == ts,
                ts == old(self).tokens@,
                start == old(self).pos,
                self.strict == old(self).strict,
                arguments_from(ts, start, Seq::empty(), self.strict) == arguments_from(
                    ts,
                    self.pos as int,
                    buffer_items(buffer),
                    self.strict,
                ),
            decreases ts.len() - self.pos,
        {
            let ghost i = self.pos as int;
            let span = self.next_span();
            match self.arg() {
                Ok(Some(a)) => {
                    if !buffer_try_push(&mut buffer, a) {
                        return match span {
                            Some(sp) => Err(Error::TooManyArguments(sp)),
                            None => Err(Error::UnexpectedEOF),
                        };
                    }
                },
                Ok(None) => {
                    return Ok(buffer);
                },
                Err(e) => {
                    return if self.strict {
                        Err(e)
                    } else {
                        Ok(buffer)
                    };
                },
            }
        }
    }

    /// `command ::= line_number? command_name arg*`.
    pub fn command(&mut self) -> (r: Result<Command, Error>)
        requires
            old(self).wf(),
        ensures
            final(self).wf(),
            final(self).tokens() == old(self).tokens(),
            final(self).is_strict() == old(self).is_strict(),
            ({
                let (spec_r, j) = command_at(old(self).tokens(), old(self).position(), old(self).is_strict());
                &&& final(self).position() == j
                &&& match r {
                    Ok(c) => spec_r == Ok::<CommandView, Error>(c@),
                    Err(e) => spec_r == Err::<CommandView, Error>(e),
                }
            }),
    {
        let span = match self.next_span() {
            Some(span) => span,
            None => return Err(Error::UnexpectedEOF),
        };
        let line_number = match self.line_number() {
            Ok(n) => n,
            Err(e) => return Err(e),
        };
        let (command_type, command_number) = match self.command_name() {
            Ok(name) => name,
            Err(e) => return Err(e),
        };
        let args = match self.args() {
            Ok(a) => a,
            Err(e) => return Err(e),
        };
        Ok(Command { span, line_number, command_type, command_number, args })
    }

    /// Parses the next line: a program number if one comes next, else a
    /// command, which takes the span of the line's first token.
    pub fn parse(&mut self) -> (r: Result<Line, Error>)
        requires
            old(self).wf(),
        ensures
            final(self).wf(),
            final(self).tokens() == old(self).tokens(),
            final(self).is_strict() == old(self).is_strict(),
            (line_result_view(r), final(self).position()) == parse_at(old(self).tokens(), old(self).position(), old(self).is_strict()),
    {
        let next_span = self.next_span();
        match self.program_number() {
            Ok(n) => return Ok(Line::ProgramNumber(n)),
            Err(_) => {},
        }
        match self.command() {
            Ok(c) => {
                let mut c = c;
                match next_span {
                    Some(span) => {
                        c.span = span;
                    },
                    None => {},
                }
                Ok(Line::Cmd(c))
            },
            Err(e) => Err(e),
        }
    }

    /// The next line, or `None` once every token has been consumed. An error
    /// is handed out like a line; pulling again resumes after the tokens that
    /// the failed production consumed.
    pub fn next(&mut self) -> (r: Option<Result<Line, Error>>)
        requires
            old(self).wf(),
        ensures
            final(self).wf(),
            final(self).tokens() == old(self).tokens(),
            final(self).is_strict() == old(self).is_strict(),
            old(self).position() >= old(self).tokens().len() ==> r is None && final(self).position() == old(self).position(),
            old(self).position() < old(self).tokens().len() ==> (r matches Some(l)
                && (line_result_view(l), final(self).position()) == parse_at(old(self).tokens(), old(self).position(), old(self).is_strict())),
    {
        if self.pos >= self.tokens.len() {
            None
        } else {
            Some(self.parse())
        }
    }
}

} // verus!
