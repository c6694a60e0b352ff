//! Turning a sequence of characters into tokens.
use vstd::prelude::*;
use crate::errors::Error;
use crate::number::Decimal;

verus! {

/// A position in the source text: a line and a column, both counted from 0.
#[derive(Clone, Copy, Debug, PartialEq, Eq, Structural)]
pub struct Span {
    /// The line, counted from 0.
    pub line: usize,
    /// The column within the line, counted from 0.
    pub column: usize,
}

impl Span {
    /// A span at the given line and column.
    pub fn new(line: usize, column: usize) -> (r: Span)
        ensures
            r == (Span { line, column }),
    {
        Span { line, column }
    }
}

/// What kind of token was read.
#[derive(Clone, Copy, Debug, PartialEq, Eq, Structural)]
#[allow(missing_docs)]
pub enum TokenKind {
    O,
    N,
    G,
    M,
    T,
    X,
    Y,
    Z,
    R,
    S,
    H,
    P,
    I,
    J,
    E,
    /// The feed-rate letter, `F`.
    FeedRate,
    /// A numeric literal.
    Number(Decimal),
    /// A minus sign.
    Minus,
}

/// A token and the place where it starts.
#[derive(Clone, Copy, Debug, PartialEq, Eq, Structural)]
pub struct Token {
    /// What was read.
    pub kind: TokenKind,
    /// Where it starts.
    pub span: Span,
}

impl Token {
    /// A token of the given kind at the given place.
    pub fn new(kind: TokenKind, span: Span) -> (r: Token)
        ensures
            r == (Token { kind, span }),
    {
        Token { kind, span }
    }

    /// A token of the given kind at line 0, column 0.
    pub fn from_kind(kind: TokenKind) -> (r: Token)
        ensures
            r == (Token { kind, span: Span { line: 0, column: 0 } }),
    {
        Token { kind, span: Span { line: 0, column: 0 } }
    }

    /// What was read.
    pub fn kind(&self) -> (r: TokenKind)
        ensures
            r == self.kind,
    {
        self.kind
    }

    /// Where it starts.
    pub fn span(&self) -> (r: Span)
        ensures
            r == self.span,
    {
        self.span
    }
}

/// The token kind of a command or argument letter, in either case.
fn classify_letter(c: char) -> (r: Option<TokenKind>)
    ensures
        r == letter_kind(c),
{
    if c == 'O' || c == 'o' {
        Some(TokenKind::O)
    } else if c == 'N' || c == 'n' {
        Some(TokenKind::N)
    } else if c == 'G' || c == 'g' {
        Some(TokenKind::G)
    } else if c == 'M' || c == 'm' {
        Some(TokenKind::M)
    } else if c == 'T' || c == 't' {
        Some(TokenKind::T)
    } else if c == 'X' || c == 'x' {
        Some(TokenKind::X)
    } else if c == 'Y' || c == 'y' {
        Some(TokenKind::Y)
    } else if c == 'Z' || c == 'z' {
        Some(TokenKind::Z)
    } else if c == 'R' || c == 'r' {
        Some(TokenKind::R)
    } else if c == 'S' || c == 's' {
        Some(TokenKind::S)
    } else if c == 'H' || c == 'h' {
        Some(TokenKind::H)
    } else if c == 'P' || c == 'p' {
        Some(TokenKind::P)
    } else if c == 'I' || c == 'i' {
        Some(TokenKind::I)
    } else if c == 'J' || c == 'j' {
        Some(TokenKind::J)
    } else if c == 'E' || c == 'e' {
        Some(TokenKind::E)
    } else if c == 'F' || c == 'f' {
        Some(TokenKind::FeedRate)
    } else {
        None
    }
}

/// Whether a character is skipped between tokens.
pub fn is_whitespace(c: char) -> (r: bool)
    ensures
        r == is_blank(c),
{
    c == ' ' || c == '\t' || c == '\r' || c == '\n'
}

fn is_digit_char(c: char) -> (r: bool)
    ensures
        r == is_digit(c),
{
    '0' <= c && c <= '9'
}

/// A scanner over a sequence of characters that hands out one token at a
/// time. After the first error, or once the input is used up, it hands out
/// nothing more.
pub struct Tokenizer {
    chars: Vec<char>,
    pos: usize,
    line: usize,
    column: usize,
    finished: bool,
}

impl Tokenizer {
    /// The characters being scanned.
    pub closed spec fn source(&self) -> Seq<char> {
        self.chars@
    }

    /// The position of the next character to scan.
    pub closed spec fn position(&self) -> int {
        self.pos as int
    }

    /// Whether the scanner has stopped.
    pub closed spec fn is_finished(&self) -> bool {
        self.finished
    }

    /// The position is within the text, and the line and column are those of
    /// the position.
    pub closed spec fn wf(&self) -> bool {
        &&& self.pos <= self.chars@.len()
        &&& self.line == line_of(self.chars@, self.pos as int)
        &&& self.column == column_of(self.chars@, self.pos as int)
    }

    /// A scanner at the start of `chars`.
    pub fn new(chars: Vec<char>) -> (r: Tokenizer)
        ensures
            r.wf(),
            r.source() == chars@,
            r.position() == 0,
            !r.is_finished(),
    {
        Tokenizer { chars, pos: 0, line: 0, column: 0, finished: false }
    }

    fn advance(&mut self)
        requires
            old(self).wf(),
            old(self).pos < old(self).chars@.len(),
        ensures
            final(self).wf(),
            final(self).chars@ == old(self).chars@,
            final(self).finished == old(self).finished,
            final(self).pos == old(self).pos + 1,
    {
        let len = self.chars.len();
        proof {
            lemma_span_bounded(self.chars@, self.pos as int);
        }
        if self.chars[self.pos] == '\n' {
            self.line = self.line + 1;
            self.column = 0;
        } else {
            self.column = self.column + 1;
        }
        self.pos = self.pos + 1;
    }

    /// Reads the numeric literal at the current position, whose first
    /// character is a digit.
    fn literal(&mut self, span: Span) -> (r: Result<Token, Error>)
        requires
            old(self).wf(),
            old(self).pos < old(self).chars@.len(),
            is_digit(old(self).chars@[old(self).pos as int]),
        ensures
            final(self).wf(),
            final(self).chars@ == old(self).chars@,
            final(self).finished == old(self).finished,
            final(self).pos == literal_end(old(self).chars@, old(self).pos as int),
            r == (if literal_fits(old(self).chars@, old(self).pos as int) {
                Ok::<Token, Error>(Token { kind: TokenKind::Number(literal_value(old(self).chars@, old(self).pos as int)), span })
            } else {
                Err::<Token, Error>(Error::NumberTooLarge(span))
            }),
    {
        let ghost s = self.chars@;
        let start = self.pos;
        let mut acc: u64 = 0;
        let mut overflow = false;
        assert(s.subrange(start as int, start as int) =~= Seq::<char>::empty());
        while self.pos < self.chars.len() && is_digit_char(self.chars[self.pos])
            invariant
                self.wf(),
                self.chars@ == s,
                self.finished == old(self).finished,
                start <= self.pos <= s.len(),
                digits_end(s, start as int) == digits_end(s, self.pos as int),
                overflow ==> digits_value(s.subrange(start as int, self.pos as int)) > u64::MAX,
                !overflow ==> acc == digits_value(s.subrange(start as int, self.pos as int)),
            decreases s.len() - self.pos,
        {
            let ghost x = s.subrange(start as int, self.pos as int);
            let d = (self.chars[self.pos] as u32 - '0' as u32) as u64;
            proof {
                let y = s.subrange(start as int, self.pos + 1);
                assert(y.drop_last() =~= x);
                assert(y.last() == s[self.pos as int]);
            }
            if !overflow {
                if acc > (u64::MAX - d) / 10 {
                    overflow = true;
                } else {
                    acc = acc * 10 + d;
                }
            }
            self.advance();
        }
        let int_end = self.pos;
        let mut fraction_len: usize = 0;
        if self.pos < self.chars.len() && self.chars[self.pos] == '.' {
            self.advance();
            let frac_start = self.pos;
            let ghost whole = s.subrange(start as int, int_end as int);
            assert(whole + s.subrange(frac_start as int, frac_start as int) =~= whole);
            while self.pos < self.chars.len() && is_digit_char(self.chars[self.pos])
                invariant
                    self.wf(),
                    self.chars@ == s,
                    self.finished == old(self).finished,
                    frac_start <= self.pos <= s.len(),
                    digits_end(s, frac_start as int) == digits_end(s, self.pos as int),
                    overflow ==> digits_value(whole + s.subrange(frac_start as int, self.pos as int)) > u64::MAX,
                    !overflow ==> acc == digits_value(whole + s.subrange(frac_start as int, self.pos as int)),
                decreases s.len() - self.pos,
            {
                let ghost x = whole + s.subrange(frac_start as int, self.pos as int);
                let d = (self.chars[self.pos] as u32 - '0' as u32) as u64;
                proof {
                    let y = whole + s.subrange(frac_start as int, self.pos + 1);
                    assert(y.drop_last() =~= x);
                    assert(y.last() == s[self.pos as int]);
                }
                if !overflow {
                    if acc > (u64::MAX - d) / 10 {
                        overflow = true;
                    } else {
                        acc = acc * 10 + d;
                    }
                }
                self.advance();
            }
            fraction_len = self.pos - frac_start;
        }
        if overflow || fraction_len > u32::MAX as usize {
            Err(Error::NumberTooLarge(span))
        } else {
            Ok(Token { kind: TokenKind::Number(Decimal { negative: false, digits: acc, scale: fraction_len as u32 }), span })
        }
    }

    /// The next token, or the error that stops the scan, or `None` once the
    /// input holds nothing more or the scan has stopped.
    pub fn next_token(&mut self) -> (r: Option<Result<Token, Error>>)
        requires
            old(self).wf(),
        ensures
            final(self).wf(),
            final(self).source() == old(self).source(),
            old(self).is_finished() ==> r is None && final(self).is_finished(),
            !old(self).is_finished() ==> match lex_step(old(self).source(), old(self).position()) {
                None => r is None && final(self).is_finished(),
                Some((Ok(t), j)) => r == Some(Ok::<Token, Error>(t)) && final(self).position() == j
                    && !final(self).is_finished(),
                Some((Err(e), _)) => r == Some(Err::<Token, Error>(e)) && final(self).is_finished(),
            },
    {
        if self.finished {
            return None;
        }
        let ghost s = self.chars@;
        let ghost start = self.pos as int;
        while self.pos < self.chars.len() && is_whitespace(self.chars[self.pos])
            invariant
                self.wf(),
                self.chars@ == s,
                !self.finished,
                lex_step(s, start) == lex_step(s, self.pos as int),
            decreases s.len() - self.pos,
        {
            self.advance();
        }
        if self.pos >= self.chars.len() {
            self.finished = true;
            return None;
        }
        let c = self.chars[self.pos];
        let span = Span { line: self.line, column: self.column };
        match classify_letter(c) {
            Some(kind) => {
                self.advance();
                return Some(Ok(Token { kind, span }));
            },
            None => {},
        }
        if c == '-' {
            self.advance();
            return Some(Ok(Token { kind: TokenKind::Minus, span }));
        }
        if is_digit_char(c) {
            let r = self.literal(span);
            if r.is_err() {
                self.finished = true;
            }
            return Some(r);
        }
        self.advance();
        self.finished = true;
        Some(Err(Error::UnrecognisedCharacter(c, span)))
    }
}

/// A result of tokenizing, with the vector of tokens seen as a sequence.
pub open spec fn tokens_view(r: Result<Vec<Token>, Error>) -> Result<Seq<Token>, Error> {
    match r {
        Ok(v) => Ok(v@),
        Err(e) => Err(e),
    }
}

/// All the tokens of `chars`, or the first error.
pub fn tokenize(chars: Vec<char>) -> (r: Result<Vec<Token>, Error>)
    ensures
        tokens_view(r) == lex_from(chars@, 0),
{
    let ghost s = chars@;
    let mut tokenizer = Tokenizer::new(chars);
    let mut out: Vec<Token> = Vec::new();
    assert(out@ + seq![] =~= out@);
    loop
        invariant
            tokenizer.wf(),
            tokenizer.source() == s,
            s == chars@,
            !tokenizer.is_finished(),
            0 <= tokenizer.position() <= s.len(),
            lex_from(s, 0) == prepend(out@, lex_from(s, tokenizer.position())),
        decreases s.len() - tokenizer.position(),
    {
        let ghost i = tokenizer.position();
        proof {
            lemma_lex_step_advances(s, i);
        }
        match tokenizer.next_token() {
            None => {
                assert(lex_step(s, i) is None);
                assert(lex_from(s, i) == Ok::<Seq<Token>, Error>(Seq::empty()));
                assert(out@ + Seq::<Token>::empty() =~= out@);
                return Ok(out);
            },
            Some(Err(e)) => {
                assert(lex_from(s, i) == Err::<Seq<Token>, Error>(e));
                return Err(e);
            },
            Some(Ok(t)) => {
                proof {
                    let j = tokenizer.position();
                    match lex_from(s, j) {
                        Ok(rest) => {
                            assert(out@ + (seq![t] + rest) =~= out@.push(t) + rest);
                        },
                        Err(_) => {},
                    }
                }
                out.push(t);
            },
        }
    }
}

/// The token kind of a command or argument letter, in either case.
pub open spec fn letter_kind(c: char) -> Option<TokenKind> {
    if c == 'O' || c == 'o' {
        Some(TokenKind::O)
    } else if c == 'N' || c == 'n' {
        Some(TokenKind::N)
    } else if c == 'G' || c == 'g' {
        Some(TokenKind::G)
    } else if c == 'M' || c == 'm' {
        Some(TokenKind::M)
    } else if c == 'T' || c == 't' {
        Some(TokenKind::T)
    } else if c == 'X' || c == 'x' {
        Some(TokenKind::X)
    } else if c == 'Y' || c == 'y' {
        Some(TokenKind::Y)
    } else if c == 'Z' || c == 'z' {
        Some(TokenKind::Z)
    } else if c == 'R' || c == 'r' {
        Some(TokenKind::R)
    } else if c == 'S' || c == 's' {
        Some(TokenKind::S)
    } else if c == 'H' || c == 'h' {
        Some(TokenKind::H)
    } else if c == 'P' || c == 'p' {
        Some(TokenKind::P)
    } else if c == 'I' || c == 'i' {
        Some(TokenKind::I)
    } else if c == 'J' || c == 'j' {
        Some(TokenKind::J)
    } else if c == 'E' || c == 'e' {
        Some(TokenKind::E)
    } else if c == 'F' || c == 'f' {
        Some(TokenKind::FeedRate)
    } else {
        None
    }
}

/// Characters skipped between tokens: spaces, tabs and line breaks.
pub open spec fn is_blank(c: char) -> bool {
    c == ' ' || c == '\t' || c == '\r' || c == '\n'
}

/// A decimal digit.
pub open spec fn is_digit(c: char) -> bool {
    '0' <= c && c <= '9'
}

/// The value of a decimal digit.
pub open spec fn digit_value(c: char) -> nat {
    (c as u32 - '0' as u32) as nat
}

/// The integer that a string of digits spells.
pub open spec fn digits_value(x: Seq<char>) -> nat
    decreases x.len(),
{
    if x.len() == 0 {
        0
    } else {
        digits_value(x.drop_last()) * 10 + digit_value(x.last())
    }
}

/// The line of position `i`: the number of line breaks before it.
pub open spec fn line_of(s: Seq<char>, i: int) -> nat
    decreases i,
{
    if i <= 0 {
        0
    } else {
        line_of(s, i - 1) + if s[i - 1] == '\n' {
            1nat
        } else {
            0nat
        }
    }
}

/// The column of position `i`: the number of characters since the last line
/// break before it.
pub open spec fn column_of(s: Seq<char>, i: int) -> nat
    decreases i,
{
    if i <= 0 {
        0
    } else if s[i - 1] == '\n' {
        0
    } else {
        column_of(s, i - 1) + 1
    }
}

/// The span of position `i`.
pub open spec fn span_at(s: Seq<char>, i: int) -> Span {
    Span { line: line_of(s, i) as usize, column: column_of(s, i) as usize }
}

/// The end of the run of digits that starts at `i`.
pub open spec fn digits_end(s: Seq<char>, i: int) -> int
    decreases s.len() - i,
{
    if 0 <= i < s.len() && is_digit(s[i]) {
        digits_end(s, i + 1)
    } else {
        i
    }
}

/// Whether the digits of the literal at `i` are followed by a decimal point.
pub open spec fn has_point(s: Seq<char>, i: int) -> bool {
    let d = digits_end(s, i);
    d < s.len() && s[d] == '.'
}

/// The end of the numeric literal that starts at `i`.
pub open spec fn literal_end(s: Seq<char>, i: int) -> int {
    if has_point(s, i) {
        digits_end(s, digits_end(s, i) + 1)
    } else {
        digits_end(s, i)
    }
}

/// The digits of the literal at `i` that stand after its decimal point.
pub open spec fn fraction_digits(s: Seq<char>, i: int) -> Seq<char> {
    if has_point(s, i) {
        s.subrange(digits_end(s, i) + 1, literal_end(s, i))
    } else {
        Seq::empty()
    }
}

/// All the digits of the literal at `i`, without its decimal point.
pub open spec fn literal_digits(s: Seq<char>, i: int) -> Seq<char> {
    s.subrange(i, digits_end(s, i)) + fraction_digits(s, i)
}

/// Whether the literal at `i` fits in a `Decimal`.
pub open spec fn literal_fits(s: Seq<char>, i: int) -> bool {
    digits_value(literal_digits(s, i)) <= u64::MAX && fraction_digits(s, i).len() <= u32::MAX
}

/// The value of the literal at `i`, where it fits.
pub open spec fn literal_value(s: Seq<char>, i: int) -> Decimal {
    Decimal {
        negative: false,
        digits: digits_value(literal_digits(s, i)) as u64,
        scale: fraction_digits(s, i).len() as u32,
    }
}

/// The next token at or after position `i` and the position after it, or
/// `None` where only blanks remain.
pub open spec fn lex_step(s: Seq<char>, i: int) -> Option<(Result<Token, Error>, int)>
    decreases s.len() - i,
{
    if i < 0 || i >= s.len() {
        None
    } else if is_blank(s[i]) {
        lex_step(s, i + 1)
    } else {
        let c = s[i];
        let span = span_at(s, i);
        Some(
            if letter_kind(c) is Some {
                (Ok(Token { kind: letter_kind(c)->0, span }), i + 1)
            } else if c == '-' {
                (Ok(Token { kind: TokenKind::Minus, span }), i + 1)
            } else if is_digit(c) {
                if literal_fits(s, i) {
                    (Ok(Token { kind: TokenKind::Number(literal_value(s, i)), span }), literal_end(s, i))
                } else {
                    (Err(Error::NumberTooLarge(span)), literal_end(s, i))
                }
            } else {
                (Err(Error::UnrecognisedCharacter(c, span)), i + 1)
            },
        )
    }
}

/// `prefix` put in front of a sequence of tokens, or the error that ended it.
pub open spec fn prepend(prefix: Seq<Token>, r: Result<Seq<Token>, Error>) -> Result<Seq<Token>, Error> {
    match r {
        Ok(rest) => Ok(prefix + rest),
        Err(e) => Err(e),
    }
}

/// The tokens of `s` from position `i` on, or the first error.
pub open spec fn lex_from(s: Seq<char>, i: int) -> Result<Seq<Token>, Error>
    decreases s.len() - i,
    via lex_from_decreases
{
    match lex_step(s, i) {
        None => Ok(Seq::empty()),
        Some((Err(e), _)) => Err(e),
        Some((Ok(t), j)) => prepend(seq![t], lex_from(s, j)),
    }
}

#[via_fn]
proof fn lex_from_decreases(s: Seq<char>, i: int) {
    lemma_lex_step_advances(s, i);
}

proof fn lemma_digits_end_bounds(s: Seq<char>, i: int)
    requires
        0 <= i <= s.len(),
    ensures
        i <= digits_end(s, i) <= s.len(),
    decreases s.len() - i,
{
    if i < s.len() && is_digit(s[i]) {
        lemma_digits_end_bounds(s, i + 1);
    }
}

/// Each step moves forward and stays within the text.
pub proof fn lemma_lex_step_advances(s: Seq<char>, i: int)
    ensures
        lex_step(s, i) matches Some((_, j)) ==> i < j <= s.len(),
    decreases s.len() - i,
{
    if 0 <= i < s.len() {
        if is_blank(s[i]) {
            lemma_lex_step_advances(s, i + 1);
        } else if is_digit(s[i]) {
            lemma_digits_end_bounds(s, i + 1);
            assert(digits_end(s, i) == digits_end(s, i + 1));
            let d = digits_end(s, i);
            if has_point(s, i) {
                lemma_digits_end_bounds(s, d + 1);
            }
        }
    }
}

proof fn lemma_span_bounded(s: Seq<char>, i: int)
    requires
        0 <= i <= s.len(),
    ensures
        line_of(s, i) <= i,
        column_of(s, i) <= i,
    decreases i,
{
    if i > 0 {
        lemma_span_bounded(s, i - 1);
    }
}

} // verus!
