//! The canonical text of numbers, arguments, commands and lines.
use vstd::prelude::*;
use crate::lexer::Span;
use crate::low_level::{Argument, ArgumentKind, Command, CommandType, CommandView, Line, LineView};
use crate::number::Decimal;

verus! {

/// The character of a decimal digit.
pub open spec fn digit_char(d: nat) -> char {
    if d == 0 {
        '0'
    } else if d == 1 {
        '1'
    } else if d == 2 {
        '2'
    } else if d == 3 {
        '3'
    } else if d == 4 {
        '4'
    } else if d == 5 {
        '5'
    } else if d == 6 {
        '6'
    } else if d == 7 {
        '7'
    } else if d == 8 {
        '8'
    } else {
        '9'
    }
}

/// The decimal digits of `n`, without leading zeros (`0` is one digit).
pub open spec fn digits_of(n: nat) -> Seq<char>
    decreases n,
{
    if n < 10 {
        seq![digit_char(n)]
    } else {
        digits_of(n / 10).push(digit_char(n % 10))
    }
}

/// The digits of `n`, with zeros in front up to `width` characters.
pub open spec fn padded_digits(n: nat, width: nat) -> Seq<char> {
    let ds = digits_of(n);
    if ds.len() >= width {
        ds
    } else {
        Seq::new((width - ds.len()) as nat, |_i: int| '0') + ds
    }
}

/// The text of a decimal: an optional minus sign, then its digits with a
/// decimal point before the last `scale` of them (and at least one digit
/// before the point).
pub open spec fn decimal_text(d: Decimal) -> Seq<char> {
    let sign = if d.negative { seq!['-'] } else { Seq::empty() };
    if d.scale == 0 {
        sign + digits_of(d.digits as nat)
    } else {
        let p = padded_digits(d.digits as nat, d.scale as nat + 1);
        let cut = p.len() - d.scale;
        sign + p.subrange(0, cut) + seq!['.'] + p.subrange(cut, p.len() as int)
    }
}

/// The letter of an argument kind.
pub open spec fn argument_letter(k: ArgumentKind) -> char {
    match k {
        ArgumentKind::X => 'X',
        ArgumentKind::Y => 'Y',
        ArgumentKind::Z => 'Z',
        ArgumentKind::R => 'R',
        ArgumentKind::S => 'S',
        ArgumentKind::H => 'H',
        ArgumentKind::FeedRate => 'F',
        ArgumentKind::P => 'P',
        ArgumentKind::I => 'I',
        ArgumentKind::J => 'J',
        ArgumentKind::E => 'E',
    }
}

/// The letter of a command type.
pub open spec fn command_letter(t: CommandType) -> char {
    match t {
        CommandType::G => 'G',
        CommandType::M => 'M',
        CommandType::T => 'T',
    }
}

/// The text of an argument: its letter and its value.
pub open spec fn argument_text(a: Argument) -> Seq<char> {
    seq![argument_letter(a.kind)] + decimal_text(a.value)
}

/// The arguments, each after a space.
pub open spec fn args_text(args: Seq<Argument>) -> Seq<char>
    decreases args.len(),
{
    if args.len() == 0 {
        Seq::empty()
    } else {
        args_text(args.drop_last()) + seq![' '] + argument_text(args.last())
    }
}

/// The canonical text of a command: `N<line> ` if it has a line number,
/// then its letter and number, then its arguments.
pub open spec fn command_text(c: CommandView) -> Seq<char> {
    let prefix = match c.line_number {
        Some(n) => seq!['N'] + digits_of(n as nat) + seq![' '],
        None => Seq::empty(),
    };
    prefix + seq![command_letter(c.command_type)] + digits_of(c.command_number as nat) + args_text(c.args)
}

/// The text of a span, as a comment after a command.
pub open spec fn span_text(s: Span) -> Seq<char> {
    seq!['\t', '(', 'l', 'i', 'n', 'e', ':', ' '] + digits_of(s.line as nat) + seq![
        ',',
        ' ',
        'c',
        'o',
        'l',
        'u',
        'm',
        'n',
        ':',
        ' ',
    ] + digits_of(s.column as nat) + seq![')']
}

/// The text of a line: a command followed by its span, or `O` and the
/// program number.
pub open spec fn line_text(l: LineView) -> Seq<char> {
    match l {
        LineView::Cmd(c) => command_text(c) + span_text(c.span),
        LineView::ProgramNumber(n) => seq!['O'] + digits_of(n as nat),
    }
}

/// Relies on `String::from_iter`: the string of the given characters, in
/// order.
#[verifier::external_body]
fn string_of(cs: &Vec<char>) -> (r: String)
    ensures
        r@ == cs@,
{
    cs.iter().collect()
}

fn digit_char_of(d: u64) -> (r: char)
    requires
        d < 10,
    ensures
        r == digit_char(d as nat),
{
    if d == 0 {
        '0'
    } else if d == 1 {
        '1'
    } else if d == 2 {
        '2'
    } else if d == 3 {
        '3'
    } else if d == 4 {
        '4'
    } else if d == 5 {
        '5'
    } else if d == 6 {
        '6'
    } else if d == 7 {
        '7'
    } else if d == 8 {
        '8'
    } else {
        '9'
    }
}

/// Appends the digits of `n`.
fn push_digits(out: &mut Vec<char>, n: u64)
    ensures
        final(out)@ == old(out)@ + digits_of(n as nat),
    decreases n,
{
    if n >= 10 {
        push_digits(out, n / 10);
    }
    out.push(digit_char_of(n % 10));
}

/// The number of digits of `n`.
fn digit_count(n: u64) -> (r: u64)
    ensures
        r == digits_of(n as nat).len(),
    decreases n,
{
    if n >= 10 {
        let r = digit_count(n / 10);
        proof {
            lemma_digits_len_bounded(n as nat / 10);
        }
        r + 1
    } else {
        1
    }
}

proof fn lemma_digits_len_bounded(n: nat)
    ensures
        1 <= digits_of(n).len() <= n + 1,
    decreases n,
{
    if n >= 10 {
        lemma_digits_len_bounded(n / 10);
    }
}

/// Appends the text of a decimal.
fn push_decimal(out: &mut Vec<char>, d: Decimal)
    ensures
        final(out)@ == old(out)@ + decimal_text(d),
{
    let ghost start = out@;
    if d.negative {
        out.push('-');
    }
    let ghost sign = if d.negative { seq!['-'] } else { Seq::<char>::empty() };
    assert(out@ == start + sign);
    if d.scale == 0 {
        push_digits(out, d.digits);
        assert(out@ =~= start + (sign + digits_of(d.digits as nat)));
        return;
    }
    let count = digit_count(d.digits);
    let width: u64 = d.scale as u64 + 1;
    let mut p: Vec<char> = Vec::new();
    if count < width {
        let zeros = width - count;
        let mut k: u64 = 0;
        while k < zeros
            invariant
                k <= zeros,
                p@ =~= Seq::new(k as nat, |_i: int| '0'),
            decreases zeros - k,
        {
            p.push('0');
            k = k + 1;
        }
    }
    push_digits(&mut p, d.digits);
    let ghost pd = padded_digits(d.digits as nat, d.scale as nat + 1);
    assert(p@ =~= pd);
    let cut: usize = p.len() - d.scale as usize;
    let mut i: usize = 0;
    while i < cut
        invariant
            i <= cut,
            cut == p@.len() - d.scale,
            p@ == pd,
            out@ =~= start + sign + p@.subrange(0, i as int),
        decreases cut - i,
    {
        out.push(p[i]);
        i = i + 1;
    }
    out.push('.');
    let ghost mid = out@;
    while i < p.len()
        invariant
            cut <= i <= p@.len(),
            cut == p@.len() - d.scale,
            p@ == pd,
            out@ =~= mid + p@.subrange(cut as int, i as int),
        decreases p.len() - i,
    {
        out.push(p[i]);
        i = i + 1;
    }
    assert(out@ =~= start + decimal_text(d));
}

fn argument_letter_of(k: ArgumentKind) -> (r: char)
    ensures
        r == argument_letter(k),
{
    match k {
        ArgumentKind::X => 'X',
        ArgumentKind::Y => 'Y',
        ArgumentKind::Z => 'Z',
        ArgumentKind::R => 'R',
        ArgumentKind::S => 'S',
        ArgumentKind::H => 'H',
        ArgumentKind::FeedRate => 'F',
        ArgumentKind::P => 'P',
        ArgumentKind::I => 'I',
        ArgumentKind::J => 'J',
        ArgumentKind::E => 'E',
    }
}

fn command_letter_of(t: CommandType) -> (r: char)
    ensures
        r == command_letter(t),
{
    match t {
        CommandType::G => 'G',
        CommandType::M => 'M',
        CommandType::T => 'T',
    }
}

fn push_command(out: &mut Vec<char>, c: &Command)
    ensures
        final(out)@ == old(out)@ + command_text(c@),
{
    let ghost start = out@;
    let ghost cv = c@;
    match c.line_number() {
        Some(n) => {
            out.push('N');
            push_digits(out, n as u64);
            out.push(' ');
        },
        None => {},
    }
    let (ty, number) = c.command();
    out.push(command_letter_of(ty));
    push_digits(out, number as u64);
    let ghost prefix = match cv.line_number {
        Some(n) => seq!['N'] + digits_of(n as nat) + seq![' '],
        None => Seq::empty(),
    };
    assert(out@ =~= start + prefix + seq![command_letter(ty)] + digits_of(number as nat));
    let ghost head = out@;
    let args = c.args();
    let mut i: usize = 0;
    assert(args@.subrange(0, 0) =~= Seq::<Argument>::empty());
    while i < args.len()
        invariant
            i <= args@.len(),
            args@ == cv.args,
            out@ =~= head + args_text(args@.subrange(0, i as int)),
        decreases args.len() - i,
    {
        let ghost before = out@;
        let a = args[i];
        out.push(' ');
        out.push(argument_letter_of(a.kind));
        push_decimal(out, a.value);
        proof {
            let sub = args@.subrange(0, i + 1);
            assert(sub.drop_last() =~= args@.subrange(0, i as int));
            assert(sub.last() == a);
        }
        i = i + 1;
    }
    assert(args@.subrange(0, args@.len() as int) =~= args@);
}

fn push_span(out: &mut Vec<char>, span: Span)
    ensures
        final(out)@ == old(out)@ + span_text(span),
{
    let ghost start = out@;
    out.push('\t');
    out.push('(');
    out.push('l');
    out.push('i');
    out.push('n');
    out.push('e');
    out.push(':');
    out.push(' ');
    let ghost a = out@;
    assert(a =~= start + seq!['\t', '(', 'l', 'i', 'n', 'e', ':', ' ']);
    push_digits(out, span.line as u64);
    let ghost b = out@;
    out.push(',');
    out.push(' ');
    out.push('c');
    out.push('o');
    out.push('l');
    out.push('u');
    out.push('m');
    out.push('n');
    out.push(':');
    out.push(' ');
    assert(out@ =~= b + seq![',', ' ', 'c', 'o', 'l', 'u', 'm', 'n', ':', ' ']);
    let ghost c = out@;
    push_digits(out, span.column as u64);
    out.push(')');
    assert(out@ =~= c + digits_of(span.column as nat) + seq![')']);
    assert(out@ =~= start + span_text(span));
}

impl Decimal {
    /// The decimal's text, e.g. `-3.14`.
    pub fn to_text(&self) -> (r: String)
        ensures
            r@ == decimal_text(*self),
    {
        let mut out: Vec<char> = Vec::new();
        push_decimal(&mut out, *self);
        assert(out@ =~= decimal_text(*self));
        string_of(&out)
    }
}

impl ArgumentKind {
    /// The argument's letter (`F` for the feed rate).
    pub fn letter(&self) -> (r: char)
        ensures
            r == argument_letter(*self),
    {
        argument_letter_of(*self)
    }
}

impl CommandType {
    /// The command type's letter.
    pub fn letter(&self) -> (r: char)
        ensures
            r == command_letter(*self),
    {
        command_letter_of(*self)
    }
}

impl Argument {
    /// The argument's text, e.g. `X-3.14`.
    pub fn to_text(&self) -> (r: String)
        ensures
            r@ == argument_text(*self),
    {
        let mut out: Vec<char> = Vec::new();
        out.push(argument_letter_of(self.kind));
        push_decimal(&mut out, self.value);
        assert(out@ =~= argument_text(*self));
        string_of(&out)
    }
}

impl Command {
    /// The command's canonical text, e.g. `N10 G1 X2.5 F300`, which the
    /// tokenizer and the parser read back.
    pub fn canonical_text(&self) -> (r: String)
        ensures
            r@ == command_text(self@),
    {
        let mut out: Vec<char> = Vec::new();
        push_command(&mut out, self);
        assert(out@ =~= command_text(self@));
        string_of(&out)
    }

    /// The command's text followed by its place in the source, e.g.
    /// `G1 X2\t(line: 3, column: 0)`.
    pub fn to_text(&self) -> (r: String)
        ensures
            r@ == command_text(self@) + span_text(self@.span),
    {
        let mut out: Vec<char> = Vec::new();
        push_command(&mut out, self);
        push_span(&mut out, self.span());
        assert(out@ =~= command_text(self@) + span_text(self@.span));
        string_of(&out)
    }
}

impl Line {
    /// The line's text: a command and its place, or `O` and the program
    /// number.
    pub fn to_text(&self) -> (r: String)
        ensures
            r@ == line_text(self@),
    {
        match self {
            Line::Cmd(c) => c.to_text(),
            Line::ProgramNumber(n) => {
                let mut out: Vec<char> = Vec::new();
                out.push('O');
                push_digits(&mut out, *n as u64);
                assert(out@ =~= line_text(self@));
                string_of(&out)
            },
        }
    }
}

} // verus!
