//! Laws that relate the tokens of a line to what the parser makes of them.
use vstd::prelude::*;
use crate::errors::Error;
use crate::lexer::{Token, TokenKind};
use crate::low_level::{
    Argument, ArgumentKind, BasicParser, CommandType, CommandView, LineView, argument_at, argument_kind_of,
    arguments_from, command_at, command_type_of, kind_at, line_number_at, number_at, parse_at,
};
use crate::number::{Decimal, negated, pow10, truncated_u32};

verus! {

/// The tokens from position `k` on are exactly of the kinds `ks`.
pub open spec fn spells_from(ts: Seq<Token>, k: int, ks: Seq<TokenKind>) -> bool {
    &&& 0 <= k
    &&& ts.len() == k + ks.len()
    &&& forall|i: int| 0 <= i < ks.len() ==> #[trigger] ts[k + i].kind == ks[i]
}

/// The token that names a command type.
pub open spec fn command_type_token(t: CommandType) -> TokenKind {
    match t {
        CommandType::G => TokenKind::G,
        CommandType::M => TokenKind::M,
        CommandType::T => TokenKind::T,
    }
}

/// The token that names an argument kind.
pub open spec fn argument_token(k: ArgumentKind) -> TokenKind {
    match k {
        ArgumentKind::X => TokenKind::X,
        ArgumentKind::Y => TokenKind::Y,
        ArgumentKind::Z => TokenKind::Z,
        ArgumentKind::R => TokenKind::R,
        ArgumentKind::S => TokenKind::S,
        ArgumentKind::H => TokenKind::H,
        ArgumentKind::FeedRate => TokenKind::FeedRate,
        ArgumentKind::P => TokenKind::P,
        ArgumentKind::I => TokenKind::I,
        ArgumentKind::J => TokenKind::J,
        ArgumentKind::E => TokenKind::E,
    }
}

/// The literal token of a whole number.
pub open spec fn integer_token(n: u32) -> TokenKind {
    TokenKind::Number(Decimal { negative: false, digits: n as u64, scale: 0 })
}

/// The tokens that spell a value: one literal, or, where `split_sign` is
/// set and the value is negative, a minus sign and the literal of its
/// magnitude (as the tokenizer reads `-2.5`).
pub open spec fn value_tokens(d: Decimal, split_sign: bool) -> Seq<TokenKind> {
    if split_sign && d.negative {
        seq![TokenKind::Minus, TokenKind::Number(negated(d))]
    } else {
        seq![TokenKind::Number(d)]
    }
}

/// The tokens that spell a list of arguments: a letter and a value each.
pub open spec fn encode_args(args: Seq<Argument>, split_sign: bool) -> Seq<TokenKind>
    decreases args.len(),
{
    if args.len() == 0 {
        Seq::empty()
    } else {
        seq![argument_token(args[0].kind)] + value_tokens(args[0].value, split_sign) + encode_args(
            args.drop_first(),
            split_sign,
        )
    }
}

/// The tokens that spell a command.
pub open spec fn encode_command(c: CommandView, split_sign: bool) -> Seq<TokenKind> {
    let prefix = match c.line_number {
        Some(n) => seq![TokenKind::N, integer_token(n)],
        None => Seq::empty(),
    };
    prefix + seq![command_type_token(c.command_type), integer_token(c.command_number)] + encode_args(
        c.args,
        split_sign,
    )
}

proof fn lemma_integer_value(n: u32)
    ensures
        truncated_u32(Decimal { negative: false, digits: n as u64, scale: 0 }) == n,
{
    assert(pow10(0) == 1);
    assert((n as u64) as nat / 1 == n as nat) by (nonlinear_arith);
}

proof fn lemma_arguments_reconstructed(
    ts: Seq<Token>,
    k: int,
    acc: Seq<Argument>,
    rest: Seq<Argument>,
    split_sign: bool,
    strict: bool,
)
    requires
        spells_from(ts, k, encode_args(rest, split_sign)),
        acc.len() + rest.len() <= 10,
    ensures
        arguments_from(ts, k, acc, strict) == (Ok::<Seq<Argument>, Error>(acc + rest), ts.len() as int),
    decreases rest.len(),
{
    let tail = encode_args(rest, split_sign);
    if rest.len() == 0 {
        assert(acc + rest =~= acc);
    } else {
        let more = encode_args(rest.drop_first(), split_sign);
        let v = rest[0].value;
        let w = value_tokens(v, split_sign).len() as int;
        assert(tail[0] == argument_token(rest[0].kind));
        assert(ts[k + 0].kind == tail[0]);
        if split_sign && v.negative {
            assert(tail[1] == TokenKind::Minus);
            assert(tail[2] == TokenKind::Number(negated(v)));
            assert(ts[k + 2].kind == tail[2]);
            assert(negated(negated(v)) == v);
        } else {
            assert(tail[1] == TokenKind::Number(v));
        }
        assert(ts[k + 1].kind == tail[1]);
        assert forall|i: int| 0 <= i < more.len() implies #[trigger] ts[(k + 1 + w) + i].kind == more[i] by {
            assert(tail[1 + w + i] == more[i]);
            assert(ts[k + (1 + w + i)].kind == tail[1 + w + i]);
        }
        lemma_arguments_reconstructed(ts, k + 1 + w, acc.push(rest[0]), rest.drop_first(), split_sign, strict);
        assert(acc.push(rest[0]) + rest.drop_first() =~= acc + rest);
    }
}

/// A sequence of tokens that spells a command, with at most 10 arguments, is
/// parsed into exactly that command, which takes the span of its first token,
/// and every token is consumed. Negative values may be spelled as negative
/// literals or as a minus sign and a literal. This holds for strict and for
/// lenient parsing alike.
pub proof fn lemma_parse_reconstructs_command(ts: Seq<Token>, c: CommandView, split_sign: bool, strict: bool)
    requires
        spells_from(ts, 0, encode_command(c, split_sign)),
        c.args.len() <= 10,
        c.span == ts[0].span,
    ensures
        parse_at(ts, 0, strict) == (Ok::<LineView, Error>(LineView::Cmd(c)), ts.len() as int),
{
    let ks = encode_command(c, split_sign);
    let k: int = if c.line_number is Some { 2 } else { 0 };
    let args = encode_args(c.args, split_sign);
    assert(ks[k] == command_type_token(c.command_type));
    assert(ks[k + 1] == integer_token(c.command_number));
    assert(ts[0int + 0].kind == ks[0]);
    assert(ts[0int + k].kind == ks[k]);
    assert(ts[0int + (k + 1)].kind == ks[k + 1]);
    if let Some(n) = c.line_number {
        assert(ks[1] == integer_token(n));
        assert(ts[0int + 1].kind == ks[1]);
        lemma_integer_value(n);
    }
    lemma_integer_value(c.command_number);
    assert forall|i: int| 0 <= i < args.len() implies #[trigger] ts[(k + 2) + i].kind == args[i] by {
        assert(ks[k + 2 + i] == args[i]);
        assert(ts[0int + (k + 2 + i)].kind == ks[k + 2 + i]);
    }
    lemma_arguments_reconstructed(ts, k + 2, Seq::empty(), c.args, split_sign, strict);
    assert(Seq::<Argument>::empty() + c.args =~= c.args);
}

/// A program number spelled as `O` and a whole number is parsed into that
/// program number, and both tokens are consumed.
pub proof fn lemma_parse_reconstructs_program_number(ts: Seq<Token>, n: u32, strict: bool)
    requires
        spells_from(ts, 0, seq![TokenKind::O, integer_token(n)]),
    ensures
        parse_at(ts, 0, strict) == (Ok::<LineView, Error>(LineView::ProgramNumber(n)), 2int),
{
    assert(ts[0int + 0].kind == TokenKind::O);
    assert(ts[0int + 1].kind == integer_token(n));
    lemma_integer_value(n);
}

/// A minus sign before a literal negates what the literal alone reads as.
pub proof fn lemma_minus_negates(ts: Seq<Token>, i: int)
    requires
        kind_at(ts, i) == Some(TokenKind::Minus),
        kind_at(ts, i + 1) matches Some(TokenKind::Number(_)),
    ensures
        number_at(ts, i + 1).0 matches Ok(n) && number_at(ts, i) == (Ok::<Decimal, Error>(negated(n)), i + 2),
{
}

/// No token that names a command type, a line number or a program number is
/// ever read as an argument kind.
pub proof fn lemma_command_letters_are_not_arguments(k: TokenKind)
    requires
        k == TokenKind::G || k == TokenKind::M || k == TokenKind::T || k == TokenKind::N || k == TokenKind::O,
    ensures
        argument_kind_of(Some(k)) is None,
        (k == TokenKind::G || k == TokenKind::M || k == TokenKind::T) ==> command_type_of(Some(k)) is Some,
{
}

/// On no tokens at all the line number and the argument are absent, and a
/// command meets the end of the input.
pub proof fn lemma_empty_input(ts: Seq<Token>, strict: bool)
    requires
        ts.len() == 0,
    ensures
        line_number_at(ts, 0, strict) == (Ok::<Option<u32>, Error>(None), 0int),
        argument_at(ts, 0) == (Ok::<Option<Argument>, Error>(None), 0int),
        command_at(ts, 0, strict).0 == Err::<CommandView, Error>(Error::UnexpectedEOF),
{
}

/// Two parsers over the same tokens, at the same position and with the same
/// policy, parse the same line and stop at the same position: parsing has no
/// hidden state.
pub proof fn lemma_parse_deterministic(a: BasicParser, b: BasicParser)
    requires
        a.tokens() == b.tokens(),
        a.position() == b.position(),
        a.is_strict() == b.is_strict(),
    ensures
        parse_at(a.tokens(), a.position(), a.is_strict()) == parse_at(b.tokens(), b.position(), b.is_strict()),
{
}

} // verus!
