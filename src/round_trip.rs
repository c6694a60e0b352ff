//! Reading back the canonical text of a command.
use vstd::prelude::*;
use vstd::arithmetic::div_mod::lemma_fundamental_div_mod;
use crate::lexer::{
    Span, Token, lemma_lex_step_advances, TokenKind, digit_value, digits_end, digits_value, fraction_digits, has_point, is_blank,
    is_digit, letter_kind, lex_from, lex_step, literal_digits, literal_end, literal_fits, literal_value,
    span_at,
};
use crate::errors::Error;
use crate::laws::{
    argument_token, command_type_token, encode_args, encode_command, integer_token, lemma_parse_reconstructs_command,
    spells_from, value_tokens,
};
use crate::low_level::{Argument, CommandView, LineView, parse_at};
use crate::number::{Decimal, negated};
use crate::text::{
    argument_letter, argument_text, args_text, command_letter, command_text, decimal_text, digit_char, digits_of,
    padded_digits,
};

verus! {

proof fn lemma_digit_char(d: nat)
    requires
        d < 10,
    ensures
        is_digit(digit_char(d)),
        digit_value(digit_char(d)) == d,
        !is_blank(digit_char(d)),
        letter_kind(digit_char(d)) is None,
        digit_char(d) != '-',
        digit_char(d) != '.',
{
}

proof fn lemma_digits_of(n: nat)
    ensures
        digits_of(n).len() >= 1,
        digits_value(digits_of(n)) == n,
        forall|k: int| 0 <= k < digits_of(n).len() ==> is_digit(#[trigger] digits_of(n)[k]),
    decreases n,
{
    if n >= 10 {
        lemma_digits_of(n / 10);
        lemma_digit_char(n % 10);
        let x = digits_of(n / 10);
        let y = x.push(digit_char(n % 10));
        assert(y.drop_last() =~= x);
        assert(y.last() == digit_char(n % 10));
        assert(digits_value(y) == digits_value(x) * 10 + digit_value(digit_char(n % 10)));
        lemma_fundamental_div_mod(n as int, 10);
        assert forall|k: int| 0 <= k < y.len() implies is_digit(#[trigger] y[k]) by {
            if k < x.len() {
                assert(y[k] == x[k]);
            }
        }
    } else {
        lemma_digit_char(n);
        let y = seq![digit_char(n)];
        assert(y.drop_last() =~= Seq::<char>::empty());
        assert(digits_value(y) == digits_value(Seq::<char>::empty()) * 10 + digit_value(y.last()));
    }
}

proof fn lemma_zeros_value(z: nat)
    ensures
        digits_value(Seq::new(z, |_i: int| '0')) == 0,
    decreases z,
{
    if z > 0 {
        assert(Seq::new(z, |_i: int| '0').drop_last() =~= Seq::new((z - 1) as nat, |_i: int| '0'));
        lemma_zeros_value((z - 1) as nat);
    }
}

proof fn lemma_leading_zeros_value(z: nat, x: Seq<char>)
    ensures
        digits_value(Seq::new(z, |_i: int| '0') + x) == digits_value(x),
    decreases x.len(),
{
    let zs = Seq::new(z, |_i: int| '0');
    if x.len() == 0 {
        assert(zs + x =~= zs);
        lemma_zeros_value(z);
    } else {
        assert((zs + x).drop_last() =~= zs + x.drop_last());
        assert((zs + x).last() == x.last());
        lemma_leading_zeros_value(z, x.drop_last());
    }
}

proof fn lemma_padded_digits(n: nat, w: nat)
    ensures
        padded_digits(n, w).len() >= w,
        padded_digits(n, w).len() >= 1,
        digits_value(padded_digits(n, w)) == n,
        forall|k: int| 0 <= k < padded_digits(n, w).len() ==> is_digit(#[trigger] padded_digits(n, w)[k]),
{
    lemma_digits_of(n);
    let ds = digits_of(n);
    if ds.len() < w {
        let zs = Seq::new((w - ds.len()) as nat, |_i: int| '0');
        lemma_leading_zeros_value((w - ds.len()) as nat, ds);
        let p = zs + ds;
        assert forall|k: int| 0 <= k < p.len() implies is_digit(#[trigger] p[k]) by {
            if k >= zs.len() {
                assert(p[k] == ds[k - zs.len()]);
            }
        }
    }
}

proof fn lemma_digits_end(s: Seq<char>, i: int, n: int)
    requires
        0 <= i,
        0 <= n,
        i + n <= s.len(),
        forall|k: int| i <= k < i + n ==> is_digit(#[trigger] s[k]),
        i + n == s.len() || !is_digit(s[i + n]),
    ensures
        digits_end(s, i) == i + n,
    decreases n,
{
    if n > 0 {
        lemma_digits_end(s, i + 1, n - 1);
    }
}

/// Where the text of a non-negative decimal stands at `i`, followed by a
/// space or by the end, the tokenizer reads exactly that decimal there.
proof fn lemma_lex_unsigned(s: Seq<char>, i: int, d: Decimal)
    requires
        !d.negative,
        0 <= i,
        i + decimal_text(d).len() <= s.len(),
        s.subrange(i, i + decimal_text(d).len()) == decimal_text(d),
        i + decimal_text(d).len() == s.len() || s[i + decimal_text(d).len()] == ' ',
    ensures
        lex_step(s, i) == Some((
            Ok::<Token, crate::errors::Error>(Token { kind: TokenKind::Number(d), span: span_at(s, i) }),
            i + decimal_text(d).len(),
        )),
{
    let t = decimal_text(d);
    let e = i + t.len();
    assert(Seq::<char>::empty() + digits_of(d.digits as nat) =~= digits_of(d.digits as nat));
    if d.scale == 0 {
        lemma_digits_of(d.digits as nat);
        assert(t == digits_of(d.digits as nat));
        assert forall|k: int| i <= k < e implies is_digit(#[trigger] s[k]) by {
            assert(s[k] == t[k - i]);
        }
        lemma_digits_end(s, i, t.len() as int);
        assert(s[i] == t[0]);
        lemma_digit_char(digit_value(s[i]));
        assert(!has_point(s, i));
        assert(literal_end(s, i) == e);
        assert(literal_digits(s, i) =~= t);
    } else {
        let p = padded_digits(d.digits as nat, d.scale as nat + 1);
        lemma_padded_digits(d.digits as nat, d.scale as nat + 1);
        let cut = p.len() - d.scale;
        assert(t =~= p.subrange(0, cut) + seq!['.'] + p.subrange(cut, p.len() as int));
        assert forall|k: int| i <= k < i + cut implies is_digit(#[trigger] s[k]) by {
            assert(s[k] == t[k - i]);
            assert(t[k - i] == p[k - i]);
        }
        assert(s[i + cut] == t[cut]);
        lemma_digits_end(s, i, cut);
        assert(has_point(s, i));
        assert forall|k: int| i + cut + 1 <= k < e implies is_digit(#[trigger] s[k]) by {
            assert(s[k] == t[k - i]);
            assert(t[k - i] == p[k - i - 1]);
        }
        lemma_digits_end(s, i + cut + 1, d.scale as int);
        assert(literal_end(s, i) == e);
        assert forall|k: int| 0 <= k < d.scale implies #[trigger] s.subrange(i + cut + 1, e)[k] == p.subrange(
            cut,
            p.len() as int,
        )[k] by {
            assert(s[i + cut + 1 + k] == t[cut + 1 + k]);
            assert(t[cut + 1 + k] == p[cut + k]);
        }
        assert(s.subrange(i + cut + 1, e) =~= p.subrange(cut, p.len() as int));
        assert(fraction_digits(s, i) =~= p.subrange(cut, p.len() as int));
        assert(literal_digits(s, i) =~= p);
        assert(s[i] == p[0]);
    }
    assert(literal_fits(s, i));
    assert(literal_value(s, i) == d);
}

/// The text from position `i` on is read as tokens of the kinds `ks`.
pub open spec fn lexes_to(s: Seq<char>, i: int, ks: Seq<TokenKind>) -> bool {
    lex_from(s, i) matches Ok(ts) && spells_from(ts, 0, ks)
}

proof fn lemma_subrange_of_subrange(s: Seq<char>, i: int, j: int, a: int, b: int)
    requires
        0 <= i <= j <= s.len(),
        0 <= a <= b <= j - i,
    ensures
        s.subrange(i, j).subrange(a, b) == s.subrange(i + a, i + b),
{
    assert(s.subrange(i, j).subrange(a, b) =~= s.subrange(i + a, i + b));
}

proof fn lemma_lexes_token(s: Seq<char>, i: int, t: Token, j: int, ks: Seq<TokenKind>)
    requires
        lex_step(s, i) == Some((Ok::<Token, Error>(t), j)),
        lexes_to(s, j, ks),
    ensures
        lexes_to(s, i, seq![t.kind] + ks),
        lex_from(s, i) matches Ok(ts) && ts[0] == t,
{
    lemma_lex_step_advances(s, i);
    let rest = lex_from(s, j)->Ok_0;
    let all = seq![t] + rest;
    assert(lex_from(s, i) == Ok::<Seq<Token>, Error>(all));
    let want = seq![t.kind] + ks;
    assert forall|k: int| 0 <= k < want.len() implies #[trigger] all[0 + k].kind == want[k] by {
        if k > 0 {
            assert(all[k] == rest[k - 1]);
            assert(rest[0 + (k - 1)].kind == ks[k - 1]);
        }
    }
}

proof fn lemma_lexes_blank(s: Seq<char>, i: int, ks: Seq<TokenKind>)
    requires
        0 <= i < s.len(),
        is_blank(s[i]),
        lexes_to(s, i + 1, ks),
    ensures
        lexes_to(s, i, ks),
{
    assert(lex_step(s, i) == lex_step(s, i + 1));
    assert(lex_from(s, i) == lex_from(s, i + 1));
}

proof fn lemma_letter_step(s: Seq<char>, i: int)
    requires
        0 <= i < s.len(),
        letter_kind(s[i]) is Some,
    ensures
        lex_step(s, i) == Some((
            Ok::<Token, Error>(Token { kind: letter_kind(s[i])->0, span: span_at(s, i) }),
            i + 1,
        )),
{
}

/// The text of a decimal, followed by a space or the end, is read as its
/// value tokens.
proof fn lemma_lexes_value(s: Seq<char>, i: int, d: Decimal, ks: Seq<TokenKind>)
    requires
        0 <= i,
        i + decimal_text(d).len() <= s.len(),
        s.subrange(i, i + decimal_text(d).len()) == decimal_text(d),
        i + decimal_text(d).len() == s.len() || s[i + decimal_text(d).len()] == ' ',
        lexes_to(s, i + decimal_text(d).len(), ks),
    ensures
        lexes_to(s, i, value_tokens(d, true) + ks),
{
    let t = decimal_text(d);
    if d.negative {
        let a = negated(d);
        let ta = decimal_text(a);
        assert(t =~= seq!['-'] + ta);
        assert(s[i] == t[0]);
        lemma_subrange_of_subrange(s, i, i + t.len(), 1, t.len() as int);
        assert(t.subrange(1, t.len() as int) =~= ta);
        lemma_lex_unsigned(s, i + 1, a);
        lemma_lexes_token(s, i + 1, Token { kind: TokenKind::Number(a), span: span_at(s, i + 1) }, i + t.len(), ks);
        assert(lex_step(s, i) == Some((Ok::<Token, Error>(Token { kind: TokenKind::Minus, span: span_at(s, i) }), i + 1)));
        lemma_lexes_token(s, i, Token { kind: TokenKind::Minus, span: span_at(s, i) }, i + 1, seq![TokenKind::Number(a)] + ks);
        assert(seq![TokenKind::Minus] + (seq![TokenKind::Number(a)] + ks) =~= value_tokens(d, true) + ks);
    } else {
        lemma_lex_unsigned(s, i, d);
        lemma_lexes_token(s, i, Token { kind: TokenKind::Number(d), span: span_at(s, i) }, i + t.len(), ks);
        assert(seq![TokenKind::Number(d)] + ks =~= value_tokens(d, true) + ks);
    }
}

proof fn lemma_args_text_front(args: Seq<Argument>)
    requires
        args.len() > 0,
    ensures
        args_text(args) == seq![' '] + argument_text(args[0]) + args_text(args.drop_first()),
    decreases args.len(),
{
    if args.len() == 1 {
        assert(args.drop_last() =~= Seq::<Argument>::empty());
        assert(args.drop_first() =~= Seq::<Argument>::empty());
        assert(args_text(args) =~= seq![' '] + argument_text(args[0]) + args_text(args.drop_first()));
    } else {
        let init = args.drop_last();
        lemma_args_text_front(init);
        assert(init.drop_first() =~= args.drop_first().drop_last());
        assert(args.drop_first().last() == args.last());
        assert(init[0] == args[0]);
        assert(args_text(args) =~= seq![' '] + argument_text(args[0]) + args_text(args.drop_first()));
    }
}

proof fn lemma_lexes_args(s: Seq<char>, i: int, args: Seq<Argument>)
    requires
        0 <= i <= s.len(),
        s.subrange(i, s.len() as int) == args_text(args),
    ensures
        lexes_to(s, i, encode_args(args, true)),
    decreases args.len(),
{
    if args.len() == 0 {
        assert(lex_step(s, i) is None);
        assert(encode_args(args, true) =~= Seq::<TokenKind>::empty());
    } else {
        lemma_args_text_front(args);
        let a = args[0];
        let rest = args.drop_first();
        let at = argument_text(a);
        let dt = decimal_text(a.value);
        let tail = s.subrange(i, s.len() as int);
        let rt = args_text(rest);
        let e = i + 2 + dt.len() as int;
        assert(at =~= seq![argument_letter(a.kind)] + dt);
        assert(tail =~= seq![' ', argument_letter(a.kind)] + dt + rt);
        assert(tail[0] == ' ');
        assert(tail[1] == argument_letter(a.kind));
        assert(s[i] == tail[0]);
        assert(s[i + 1] == tail[1]);
        lemma_subrange_of_subrange(s, i, s.len() as int, 2, 2 + dt.len() as int);
        assert(tail.subrange(2, 2 + dt.len() as int) =~= dt);
        lemma_subrange_of_subrange(s, i, s.len() as int, 2 + dt.len() as int, tail.len() as int);
        assert(tail.subrange(2 + dt.len() as int, tail.len() as int) =~= rt);
        assert(s.subrange(e, s.len() as int) =~= args_text(rest));
        if rest.len() > 0 {
            lemma_args_text_front(rest);
            assert(s[e] == s.subrange(e, s.len() as int)[0]);
        }
        lemma_lexes_args(s, e, rest);
        lemma_lexes_value(s, i + 2, a.value, encode_args(rest, true));
        lemma_letter_step(s, i + 1);
        assert(letter_kind(s[i + 1])->0 == argument_token(a.kind));
        lemma_lexes_token(
            s,
            i + 1,
            Token { kind: argument_token(a.kind), span: span_at(s, i + 1) },
            i + 2,
            value_tokens(a.value, true) + encode_args(rest, true),
        );
        assert(seq![argument_token(a.kind)] + (value_tokens(a.value, true) + encode_args(rest, true))
            =~= encode_args(args, true));
        lemma_lexes_blank(s, i, encode_args(args, true));
    }
}

/// The text of a command without its line number, standing at `q` up to
/// the end, is read as the command's type, number and arguments.
proof fn lemma_lexes_command_body(s: Seq<char>, q: int, c: CommandView)
    requires
        0 <= q <= s.len(),
        s.subrange(q, s.len() as int) == seq![command_letter(c.command_type)] + digits_of(c.command_number as nat)
            + args_text(c.args),
    ensures
        lexes_to(
            s,
            q,
            seq![command_type_token(c.command_type), integer_token(c.command_number)] + encode_args(c.args, true),
        ),
        lex_from(s, q) matches Ok(ts) && ts[0].span == span_at(s, q),
{
    let body = s.subrange(q, s.len() as int);
    let nd = digits_of(c.command_number as nat);
    let at = args_text(c.args);
    let r = q + 1 + nd.len();
    let letter = command_letter(c.command_type);
    let dn = Decimal { negative: false, digits: c.command_number as u64, scale: 0 };
    assert(decimal_text(dn) =~= nd);
    lemma_subrange_of_subrange(s, q, s.len() as int, 1 + nd.len() as int, body.len() as int);
    assert(body.subrange(1 + nd.len() as int, body.len() as int) =~= at);
    lemma_lexes_args(s, r, c.args);
    lemma_subrange_of_subrange(s, q, s.len() as int, 1, 1 + nd.len() as int);
    assert(body.subrange(1, 1 + nd.len() as int) =~= nd);
    if c.args.len() > 0 {
        lemma_args_text_front(c.args);
        assert(s[r] == body[1 + nd.len() as int]);
        assert(body[1 + nd.len() as int] == at[0]);
    }
    let args_ks = encode_args(c.args, true);
    lemma_lexes_value(s, q + 1, dn, args_ks);
    assert(value_tokens(dn, true) == seq![integer_token(c.command_number)]);
    assert(s[q] == body[0]);
    lemma_letter_step(s, q);
    assert(letter_kind(letter)->0 == command_type_token(c.command_type));
    let after_type = seq![integer_token(c.command_number)] + args_ks;
    lemma_lexes_token(s, q, Token { kind: command_type_token(c.command_type), span: span_at(s, q) }, q + 1, after_type);
    assert(seq![command_type_token(c.command_type)] + after_type =~= seq![
        command_type_token(c.command_type),
        integer_token(c.command_number),
    ] + args_ks);
}

/// The canonical text of a command with at most 10 arguments is read back
/// by the tokenizer and the parser as the same command (line number, type,
/// number and arguments), placed at line 0, column 0, and every token is
/// consumed, by a strict parser and by a lenient one.
pub proof fn lemma_canonical_text_round_trip(c: CommandView, strict: bool)
    requires
        c.args.len() <= 10,
    ensures
        lex_from(command_text(c), 0) matches Ok(ts) && parse_at(ts, 0, strict) == (
            Ok::<LineView, Error>(LineView::Cmd(CommandView { span: Span { line: 0, column: 0 }, ..c })),
            ts.len() as int,
        ),
{
    let s = command_text(c);
    let body = seq![command_letter(c.command_type)] + digits_of(c.command_number as nat) + args_text(c.args);
    let from_type = seq![command_type_token(c.command_type), integer_token(c.command_number)] + encode_args(
        c.args,
        true,
    );
    let ks = encode_command(c, true);
    match c.line_number {
        Some(n) => {
            let dl = digits_of(n as nat);
            let q: int = dl.len() as int + 2;
            assert(s =~= seq!['N'] + dl + seq![' '] + body);
            lemma_subrange_of_subrange(s, 0, s.len() as int, q, s.len() as int);
            assert(s.subrange(q, s.len() as int) =~= body);
            lemma_lexes_command_body(s, q, c);
            let dln = Decimal { negative: false, digits: n as u64, scale: 0 };
            assert(decimal_text(dln) =~= dl);
            assert(s[q - 1] == ' ');
            lemma_lexes_blank(s, q - 1, from_type);
            assert(s.subrange(1, 1 + dl.len() as int) =~= dl);
            lemma_lexes_value(s, 1, dln, from_type);
            assert(s[0] == 'N');
            lemma_letter_step(s, 0);
            lemma_lexes_token(
                s,
                0,
                Token { kind: TokenKind::N, span: span_at(s, 0) },
                1,
                value_tokens(dln, true) + from_type,
            );
            assert(seq![TokenKind::N] + (value_tokens(dln, true) + from_type) =~= ks);
        },
        None => {
            assert(s =~= body);
            assert(s.subrange(0, s.len() as int) =~= body);
            lemma_lexes_command_body(s, 0, c);
            assert(from_type =~= ks);
        },
    }
    let ts = lex_from(s, 0)->Ok_0;
    assert(ts[0].span == span_at(s, 0));
    let c0 = CommandView { span: Span { line: 0, column: 0 }, ..c };
    assert(encode_command(c0, true) == ks);
    lemma_parse_reconstructs_command(ts, c0, true, strict);
}

} // verus!
