//! Parentheses and white space round a whole formula.
use crate::expr::error::Failure;
use crate::expr::grammar::{
    climb, close, infix, lemma_args_sound, lemma_lex_terminated, lemma_parse_sound,
    lemma_term_sound, parse, parse_args, parse_call, parse_term, sign_power, terminated,
};
use crate::expr::lexer::{
    embedded, law_padding_keeps_the_tokens, lemma_number_embedded, lemma_number_end,
    lemma_part_embedded, lemma_run_embedded, lemma_run_end, lex, name_class, name_end, number_end,
    symbol, Lexeme,
};
use crate::expr::program::compiled;
use crate::expr::syntax::{all_well_formed, func_named, Action, Expr, Func};
use crate::text::{is_ascii, is_digit, is_letter, is_space};
use vstd::prelude::*;

verus! {

/// A source in parentheses.
pub open spec fn wrapped(s: Seq<char>) -> Seq<char> {
    seq!['('] + s + seq![')']
}

/// A terminated token list in parentheses.
spec fn enclosed(ts: Seq<Lexeme>) -> Seq<Lexeme> {
    seq![Lexeme::LParen] + ts.drop_last() + seq![Lexeme::RParen, Lexeme::End]
}

/// A source stands between its parentheses.
proof fn lemma_wrapped(s: Seq<char>)
    ensures
        embedded(wrapped(s), s, 1),
        wrapped(s).len() == s.len() + 2,
        wrapped(s)[0] == '(',
        wrapped(s)[s.len() as int + 1] == ')',
{
    assert forall|i: int| 0 <= i < s.len() implies #[trigger] wrapped(s)[1 + i] == s[i] by {}
}

/// The tokens of the source stand between the parentheses.
proof fn lemma_lex_wrapped(s: Seq<char>, i: int)
    requires
        0 <= i <= s.len(),
        lex(s, i) is Ok,
    ensures
        lex(wrapped(s), i + 1) == Ok::<Seq<Lexeme>, Failure>(
            lex(s, i)->Ok_0.drop_last() + seq![Lexeme::RParen, Lexeme::End],
        ),
    decreases s.len() - i,
{
    let w = wrapped(s);
    let tail = seq![Lexeme::RParen, Lexeme::End];
    lemma_wrapped(s);
    if i < s.len() {
        let c = s[i];
        assert(w[1 + i] == c);
        if is_space(c) {
            lemma_lex_wrapped(s, i + 1);
        } else if symbol(c) is Some {
            lemma_lex_wrapped(s, i + 1);
            lemma_lex_terminated(s, i + 1);
            let rest = lex(s, i + 1)->Ok_0;
            let t = seq![symbol(c)->0];
            assert((t + rest).drop_last() + tail =~= t + (rest.drop_last() + tail));
        } else if is_digit(c) || c == '.' {
            lemma_number_end(s, i);
            lemma_number_embedded(w, s, 1, i);
            let j = number_end(s, i);
            lemma_part_embedded(w, s, 1, i, j);
            lemma_lex_wrapped(s, j);
            lemma_lex_terminated(s, j);
            let rest = lex(s, j)->Ok_0;
            let t = seq![Lexeme::Number(s.subrange(i, j))];
            assert((t + rest).drop_last() + tail =~= t + (rest.drop_last() + tail));
        } else {
            assert(is_letter(c) || c == '_');
            lemma_run_end(s, i + 1, name_class());
            lemma_run_embedded(w, s, 1, i + 1, name_class());
            let j = name_end(s, i);
            lemma_part_embedded(w, s, 1, i, j);
            lemma_lex_wrapped(s, j);
            lemma_lex_terminated(s, j);
            let rest = lex(s, j)->Ok_0;
            let t = seq![Lexeme::Ident(s.subrange(i, j))];
            assert((t + rest).drop_last() + tail =~= t + (rest.drop_last() + tail));
        }
    } else {
        assert(w[i + 1] == ')');
        assert(lex(w, i + 2) == Ok::<Seq<Lexeme>, Failure>(seq![Lexeme::End]));
        assert(lex(s, i)->Ok_0.drop_last() + tail =~= seq![Lexeme::RParen] + seq![Lexeme::End]);
    }
}

/// The tokens before the end follow the opening parenthesis, and the closing one follows them.
proof fn lemma_enclosed(ts: Seq<Lexeme>)
    requires
        terminated(ts),
    ensures
        enclosed(ts).len() == ts.len() + 2,
        enclosed(ts)[0] is LParen,
        forall|i: int| 0 <= i < ts.len() - 1 ==> enclosed(ts)[i + 1] == #[trigger] ts[i],
        enclosed(ts)[ts.len() as int] is RParen,
        enclosed(ts)[ts.len() as int + 1] is End,
{
}

/// What parses between the parentheses as it does alone.
spec fn keeps<T>(alone: Result<(T, int), Failure>, within: Result<(T, int), Failure>) -> bool {
    alone matches Ok((x, p)) ==> within == Ok::<(T, int), Failure>((x, p + 1))
}

proof fn lemma_parse_enclosed(ts: Seq<Lexeme>, names: Seq<Seq<char>>, pos: int, power: int)
    requires
        terminated(ts),
        0 <= pos < ts.len(),
    ensures
        keeps(parse(ts, names, pos, power), parse(enclosed(ts), names, pos + 1, power)),
    decreases ts.len() - pos, 2int,
{
    lemma_enclosed(ts);
    lemma_term_enclosed(ts, names, pos);
    lemma_term_sound(ts, names, pos);
    if let Ok((left, p)) = parse_term(ts, names, pos) {
        lemma_climb_enclosed(ts, names, p, power, left);
    }
}

proof fn lemma_climb_enclosed(
    ts: Seq<Lexeme>,
    names: Seq<Seq<char>>,
    pos: int,
    power: int,
    left: Expr,
)
    requires
        terminated(ts),
        0 <= pos < ts.len(),
    ensures
        keeps(
            climb(ts, names, pos, power, left),
            climb(enclosed(ts), names, pos + 1, power, left),
        ),
    decreases ts.len() - pos, 1int,
{
    lemma_enclosed(ts);
    if pos == ts.len() - 1 {
        assert(ts[pos] is End);
        assert(infix(enclosed(ts)[pos + 1]) is None);
    } else {
        assert(enclosed(ts)[pos + 1] == ts[pos]);
        if let Some((op, l, r)) = infix(ts[pos]) {
            if l >= power {
                lemma_parse_enclosed(ts, names, pos + 1, r);
                lemma_parse_sound(ts, names, pos + 1, r);
                if let Ok((right, p)) = parse(ts, names, pos + 1, r) {
                    let both = Expr::Apply(Action::Infix(op), seq![left, right]);
                    lemma_climb_enclosed(ts, names, p, power, both);
                }
            }
        }
    }
}

proof fn lemma_term_enclosed(ts: Seq<Lexeme>, names: Seq<Seq<char>>, pos: int)
    requires
        terminated(ts),
        0 <= pos < ts.len(),
    ensures
        keeps(parse_term(ts, names, pos), parse_term(enclosed(ts), names, pos + 1)),
    decreases ts.len() - pos, 0int,
{
    lemma_enclosed(ts);
    if pos < ts.len() - 1 {
        assert(enclosed(ts)[pos + 1] == ts[pos]);
        match ts[pos] {
            Lexeme::Minus => {
                lemma_parse_enclosed(ts, names, pos + 1, sign_power());
            },
            Lexeme::Plus => {
                lemma_parse_enclosed(ts, names, pos + 1, sign_power());
            },
            Lexeme::LParen => {
                lemma_parse_enclosed(ts, names, pos + 1, 0);
                lemma_parse_sound(ts, names, pos + 1, 0);
                if let Ok((e, p)) = parse(ts, names, pos + 1, 0) {
                    lemma_close_enclosed(ts, e, p);
                }
            },
            Lexeme::Ident(name) => {
                assert(ts[pos + 1] is LParen <==> enclosed(ts)[pos + 2] is LParen);
                if ts[pos + 1] is LParen && func_named(name) is Some {
                    lemma_call_enclosed(ts, names, pos + 2, name, func_named(name)->0);
                }
            },
            _ => {},
        }
    }
}

proof fn lemma_close_enclosed<T>(ts: Seq<Lexeme>, x: T, pos: int)
    requires
        terminated(ts),
        0 <= pos < ts.len(),
    ensures
        keeps(close(ts, x, pos), close(enclosed(ts), x, pos + 1)),
{
    lemma_enclosed(ts);
    if pos < ts.len() - 1 {
        assert(enclosed(ts)[pos + 1] == ts[pos]);
    }
}

proof fn lemma_call_enclosed(
    ts: Seq<Lexeme>,
    names: Seq<Seq<char>>,
    pos: int,
    name: Seq<char>,
    func: Func,
)
    requires
        terminated(ts),
        0 <= pos < ts.len(),
    ensures
        keeps(
            parse_call(ts, names, pos, name, func),
            parse_call(enclosed(ts), names, pos + 1, name, func),
        ),
    decreases ts.len() - pos, 4int,
{
    lemma_enclosed(ts);
    if pos < ts.len() - 1 {
        assert(enclosed(ts)[pos + 1] == ts[pos]);
        if ts[pos] is RParen {
            lemma_close_enclosed(ts, Seq::<Expr>::empty(), pos);
        } else {
            lemma_args_enclosed(ts, names, pos, Seq::empty());
            assert(all_well_formed(Seq::<Expr>::empty(), names.len()));
            lemma_args_sound(ts, names, pos, Seq::empty());
            if let Ok((es, p)) = parse_args(ts, names, pos, Seq::empty()) {
                lemma_close_enclosed(ts, es, p);
            }
        }
    } else {
        assert(ts[pos] is End);
        assert(parse_term(ts, names, pos) is Err);
        assert(parse(ts, names, pos, 0) is Err);
        assert(parse_args(ts, names, pos, Seq::empty()) is Err);
    }
}

proof fn lemma_args_enclosed(
    ts: Seq<Lexeme>,
    names: Seq<Seq<char>>,
    pos: int,
    read: Seq<Expr>,
)
    requires
        terminated(ts),
        0 <= pos < ts.len(),
    ensures
        keeps(
            parse_args(ts, names, pos, read),
            parse_args(enclosed(ts), names, pos + 1, read),
        ),
    decreases ts.len() - pos, 3int,
{
    lemma_enclosed(ts);
    lemma_parse_enclosed(ts, names, pos, 0);
    lemma_parse_sound(ts, names, pos, 0);
    if let Ok((e, p)) = parse(ts, names, pos, 0) {
        assert(ts[p] is Comma <==> enclosed(ts)[p + 1] is Comma);
        if ts[p] is Comma {
            lemma_args_enclosed(ts, names, p + 1, read.push(e));
        }
    }
}

/// Parentheses round a whole formula change nothing: a source that compiles compiles to the same
/// expression when it is wrapped.
pub proof fn law_wrapping_keeps_the_program(source: Seq<char>, names: Seq<Seq<char>>)
    requires
        compiled(source, names) is Ok,
    ensures
        compiled(wrapped(source), names) == compiled(source, names),
{
    let w = wrapped(source);
    let ts = lex(source, 0)->Ok_0;
    lemma_lex_terminated(source, 0);
    lemma_lex_wrapped(source, 0);
    let us = enclosed(ts);
    assert(w[0] == '(');
    assert(symbol('(') == Some(Lexeme::LParen));
    assert(lex(w, 0) == Ok::<Seq<Lexeme>, Failure>(us)) by {
        let tail = seq![Lexeme::RParen, Lexeme::End];
        assert(us =~= seq![Lexeme::LParen] + (ts.drop_last() + tail));
    }
    lemma_enclosed(ts);
    lemma_parse_enclosed(ts, names, 0, 0);
    lemma_parse_sound(ts, names, 0, 0);
    let (e, p) = parse(ts, names, 0, 0)->Ok_0;
    assert(p == ts.len() - 1);
    assert(parse(us, names, 1, 0) == Ok::<(Expr, int), Failure>((e, p + 1)));
    assert(parse_term(us, names, 0) == Ok::<(Expr, int), Failure>((e, p + 2)));
    assert(climb(us, names, p + 2, 0, e) == Ok::<(Expr, int), Failure>((e, p + 2)));
    assert(parse(us, names, 0, 0) == Ok::<(Expr, int), Failure>((e, p + 2)));
}

/// White space round a formula changes nothing: it compiles to the same expression, or fails with
/// the same fault, with white space before it and ASCII white space behind it.
pub proof fn law_padding_keeps_the_program(
    before: Seq<char>,
    source: Seq<char>,
    after: Seq<char>,
    names: Seq<Seq<char>>,
)
    requires
        forall|i: int| 0 <= i < before.len() ==> is_space(#[trigger] before[i]),
        forall|i: int| 0 <= i < after.len() ==> is_space(#[trigger] after[i]) && is_ascii(after[i]),
    ensures
        compiled(before + source + after, names) == compiled(source, names),
{
    law_padding_keeps_the_tokens(before, source, after);
}

} // verus!
