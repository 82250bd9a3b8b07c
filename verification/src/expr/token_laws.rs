//! What a token takes of a source.
use crate::expr::error::Failure;
use crate::expr::lexer::{
    digit_class, embedded, is_mantissa, is_number, lemma_lex_embedded, lex, mantissa_class,
    name_class, name_end, number_end, prepend, run_end, symbol, Lexeme,
};
use crate::text::{is_digit, is_letter, is_letter_or_digit, is_space};
use vstd::prelude::*;

verus! {

/// What stands behind a part of a source is read as it is alone.
proof fn lemma_rest(w: Seq<char>, rest: Seq<char>)
    ensures
        lex(w + rest, w.len() as int) == lex(rest, 0),
{
    let s = w + rest;
    let k = w.len() as int;
    assert forall|i: int| 0 <= i < rest.len() implies #[trigger] s[k + i] == rest[i] by {}
    assert(embedded(s, rest, k));
    lemma_lex_embedded(s, rest, k, 0);
}

/// A run ends where its class ends.
proof fn lemma_run_is(s: Seq<char>, i: int, j: int, p: spec_fn(char) -> bool)
    requires
        0 <= i <= j <= s.len(),
        forall|a: int| i <= a < j ==> p(#[trigger] s[a]),
        j < s.len() ==> !p(s[j]),
    ensures
        run_end(s, i, p) == j,
    decreases j - i,
{
    if i < j {
        assert(p(s[i]));
        lemma_run_is(s, i + 1, j, p);
    }
}

/// A symbol is one token, whatever follows it.
pub proof fn law_symbol_is_one_token(c: char, rest: Seq<char>)
    requires
        c == '+' || c == '-' || c == '*' || c == '/' || c == '^' || c == '(' || c == ')' || c
            == ',',
    ensures
        lex(seq![c] + rest, 0) == prepend(
            if c == '+' {
                Lexeme::Plus
            } else if c == '-' {
                Lexeme::Minus
            } else if c == '*' {
                Lexeme::Star
            } else if c == '/' {
                Lexeme::Slash
            } else if c == '^' {
                Lexeme::Caret
            } else if c == '(' {
                Lexeme::LParen
            } else if c == ')' {
                Lexeme::RParen
            } else {
                Lexeme::Comma
            },
            lex(rest, 0),
        ),
{
    lemma_rest(seq![c], rest);
    assert((seq![c] + rest)[0] == c);
}

/// A name is one token, as long as letters, digits and underscores go on: it starts with a letter or
/// an underscore, and ends in front of what is none of them.
pub proof fn law_name_is_one_token(w: Seq<char>, rest: Seq<char>)
    requires
        w.len() > 0,
        is_letter(w[0]) || w[0] == '_',
        !is_space(w[0]),
        forall|i: int|
            1 <= i < w.len() ==> is_letter_or_digit(#[trigger] w[i]) || w[i] == '_',
        rest.len() > 0 ==> !is_letter_or_digit(rest[0]) && rest[0] != '_',
    ensures
        lex(w + rest, 0) == prepend(Lexeme::Ident(w), lex(rest, 0)),
{
    let s = w + rest;
    let n = w.len() as int;
    lemma_rest(w, rest);
    assert(s[0] == w[0]);
    assert forall|a: int| 1 <= a < n implies name_class()(#[trigger] s[a]) by {
        assert(s[a] == w[a]);
    }
    if n < s.len() {
        assert(s[n] == rest[0]);
    }
    lemma_run_is(s, 1, n, name_class());
    assert(name_end(s, 0) == n);
    assert(s.subrange(0, n) =~= w);
}

/// A number is one token: digits with at most one dot among them, and then, where a mark, an
/// optional sign and digits follow, these too.
pub proof fn law_number_is_one_token(
    mantissa: Seq<char>,
    exponent: Seq<char>,
    rest: Seq<char>,
)
    requires
        is_mantissa(mantissa),
        exponent.len() == 0 || {
            let d: int = if exponent.len() > 1 && (exponent[1] == '+' || exponent[1] == '-') {
                2
            } else {
                1
            };
            &&& exponent[0] == 'e' || exponent[0] == 'E'
            &&& exponent.len() > d
            &&& forall|i: int| d <= i < exponent.len() ==> is_digit(#[trigger] exponent[i])
        },
        rest.len() > 0 ==> !is_digit(rest[0]) && rest[0] != '.' && rest[0] != 'e' && rest[0] != 'E',
    ensures
        lex(mantissa + exponent + rest, 0) == prepend(
            Lexeme::Number(mantissa + exponent),
            lex(rest, 0),
        ),
{
    let t = mantissa + exponent;
    let s = t + rest;
    assert(mantissa + exponent + rest =~= s);
    let (m, n) = (mantissa.len() as int, t.len() as int);
    lemma_rest(t, rest);
    let i0 = choose|i: int| 0 <= i < mantissa.len() && is_digit(#[trigger] mantissa[i]);
    assert(m > 0);
    assert(s[0] == mantissa[0]);
    assert(is_digit(mantissa[0]) || mantissa[0] == '.');
    assert forall|a: int| 0 <= a < m implies mantissa_class()(#[trigger] s[a]) by {
        assert(s[a] == mantissa[a]);
    }
    if n < s.len() {
        assert(s[n] == rest[0]);
    }
    if exponent.len() > 0 {
        let d: int = if exponent.len() > 1 && (exponent[1] == '+' || exponent[1] == '-') {
            2
        } else {
            1
        };
        assert(s[m] == exponent[0]);
        assert(s[m + 1] == exponent[1]);
        lemma_run_is(s, 0, m, mantissa_class());
        assert forall|a: int| m + d <= a < n implies digit_class()(#[trigger] s[a]) by {
            assert(s[a] == exponent[a - m]);
        }
        lemma_run_is(s, m + d, n, digit_class());
        if d == 1 {
            assert(is_digit(exponent[1]));
        }
    } else {
        assert(t =~= mantissa);
        lemma_run_is(s, 0, m, mantissa_class());
    }
    assert(number_end(s, 0) == n);
    assert(s.subrange(0, n) =~= t);
    assert(is_number(t)) by {
        if exponent.len() > 0 {
            assert(t.take(m) =~= mantissa);
            assert(t.skip(m) =~= exponent);
        }
    }
}

/// A source that starts with nothing a token starts with is at fault there.
pub proof fn law_strange_characters_are_faults(c: char, rest: Seq<char>)
    requires
        !is_space(c),
        !is_letter(c),
        !is_digit(c),
        c != '_' && c != '.' && c != '+' && c != '-' && c != '*' && c != '/' && c != '^' && c != '('
            && c != ')' && c != ',',
    ensures
        lex(seq![c] + rest, 0) == Err::<Seq<Lexeme>, Failure>(Failure::UnexpectedCharacter(c)),
{
    assert((seq![c] + rest)[0] == c);
    assert(symbol(c) is None);
}

} // verus!
