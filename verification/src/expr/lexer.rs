//! From source text to tokens.
use crate::expr::error::{ExprError, Failure, Fault};
use crate::expr::grammar::{lemma_lex_terminated, terminated};
use crate::text::{
    chars_of, digit, is_ascii, is_digit, is_letter, is_letter_or_digit, is_space, letter, letter_or_digit,
    space, text_of,
};
use vstd::prelude::*;

verus! {

/// A lexical token. A number keeps its text.
#[derive(Debug)]
pub enum Token {
    Number(String),
    Ident(String),
    Plus,
    Minus,
    Star,
    Slash,
    Caret,
    LParen,
    RParen,
    Comma,
    End,
}

/// What a [`Token`] is, over character sequences.
pub ghost enum Lexeme {
    Number(Seq<char>),
    Ident(Seq<char>),
    Plus,
    Minus,
    Star,
    Slash,
    Caret,
    LParen,
    RParen,
    Comma,
    End,
}

impl View for Token {
    type V = Lexeme;

    open spec fn view(&self) -> Lexeme {
        match self {
            Token::Number(text) => Lexeme::Number(text@),
            Token::Ident(name) => Lexeme::Ident(name@),
            Token::Plus => Lexeme::Plus,
            Token::Minus => Lexeme::Minus,
            Token::Star => Lexeme::Star,
            Token::Slash => Lexeme::Slash,
            Token::Caret => Lexeme::Caret,
            Token::LParen => Lexeme::LParen,
            Token::RParen => Lexeme::RParen,
            Token::Comma => Lexeme::Comma,
            Token::End => Lexeme::End,
        }
    }
}

impl Token {
    /// A copy of the token.
    pub fn copy(&self) -> (r: Token)
        ensures
            r@ == self@,
    {
        match self {
            Token::Number(text) => Token::Number(text.clone()),
            Token::Ident(name) => Token::Ident(name.clone()),
            Token::Plus => Token::Plus,
            Token::Minus => Token::Minus,
            Token::Star => Token::Star,
            Token::Slash => Token::Slash,
            Token::Caret => Token::Caret,
            Token::LParen => Token::LParen,
            Token::RParen => Token::RParen,
            Token::Comma => Token::Comma,
            Token::End => Token::End,
        }
    }
}

/// The views of a list of tokens.
pub open spec fn lexemes(tokens: Seq<Token>) -> Seq<Lexeme> {
    tokens.map_values(|t: Token| t@)
}

/// The token of a one-character symbol.
pub open spec fn symbol(c: char) -> Option<Lexeme> {
    if c == '+' {
        Some(Lexeme::Plus)
    } else if c == '-' {
        Some(Lexeme::Minus)
    } else if c == '*' {
        Some(Lexeme::Star)
    } else if c == '/' {
        Some(Lexeme::Slash)
    } else if c == '^' {
        Some(Lexeme::Caret)
    } else if c == '(' {
        Some(Lexeme::LParen)
    } else if c == ')' {
        Some(Lexeme::RParen)
    } else if c == ',' {
        Some(Lexeme::Comma)
    } else {
        None
    }
}

/// The first position from `i` on whose character is not in the class `p`.
pub open spec fn run_end(s: Seq<char>, i: int, p: spec_fn(char) -> bool) -> int
    decreases s.len() - i,
{
    if 0 <= i < s.len() && p(s[i]) {
        run_end(s, i + 1, p)
    } else {
        i
    }
}

/// The characters of a number before its exponent.
pub open spec fn mantissa_class() -> spec_fn(char) -> bool {
    |c: char| is_digit(c) || c == '.'
}

/// The decimal digits.
pub open spec fn digit_class() -> spec_fn(char) -> bool {
    |c: char| is_digit(c)
}

/// The characters of a name after its first.
pub open spec fn name_class() -> spec_fn(char) -> bool {
    |c: char| is_letter_or_digit(c) || c == '_'
}

/// A sign.
pub open spec fn is_sign(c: char) -> bool {
    c == '+' || c == '-'
}

/// An exponent mark.
pub open spec fn is_mark(c: char) -> bool {
    c == 'e' || c == 'E'
}

/// Where the number that starts at `i` ends: digits and dots, then optionally an exponent mark,
/// an optional sign and digits.
pub open spec fn number_end(s: Seq<char>, i: int) -> int {
    let m = run_end(s, i, mantissa_class());
    if m < s.len() && is_mark(s[m]) {
        if m + 1 < s.len() && is_sign(s[m + 1]) {
            run_end(s, m + 2, digit_class())
        } else {
            run_end(s, m + 1, digit_class())
        }
    } else {
        m
    }
}

/// Where the name that starts at `i` ends.
pub open spec fn name_end(s: Seq<char>, i: int) -> int {
    run_end(s, i + 1, name_class())
}

/// Digits with at most one dot among them.
pub open spec fn is_mantissa(t: Seq<char>) -> bool {
    &&& forall|i: int| 0 <= i < t.len() ==> is_digit(#[trigger] t[i]) || t[i] == '.'
    &&& exists|i: int| 0 <= i < t.len() && is_digit(#[trigger] t[i])
    &&& forall|i: int, j: int| 0 <= i < j < t.len() ==> !(#[trigger] t[i] == '.' && #[trigger] t[j]
        == '.')
}

/// An exponent mark, an optional sign and at least one digit.
pub open spec fn is_exponent(t: Seq<char>) -> bool {
    let d: int = if t.len() > 1 && is_sign(t[1]) {
        2
    } else {
        1
    };
    &&& t.len() > d
    &&& is_mark(t[0])
    &&& forall|i: int| d <= i < t.len() ==> is_digit(#[trigger] t[i])
}

/// An unsigned decimal number, with or without an exponent.
pub open spec fn is_number(t: Seq<char>) -> bool {
    is_mantissa(t) || exists|k: int|
        0 <= k <= t.len() && #[trigger] is_mantissa(t.take(k)) && is_exponent(t.skip(k))
}

/// The tokens of `s` from position `i` on, ending in [`Lexeme::End`]: white space separates, every
/// symbol is a token, and numbers and names extend as far as they can.
pub open spec fn lex(s: Seq<char>, i: int) -> Result<Seq<Lexeme>, Failure>
    decreases s.len() - i,
{
    if i < 0 || i >= s.len() {
        Ok(seq![Lexeme::End])
    } else if is_space(s[i]) {
        lex(s, i + 1)
    } else if symbol(s[i]) is Some {
        prepend(symbol(s[i])->0, lex(s, i + 1))
    } else if is_digit(s[i]) || s[i] == '.' {
        let j = number_end(s, i);
        if !is_number(s.subrange(i, j)) {
            Err(Failure::InvalidNumber(s.subrange(i, j)))
        } else {
            proof {
                lemma_number_end(s, i);
            }
            prepend(Lexeme::Number(s.subrange(i, j)), lex(s, j))
        }
    } else if is_letter(s[i]) || s[i] == '_' {
        let j = name_end(s, i);
        proof {
            lemma_run_end(s, i + 1, name_class());
        }
        prepend(Lexeme::Ident(s.subrange(i, j)), lex(s, j))
    } else {
        Err(Failure::UnexpectedCharacter(s[i]))
    }
}

/// A token before the others.
pub open spec fn prepend(t: Lexeme, rest: Result<Seq<Lexeme>, Failure>) -> Result<
    Seq<Lexeme>,
    Failure,
> {
    match rest {
        Ok(ts) => Ok(seq![t] + ts),
        Err(f) => Err(f),
    }
}

/// Tokens already read, followed by what the rest gives.
pub open spec fn prefixed(head: Seq<Lexeme>, rest: Result<Seq<Lexeme>, Failure>) -> Result<
    Seq<Lexeme>,
    Failure,
> {
    match rest {
        Ok(ts) => Ok(head + ts),
        Err(f) => Err(f),
    }
}

/// A run never ends before it starts, nor past the end.
pub proof fn lemma_run_end(s: Seq<char>, i: int, p: spec_fn(char) -> bool)
    requires
        0 <= i <= s.len(),
    ensures
        i <= run_end(s, i, p) <= s.len(),
        forall|j: int| i <= j < run_end(s, i, p) ==> p(#[trigger] s[j]),
        run_end(s, i, p) < s.len() ==> !p(s[run_end(s, i, p)]),
    decreases s.len() - i,
{
    if i < s.len() && p(s[i]) {
        lemma_run_end(s, i + 1, p);
    }
}

/// A number extends past its first character and not past the end.
pub proof fn lemma_number_end(s: Seq<char>, i: int)
    requires
        0 <= i < s.len(),
        is_digit(s[i]) || s[i] == '.',
    ensures
        i < number_end(s, i) <= s.len(),
{
    assert(mantissa_class()(s[i]));
    lemma_run_end(s, i + 1, mantissa_class());
    let m = run_end(s, i, mantissa_class());
    if m < s.len() && is_mark(s[m]) {
        lemma_run_end(s, m + 1, digit_class());
        if m + 1 < s.len() {
            lemma_run_end(s, m + 2, digit_class());
        }
    }
}

/// Tokens read one at a time, in front of the rest.
proof fn lemma_prefixed(head: Seq<Lexeme>, t: Lexeme, rest: Result<Seq<Lexeme>, Failure>)
    ensures
        prefixed(head, prepend(t, rest)) == prefixed(head.push(t), rest),
{
    if rest is Ok {
        assert(head + (seq![t] + rest->Ok_0) =~= head.push(t) + rest->Ok_0);
    }
}

/// Where the run of number characters or digits from `i` ends.
fn mantissa_end(chars: &Vec<char>, i: usize) -> (r: usize)
    requires
        i <= chars.len(),
    ensures
        r == run_end(chars@, i as int, mantissa_class()),
        i <= r <= chars.len(),
{
    let mut j: usize = i;
    while j < chars.len() && (digit(chars[j]) || chars[j] == '.')
        invariant
            i <= j <= chars.len(),
            run_end(chars@, i as int, mantissa_class()) == run_end(
                chars@,
                j as int,
                mantissa_class(),
            ),
        decreases chars.len() - j,
    {
        j += 1;
    }
    j
}

/// Where the run of digits from `i` ends.
fn digits_end(chars: &Vec<char>, i: usize) -> (r: usize)
    requires
        i <= chars.len(),
    ensures
        r == run_end(chars@, i as int, digit_class()),
        i <= r <= chars.len(),
{
    let mut j: usize = i;
    while j < chars.len() && digit(chars[j])
        invariant
            i <= j <= chars.len(),
            run_end(chars@, i as int, digit_class()) == run_end(chars@, j as int, digit_class()),
        decreases chars.len() - j,
    {
        j += 1;
    }
    j
}

/// Where the name that starts at `i` ends.
fn ident_end(chars: &Vec<char>, i: usize) -> (r: usize)
    requires
        i < chars.len(),
    ensures
        r == name_end(chars@, i as int),
        i < r <= chars.len(),
{
    let mut j: usize = i + 1;
    while j < chars.len() && (letter_or_digit(chars[j]) || chars[j] == '_')
        invariant
            i < j <= chars.len(),
            name_end(chars@, i as int) == run_end(chars@, j as int, name_class()),
        decreases chars.len() - j,
    {
        j += 1;
    }
    j
}

/// Whether `chars[from..to]` has digits with at most one dot among them; it holds nothing else.
fn mantissa_ok(chars: &Vec<char>, from: usize, to: usize) -> (r: bool)
    requires
        from <= to <= chars.len(),
        forall|j: int| from <= j < to ==> is_digit(#[trigger] chars@[j]) || chars@[j] == '.',
    ensures
        r == is_mantissa(chars@.subrange(from as int, to as int)),
{
    let ghost t = chars@.subrange(from as int, to as int);
    let mut digits: bool = false;
    let mut dots: bool = false;
    let mut i: usize = from;
    while i < to
        invariant
            from <= i <= to <= chars.len(),
            t == chars@.subrange(from as int, to as int),
            forall|j: int| from <= j < to ==> is_digit(#[trigger] chars@[j]) || chars@[j] == '.',
            digits == exists|j: int| 0 <= j < i - from && is_digit(#[trigger] t[j]),
            dots == exists|j: int| 0 <= j < i - from && #[trigger] t[j] == '.',
            forall|j: int, k: int|
                0 <= j < k < i - from ==> !(#[trigger] t[j] == '.' && #[trigger] t[k] == '.'),
        decreases to - i,
    {
        assert(t[i - from] == chars@[i as int]);
        if chars[i] == '.' {
            if dots {
                return false;
            }
            dots = true;
        } else {
            digits = true;
        }
        i += 1;
    }
    assert(forall|j: int| 0 <= j < t.len() ==> t[j] == chars@[j + from]);
    digits
}

/// A number's text is its mantissa, or splits at its first character that is neither digit nor
/// dot.
proof fn lemma_number_split(t: Seq<char>, m: int)
    requires
        0 <= m <= t.len(),
        forall|j: int| 0 <= j < m ==> is_digit(#[trigger] t[j]) || t[j] == '.',
        m < t.len() ==> !(is_digit(t[m]) || t[m] == '.'),
    ensures
        is_number(t) == if m == t.len() {
            is_mantissa(t)
        } else {
            is_mantissa(t.take(m)) && is_exponent(t.skip(m))
        },
{
    if m == t.len() {
        assert forall|k: int| 0 <= k <= t.len() && #[trigger] is_mantissa(t.take(k)) implies !is_exponent(
            t.skip(k),
        ) by {
            if is_exponent(t.skip(k)) {
                assert(t.skip(k)[0] == t[k]);
            }
        }
    } else {
        assert(!is_mantissa(t));
        assert forall|k: int|
            0 <= k <= t.len() && #[trigger] is_mantissa(t.take(k)) && is_exponent(
                t.skip(k),
            ) implies k == m by {
            assert(t.skip(k)[0] == t[k]);
            if k > m {
                assert(t.take(k)[m] == t[m]);
            }
        }
    }
}

/// Reads the number that starts at `i`: where it ends, and whether its text is a number.
fn scan_number(chars: &Vec<char>, i: usize) -> (r: (usize, bool))
    requires
        i < chars.len(),
        is_digit(chars@[i as int]) || chars@[i as int] == '.',
    ensures
        r.0 == number_end(chars@, i as int),
        i < r.0 <= chars.len(),
        r.1 == is_number(chars@.subrange(i as int, r.0 as int)),
{
    proof {
        lemma_number_end(chars@, i as int);
        lemma_run_end(chars@, i as int, mantissa_class());
    }
    let m: usize = mantissa_end(chars, i);
    let mantissa: bool = mantissa_ok(chars, i, m);
    if m < chars.len() && (chars[m] == 'e' || chars[m] == 'E') {
        let signed: bool = m + 1 < chars.len() && (chars[m + 1] == '+' || chars[m + 1] == '-');
        let d: usize = if signed {
            m + 2
        } else {
            m + 1
        };
        let end: usize = digits_end(chars, d);
        proof {
            lemma_run_end(chars@, d as int, digit_class());
            let t = chars@.subrange(i as int, end as int);
            assert(forall|j: int| 0 <= j < t.len() ==> t[j] == chars@[j + i]);
            lemma_number_split(t, m - i);
            assert(t.take(m - i) =~= chars@.subrange(i as int, m as int));
            let x = t.skip(m - i);
            assert(forall|j: int| 0 <= j < x.len() ==> x[j] == chars@[j + m]);
            assert(x.len() == end - m);
            assert(is_exponent(x) == (end > d)) by {
                if x.len() > 1 {
                    assert(x[1] == chars@[m + 1]);
                    assert(is_sign(x[1]) == signed);
                }
                assert(x[0] == chars@[m as int]);
                assert(forall|j: int| d - m <= j < x.len() ==> digit_class()(#[trigger] x[j]));
            }
        }
        (end, mantissa && end > d)
    } else {
        proof {
            let t = chars@.subrange(i as int, m as int);
            assert(forall|j: int| 0 <= j < t.len() ==> t[j] == chars@[j + i]);
            lemma_number_split(t, t.len() as int);
        }
        (m, mantissa)
    }
}

/// The token of a one-character symbol.
fn symbol_token(c: char) -> (r: Option<Token>)
    ensures
        match r {
            Some(t) => symbol(c) == Some(t@),
            None => symbol(c) is None,
        },
{
    if c == '+' {
        Some(Token::Plus)
    } else if c == '-' {
        Some(Token::Minus)
    } else if c == '*' {
        Some(Token::Star)
    } else if c == '/' {
        Some(Token::Slash)
    } else if c == '^' {
        Some(Token::Caret)
    } else if c == '(' {
        Some(Token::LParen)
    } else if c == ')' {
        Some(Token::RParen)
    } else if c == ',' {
        Some(Token::Comma)
    } else {
        None
    }
}

/// The source `s` stands in `w` from position `k` on, and behind it comes nothing that could extend
/// a number or a name.
pub open spec fn embedded(w: Seq<char>, s: Seq<char>, k: int) -> bool {
    &&& 0 <= k
    &&& k + s.len() <= w.len()
    &&& forall|i: int| 0 <= i < s.len() ==> #[trigger] w[k + i] == s[i]
    &&& k + s.len() < w.len() ==> {
        let c = w[k + s.len()];
        !is_letter_or_digit(c) && !is_digit(c) && !is_mark(c) && !is_sign(c) && c != '.' && c != '_'
    }
}

/// A run of an embedded source ends at the same character.
pub proof fn lemma_run_embedded(w: Seq<char>, s: Seq<char>, k: int, i: int, p: spec_fn(char) -> bool)
    requires
        embedded(w, s, k),
        0 <= i <= s.len(),
        k + s.len() < w.len() ==> !p(w[k + s.len()]),
    ensures
        run_end(w, k + i, p) == run_end(s, i, p) + k,
        i <= run_end(s, i, p) <= s.len(),
    decreases s.len() - i,
{
    if i < s.len() {
        assert(w[k + i] == s[i]);
        if p(s[i]) {
            lemma_run_embedded(w, s, k, i + 1, p);
        }
    }
}

/// A number of an embedded source ends at the same character.
pub proof fn lemma_number_embedded(w: Seq<char>, s: Seq<char>, k: int, i: int)
    requires
        embedded(w, s, k),
        0 <= i <= s.len(),
    ensures
        number_end(w, k + i) == number_end(s, i) + k,
{
    lemma_run_embedded(w, s, k, i, mantissa_class());
    let m = run_end(s, i, mantissa_class());
    if m < s.len() {
        assert(w[k + m] == s[m]);
        lemma_run_embedded(w, s, k, m + 1, digit_class());
        if m + 1 < s.len() {
            assert(w[k + (m + 1)] == s[m + 1]);
            lemma_run_embedded(w, s, k, m + 2, digit_class());
        }
    }
}

/// A part of an embedded source is the same part.
pub proof fn lemma_part_embedded(w: Seq<char>, s: Seq<char>, k: int, i: int, j: int)
    requires
        embedded(w, s, k),
        0 <= i <= j <= s.len(),
    ensures
        w.subrange(k + i, k + j) == s.subrange(i, j),
{
    assert forall|a: int| 0 <= a < j - i implies w.subrange(k + i, k + j)[a] == s.subrange(
        i,
        j,
    )[a] by {
        assert(w[k + (i + a)] == s[i + a]);
    }
    assert(w.subrange(k + i, k + j) =~= s.subrange(i, j));
}

/// White space makes no token.
proof fn lemma_lex_spaces(w: Seq<char>, i: int, j: int)
    requires
        0 <= i <= j <= w.len(),
        forall|a: int| i <= a < j ==> is_space(#[trigger] w[a]),
    ensures
        lex(w, i) == lex(w, j),
    decreases j - i,
{
    if i < j {
        lemma_lex_spaces(w, i + 1, j);
    }
}

/// An embedded source with nothing but white space behind it has the same tokens, or the same
/// fault.
pub proof fn lemma_lex_embedded(w: Seq<char>, s: Seq<char>, k: int, i: int)
    requires
        embedded(w, s, k),
        0 <= i <= s.len(),
        forall|a: int| k + s.len() <= a < w.len() ==> is_space(#[trigger] w[a]),
    ensures
        lex(w, k + i) == lex(s, i),
    decreases s.len() - i,
{
    if i < s.len() {
        let c = s[i];
        assert(w[k + i] == c);
        if is_space(c) || symbol(c) is Some {
            lemma_lex_embedded(w, s, k, i + 1);
        } else if is_digit(c) || c == '.' {
            lemma_number_end(s, i);
            lemma_number_embedded(w, s, k, i);
            let j = number_end(s, i);
            lemma_part_embedded(w, s, k, i, j);
            lemma_lex_embedded(w, s, k, j);
        } else if is_letter(c) || c == '_' {
            lemma_run_end(s, i + 1, name_class());
            lemma_run_embedded(w, s, k, i + 1, name_class());
            let j = name_end(s, i);
            lemma_part_embedded(w, s, k, i, j);
            lemma_lex_embedded(w, s, k, j);
        }
    } else {
        lemma_lex_spaces(w, k + i, w.len() as int);
    }
}

/// White space round a source changes nothing: the source has the same tokens, or the same fault,
/// with white space before it and ASCII white space behind it.
pub proof fn law_padding_keeps_the_tokens(before: Seq<char>, s: Seq<char>, after: Seq<char>)
    requires
        forall|i: int| 0 <= i < before.len() ==> is_space(#[trigger] before[i]),
        forall|i: int| 0 <= i < after.len() ==> is_space(#[trigger] after[i]) && is_ascii(after[i]),
    ensures
        lex(before + s + after, 0) == lex(s, 0),
{
    let w = before + s + after;
    let k = before.len() as int;
    assert forall|a: int| 0 <= a < k implies is_space(#[trigger] w[a]) by {
        assert(w[a] == before[a]);
    }
    assert forall|a: int| k + s.len() <= a < w.len() implies is_space(#[trigger] w[a]) by {
        assert(w[a] == after[a - k - s.len()]);
    }
    assert(embedded(w, s, k)) by {
        assert forall|i: int| 0 <= i < s.len() implies #[trigger] w[k + i] == s[i] by {}
        if k + s.len() < w.len() {
            assert(w[k + s.len()] == after[0]);
        }
    }
    lemma_lex_spaces(w, 0, k);
    lemma_lex_embedded(w, s, k, 0);
}

/// A space on either side of a source changes nothing.
pub proof fn law_spaces_round_a_source_change_nothing(s: Seq<char>)
    ensures
        lex(seq![' '] + s + seq![' '], 0) == lex(s, 0),
{
    law_padding_keeps_the_tokens(seq![' '], s, seq![' ']);
}

/// Splits `source` into tokens, or fails on a character that starts none or on a malformed
/// number. The last token is the end, and no other is.
pub fn tokenize(source: &str) -> (r: Result<Vec<Token>, ExprError>)
    ensures
        match r {
            Ok(tokens) => lex(source@, 0) == Ok::<_, Failure>(lexemes(tokens@)) && terminated(
                lexemes(tokens@),
            ),
            Err(e) => lex(source@, 0) == Err::<Seq<Lexeme>, _>(e.fault@),
        },
{
    let chars: Vec<char> = chars_of(source);
    let mut tokens: Vec<Token> = Vec::new();
    let mut i: usize = 0;
    while i < chars.len()
        invariant
            chars@ == source@,
            i <= chars.len(),
            lex(source@, 0) == prefixed(lexemes(tokens@), lex(source@, i as int)),
        decreases chars.len() - i,
    {
        let c: char = chars[i];
        if space(c) {
            i += 1;
        } else if let Some(t) = symbol_token(c) {
            proof {
                lemma_prefixed(lexemes(tokens@), t@, lex(source@, i + 1));
                assert(lexemes(tokens@.push(t)) =~= lexemes(tokens@).push(t@));
            }
            tokens.push(t);
            i += 1;
        } else if digit(c) || c == '.' {
            let (end, ok): (usize, bool) = scan_number(&chars, i);
            let text: String = text_of(&chars, i, end);
            if !ok {
                return Err(ExprError::new(Fault::InvalidNumber(text)));
            }
            let t: Token = Token::Number(text);
            proof {
                lemma_prefixed(lexemes(tokens@), t@, lex(source@, end as int));
                assert(lexemes(tokens@.push(t)) =~= lexemes(tokens@).push(t@));
            }
            tokens.push(t);
            i = end;
        } else if letter(c) || c == '_' {
            let end: usize = ident_end(&chars, i);
            let t: Token = Token::Ident(text_of(&chars, i, end));
            proof {
                lemma_prefixed(lexemes(tokens@), t@, lex(source@, end as int));
                assert(lexemes(tokens@.push(t)) =~= lexemes(tokens@).push(t@));
            }
            tokens.push(t);
            i = end;
        } else {
            return Err(ExprError::new(Fault::UnexpectedCharacter(c)));
        }
    }
    proof {
        assert(lexemes(tokens@.push(Token::End)) =~= lexemes(tokens@) + seq![Lexeme::End]);
        lemma_lex_terminated(source@, 0);
    }
    tokens.push(Token::End);
    Ok(tokens)
}

} // verus!
