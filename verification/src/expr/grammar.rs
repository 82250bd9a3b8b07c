//! Which expression a token list denotes.
//!
//! Operators bind by precedence climbing: each has a left and a right binding power, and an
//! operand extends over the operators that bind at least as tightly as its context asks. Addition
//! and subtraction bind loosest, then multiplication and division, all to the left; the power
//! operator binds tightest, to the right. A unary sign binds tighter than all but the power.
use crate::expr::error::Failure;
use crate::expr::lexer::{lemma_number_end, lemma_run_end, lex, name_class, name_end, number_end, Lexeme};
use crate::expr::syntax::{
    all_well_formed, arity_of, constant_named, func_arity, func_named, well_formed, Action, Expr,
    Func, Infix, Literal,
};
use vstd::prelude::*;

verus! {

/// A binary operator with its left and right binding powers.
pub open spec fn infix(t: Lexeme) -> Option<(Infix, int, int)> {
    match t {
        Lexeme::Plus => Some((Infix::Add, 1, 2)),
        Lexeme::Minus => Some((Infix::Sub, 1, 2)),
        Lexeme::Star => Some((Infix::Mul, 3, 4)),
        Lexeme::Slash => Some((Infix::Div, 3, 4)),
        Lexeme::Caret => Some((Infix::Pow, 5, 5)),
        _ => None,
    }
}

/// The binding power a unary sign asks of its operand.
pub open spec fn sign_power() -> int {
    4
}

/// The first position from `i` on at which `names` holds `name`.
pub open spec fn position(names: Seq<Seq<char>>, name: Seq<char>, i: int) -> Option<nat>
    decreases names.len() - i,
{
    if i < 0 || i >= names.len() {
        None
    } else if names[i] == name {
        Some(i as nat)
    } else {
        position(names, name, i + 1)
    }
}

/// A token list as the lexer makes it: it ends in `End`, which stands nowhere else.
pub open spec fn terminated(ts: Seq<Lexeme>) -> bool {
    &&& ts.len() > 0
    &&& ts.last() is End
    &&& forall|i: int| 0 <= i < ts.len() - 1 ==> !(#[trigger] ts[i] is End)
}

/// What a parse yields: a value and the position behind it.
pub type Parsed<T> = Result<(T, int), Failure>;

/// Whether a parse that started at `pos` went on; every parse does.
pub open spec fn went_on(ts: Seq<Lexeme>, pos: int, end: int) -> bool {
    pos < end <= ts.len()
}

/// The expression at `pos` whose operators bind at least as tightly as `power`.
pub open spec fn parse(ts: Seq<Lexeme>, names: Seq<Seq<char>>, pos: int, power: int) -> Parsed<Expr>
    decreases ts.len() - pos, 2int,
{
    match parse_term(ts, names, pos) {
        Err(f) => Err(f),
        Ok((left, p)) => if went_on(ts, pos, p) {
            climb(ts, names, p, power, left)
        } else {
            Err(Failure::TooDeep)
        },
    }
}

/// The expression that extends `left` over the operators at `pos` that bind at least as tightly as
/// `power`.
pub open spec fn climb(
    ts: Seq<Lexeme>,
    names: Seq<Seq<char>>,
    pos: int,
    power: int,
    left: Expr,
) -> Parsed<Expr>
    decreases ts.len() - pos, 1int,
{
    if pos < 0 || pos >= ts.len() {
        Ok((left, pos))
    } else {
        match infix(ts[pos]) {
            None => Ok((left, pos)),
            Some((op, l, r)) => if l < power {
                Ok((left, pos))
            } else {
                match parse(ts, names, pos + 1, r) {
                    Err(f) => Err(f),
                    Ok((right, p)) => if went_on(ts, pos + 1, p) {
                        climb(
                            ts,
                            names,
                            p,
                            power,
                            Expr::Apply(Action::Infix(op), seq![left, right]),
                        )
                    } else {
                        Err(Failure::TooDeep)
                    },
                }
            },
        }
    }
}

/// The closing parenthesis at `pos`, behind `x`.
pub open spec fn close<T>(ts: Seq<Lexeme>, x: T, pos: int) -> Parsed<T> {
    if 0 <= pos < ts.len() && ts[pos] is RParen {
        Ok((x, pos + 1))
    } else {
        Err(Failure::Expected(Lexeme::RParen, ts[pos]))
    }
}

/// The term at `pos`: a number, a parenthesized expression, a signed operand, a constant, a
/// variable, or a function call.
pub open spec fn parse_term(ts: Seq<Lexeme>, names: Seq<Seq<char>>, pos: int) -> Parsed<Expr>
    decreases ts.len() - pos, 0int,
{
    if pos < 0 || pos >= ts.len() {
        Err(Failure::UnexpectedToken(Lexeme::End))
    } else {
        match ts[pos] {
            Lexeme::Number(text) => Ok((Expr::Constant(Literal::Number(text)), pos + 1)),
            Lexeme::Minus => match parse(ts, names, pos + 1, sign_power()) {
                Err(f) => Err(f),
                Ok((e, p)) => Ok((Expr::Apply(Action::Neg, seq![e]), p)),
            },
            Lexeme::Plus => parse(ts, names, pos + 1, sign_power()),
            Lexeme::LParen => match parse(ts, names, pos + 1, 0) {
                Err(f) => Err(f),
                Ok((e, p)) => close(ts, e, p),
            },
            Lexeme::Ident(name) => if pos + 1 < ts.len() && ts[pos + 1] is LParen {
                match func_named(name) {
                    None => Err(Failure::UnknownFunction(name)),
                    Some(func) => parse_call(ts, names, pos + 2, name, func),
                }
            } else if constant_named(name) is Some {
                Ok((Expr::Constant(Literal::Named(constant_named(name)->0)), pos + 1))
            } else if position(names, name, 0) is Some {
                Ok((Expr::Var(position(names, name, 0)->0), pos + 1))
            } else {
                Err(Failure::UnknownName(name))
            },
            other => Err(Failure::UnexpectedToken(other)),
        }
    }
}

/// The rest of a call of `func`, from its first argument on.
pub open spec fn parse_call(
    ts: Seq<Lexeme>,
    names: Seq<Seq<char>>,
    pos: int,
    name: Seq<char>,
    func: Func,
) -> Parsed<Expr>
    decreases ts.len() - pos, 4int,
{
    let args: Parsed<Seq<Expr>> = if 0 <= pos < ts.len() && ts[pos] is RParen {
        Ok((Seq::empty(), pos))
    } else {
        parse_args(ts, names, pos, Seq::empty())
    };
    match args {
        Err(f) => Err(f),
        Ok((es, p)) => match close(ts, es, p) {
            Err(f) => Err(f),
            Ok((es, q)) => if es.len() != func_arity(func) {
                Err(Failure::WrongArity(name, func_arity(func), es.len()))
            } else {
                Ok((Expr::Apply(Action::Call(func), es), q))
            },
        },
    }
}

/// The arguments at `pos`, separated by commas, behind those already read.
pub open spec fn parse_args(
    ts: Seq<Lexeme>,
    names: Seq<Seq<char>>,
    pos: int,
    read: Seq<Expr>,
) -> Parsed<Seq<Expr>>
    decreases ts.len() - pos, 3int,
{
    match parse(ts, names, pos, 0) {
        Err(f) => Err(f),
        Ok((e, p)) => if went_on(ts, pos, p) && p < ts.len() && ts[p] is Comma {
            parse_args(ts, names, p + 1, read.push(e))
        } else {
            Ok((read.push(e), p))
        },
    }
}

/// The lexer terminates its tokens.
pub proof fn lemma_lex_terminated(s: Seq<char>, i: int)
    ensures
        lex(s, i) matches Ok(ts) ==> terminated(ts),
    decreases s.len() - i,
{
    if 0 <= i < s.len() {
        if crate::text::is_space(s[i]) || crate::expr::lexer::symbol(s[i]) is Some {
            lemma_lex_terminated(s, i + 1);
        } else if crate::text::is_digit(s[i]) || s[i] == '.' {
            lemma_number_end(s, i);
            lemma_lex_terminated(s, number_end(s, i));
        } else if crate::text::is_letter(s[i]) || s[i] == '_' {
            lemma_run_end(s, i + 1, name_class());
            lemma_lex_terminated(s, name_end(s, i));
        }
    }
}

/// What holds of every parse that succeeds: it consumed something, stops in front of the end, and
/// yields a well-formed expression.
pub open spec fn sound(ts: Seq<Lexeme>, names: Seq<Seq<char>>, pos: int, r: Parsed<Expr>) -> bool {
    r matches Ok((e, p)) ==> pos < p < ts.len() && well_formed(e, names.len())
}

/// One operand is well-formed where it is.
proof fn lemma_one(e: Expr, vars: nat)
    requires
        well_formed(e, vars),
    ensures
        all_well_formed(seq![e], vars),
{
    assert(seq![e].drop_last() =~= Seq::<Expr>::empty());
    assert(all_well_formed(Seq::<Expr>::empty(), vars));
}

/// Two operands are well-formed where both are.
pub proof fn lemma_two(a: Expr, b: Expr, vars: nat)
    requires
        well_formed(a, vars),
        well_formed(b, vars),
    ensures
        all_well_formed(seq![a, b], vars),
{
    lemma_one(a, vars);
    assert(seq![a, b].drop_last() =~= seq![a]);
}

/// The first position of a name is a position.
pub proof fn lemma_position(names: Seq<Seq<char>>, name: Seq<char>, i: int)
    ensures
        position(names, name, i) matches Some(k) ==> i <= k < names.len() && names[k as int] == name
            && forall|j: int| i <= j < k ==> names[j] != name,
    decreases names.len() - i,
{
    if 0 <= i < names.len() && names[i] != name {
        lemma_position(names, name, i + 1);
    }
}

/// [`sound`] of [`parse`].
pub proof fn lemma_parse_sound(ts: Seq<Lexeme>, names: Seq<Seq<char>>, pos: int, power: int)
    requires
        terminated(ts),
        0 <= pos < ts.len(),
    ensures
        sound(ts, names, pos, parse(ts, names, pos, power)),
    decreases ts.len() - pos, 2int,
{
    lemma_term_sound(ts, names, pos);
    if let Ok((left, p)) = parse_term(ts, names, pos) {
        lemma_climb_sound(ts, names, p, power, left);
    }
}

/// [`sound`] of [`climb`], which may consume nothing.
pub proof fn lemma_climb_sound(
    ts: Seq<Lexeme>,
    names: Seq<Seq<char>>,
    pos: int,
    power: int,
    left: Expr,
)
    requires
        terminated(ts),
        0 <= pos < ts.len(),
        well_formed(left, names.len()),
    ensures
        sound(ts, names, pos - 1, climb(ts, names, pos, power, left)),
    decreases ts.len() - pos, 1int,
{
    if let Some((op, l, r)) = infix(ts[pos]) {
        if l >= power {
            lemma_parse_sound(ts, names, pos + 1, r);
            if let Ok((right, p)) = parse(ts, names, pos + 1, r) {
                lemma_two(left, right, names.len());
                lemma_climb_sound(
                    ts,
                    names,
                    p,
                    power,
                    Expr::Apply(Action::Infix(op), seq![left, right]),
                );
            }
        }
    }
}

/// [`sound`] of [`parse_term`].
pub proof fn lemma_term_sound(ts: Seq<Lexeme>, names: Seq<Seq<char>>, pos: int)
    requires
        terminated(ts),
        0 <= pos < ts.len(),
    ensures
        sound(ts, names, pos, parse_term(ts, names, pos)),
    decreases ts.len() - pos, 0int,
{
    match ts[pos] {
        Lexeme::Minus => {
            lemma_parse_sound(ts, names, pos + 1, sign_power());
            if let Ok((e, p)) = parse(ts, names, pos + 1, sign_power()) {
                lemma_one(e, names.len());
            }
        },
        Lexeme::Plus => {
            lemma_parse_sound(ts, names, pos + 1, sign_power());
        },
        Lexeme::LParen => {
            lemma_parse_sound(ts, names, pos + 1, 0);
        },
        Lexeme::Ident(name) => {
            lemma_position(names, name, 0);
            if ts[pos + 1] is LParen && func_named(name) is Some {
                lemma_call_sound(ts, names, pos + 2, name, func_named(name)->0);
            }
        },
        _ => {},
    }
}

/// [`sound`] of [`parse_call`].
pub proof fn lemma_call_sound(
    ts: Seq<Lexeme>,
    names: Seq<Seq<char>>,
    pos: int,
    name: Seq<char>,
    func: Func,
)
    requires
        terminated(ts),
        0 <= pos < ts.len(),
    ensures
        sound(ts, names, pos, parse_call(ts, names, pos, name, func)),
    decreases ts.len() - pos, 4int,
{
    assert(all_well_formed(Seq::<Expr>::empty(), names.len()));
    if !(ts[pos] is RParen) {
        lemma_args_sound(ts, names, pos, Seq::empty());
    }
    assert(arity_of(Action::Call(func)) == func_arity(func));
}

/// Arguments consume something, stop in front of the end, and are well-formed.
pub proof fn lemma_args_sound(
    ts: Seq<Lexeme>,
    names: Seq<Seq<char>>,
    pos: int,
    read: Seq<Expr>,
)
    requires
        terminated(ts),
        0 <= pos < ts.len(),
        all_well_formed(read, names.len()),
    ensures
        parse_args(ts, names, pos, read) matches Ok((es, p)) ==> pos < p < ts.len()
            && all_well_formed(es, names.len()),
    decreases ts.len() - pos, 3int,
{
    lemma_parse_sound(ts, names, pos, 0);
    if let Ok((e, p)) = parse(ts, names, pos, 0) {
        assert(read.push(e).drop_last() =~= read);
        assert(all_well_formed(read.push(e), names.len()));
        if ts[p] is Comma {
            lemma_args_sound(ts, names, p + 1, read.push(e));
        }
    }
}

} // verus!
