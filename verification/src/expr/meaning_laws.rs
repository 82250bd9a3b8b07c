//! How operators group, how calls take their arguments, and what names stand for.
use crate::expr::error::Failure;
use crate::expr::grammar::{
    climb, infix, lemma_parse_sound, lemma_term_sound, parse, parse_args, parse_term, position,
    sign_power, terminated,
};
use crate::expr::lexer::Lexeme;
use crate::expr::syntax::{
    constant_named, func_arity, func_named, value, values, Action, Expr, Func, Infix, Literal,
    Meaning, Named,
};
use vstd::prelude::*;

verus! {

/// The operator a token writes.
pub open spec fn written(t: Lexeme) -> Option<Infix> {
    match t {
        Lexeme::Plus => Some(Infix::Add),
        Lexeme::Minus => Some(Infix::Sub),
        Lexeme::Star => Some(Infix::Mul),
        Lexeme::Slash => Some(Infix::Div),
        Lexeme::Caret => Some(Infix::Pow),
        _ => None,
    }
}

/// Sums rank lowest, products next, powers highest.
pub open spec fn rank(op: Infix) -> int {
    match op {
        Infix::Add => 0,
        Infix::Sub => 0,
        Infix::Mul => 1,
        Infix::Div => 1,
        Infix::Pow => 2,
    }
}

/// Two operands under an operator.
pub open spec fn joined(op: Infix, a: Expr, b: Expr) -> Expr {
    Expr::Apply(Action::Infix(op), seq![a, b])
}

/// Operators group by rank: of three terms with two operators between them, the later pair is taken
/// together first where the later operator ranks higher or both are powers; else the earlier pair
/// is. The terms may be any, and nothing that follows them is an operator.
pub proof fn law_operators_group_by_rank(
    ts: Seq<Lexeme>,
    names: Seq<Seq<char>>,
    pos: int,
    a: (Expr, int),
    b: (Expr, int),
    c: (Expr, int),
)
    requires
        terminated(ts),
        0 <= pos < ts.len(),
        parse_term(ts, names, pos) == Ok::<(Expr, int), Failure>(a),
        0 <= a.1 < ts.len() - 1,
        written(ts[a.1]) is Some,
        parse_term(ts, names, a.1 + 1) == Ok::<(Expr, int), Failure>(b),
        0 <= b.1 < ts.len() - 1,
        written(ts[b.1]) is Some,
        parse_term(ts, names, b.1 + 1) == Ok::<(Expr, int), Failure>(c),
        0 <= c.1 < ts.len(),
        written(ts[c.1]) is None,
    ensures
        ({
            let (p, q) = (written(ts[a.1])->0, written(ts[b.1])->0);
            parse(ts, names, pos, 0) == Ok::<(Expr, int), Failure>(
                if rank(q) > rank(p) || (p is Pow && q is Pow) {
                    (joined(p, a.0, joined(q, b.0, c.0)), c.1)
                } else {
                    (joined(q, joined(p, a.0, b.0), c.0), c.1)
                },
            )
        }),
{
    lemma_term_sound(ts, names, pos);
    lemma_term_sound(ts, names, a.1 + 1);
    lemma_term_sound(ts, names, b.1 + 1);
    let (p, q) = (written(ts[a.1])->0, written(ts[b.1])->0);
    let (_, lp, rp) = infix(ts[a.1])->0;
    let (_, lq, rq) = infix(ts[b.1])->0;
    assert(infix(ts[a.1]) == Some((p, lp, rp)));
    assert(infix(ts[b.1]) == Some((q, lq, rq)));
    assert(infix(ts[c.1]) is None);
    // The operand after the later operator is the third term.
    let right = parse(ts, names, b.1 + 1, rq);
    assert(climb(ts, names, c.1, rq, c.0) == Ok::<(Expr, int), Failure>(c));
    assert(right == Ok::<(Expr, int), Failure>(c));
    // The operand after the earlier operator.
    let middle = parse(ts, names, a.1 + 1, rp);
    assert(middle == climb(ts, names, b.1, rp, b.0));
    let late = joined(q, b.0, c.0);
    assert(climb(ts, names, c.1, rp, late) == Ok::<(Expr, int), Failure>((late, c.1)));
    let first = joined(p, a.0, b.0);
    assert(climb(ts, names, c.1, 0, joined(p, a.0, late)) == Ok::<(Expr, int), Failure>(
        (joined(p, a.0, late), c.1),
    ));
    assert(climb(ts, names, c.1, 0, joined(q, first, c.0)) == Ok::<(Expr, int), Failure>(
        (joined(q, first, c.0), c.1),
    ));
    if lq < rp {
        assert(middle == Ok::<(Expr, int), Failure>(b));
        assert(climb(ts, names, b.1, 0, first) == Ok::<(Expr, int), Failure>(
            (joined(q, first, c.0), c.1),
        ));
    } else {
        assert(middle == Ok::<(Expr, int), Failure>((late, c.1)));
    }
    assert(climb(ts, names, a.1, 0, a.0) == parse(ts, names, pos, 0));
}

/// A sign binds its term before any operator but a power: of a signed term, an operator and another
/// term, a power is taken first and then signed; any other operator takes the signed term. A plus
/// sign changes nothing.
pub proof fn law_signs_bind_below_powers(
    ts: Seq<Lexeme>,
    names: Seq<Seq<char>>,
    pos: int,
    a: (Expr, int),
    b: (Expr, int),
)
    requires
        terminated(ts),
        0 <= pos < ts.len() - 1,
        ts[pos] is Minus || ts[pos] is Plus,
        parse_term(ts, names, pos + 1) == Ok::<(Expr, int), Failure>(a),
        0 <= a.1 < ts.len() - 1,
        written(ts[a.1]) is Some,
        parse_term(ts, names, a.1 + 1) == Ok::<(Expr, int), Failure>(b),
        0 <= b.1 < ts.len(),
        written(ts[b.1]) is None,
    ensures
        ({
            let p = written(ts[a.1])->0;
            let (whole, first) = (joined(p, a.0, b.0), a.0);
            parse(ts, names, pos, 0) == Ok::<(Expr, int), Failure>(
                (
                    if ts[pos] is Plus {
                        whole
                    } else if p is Pow {
                        Expr::Apply(Action::Neg, seq![whole])
                    } else {
                        joined(p, Expr::Apply(Action::Neg, seq![first]), b.0)
                    },
                    b.1,
                ),
            )
        }),
{
    lemma_term_sound(ts, names, pos + 1);
    lemma_term_sound(ts, names, a.1 + 1);
    let p = written(ts[a.1])->0;
    let (_, lp, rp) = infix(ts[a.1])->0;
    assert(infix(ts[a.1]) == Some((p, lp, rp)));
    assert(infix(ts[b.1]) is None);
    let whole = joined(p, a.0, b.0);
    assert(climb(ts, names, b.1, rp, b.0) == Ok::<(Expr, int), Failure>(b));
    assert(parse(ts, names, a.1 + 1, rp) == Ok::<(Expr, int), Failure>(b));
    let operand = parse(ts, names, pos + 1, sign_power());
    assert(operand == climb(ts, names, a.1, sign_power(), a.0));
    if lp < sign_power() {
        assert(operand == Ok::<(Expr, int), Failure>(a));
        let left = if ts[pos] is Plus {
            a.0
        } else {
            Expr::Apply(Action::Neg, seq![a.0])
        };
        assert(parse_term(ts, names, pos) == Ok::<(Expr, int), Failure>((left, a.1)));
        let all = joined(p, left, b.0);
        assert(climb(ts, names, b.1, 0, all) == Ok::<(Expr, int), Failure>((all, b.1)));
        assert(climb(ts, names, a.1, 0, left) == Ok::<(Expr, int), Failure>((all, b.1)));
    } else {
        assert(climb(ts, names, b.1, sign_power(), whole) == Ok::<(Expr, int), Failure>(
            (whole, b.1),
        ));
        assert(operand == Ok::<(Expr, int), Failure>((whole, b.1)));
        let all = if ts[pos] is Plus {
            whole
        } else {
            Expr::Apply(Action::Neg, seq![whole])
        };
        assert(parse_term(ts, names, pos) == Ok::<(Expr, int), Failure>((all, b.1)));
        assert(climb(ts, names, b.1, 0, all) == Ok::<(Expr, int), Failure>((all, b.1)));
    }
}

/// A list of expressions, separated by commas: expression `i` stands at `starts[i]`, and behind each
/// but the last there is a comma, behind which the next starts.
pub open spec fn listed(
    ts: Seq<Lexeme>,
    names: Seq<Seq<char>>,
    starts: Seq<int>,
    es: Seq<Expr>,
    end: int,
) -> bool {
    &&& es.len() > 0
    &&& starts.len() == es.len()
    &&& forall|i: int|
        0 <= i < es.len() ==> 0 <= #[trigger] starts[i] < ts.len() && parse(
            ts,
            names,
            starts[i],
            0,
        ) == Ok::<(Expr, int), Failure>(
            (
                es[i],
                if i == es.len() - 1 {
                    end
                } else {
                    starts[i + 1] - 1
                },
            ),
        )
    &&& forall|i: int|
        0 <= i < es.len() - 1 ==> 0 < #[trigger] starts[i + 1] && ts[starts[i + 1] - 1] is Comma
    &&& 0 <= end < ts.len()
    &&& ts[end] is RParen
}

/// Listed expressions are read in order.
proof fn lemma_listed(
    ts: Seq<Lexeme>,
    names: Seq<Seq<char>>,
    starts: Seq<int>,
    es: Seq<Expr>,
    end: int,
    read: Seq<Expr>,
)
    requires
        terminated(ts),
        listed(ts, names, starts, es, end),
    ensures
        parse_args(ts, names, starts[0], read) == Ok::<(Seq<Expr>, int), Failure>((read + es, end)),
    decreases es.len(),
{
    lemma_parse_sound(ts, names, starts[0], 0);
    if es.len() == 1 {
        assert(read.push(es[0]) =~= read + es);
    } else {
        let (rest, others) = (es.skip(1), starts.skip(1));
        assert forall|i: int| 0 <= i < rest.len() implies 0 <= #[trigger] others[i] < ts.len()
            && parse(ts, names, others[i], 0) == Ok::<(Expr, int), Failure>(
            (
                rest[i],
                if i == rest.len() - 1 {
                    end
                } else {
                    others[i + 1] - 1
                },
            ),
        ) by {
            assert(starts[i + 1] == others[i]);
        }
        assert forall|i: int| 0 <= i < rest.len() - 1 implies 0 < #[trigger] others[i + 1]
            && ts[others[i + 1] - 1] is Comma by {
            assert(starts[(i + 1) + 1] == others[i + 1]);
        }
        assert(starts[0int + 1] == others[0]);
        lemma_listed(ts, names, others, rest, end, read.push(es[0]));
        assert(read.push(es[0]) + rest =~= read + es);
    }
}

/// A call takes its arguments in order: a function's name, then in parentheses as many expressions
/// as it takes, is the function applied to them, first to last.
pub proof fn law_calls_take_their_arguments_in_order(
    ts: Seq<Lexeme>,
    names: Seq<Seq<char>>,
    pos: int,
    name: Seq<char>,
    func: Func,
    starts: Seq<int>,
    es: Seq<Expr>,
    end: int,
)
    requires
        terminated(ts),
        0 <= pos,
        pos + 2 < ts.len(),
        ts[pos] == Lexeme::Ident(name),
        ts[pos + 1] is LParen,
        func_named(name) == Some(func),
        listed(ts, names, starts, es, end),
        starts[0] == pos + 2,
        es.len() == func_arity(func),
    ensures
        parse_term(ts, names, pos) == Ok::<(Expr, int), Failure>(
            (Expr::Apply(Action::Call(func), es), end + 1),
        ),
{
    lemma_listed(ts, names, starts, es, end, Seq::empty());
    assert(Seq::<Expr>::empty() + es =~= es);
    lemma_parse_sound(ts, names, starts[0], 0);
    if ts[pos + 2] is RParen {
        assert(parse_term(ts, names, pos + 2) is Err);
        assert(parse(ts, names, pos + 2, 0) is Err);
    }
}

/// A name that is no constant stands for the first variable of that name; a constant hides a
/// variable of its name.
pub proof fn law_names_stand_for_constants_and_variables(
    ts: Seq<Lexeme>,
    names: Seq<Seq<char>>,
    pos: int,
    name: Seq<char>,
    i: int,
)
    requires
        0 <= pos < ts.len() - 1,
        ts[pos] == Lexeme::Ident(name),
        !(ts[pos + 1] is LParen),
        0 <= i < names.len(),
        names[i] == name,
        forall|j: int| 0 <= j < i ==> names[j] != name,
    ensures
        parse_term(ts, names, pos) == Ok::<(Expr, int), Failure>(
            (
                match constant_named(name) {
                    Some(c) => Expr::Constant(Literal::Named(c)),
                    None => Expr::Var(i as nat),
                },
                pos + 1,
            ),
        ),
{
    lemma_first_position(names, name, 0, i);
}

proof fn lemma_first_position(names: Seq<Seq<char>>, name: Seq<char>, k: int, i: int)
    requires
        0 <= k <= i < names.len(),
        names[i] == name,
        forall|j: int| k <= j < i ==> names[j] != name,
    ensures
        position(names, name, k) == Some(i as nat),
    decreases i - k,
{
    if k < i {
        assert(names[k] != name);
        lemma_first_position(names, name, k + 1, i);
    }
}

/// An action works on the values of its operands, first to last.
pub proof fn law_actions_take_operands_in_order<V>(a: Action, es: Seq<Expr>, m: Meaning<V>)
    ensures
        value(Expr::Apply(a, es), m) == (m.action)(
            a,
            Seq::new(es.len(), |i: int| value(es[i], m)),
        ),
{
    lemma_values(es, m);
}

proof fn lemma_values<V>(es: Seq<Expr>, m: Meaning<V>)
    ensures
        values(es, m) == Seq::new(es.len(), |i: int| value(es[i], m)),
    decreases es.len(),
{
    let all = Seq::new(es.len(), |i: int| value(es[i], m));
    if es.len() > 0 {
        let rest = es.drop_last();
        lemma_values(rest, m);
        assert(values(es, m) =~= all);
    } else {
        assert(values(es, m) =~= all);
    }
}

/// How a function is written.
pub open spec fn spelling(f: Func) -> Seq<char> {
    match f {
        Func::Sin => "sin"@,
        Func::Cos => "cos"@,
        Func::Tan => "tan"@,
        Func::Abs => "abs"@,
        Func::Sqrt => "sqrt"@,
        Func::Floor => "floor"@,
        Func::Ceil => "ceil"@,
        Func::Exp => "exp"@,
        Func::Ln => "ln"@,
        Func::Sign => "sign"@,
        Func::Min => "min"@,
        Func::Max => "max"@,
        Func::Pow => "pow"@,
        Func::Atan2 => "atan2"@,
        Func::Step => "step"@,
        Func::Clamp => "clamp"@,
        Func::Lerp => "lerp"@,
        Func::Smoothstep => "smoothstep"@,
        Func::Select => "select"@,
    }
}

/// Every function is found by its own name, and only by it.
pub proof fn law_functions_go_by_their_names(f: Func, name: Seq<char>)
    ensures
        func_named(name) == Some(f) <==> name == spelling(f),
{
    reveal_strlit("sin");
    reveal_strlit("cos");
    reveal_strlit("tan");
    reveal_strlit("abs");
    reveal_strlit("sqrt");
    reveal_strlit("floor");
    reveal_strlit("ceil");
    reveal_strlit("exp");
    reveal_strlit("ln");
    reveal_strlit("sign");
    reveal_strlit("min");
    reveal_strlit("max");
    reveal_strlit("pow");
    reveal_strlit("atan2");
    reveal_strlit("step");
    reveal_strlit("clamp");
    reveal_strlit("lerp");
    reveal_strlit("smoothstep");
    reveal_strlit("select");
    if name == spelling(f) {
        assert(name[0] == spelling(f)[0] && name[1] == spelling(f)[1]);
        if name.len() > 2 {
            assert(name[2] == spelling(f)[2]);
        }
        if name.len() > 3 {
            assert(name[3] == spelling(f)[3]);
        }
    }
}

/// Every named constant is found by its own name, and only by it.
pub proof fn law_constants_go_by_their_names(c: Named, name: Seq<char>)
    ensures
        constant_named(name) == Some(c) <==> name == match c {
            Named::Pi => "pi"@,
            Named::Tau => "tau"@,
            Named::E => "e"@,
        },
{
    reveal_strlit("pi");
    reveal_strlit("tau");
    reveal_strlit("e");
    assert("pi"@.len() == 2 && "tau"@.len() == 3 && "e"@.len() == 1);
}

/// How many arguments a function takes, told by what it does: one of a single number, two where it
/// compares or combines a pair, three where it chooses or blends between two by a third.
pub proof fn law_arities(f: Func)
    ensures
        1 <= func_arity(f) <= 3,
        func_arity(f) == 2 <==> f == Func::Min || f == Func::Max || f == Func::Pow || f
            == Func::Atan2 || f == Func::Step,
        func_arity(f) == 3 <==> f == Func::Clamp || f == Func::Lerp || f == Func::Smoothstep || f
            == Func::Select,
{
}

} // verus!
