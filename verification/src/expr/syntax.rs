//! The built-in names and operators, and the shape of an expression.
use crate::text::same_text;
use vstd::prelude::*;

verus! {

/// A built-in function, with a fixed arity.
#[derive(Clone, Copy, Debug, PartialEq, Eq, Structural)]
pub enum Func {
    Sin,
    Cos,
    Tan,
    Abs,
    Sqrt,
    Floor,
    Ceil,
    Exp,
    Ln,
    Sign,
    Min,
    Max,
    Pow,
    Atan2,
    Step,
    Clamp,
    Lerp,
    Smoothstep,
    Select,
}

/// The function of a name.
pub open spec fn func_named(name: Seq<char>) -> Option<Func> {
    if name == "sin"@ {
        Some(Func::Sin)
    } else if name == "cos"@ {
        Some(Func::Cos)
    } else if name == "tan"@ {
        Some(Func::Tan)
    } else if name == "abs"@ {
        Some(Func::Abs)
    } else if name == "sqrt"@ {
        Some(Func::Sqrt)
    } else if name == "floor"@ {
        Some(Func::Floor)
    } else if name == "ceil"@ {
        Some(Func::Ceil)
    } else if name == "exp"@ {
        Some(Func::Exp)
    } else if name == "ln"@ {
        Some(Func::Ln)
    } else if name == "sign"@ {
        Some(Func::Sign)
    } else if name == "min"@ {
        Some(Func::Min)
    } else if name == "max"@ {
        Some(Func::Max)
    } else if name == "pow"@ {
        Some(Func::Pow)
    } else if name == "atan2"@ {
        Some(Func::Atan2)
    } else if name == "step"@ {
        Some(Func::Step)
    } else if name == "clamp"@ {
        Some(Func::Clamp)
    } else if name == "lerp"@ {
        Some(Func::Lerp)
    } else if name == "smoothstep"@ {
        Some(Func::Smoothstep)
    } else if name == "select"@ {
        Some(Func::Select)
    } else {
        None
    }
}

/// How many arguments a function takes.
pub open spec fn func_arity(f: Func) -> nat {
    match f {
        Func::Min | Func::Max | Func::Pow | Func::Atan2 | Func::Step => 2,
        Func::Clamp | Func::Lerp | Func::Smoothstep | Func::Select => 3,
        _ => 1,
    }
}

impl Func {
    /// The function of the given name, or `None` if the name is not a built-in.
    pub fn from_name(name: &str) -> (r: Option<Self>)
        ensures
            r == func_named(name@),
    {
        if same_text(name, "sin") {
            Some(Func::Sin)
        } else if same_text(name, "cos") {
            Some(Func::Cos)
        } else if same_text(name, "tan") {
            Some(Func::Tan)
        } else if same_text(name, "abs") {
            Some(Func::Abs)
        } else if same_text(name, "sqrt") {
            Some(Func::Sqrt)
        } else if same_text(name, "floor") {
            Some(Func::Floor)
        } else if same_text(name, "ceil") {
            Some(Func::Ceil)
        } else if same_text(name, "exp") {
            Some(Func::Exp)
        } else if same_text(name, "ln") {
            Some(Func::Ln)
        } else if same_text(name, "sign") {
            Some(Func::Sign)
        } else if same_text(name, "min") {
            Some(Func::Min)
        } else if same_text(name, "max") {
            Some(Func::Max)
        } else if same_text(name, "pow") {
            Some(Func::Pow)
        } else if same_text(name, "atan2") {
            Some(Func::Atan2)
        } else if same_text(name, "step") {
            Some(Func::Step)
        } else if same_text(name, "clamp") {
            Some(Func::Clamp)
        } else if same_text(name, "lerp") {
            Some(Func::Lerp)
        } else if same_text(name, "smoothstep") {
            Some(Func::Smoothstep)
        } else if same_text(name, "select") {
            Some(Func::Select)
        } else {
            None
        }
    }

    /// How many arguments the function takes.
    pub fn arity(self) -> (n: usize)
        ensures
            n == func_arity(self),
    {
        match self {
            Func::Sin | Func::Cos | Func::Tan | Func::Abs | Func::Sqrt | Func::Floor | Func::Ceil
            | Func::Exp | Func::Ln | Func::Sign => 1,
            Func::Min | Func::Max | Func::Pow | Func::Atan2 | Func::Step => 2,
            Func::Clamp | Func::Lerp | Func::Smoothstep | Func::Select => 3,
        }
    }
}

/// A named constant.
#[derive(Clone, Copy, Debug, PartialEq, Eq, Structural)]
pub enum Named {
    Pi,
    Tau,
    E,
}

/// The constant of a name.
pub open spec fn constant_named(name: Seq<char>) -> Option<Named> {
    if name == "pi"@ {
        Some(Named::Pi)
    } else if name == "tau"@ {
        Some(Named::Tau)
    } else if name == "e"@ {
        Some(Named::E)
    } else {
        None
    }
}

/// The named constant usable in an expression, resolved before variables.
pub fn constant(name: &str) -> (r: Option<Named>)
    ensures
        r == constant_named(name@),
{
    if same_text(name, "pi") {
        Some(Named::Pi)
    } else if same_text(name, "tau") {
        Some(Named::Tau)
    } else if same_text(name, "e") {
        Some(Named::E)
    } else {
        None
    }
}

/// A binary operator.
#[derive(Clone, Copy, Debug, PartialEq, Eq, Structural)]
pub enum Infix {
    Add,
    Sub,
    Mul,
    Div,
    Pow,
}

/// What consumes values and gives one back: negation, a binary operator, or a function.
#[derive(Clone, Copy, Debug, PartialEq, Eq, Structural)]
pub enum Action {
    Neg,
    Infix(Infix),
    Call(Func),
}

/// How many values an action consumes.
pub open spec fn arity_of(a: Action) -> nat {
    match a {
        Action::Neg => 1,
        Action::Infix(_) => 2,
        Action::Call(f) => func_arity(f),
    }
}

impl Action {
    /// How many values the action consumes.
    pub fn arity(self) -> (n: usize)
        ensures
            n == arity_of(self),
            1 <= n <= 3,
    {
        match self {
            Action::Neg => 1,
            Action::Infix(_) => 2,
            Action::Call(f) => f.arity(),
        }
    }
}

/// A constant of a program: a number as it was written, or a named constant.
#[derive(Debug)]
pub enum Constant {
    Number(String),
    Named(Named),
}

/// What a [`Constant`] is, over character sequences.
pub ghost enum Literal {
    Number(Seq<char>),
    Named(Named),
}

impl View for Constant {
    type V = Literal;

    open spec fn view(&self) -> Literal {
        match self {
            Constant::Number(text) => Literal::Number(text@),
            Constant::Named(n) => Literal::Named(*n),
        }
    }
}

/// An expression: a constant, a variable by its position, or an action on its operands.
pub ghost enum Expr {
    Constant(Literal),
    Var(nat),
    Apply(Action, Seq<Expr>),
}

/// Every action has as many operands as it takes, and every variable exists.
pub open spec fn well_formed(e: Expr, vars: nat) -> bool
    decreases e,
{
    match e {
        Expr::Constant(_) => true,
        Expr::Var(i) => i < vars,
        Expr::Apply(a, args) => args.len() == arity_of(a) && all_well_formed(args, vars),
    }
}

/// [`well_formed`] of each expression.
pub open spec fn all_well_formed(es: Seq<Expr>, vars: nat) -> bool
    decreases es,
{
    es.len() == 0 || (all_well_formed(es.drop_last(), vars) && well_formed(es.last(), vars))
}

/// An instruction of a stack machine.
pub ghost enum Instr {
    /// Push a constant.
    Constant(Literal),
    /// Push a variable.
    Var(nat),
    /// Pop the operands of an action, push its result.
    Act(Action),
}

/// The postfix form of an expression: its operands, left to right, then its action.
pub open spec fn postfix(e: Expr) -> Seq<Instr>
    decreases e,
{
    match e {
        Expr::Constant(c) => seq![Instr::Constant(c)],
        Expr::Var(i) => seq![Instr::Var(i)],
        Expr::Apply(a, args) => postfix_all(args).push(Instr::Act(a)),
    }
}

/// The postfix forms of expressions, one after the other.
pub open spec fn postfix_all(es: Seq<Expr>) -> Seq<Instr>
    decreases es,
{
    if es.len() == 0 {
        Seq::empty()
    } else {
        postfix_all(es.drop_last()) + postfix(es.last())
    }
}

/// The larger of two.
pub open spec fn larger(a: nat, b: nat) -> nat {
    if a >= b {
        a
    } else {
        b
    }
}

/// How deep a stack the evaluation of an expression needs.
pub open spec fn need(e: Expr) -> nat
    decreases e,
{
    match e {
        Expr::Constant(_) => 1,
        Expr::Var(_) => 1,
        Expr::Apply(_, args) => need_all(args),
    }
}

/// How deep a stack it takes to evaluate expressions in turn, keeping each value.
pub open spec fn need_all(es: Seq<Expr>) -> nat
    decreases es,
{
    if es.len() == 0 {
        0
    } else {
        larger(need_all(es.drop_last()), (es.len() - 1) as nat + need(es.last()))
    }
}

/// What the parts of an expression mean in some domain of values.
#[verifier::reject_recursive_types(V)]
pub ghost struct Meaning<V> {
    pub constant: spec_fn(Literal) -> V,
    pub variable: spec_fn(nat) -> V,
    pub action: spec_fn(Action, Seq<V>) -> V,
}

/// The value of an expression.
pub open spec fn value<V>(e: Expr, m: Meaning<V>) -> V
    decreases e,
{
    match e {
        Expr::Constant(c) => (m.constant)(c),
        Expr::Var(i) => (m.variable)(i),
        Expr::Apply(a, args) => (m.action)(a, values(args, m)),
    }
}

/// The values of expressions.
pub open spec fn values<V>(es: Seq<Expr>, m: Meaning<V>) -> Seq<V>
    decreases es,
{
    if es.len() == 0 {
        Seq::empty()
    } else {
        values(es.drop_last(), m).push(value(es.last(), m))
    }
}

} // verus!
