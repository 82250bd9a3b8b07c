//! Compiling a formula to a program for a stack machine, and running it.
use crate::expr::error::{ExprError, Failure, Fault};
use crate::expr::grammar::{
    climb, close, infix, lemma_lex_terminated, lemma_parse_sound, parse, parse_args, parse_call,
    parse_term, position, sign_power, terminated, Parsed,
};
use crate::expr::lexer::{lex, lexemes, tokenize, Lexeme, Token};
use crate::expr::syntax::{
    all_well_formed, arity_of, constant, larger, need, need_all, postfix, postfix_all, value,
    values, well_formed, Action, Constant, Expr, Func, Infix, Instr, Literal, Meaning,
};
use crate::text::same_text;
use vstd::prelude::*;

verus! {

/// Largest evaluation-stack depth a program may need. Real expressions are far shallower; the cap
/// bounds the per-cell stack and is checked once, when the program is compiled.
pub const STACK_MAX: usize = 128;

/// One instruction of a compiled expression.
#[derive(Clone, Copy, Debug, PartialEq, Eq, Structural)]
pub enum Op {
    /// Push the constant at an index of the program's constants.
    Const(usize),
    /// Push the variable at an index of the environment.
    Var(usize),
    /// Pop the operands of an action, push its result.
    Act(Action),
}

/// What an instruction is, given the constants it may refer to.
pub open spec fn instr(op: Op, constants: Seq<Constant>) -> Instr {
    match op {
        Op::Const(i) => Instr::Constant(constants[i as int]@),
        Op::Var(i) => Instr::Var(i as nat),
        Op::Act(a) => Instr::Act(a),
    }
}

/// What a list of instructions is.
pub open spec fn code(ops: Seq<Op>, constants: Seq<Constant>) -> Seq<Instr> {
    ops.map_values(|op: Op| instr(op, constants))
}

/// Every constant index is one of `n` constants.
pub open spec fn constants_bound(ops: Seq<Op>, n: nat) -> bool {
    forall|i: int| 0 <= i < ops.len() ==> (#[trigger] ops[i] matches Op::Const(c) ==> c < n)
}

/// A compiled expression, evaluated per cell. Compile once, evaluate many.
#[derive(Debug)]
pub struct Program {
    ops: Vec<Op>,
    constants: Vec<Constant>,
}

/// The text of the variable names.
pub open spec fn names(vars: Seq<&str>) -> Seq<Seq<char>> {
    vars.map_values(|v: &str| v@)
}

/// What compiling `source` against the variables `names` gives: the expression it denotes.
pub open spec fn compiled(source: Seq<char>, names: Seq<Seq<char>>) -> Result<Expr, Failure> {
    match lex(source, 0) {
        Err(f) => Err(f),
        Ok(ts) => match parse(ts, names, 0, 0) {
            Err(f) => Err(f),
            Ok((e, p)) => if !(ts[p] is End) {
                Err(Failure::TrailingInput)
            } else if need(e) > STACK_MAX {
                Err(Failure::TooDeep)
            } else {
                Ok(e)
            },
        },
    }
}

/// Running instructions on a stack of values.
pub open spec fn run<V>(code: Seq<Instr>, m: Meaning<V>, stack: Seq<V>) -> Seq<V>
    decreases code.len(),
{
    if code.len() == 0 {
        stack
    } else {
        let rest = code.drop_first();
        match code[0] {
            Instr::Constant(c) => run(rest, m, stack.push((m.constant)(c))),
            Instr::Var(i) => run(rest, m, stack.push((m.variable)(i))),
            Instr::Act(a) => {
                let low = stack.len() - arity_of(a);
                run(rest, m, stack.take(low).push((m.action)(a, stack.skip(low))))
            },
        }
    }
}

/// Instructions that, from a stack of `depth` values, always find their operands and variables,
/// never need more than the stack cap, and leave exactly one value.
pub open spec fn safe(code: Seq<Instr>, depth: int, vars: nat) -> bool
    decreases code.len(),
{
    if code.len() == 0 {
        depth == 1
    } else {
        let rest = code.drop_first();
        match code[0] {
            Instr::Constant(_) => depth < STACK_MAX && safe(rest, depth + 1, vars),
            Instr::Var(i) => i < vars && depth < STACK_MAX && safe(rest, depth + 1, vars),
            Instr::Act(a) => depth >= arity_of(a) && safe(rest, depth - arity_of(a) + 1, vars),
        }
    }
}

/// An executable function on operands that computes `f`.
pub open spec fn computes<V, F: Fn(Action, &[V]) -> V>(
    apply: F,
    f: spec_fn(Action, Seq<V>) -> V,
) -> bool {
    forall|a: Action, args: &[V], r: V| #[trigger]
        call_ensures(apply, (a, args), r) ==> r == f(a, args@)
}

/// The constants, variables and actions have the meaning `m`.
pub open spec fn interpreted<V, F: Fn(Action, &[V]) -> V>(
    m: Meaning<V>,
    literals: Seq<Literal>,
    constants: Seq<V>,
    values: Seq<V>,
    apply: F,
) -> bool {
    &&& forall|i: int|
        0 <= i < literals.len() ==> #[trigger] constants[i] == (m.constant)(literals[i])
    &&& forall|i: int| 0 <= i < values.len() ==> #[trigger] values[i] == (m.variable)(i as nat)
    &&& computes(apply, m.action)
}

impl Program {
    /// The instructions.
    pub closed spec fn code(self) -> Seq<Instr> {
        code(self.ops@, self.constants@)
    }

    /// The constants the instructions push, in the order in which the formula mentions them.
    pub closed spec fn literals(self) -> Seq<Literal> {
        self.constants@.map_values(|c: Constant| c@)
    }

    /// A program as the compiler makes it, for an environment of `vars` variables.
    pub closed spec fn wf(self, vars: nat) -> bool {
        &&& constants_bound(self.ops@, self.constants@.len())
        &&& safe(self.code(), 0, vars)
    }

    /// Compiles `source`, resolving identifiers against `vars` (in order) plus the built-in
    /// constants and functions.
    pub fn compile(source: &str, vars: &[&str]) -> (r: Result<Self, ExprError>)
        ensures
            match r {
                Ok(program) => {
                    &&& compiled(source@, names(vars@)) matches Ok(e) && program.code() == postfix(
                        e,
                    ) && well_formed(e, vars@.len()) && need(e) <= STACK_MAX
                    &&& program.wf(vars@.len())
                },
                Err(e) => compiled(source@, names(vars@)) == Err::<Expr, _>(e.fault@),
            },
    {
        let tokens: Vec<Token> = match tokenize(source) {
            Ok(tokens) => tokens,
            Err(e) => {
                return Err(e);
            },
        };
        let ghost ts = lexemes(tokens@);
        let ghost nm = names(vars@);
        proof {
            lemma_lex_terminated(source@, 0);
            lemma_parse_sound(ts, nm, 0, 0);
        }
        let mut parser: Parser = Parser {
            tokens: &tokens,
            pos: 0,
            vars,
            ops: Vec::new(),
            constants: Vec::new(),
            depth: 0,
            max_depth: 0,
        };
        match parser.parse_expr(0) {
            Ok(()) => {},
            Err(e) => {
                return Err(e);
            },
        }
        assert(ts[parser.pos as int] == tokens@[parser.pos as int]@);
        let ended: bool = if let Token::End = &tokens[parser.pos] {
            true
        } else {
            false
        };
        if !ended {
            return Err(ExprError::new(Fault::TrailingInput));
        }
        if parser.max_depth > STACK_MAX {
            return Err(ExprError::new(Fault::TooDeep));
        }
        let program: Program = Program { ops: parser.ops, constants: parser.constants };
        proof {
            let e = parse(ts, nm, 0, 0)->Ok_0.0;
            assert(program.code() =~= postfix(e));
            assert(postfix(e) + Seq::<Instr>::empty() =~= postfix(e));
            lemma_safe(e, Seq::empty(), 0, nm.len());
        }
        Ok(program)
    }

    /// The constants the program pushes, for the caller to give values to.
    pub fn constants(&self) -> (r: &Vec<Constant>)
        ensures
            r@.map_values(|c: Constant| c@) == self.literals(),
    {
        &self.constants
    }

    /// Evaluates the program with `constants[i]` standing for its `i`th constant and `values[i]`
    /// for the `i`th variable it was compiled against; `apply` performs the actions.
    pub fn eval<V: Copy, F: Fn(Action, &[V]) -> V>(
        &self,
        constants: &[V],
        values: &[V],
        apply: &F,
    ) -> (r: V)
        requires
            self.wf(values@.len()),
            constants@.len() == self.literals().len(),
            forall|a: Action, args: &[V]|
                args@.len() == arity_of(a) ==> #[trigger] call_requires(*apply, (a, args)),
        ensures
            forall|m: Meaning<V>| #[trigger]
                interpreted(m, self.literals(), constants@, values@, *apply) ==> run(
                    self.code(),
                    m,
                    Seq::empty(),
                ) == seq![r],
    {
        let mut stack: Vec<V> = Vec::with_capacity(STACK_MAX);
        let mut pc: usize = 0;
        assert(self.code().skip(0) =~= self.code());
        assert(stack@ =~= Seq::empty());
        while pc < self.ops.len()
            invariant
                pc <= self.ops.len(),
                constants_bound(self.ops@, self.constants@.len()),
                constants@.len() == self.constants@.len(),
                stack.len() <= STACK_MAX,
                safe(self.code().skip(pc as int), stack@.len() as int, values@.len()),
                forall|a: Action, args: &[V]|
                    args@.len() == arity_of(a) ==> #[trigger] call_requires(*apply, (a, args)),
                forall|m: Meaning<V>| #[trigger]
                    interpreted(m, self.literals(), constants@, values@, *apply) ==> run(
                        self.code(),
                        m,
                        Seq::empty(),
                    ) == run(self.code().skip(pc as int), m, stack@),
            decreases self.ops.len() - pc,
        {
            let ghost here = self.code().skip(pc as int);
            let ghost before = stack@;
            assert(here[0] == self.code()[pc as int]);
            assert(here.drop_first() =~= self.code().skip(pc + 1));
            match self.ops[pc] {
                Op::Const(i) => {
                    assert(self.literals()[i as int] == self.constants@[i as int]@);
                    stack.push(constants[i]);
                    proof {
                        assert forall|m: Meaning<V>| #[trigger]
                            interpreted(
                                m,
                                self.literals(),
                                constants@,
                                values@,
                                *apply,
                            ) implies run(self.code(), m, Seq::empty()) == run(
                            self.code().skip(pc + 1),
                            m,
                            stack@,
                        ) by {
                            assert(constants@[i as int] == (m.constant)(
                                self.literals()[i as int],
                            ));
                        }
                    }
                },
                Op::Var(i) => {
                    stack.push(values[i]);
                },
                Op::Act(a) => {
                    let n: usize = a.arity();
                    let low: usize = stack.len() - n;
                    let args: &[V] = vstd::slice::slice_subrange(
                        stack.as_slice(),
                        low,
                        stack.len(),
                    );
                    assert(args@ =~= before.skip(low as int));
                    let result: V = apply(a, args);
                    proof {
                        assert forall|m: Meaning<V>| #[trigger]
                            interpreted(
                                m,
                                self.literals(),
                                constants@,
                                values@,
                                *apply,
                            ) implies result == (m.action)(a, before.skip(low as int)) by {
                            assert(call_ensures(*apply, (a, args), result));
                        }
                    }
                    stack.truncate(low);
                    assert(stack@ =~= before.take(low as int));
                    stack.push(result);
                },
            }
            pc += 1;
        }
        assert(self.code().skip(pc as int).len() == 0);
        assert(stack@ =~= seq![stack@[0]]);
        stack[0]
    }
}

/// A well-formed expression's instructions are safe wherever the room it needs is left.
proof fn lemma_safe(e: Expr, rest: Seq<Instr>, depth: int, vars: nat)
    requires
        well_formed(e, vars),
        0 <= depth,
        depth + need(e) <= STACK_MAX,
        safe(rest, depth + 1, vars),
    ensures
        safe(postfix(e) + rest, depth, vars),
    decreases e,
{
    match e {
        Expr::Constant(c) => {
            assert((postfix(e) + rest).drop_first() =~= rest);
        },
        Expr::Var(i) => {
            assert((postfix(e) + rest).drop_first() =~= rest);
        },
        Expr::Apply(a, args) => {
            let tail = seq![Instr::Act(a)] + rest;
            assert(tail.drop_first() =~= rest);
            assert(postfix(e) + rest =~= postfix_all(args) + tail);
            lemma_safe_all(args, tail, depth, vars);
        },
    }
}

/// The instructions of well-formed operands are safe wherever the room they need is left.
proof fn lemma_safe_all(es: Seq<Expr>, rest: Seq<Instr>, depth: int, vars: nat)
    requires
        all_well_formed(es, vars),
        0 <= depth,
        depth + need_all(es) <= STACK_MAX,
        safe(rest, depth + es.len(), vars),
    ensures
        safe(postfix_all(es) + rest, depth, vars),
    decreases es,
{
    if es.len() == 0 {
        assert(postfix_all(es) + rest =~= rest);
    } else {
        let last = postfix(es.last()) + rest;
        lemma_safe(es.last(), rest, depth + es.len() - 1, vars);
        lemma_safe_all(es.drop_last(), last, depth, vars);
        assert(postfix_all(es) + rest =~= postfix_all(es.drop_last()) + last);
    }
}

/// Running a well-formed expression's instructions pushes its value.
proof fn lemma_run<V>(e: Expr, vars: nat, rest: Seq<Instr>, m: Meaning<V>, stack: Seq<V>)
    requires
        well_formed(e, vars),
    ensures
        run(postfix(e) + rest, m, stack) == run(rest, m, stack.push(value(e, m))),
    decreases e,
{
    match e {
        Expr::Constant(c) => {
            assert((postfix(e) + rest).drop_first() =~= rest);
        },
        Expr::Var(i) => {
            assert((postfix(e) + rest).drop_first() =~= rest);
        },
        Expr::Apply(a, args) => {
            let tail = seq![Instr::Act(a)] + rest;
            assert(tail.drop_first() =~= rest);
            assert(postfix(e) + rest =~= postfix_all(args) + tail);
            lemma_run_all(args, vars, tail, m, stack);
            let full = stack + values(args, m);
            lemma_values_len(args, m);
            assert(full.take(stack.len() as int) =~= stack);
            assert(full.skip(stack.len() as int) =~= values(args, m));
        },
    }
}

/// Running the instructions of well-formed operands pushes their values.
proof fn lemma_run_all<V>(es: Seq<Expr>, vars: nat, rest: Seq<Instr>, m: Meaning<V>, stack: Seq<V>)
    requires
        all_well_formed(es, vars),
    ensures
        run(postfix_all(es) + rest, m, stack) == run(rest, m, stack + values(es, m)),
    decreases es,
{
    if es.len() == 0 {
        assert(postfix_all(es) + rest =~= rest);
        assert(stack + values(es, m) =~= stack);
    } else {
        let last = postfix(es.last()) + rest;
        let front = stack + values(es.drop_last(), m);
        lemma_run_all(es.drop_last(), vars, last, m, stack);
        lemma_run(es.last(), vars, rest, m, front);
        assert(postfix_all(es) + rest =~= postfix_all(es.drop_last()) + last);
        assert(front.push(value(es.last(), m)) =~= stack + values(es, m));
    }
}

/// Each operand has one value.
proof fn lemma_values_len<V>(es: Seq<Expr>, m: Meaning<V>)
    ensures
        values(es, m).len() == es.len(),
    decreases es.len(),
{
    if es.len() > 0 {
        lemma_values_len(es.drop_last(), m);
    }
}

/// A compiled formula evaluates to the value of the expression it denotes: running the program of
/// an expression on an empty stack leaves that value and nothing else.
pub proof fn law_programs_compute_their_expression<V>(e: Expr, vars: nat, m: Meaning<V>)
    requires
        well_formed(e, vars),
    ensures
        run(postfix(e), m, Seq::empty()) == seq![value(e, m)],
{
    lemma_run(e, vars, Seq::empty(), m, Seq::empty());
    assert(postfix(e) + Seq::<Instr>::empty() =~= postfix(e));
    assert(Seq::empty().push(value(e, m)) =~= seq![value(e, m)]);
}

/// A program fits the evaluation stack exactly as far as its expression does: whatever compiles
/// finds its operands and variables at every step and stays within the cap.
pub proof fn law_programs_fit_the_stack(e: Expr, vars: nat)
    requires
        well_formed(e, vars),
        need(e) <= STACK_MAX,
    ensures
        safe(postfix(e), 0, vars),
{
    assert(postfix(e) + Seq::<Instr>::empty() =~= postfix(e));
    lemma_safe(e, Seq::empty(), 0, vars);
}

/// The parser state: a cursor over the tokens, and the program emitted so far.
struct Parser<'a> {
    tokens: &'a Vec<Token>,
    pos: usize,
    vars: &'a [&'a str],
    ops: Vec<Op>,
    constants: Vec<Constant>,
    /// The evaluation-stack depth the emitted instructions leave behind, and its peak.
    depth: usize,
    max_depth: usize,
}

impl<'a> Parser<'a> {
    spec fn ts(self) -> Seq<Lexeme> {
        lexemes(self.tokens@)
    }

    spec fn names(self) -> Seq<Seq<char>> {
        names(self.vars@)
    }

    spec fn code(self) -> Seq<Instr> {
        code(self.ops@, self.constants@)
    }

    spec fn wf(self) -> bool {
        &&& terminated(self.ts())
        &&& self.pos < self.tokens.len()
        &&& constants_bound(self.ops@, self.constants@.len())
        &&& self.ops.len() <= self.pos
        &&& self.depth <= self.ops.len()
    }

    /// The tokens and variables stay, and no more is emitted than was consumed.
    spec fn follows(self, before: Self) -> bool {
        &&& self.tokens == before.tokens
        &&& self.vars == before.vars
        &&& before.pos <= self.pos
        &&& self.ops.len() - before.ops.len() <= self.pos - before.pos
        &&& self.wf()
    }

    /// The effect of parsing one expression: its postfix form is emitted, which leaves one value
    /// more and took as deep a stack as it needs.
    spec fn parsed(self, before: Self, r: Result<(), ExprError>, s: Parsed<Expr>) -> bool {
        match r {
            Ok(()) => {
                &&& s matches Ok((e, p)) && p == self.pos
                &&& self.follows(before)
                &&& self.code() == before.code() + postfix(s->Ok_0.0)
                &&& self.depth == before.depth + 1
                &&& self.max_depth == larger(
                    before.max_depth as nat,
                    before.depth as nat + need(s->Ok_0.0),
                )
            },
            Err(e) => s == Err::<(Expr, int), _>(e.fault@),
        }
    }

    /// Emits an instruction and tracks the stack depth it leaves behind.
    fn emit(&mut self, op: Op)
        requires
            old(self).wf(),
            old(self).ops.len() < old(self).pos,
            op matches Op::Const(c) ==> c < old(self).constants.len(),
            op matches Op::Act(a) ==> old(self).depth >= arity_of(a),
        ensures
            final(self).wf(),
            final(self).tokens == old(self).tokens,
            final(self).vars == old(self).vars,
            final(self).pos == old(self).pos,
            final(self).constants == old(self).constants,
            final(self).ops@ == old(self).ops@.push(op),
            final(self).code() == old(self).code().push(instr(op, old(self).constants@)),
            final(self).depth == match op {
                Op::Act(a) => old(self).depth - arity_of(a) + 1,
                _ => old(self).depth + 1,
            },
            final(self).max_depth == larger(
                old(self).max_depth as nat,
                final(self).depth as nat,
            ),
    {
        match op {
            Op::Const(_) | Op::Var(_) => {
                self.depth = self.depth + 1;
            },
            Op::Act(a) => {
                self.depth = self.depth - (a.arity() - 1);
            },
        }
        if self.max_depth < self.depth {
            self.max_depth = self.depth;
        }
        self.ops.push(op);
        proof {
            assert(self.code() =~= old(self).code().push(instr(op, old(self).constants@)));
        }
    }

    /// Emits an instruction that pushes a constant.
    fn emit_constant(&mut self, c: Constant)
        requires
            old(self).wf(),
            old(self).ops.len() < old(self).pos,
        ensures
            final(self).wf(),
            final(self).tokens == old(self).tokens,
            final(self).vars == old(self).vars,
            final(self).pos == old(self).pos,
            final(self).ops.len() == old(self).ops.len() + 1,
            final(self).code() == old(self).code().push(Instr::Constant(c@)),
            final(self).depth == old(self).depth + 1,
            final(self).max_depth == larger(
                old(self).max_depth as nat,
                final(self).depth as nat,
            ),
    {
        let i: usize = self.constants.len();
        self.constants.push(c);
        proof {
            assert(self.code() =~= old(self).code());
        }
        self.emit(Op::Const(i));
    }

    /// Advances past the closing parenthesis, or fails if the next token is something else.
    fn consume_close(&mut self) -> (r: Result<(), ExprError>)
        requires
            old(self).wf(),
        ensures
            match r {
                Ok(()) => {
                    &&& final(self).wf()
                    &&& *final(self) == (Parser { pos: final(self).pos, ..*old(self) })
                    &&& close(old(self).ts(), (), old(self).pos as int) == Ok::<_, Failure>(
                        ((), final(self).pos as int),
                    )
                },
                Err(e) => close(old(self).ts(), (), old(self).pos as int) == Err::<((), int), _>(
                    e.fault@,
                ),
            },
    {
        if let Token::RParen = &self.tokens[self.pos] {
            assert(self.ts()[self.pos as int] is RParen);
            self.pos = self.pos + 1;
            Ok(())
        } else {
            let found: Token = self.tokens[self.pos].copy();
            assert(self.ts()[self.pos as int] == found@);
            Err(ExprError::new(Fault::Expected { expected: Token::RParen, found }))
        }
    }

    /// The binary operator at the cursor, with its binding powers.
    fn peek_infix(&self) -> (r: Option<(Infix, u8, u8)>)
        requires
            self.wf(),
        ensures
            match r {
                Some((op, l, r)) => infix(self.ts()[self.pos as int]) == Some(
                    (op, l as int, r as int),
                ),
                None => infix(self.ts()[self.pos as int]) is None,
            },
    {
        match &self.tokens[self.pos] {
            Token::Plus => Some((Infix::Add, 1, 2)),
            Token::Minus => Some((Infix::Sub, 1, 2)),
            Token::Star => Some((Infix::Mul, 3, 4)),
            Token::Slash => Some((Infix::Div, 3, 4)),
            Token::Caret => Some((Infix::Pow, 5, 5)),
            _ => None,
        }
    }

    /// Parses an expression whose operators bind at least as tightly as `min_bp`.
    fn parse_expr(&mut self, min_bp: u8) -> (r: Result<(), ExprError>)
        requires
            old(self).wf(),
        ensures
            final(self).parsed(
                *old(self),
                r,
                parse(old(self).ts(), old(self).names(), old(self).pos as int, min_bp as int),
            ),
        decreases old(self).tokens.len() - old(self).pos, 2int,
    {
        let ghost start = *self;
        let ghost ts = self.ts();
        let ghost nm = self.names();
        proof {
            lemma_parse_sound(ts, nm, start.pos as int, min_bp as int);
            crate::expr::grammar::lemma_term_sound(ts, nm, start.pos as int);
        }
        match self.parse_prefix() {
            Ok(()) => {},
            Err(e) => {
                return Err(e);
            },
        }
        let ghost mut left = parse_term(ts, nm, start.pos as int)->Ok_0.0;
        loop
            invariant
                self.follows(start),
                start.pos < self.pos,
                ts == self.ts(),
                nm == self.names(),
                start.tokens == old(self).tokens,
                start.pos == old(self).pos,
                start == *old(self),
                well_formed(left, nm.len()),
                parse(ts, nm, start.pos as int, min_bp as int) == climb(
                    ts,
                    nm,
                    self.pos as int,
                    min_bp as int,
                    left,
                ),
                self.code() == start.code() + postfix(left),
                self.depth == start.depth + 1,
                self.max_depth == larger(start.max_depth as nat, start.depth as nat + need(left)),
            decreases self.tokens.len() - self.pos,
        {
            let (op, l, r): (Infix, u8, u8) = match self.peek_infix() {
                Some(t) => t,
                None => {
                    return Ok(());
                },
            };
            if l < min_bp {
                return Ok(());
            }
            let ghost before = *self;
            proof {
                assert(!(ts[self.pos as int] is End));
            }
            self.pos = self.pos + 1;
            proof {
                lemma_parse_sound(ts, nm, self.pos as int, r as int);
            }
            let ghost here = *self;
            match self.parse_expr(r) {
                Ok(()) => {},
                Err(e) => {
                    return Err(e);
                },
            }
            let ghost right = parse(ts, nm, here.pos as int, r as int)->Ok_0.0;
            let ghost args = seq![left, right];
            proof {
                lemma_pair(left, right);
                assert(here.code() == before.code());
            }
            self.emit(Op::Act(Action::Infix(op)));
            proof {
                let whole = Expr::Apply(Action::Infix(op), args);
                crate::expr::grammar::lemma_two(left, right, nm.len());
                assert(start.code() + postfix(left) + postfix(right) =~= start.code()
                    + postfix_all(args));
                assert((start.code() + postfix_all(args)).push(Instr::Act(Action::Infix(op)))
                    =~= start.code() + postfix(whole));
                left = whole;
            }
        }
    }

    /// Parses a term: a number, a parenthesized expression, a unary sign, a constant, a variable,
    /// or a function call.
    fn parse_prefix(&mut self) -> (r: Result<(), ExprError>)
        requires
            old(self).wf(),
        ensures
            final(self).parsed(
                *old(self),
                r,
                parse_term(old(self).ts(), old(self).names(), old(self).pos as int),
            ),
        decreases old(self).tokens.len() - old(self).pos, 0int,
    {
        let ghost start = *self;
        let ghost ts = self.ts();
        let ghost nm = self.names();
        let tokens: &'a Vec<Token> = self.tokens;
        let at: usize = self.pos;
        assert(ts[at as int] == tokens@[at as int]@);
        match &tokens[at] {
            Token::Number(text) => {
                self.pos = self.pos + 1;
                assert(self.code() == start.code());
                self.emit_constant(Constant::Number(text.clone()));
                assert(start.code().push(Instr::Constant(Literal::Number(text@))) =~= start.code()
                    + postfix(Expr::Constant(Literal::Number(text@))));
                Ok(())
            },
            Token::Minus => {
                self.pos = self.pos + 1;
                let ghost here = *self;
                assert(here.code() == start.code());
                proof {
                    lemma_parse_sound(ts, nm, here.pos as int, sign_power());
                }
                match self.parse_expr(4) {
                    Ok(()) => {},
                    Err(e) => {
                        return Err(e);
                    },
                }
                self.emit(Op::Act(Action::Neg));
                proof {
                    let e = parse(ts, nm, here.pos as int, sign_power())->Ok_0.0;
                    lemma_single(e);
                    lemma_need_some(e, nm.len());
                    assert((start.code() + postfix(e)).push(Instr::Act(Action::Neg))
                        =~= start.code() + postfix(Expr::Apply(Action::Neg, seq![e])));
                }
                Ok(())
            },
            Token::Plus => {
                self.pos = self.pos + 1;
                assert(self.code() == start.code());
                self.parse_expr(4)
            },
            Token::LParen => {
                self.pos = self.pos + 1;
                let ghost here = *self;
                assert(here.code() == start.code());
                proof {
                    lemma_parse_sound(ts, nm, here.pos as int, 0);
                }
                match self.parse_expr(0) {
                    Ok(()) => {},
                    Err(e) => {
                        return Err(e);
                    },
                }
                let ghost inner = *self;
                match self.consume_close() {
                    Ok(()) => {
                        assert(self.code() == inner.code());
                        Ok(())
                    },
                    Err(e) => Err(e),
                }
            },
            Token::Ident(name) => {
                self.pos = self.pos + 1;
                assert(self.code() == start.code());
                self.parse_ident(name)
            },
            _ => { Err(ExprError::new(Fault::UnexpectedToken(tokens[at].copy()))) },
        }
    }

    /// Parses what follows an identifier: the arguments of a function call, or nothing for a
    /// constant or a variable.
    fn parse_ident(&mut self, name: &String) -> (r: Result<(), ExprError>)
        requires
            old(self).wf(),
            old(self).pos > 0,
            old(self).ts()[old(self).pos - 1] == Lexeme::Ident(name@),
            old(self).ops.len() < old(self).pos,
        ensures
            final(self).parsed(
                (Parser { pos: (old(self).pos - 1) as usize, ..*old(self) }),
                r,
                parse_term(old(self).ts(), old(self).names(), old(self).pos - 1),
            ),
        decreases old(self).tokens.len() - old(self).pos, 6int,
    {
        let ghost start = *self;
        let ghost before = Parser { pos: (self.pos - 1) as usize, ..*self };
        let ghost ts = self.ts();
        let ghost nm = self.names();
        assert(before.code() == start.code());
        assert(ts[start.pos as int] == start.tokens@[start.pos as int]@);
        if let Token::LParen = &self.tokens[self.pos] {
            self.pos = self.pos + 1;
            let func: Func = match Func::from_name(name.as_str()) {
                Some(f) => f,
                None => {
                    return Err(ExprError::new(Fault::UnknownFunction(name.clone())));
                },
            };
            assert(self.code() == start.code());
            self.parse_arguments(name, func)
        } else if let Some(c) = constant(name.as_str()) {
            self.emit_constant(Constant::Named(c));
            assert(start.code().push(Instr::Constant(Literal::Named(c))) =~= start.code() + postfix(
                Expr::Constant(Literal::Named(c)),
            ));
            Ok(())
        } else if let Some(i) = variable(self.vars, name) {
            self.emit(Op::Var(i));
            assert(start.code().push(Instr::Var(i as nat)) =~= start.code() + postfix(
                Expr::Var(i as nat),
            ));
            Ok(())
        } else {
            Err(ExprError::new(Fault::UnknownName(name.clone())))
        }
    }

    /// Parses the arguments of a call and its closing parenthesis, and emits the call.
    fn parse_arguments(&mut self, name: &String, func: Func) -> (r: Result<(), ExprError>)
        requires
            old(self).wf(),
            old(self).ops.len() < old(self).pos,
        ensures
            final(self).parsed(
                *old(self),
                r,
                parse_call(
                    old(self).ts(),
                    old(self).names(),
                    old(self).pos as int,
                    name@,
                    func,
                ),
            ),
        decreases old(self).tokens.len() - old(self).pos, 5int,
    {
        let ghost start = *self;
        let ghost ts = self.ts();
        let ghost nm = self.names();
        let mut argc: usize = 0;
        let ghost mut args: Seq<Expr> = Seq::empty();
        assert(ts[start.pos as int] == start.tokens@[start.pos as int]@);
        let closed: bool = if let Token::RParen = &self.tokens[self.pos] {
            true
        } else {
            false
        };
        assert(start.code() =~= start.code() + postfix_all(args));
        if !closed {
            loop
                invariant_except_break
                    self.follows(start),
                    self.ops.len() < self.pos,
                    ts == self.ts(),
                    nm == self.names(),
                    start == *old(self),
                    start.pos < ts.len(),
                    argc == args.len(),
                    argc <= self.pos - start.pos,
                    parse_args(ts, nm, start.pos as int, Seq::empty()) == parse_args(
                        ts,
                        nm,
                        self.pos as int,
                        args,
                    ),
                    all_well_formed(args, nm.len()),
                    !(ts[start.pos as int] is RParen),
                    self.code() == start.code() + postfix_all(args),
                    self.depth == start.depth + args.len(),
                    self.max_depth == larger(
                        start.max_depth as nat,
                        start.depth as nat + need_all(args),
                    ) || (args.len() == 0 && self.max_depth == start.max_depth),
                ensures
                    self.follows(start),
                    self.ops.len() < self.pos,
                    ts == self.ts(),
                    nm == self.names(),
                    argc == args.len(),
                    all_well_formed(args, nm.len()),
                    parse_args(ts, nm, start.pos as int, Seq::empty()) == Ok::<_, Failure>(
                        (args, self.pos as int),
                    ),
                    self.code() == start.code() + postfix_all(args),
                    self.depth == start.depth + args.len(),
                    self.max_depth == larger(
                        start.max_depth as nat,
                        start.depth as nat + need_all(args),
                    ),
                decreases self.tokens.len() - self.pos,
            {
                let ghost before = *self;
                proof {
                    lemma_parse_sound(ts, nm, self.pos as int, 0);
                }
                match self.parse_expr(0) {
                    Ok(()) => {},
                    Err(e) => {
                        return Err(e);
                    },
                }
                proof {
                    let e = parse(ts, nm, before.pos as int, 0)->Ok_0.0;
                    assert(args.push(e).drop_last() =~= args);
                    assert(start.code() + postfix_all(args) + postfix(e) =~= start.code()
                        + postfix_all(args.push(e)));
                    args = args.push(e);
                }
                argc += 1;
                assert(ts[self.pos as int] == self.tokens@[self.pos as int]@);
                if let Token::Comma = &self.tokens[self.pos] {
                    let ghost inner = *self;
                    self.pos = self.pos + 1;
                    assert(self.code() == inner.code());
                } else {
                    break;
                }
            }
        }
        let ghost before = *self;
        match self.consume_close() {
            Ok(()) => {},
            Err(e) => {
                return Err(e);
            },
        }
        assert(self.code() == before.code());
        if argc != func.arity() {
            return Err(
                ExprError::new(
                    Fault::WrongArity { name: name.clone(), takes: func.arity(), got: argc },
                ),
            );
        }
        self.emit(Op::Act(Action::Call(func)));
        proof {
            assert((start.code() + postfix_all(args)).push(Instr::Act(Action::Call(func)))
                =~= start.code() + postfix(Expr::Apply(Action::Call(func), args)));
            lemma_need_positive(args, nm.len());
        }
        Ok(())
    }
}

/// The first of `vars` that is `name`.
fn variable(vars: &[&str], name: &String) -> (r: Option<usize>)
    ensures
        match r {
            Some(i) => position(names(vars@), name@, 0) == Some(i as nat),
            None => position(names(vars@), name@, 0) is None,
        },
{
    let mut i: usize = 0;
    while i < vars.len()
        invariant
            i <= vars.len(),
            position(names(vars@), name@, 0) == position(names(vars@), name@, i as int),
        decreases vars.len() - i,
    {
        assert(names(vars@)[i as int] == vars@[i as int]@);
        if same_text(vars[i], name.as_str()) {
            return Some(i);
        }
        i += 1;
    }
    None
}

/// The postfix form and stack need of one operand.
proof fn lemma_single(a: Expr)
    ensures
        postfix_all(seq![a]) == postfix(a),
        need_all(seq![a]) == need(a),
{
    assert(seq![a].drop_last() =~= Seq::<Expr>::empty());
    assert(postfix_all(Seq::<Expr>::empty()) =~= Seq::<Instr>::empty());
    assert(need_all(Seq::<Expr>::empty()) == 0);
    assert(Seq::<Instr>::empty() + postfix(a) =~= postfix(a));
}

/// The postfix form and stack need of two operands.
proof fn lemma_pair(a: Expr, b: Expr)
    ensures
        postfix_all(seq![a, b]) == postfix(a) + postfix(b),
        need_all(seq![a, b]) == larger(need(a), 1 + need(b)),
{
    lemma_single(a);
    assert(seq![a, b].drop_last() =~= seq![a]);
}

/// Evaluating a well-formed expression takes some room.
proof fn lemma_need_some(e: Expr, vars: nat)
    requires
        well_formed(e, vars),
    ensures
        need(e) >= 1,
    decreases e,
{
    if let Expr::Apply(a, args) = e {
        lemma_need_positive(args, vars);
    }
}

/// Evaluating well-formed operands takes room for each of their values.
proof fn lemma_need_positive(es: Seq<Expr>, vars: nat)
    requires
        all_well_formed(es, vars),
    ensures
        need_all(es) >= es.len(),
    decreases es,
{
    if es.len() > 0 {
        lemma_need_some(es.last(), vars);
    }
}

} // verus!
