//! The Expression node: a per-cell arithmetic formula.
use crate::expr::error::ExprError;
use crate::expr::program::{
    compiled, computes, interpreted, law_programs_compute_their_expression, names, run, Program,
};
use crate::expr::syntax::{
    arity_of, postfix, value, well_formed, Action, Constant, Expr, Literal, Meaning,
};
use crate::field::{uniform, Field, Layer, Raster, HEIGHT, MASK};
use crate::functions::{accepts_cells, total1};
use crate::grid::{lemma_cell, lemma_index, Grid};
use crate::node::{
    optional_port, param, port, ContextDeps, Kind, Node, NodeSpec, ParamKind, ParamSpec,
    ParamValue, PortSpec, Value,
};
use crate::shaping::{value_at, value_or};
use crate::text::{
    lemma_precedes_total, lemma_precedes_transitive, precedes, same_text, text_precedes,
};
use vstd::prelude::*;

verus! {

/// Expression modifier: one optional input, one output.
#[derive(Clone, Copy, Debug)]
pub struct Expression;

/// What the node declares.
pub open spec fn expression_node() -> Node {
    Node {
        type_id: "modifier.expression"@,
        category: "adjust"@,
        tags: Seq::empty(),
        inputs: seq![optional_port("in"@)],
        outputs: seq![port("out"@)],
        params: seq![param("expr"@, Kind::Text, Value::Text("height"@))],
        emitted_layers: Seq::empty(),
        mask_aware: false,
    }
}

impl Expression {
    /// The node's declaration.
    pub fn spec(&self) -> (r: NodeSpec)
        ensures
            r@ == expression_node(),
            r@.defaults_admitted(),
    {
        let r: NodeSpec = NodeSpec {
            type_id: "modifier.expression",
            category: "adjust",
            tags: Vec::new(),
            inputs: vec![PortSpec::optional("in")],
            outputs: vec![PortSpec::new("out")],
            params: vec![
                ParamSpec::new("expr", ParamKind::Text, ParamValue::Text("height")),
            ],
            emitted_layers: Vec::new(),
            mask_aware: false,
        };
        assert(r@ =~= expression_node());
        r
    }

    /// Which world settings the node reads.
    pub fn context_deps(&self) -> (r: ContextDeps)
        ensures
            r == ContextDeps::NoWorld,
    {
        ContextDeps::NoWorld
    }
}

/// Names in order, each once.
pub open spec fn ascending(list: Seq<Seq<char>>) -> bool {
    forall|i: int, j: int|
        0 <= i < j < list.len() ==> precedes(#[trigger] list[i], #[trigger] list[j], 0)
}

/// The texts of a list of strings.
pub open spec fn spelled(list: Seq<String>) -> Seq<Seq<char>> {
    Seq::new(list.len(), |i: int| list[i]@)
}

/// Whether a formula may name a layer: the height and the mask always, and whatever the input
/// carries.
pub open spec fn nameable<V, R>(input: Option<&Field<V, R>>, name: Seq<char>) -> bool {
    name == HEIGHT@ || name == MASK@ || (input matches Some(f) && f.layers().contains_key(name))
}

/// `list` names the layers a formula may read, in order.
pub open spec fn layer_list<V, R>(input: Option<&Field<V, R>>, list: Seq<Seq<char>>) -> bool {
    &&& ascending(list)
    &&& forall|name: Seq<char>| #[trigger] list.contains(name) <==> nameable(input, name)
}

/// The variables of a formula: the coordinates, then the layers.
pub open spec fn variables(list: Seq<Seq<char>>) -> Seq<Seq<char>> {
    seq!["x"@, "y"@] + list
}

/// The layer a name reads: the input's, or its default everywhere. A mask is full by default, any
/// other layer zero.
pub open spec fn layer_of<V, R>(
    input: Option<&Field<V, R>>,
    size: (usize, usize),
    ends: (V, V),
    name: Seq<char>,
) -> Raster<V> {
    let default = if name == MASK@ {
        ends.1
    } else {
        ends.0
    };
    match input {
        Some(f) => f.layer_or_of(name, default),
        None => uniform(size.0 as nat, size.1 as nat, default),
    }
}

/// The values of the variables at a cell.
pub open spec fn values_at<V, R>(
    input: Option<&Field<V, R>>,
    size: (usize, usize),
    ends: (V, V),
    list: Seq<Seq<char>>,
    at: (V, V),
    x: int,
    y: int,
) -> Seq<V> {
    seq![at.0, at.1] + Seq::new(
        list.len(),
        |i: int| value_at(layer_of(input, size, ends, list[i]), x, y, ends.0),
    )
}

/// An executable function on constants that computes `f`.
pub open spec fn reads<V, N: Fn(&Constant) -> V>(number: N, f: spec_fn(Literal) -> V) -> bool {
    forall|c: &Constant, r: V| #[trigger] call_ensures(number, (c,), r) ==> r == f(c@)
}

/// `v` is what `number` makes of a constant.
pub open spec fn read_by<V, N: Fn(&Constant) -> V>(number: N, literal: Literal, v: V) -> bool {
    exists|k: &Constant| k@ == literal && #[trigger] call_ensures(number, (k,), v)
}

/// `v` is what the formula `e` makes of the variables: `finite` of its value, under whatever
/// meaning the executable functions compute.
pub open spec fn formula_value<
    V,
    N: Fn(&Constant) -> V,
    A: Fn(Action, &[V]) -> V,
    F: Fn(V) -> V,
>(e: Expr, variables: Seq<V>, number: N, apply: A, finite: F, v: V) -> bool {
    exists|raw: V|
        {
            &&& #[trigger] call_ensures(finite, (raw,), v)
            &&& forall|m: Meaning<V>|
                #![trigger reads(number, m.constant), computes(apply, m.action)]
                reads(number, m.constant) && computes(apply, m.action) && (forall|i: int|
                    0 <= i < variables.len() ==> #[trigger] variables[i] == (m.variable)(
                        i as nat,
                    )) ==> raw == value(e, m)
        }
}

/// `v` is what the formula makes of the cell `(x, y)`.
pub open spec fn cell_value<
    V,
    R,
    C: Fn(usize, usize) -> (V, V),
    N: Fn(&Constant) -> V,
    A: Fn(Action, &[V]) -> V,
    F: Fn(V) -> V,
>(
    e: Expr,
    input: Option<&Field<V, R>>,
    size: (usize, usize),
    ends: (V, V),
    list: Seq<Seq<char>>,
    f: (C, N, A, F),
    x: int,
    y: int,
    v: V,
) -> bool {
    exists|at: (V, V)| #[trigger]
        call_ensures(f.0, (x as usize, y as usize), at) && formula_value(
            e,
            values_at(input, size, ends, list, at, x, y),
            f.1,
            f.2,
            f.3,
            v,
        )
}

/// Puts a name into a list in order, where it is not in it.
fn put(list: &mut Vec<String>, name: &str)
    requires
        ascending(spelled(old(list)@)),
    ensures
        ascending(spelled(final(list)@)),
        forall|n: Seq<char>| #[trigger]
            spelled(final(list)@).contains(n) <==> (n == name@ || spelled(old(list)@).contains(n)),
{
    let ghost before = spelled(list@);
    let mut i: usize = 0;
    while i < list.len() && text_precedes(list[i].as_str(), name)
        invariant
            spelled(list@) == before,
            before == spelled(old(list)@),
            ascending(before),
            i <= list@.len(),
            forall|j: int| 0 <= j < i ==> precedes(#[trigger] before[j], name@, 0),
        decreases list.len() - i,
    {
        assert(before[i as int] == list@[i as int]@);
        i += 1;
    }
    if i < list.len() {
        assert(before[i as int] == list@[i as int]@);
        if same_text(list[i].as_str(), name) {
            assert(before.contains(name@));
            return ;
        }
        proof {
            lemma_precedes_total(before[i as int], name@, 0);
        }
    }
    list.insert(i, name.to_owned());
    proof {
        let after = spelled(list@);
        assert(after =~= before.insert(i as int, name@));
        assert forall|a: int, b: int| 0 <= a < b < after.len() implies precedes(
            #[trigger] after[a],
            #[trigger] after[b],
            0,
        ) by {
            if a < i && b > i {
                assert(after[b] == before[b - 1]);
                assert(after[a] == before[a]);
            } else if a == i {
                assert(after[b] == before[b - 1]);
                if b - 1 > i {
                    lemma_precedes_transitive(name@, before[i as int], before[b - 1], 0);
                }
            } else if a > i {
                assert(after[a] == before[a - 1] && after[b] == before[b - 1]);
            } else {
                assert(after[a] == before[a]);
                if b < i {
                    assert(after[b] == before[b]);
                }
            }
        }
        assert forall|n: Seq<char>| #[trigger] after.contains(n) <==> (n == name@
            || before.contains(n)) by {
            if after.contains(n) {
                let k = choose|k: int| 0 <= k < after.len() && after[k] == n;
                if k < i {
                    assert(before[k] == n);
                } else if k > i {
                    assert(before[k - 1] == n);
                }
            }
            if before.contains(n) {
                let k = choose|k: int| 0 <= k < before.len() && before[k] == n;
                if k < i {
                    assert(after[k] == n);
                } else {
                    assert(after[k + 1] == n);
                }
            }
            if n == name@ {
                assert(after[i as int] == n);
            }
        }
    }
}

impl Expression {
    /// The layers a formula may read, in order.
    pub fn layer_names<V: Copy, R: Copy>(input: Option<&Field<V, R>>) -> (r: Vec<String>)
        ensures
            layer_list(input, spelled(r@)),
    {
        let mut list: Vec<String> = Vec::new();
        assert(spelled(list@) =~= Seq::<Seq<char>>::empty());
        put(&mut list, HEIGHT);
        put(&mut list, MASK);
        if let Some(f) = input {
            let carried: Vec<String> = f.layer_names();
            let mut i: usize = 0;
            while i < carried.len()
                invariant
                    i <= carried@.len(),
                    ascending(spelled(list@)),
                    forall|n: Seq<char>| #[trigger]
                        spelled(list@).contains(n) <==> (n == HEIGHT@ || n == MASK@ || exists|
                            j: int,
                        |
                            0 <= j < i && (#[trigger] carried@[j])@ == n),
                decreases carried.len() - i,
            {
                let ghost was = spelled(list@);
                put(&mut list, carried[i].as_str());
                proof {
                    assert forall|n: Seq<char>| #[trigger]
                        spelled(list@).contains(n) <==> (n == HEIGHT@ || n == MASK@ || exists|
                            j: int,
                        |
                            0 <= j < i + 1 && (#[trigger] carried@[j])@ == n) by {
                        assert(spelled(list@).contains(n) <==> (n == carried@[i as int]@
                            || was.contains(n)));
                        if n == carried@[i as int]@ {
                            assert(carried@[i as int]@ == n);
                        }
                    }
                }
                i += 1;
            }
        }
        list
    }

    /// Computes the height of every cell by a formula over its coordinates and layers. `at` gives a
    /// cell's coordinates, `number` the value of a constant, `apply` performs the actions, and
    /// `finite` is what is written for a value. The other layers of the input pass through; without
    /// an input the field is a new one. `ends` is zero and a full mask.
    pub fn eval<
        V: Copy,
        R: Copy,
        C: Fn(usize, usize) -> (V, V),
        N: Fn(&Constant) -> V,
        A: Fn(Action, &[V]) -> V,
        F: Fn(V) -> V,
    >(
        source: &str,
        input: Option<&Field<V, R>>,
        size: (usize, usize),
        region: R,
        ends: (V, V),
        f: &(C, N, A, F),
    ) -> (r: Result<Field<V, R>, ExprError>)
        requires
            size.0 * size.1 <= usize::MAX,
            input matches Some(i) ==> i.wf(),
            accepts_cells(f.0, size.0, size.1),
            forall|c: &Constant| #[trigger] call_requires(f.1, (c,)),
            forall|a: Action, args: &[V]|
                args@.len() == arity_of(a) ==> #[trigger] call_requires(f.2, (a, args)),
            total1(f.3),
        ensures
            exists|list: Seq<Seq<char>>| #[trigger]
                layer_list(input, list) && match (r, compiled(source@, variables(list))) {
                    (Ok(out), Ok(e)) => {
                        let h = out.layers()[HEIGHT@];
                        &&& out.wf()
                        &&& out.layers().contains_key(HEIGHT@)
                        &&& input matches Some(i) ==> {
                            &&& out.width == i.width && out.height == i.height
                            &&& out.region == i.region
                            &&& out.layers() == i.layers().insert(HEIGHT@, h)
                        }
                        &&& input is None ==> {
                            &&& out.width == size.0 && out.height == size.1
                            &&& out.region == region
                            &&& out.layers().dom() == set![HEIGHT@]
                        }
                        &&& h.width == size.0 && h.height == size.1 && h.wf()
                        &&& forall|x: int, y: int|
                            0 <= x < size.0 && 0 <= y < size.1 ==> cell_value(
                                e,
                                input,
                                size,
                                ends,
                                list,
                                *f,
                                x,
                                y,
                                (#[trigger] out.layers()[HEIGHT@].at(x, y))->0,
                            )
                    },
                    (Err(err), Err(failure)) => err.fault@ == failure,
                    _ => false,
                },
    {
        let list: Vec<String> = Self::layer_names(input);
        let ghost spelling = spelled(list@);
        let mut vars: Vec<&str> = vec!["x", "y"];
        let mut layers: Vec<Layer<V>> = Vec::new();
        let mut i: usize = 0;
        while i < list.len()
            invariant
                size.0 * size.1 <= usize::MAX,
                input matches Some(f) ==> f.wf(),
                i <= list@.len(),
                spelling == spelled(list@),
                vars@.len() == i + 2,
                vars@[0]@ == "x"@,
                vars@[1]@ == "y"@,
                forall|j: int| 0 <= j < i ==> (#[trigger] vars@[j + 2])@ == spelling[j],
                layers@.len() == i,
                forall|j: int|
                    0 <= j < i ==> (#[trigger] layers@[j])@ == layer_of(
                        input,
                        size,
                        ends,
                        spelling[j],
                    ) && layers@[j]@.wf(),
            decreases list.len() - i,
        {
            let name: &str = list[i].as_str();
            let default: V = if same_text(name, MASK) {
                ends.1
            } else {
                ends.0
            };
            let layer: Layer<V> = match input {
                Some(f) => f.layer_or(name, default),
                None => Layer::filled(size.0, size.1, default),
            };
            vars.push(name);
            layers.push(layer);
            i += 1;
        }
        proof {
            assert forall|j: int| 0 <= j < vars@.len() implies names(vars@)[j] == variables(
                spelling,
            )[j] by {
                if j >= 2 {
                    assert(vars@[(j - 2) + 2]@ == spelling[j - 2]);
                }
            }
            assert(names(vars@) =~= variables(spelling));
        }
        let program: Program = match Program::compile(source, vars.as_slice()) {
            Ok(p) => p,
            Err(e) => {
                return Err(e);
            },
        };
        let ghost e = compiled(source@, variables(spelling))->Ok_0;
        let constants: Vec<V> = read_constants(&program, &f.1);
        let grid: Grid = Grid { width: size.0, height: size.1 };
        let n: usize = grid.len();
        let mut cells: Vec<V> = Vec::with_capacity(n);
        let mut c: usize = 0;
        while c < n
            invariant
                grid == (Grid { width: size.0, height: size.1 }),
                n == grid.cells(),
                accepts_cells(f.0, size.0, size.1),
                forall|a: Action, args: &[V]|
                    args@.len() == arity_of(a) ==> #[trigger] call_requires(f.2, (a, args)),
                total1(f.3),
                list@.len() == layers@.len(),
                spelling == spelled(list@),
                forall|j: int|
                    0 <= j < layers@.len() ==> (#[trigger] layers@[j])@ == layer_of(
                        input,
                        size,
                        ends,
                        spelling[j],
                    ) && layers@[j]@.wf(),
                program.wf((layers@.len() + 2) as nat),
                program.code() == postfix(e),
                well_formed(e, (layers@.len() + 2) as nat),
                constants@.len() == program.literals().len(),
                forall|j: int|
                    0 <= j < constants@.len() ==> read_by(
                        f.1,
                        program.literals()[j],
                        #[trigger] constants@[j],
                    ),
                c <= n,
                cells@.len() == c,
                forall|b: int|
                    0 <= b < c ==> cell_value(
                        e,
                        input,
                        size,
                        ends,
                        spelling,
                        *f,
                        grid.col(b),
                        grid.row(b),
                        #[trigger] cells@[b],
                    ),
            decreases n - c,
        {
            proof {
                lemma_cell(grid, c as int);
            }
            let (x, y): (usize, usize) = (c % size.0, c / size.0);
            let at: (V, V) = (f.0)(x, y);
            let values: Vec<V> = gather(&layers, at, x, y, ends.0);
            let ghost want = values_at(input, size, ends, spelling, at, x as int, y as int);
            assert(values@ =~= want);
            let raw: V = program.eval(constants.as_slice(), values.as_slice(), &f.2);
            let v: V = (f.3)(raw);
            proof {
                assert forall|m: Meaning<V>|
                    #![trigger reads(f.1, m.constant), computes(f.2, m.action)]
                    reads(f.1, m.constant) && computes(f.2, m.action) && (forall|i: int|
                        0 <= i < want.len() ==> #[trigger] want[i] == (m.variable)(i as nat))
                        implies raw == value(e, m) by {
                    assert(interpreted(
                        m,
                        program.literals(),
                        constants@,
                        values@,
                        f.2,
                    ));
                    law_programs_compute_their_expression(e, want.len(), m);
                    assert(run(program.code(), m, Seq::empty()) == seq![raw]);
                    assert(seq![raw][0] == seq![value(e, m)][0]);
                }
                assert(formula_value(e, want, f.1, f.2, f.3, v));
                assert(cell_value(
                    e,
                    input,
                    size,
                    ends,
                    spelling,
                    *f,
                    grid.col(c as int),
                    grid.row(c as int),
                    v,
                ));
            }
            cells.push(v);
            c += 1;
        }
        let mut out: Field<V, R> = match input {
            Some(i) => i.copy(),
            None => Field::new(size.0, size.1, region),
        };
        out.set_layer(HEIGHT, Layer { width: size.0, height: size.1, cells });
        proof {
            assert forall|x: int, y: int| 0 <= x < size.0 && 0 <= y < size.1 implies cell_value(
                e,
                input,
                size,
                ends,
                spelling,
                *f,
                x,
                y,
                (#[trigger] out.layers()[HEIGHT@].at(x, y))->0,
            ) by {
                lemma_index(grid, x, y);
                let b = grid.index(x, y);
                assert(out.layers()[HEIGHT@].cells[b] == cells@[b]);
            }
            if input is None {
                assert(out.layers().dom() =~= set![HEIGHT@]);
            }
            assert(layer_list(input, spelling));
        }
        Ok(out)
    }
}

/// The values of a program's constants.
fn read_constants<V: Copy, N: Fn(&Constant) -> V>(program: &Program, number: &N) -> (r: Vec<V>)
    requires
        forall|c: &Constant| #[trigger] call_requires(*number, (c,)),
    ensures
        r@.len() == program.literals().len(),
        forall|j: int|
            0 <= j < r@.len() ==> read_by(*number, program.literals()[j], #[trigger] r@[j]),
{
    let list: &Vec<Constant> = program.constants();
    let mut out: Vec<V> = Vec::with_capacity(list.len());
    let mut i: usize = 0;
    while i < list.len()
        invariant
            forall|c: &Constant| #[trigger] call_requires(*number, (c,)),
            i <= list@.len(),
            out@.len() == i,
            forall|j: int|
                0 <= j < i ==> call_ensures(*number, (&list@[j],), #[trigger] out@[j]),
        decreases list.len() - i,
    {
        let v: V = number(&list[i]);
        out.push(v);
        i += 1;
    }
    proof {
        assert forall|j: int| 0 <= j < out@.len() implies read_by(
            *number,
            program.literals()[j],
            #[trigger] out@[j],
        ) by {
            let k = &list@[j];
            assert(program.literals()[j] == k@);
            assert(call_ensures(*number, (k,), out@[j]));
        }
    }
    out
}

/// The values of the variables at a cell.
fn gather<V: Copy>(layers: &Vec<Layer<V>>, at: (V, V), x: usize, y: usize, zero: V) -> (r: Vec<V>)
    requires
        forall|j: int| 0 <= j < layers@.len() ==> (#[trigger] layers@[j])@.wf(),
    ensures
        r@ == seq![at.0, at.1] + Seq::new(
            layers@.len(),
            |j: int| value_at(layers@[j]@, x as int, y as int, zero),
        ),
{
    let mut out: Vec<V> = vec![at.0, at.1];
    let mut i: usize = 0;
    while i < layers.len()
        invariant
            forall|j: int| 0 <= j < layers@.len() ==> (#[trigger] layers@[j])@.wf(),
            i <= layers@.len(),
            out@ == seq![at.0, at.1] + Seq::new(
                i as nat,
                |j: int| value_at(layers@[j]@, x as int, y as int, zero),
            ),
        decreases layers.len() - i,
    {
        assert(layers@[i as int]@.wf());
        let v: V = value_or(&layers[i], x, y, zero);
        out.push(v);
        i += 1;
        assert(out@ =~= seq![at.0, at.1] + Seq::new(
            i as nat,
            |j: int| value_at(layers@[j]@, x as int, y as int, zero),
        ));
    }
    out
}

/// The variable list is fixed by the layers: two lists of the layers a formula may read are one.
pub proof fn law_variables_are_unique<V, R>(
    input: Option<&Field<V, R>>,
    a: Seq<Seq<char>>,
    b: Seq<Seq<char>>,
)
    requires
        layer_list(input, a),
        layer_list(input, b),
    ensures
        a == b,
{
    lemma_ascending_unique(a, b, 0);
    lemma_ascending_unique(b, a, 0);
    assert(a =~= b);
}

/// Position by position, an ascending list holds what any other list of the same names holds.
proof fn lemma_ascending_unique(a: Seq<Seq<char>>, b: Seq<Seq<char>>, i: int)
    requires
        ascending(a),
        ascending(b),
        forall|n: Seq<char>| #[trigger] a.contains(n) ==> b.contains(n),
        forall|n: Seq<char>| #[trigger] b.contains(n) ==> a.contains(n),
        0 <= i <= a.len(),
        i <= b.len(),
        forall|j: int| 0 <= j < i ==> a[j] == b[j],
    ensures
        a.len() <= b.len(),
        forall|j: int| 0 <= j < a.len() ==> a[j] == b[j],
    decreases a.len() - i,
{
    if i < a.len() {
        assert(a.contains(a[i]));
        let k = choose|k: int| 0 <= k < b.len() && b[k] == a[i];
        if k < i {
            lemma_precedes_total(a[k], a[i], 0);
            assert(precedes(a[k], a[i], 0));
        }
        if i >= b.len() {
            assert(precedes(a[k], a[i], 0));
            lemma_precedes_total(a[k], a[i], 0);
        }
        assert(b.contains(b[i]));
        let l = choose|l: int| 0 <= l < a.len() && a[l] == b[i];
        if l < i {
            lemma_precedes_total(b[l], b[i], 0);
            assert(precedes(b[l], b[i], 0));
        }
        if k > i && l > i {
            assert(precedes(b[i], b[k], 0));
            assert(precedes(a[i], a[l], 0));
            lemma_precedes_total(a[i], b[i], 0);
        }
        assert(a[i] == b[i]);
        lemma_ascending_unique(a, b, i + 1);
    }
}

} // verus!
