//! The terrace node: heights stepped into bands, through the mask.
use crate::field::{Field, Layer, HEIGHT, MASK};
use crate::functions::{total3, total_list};
use crate::node::{
    enum_param, float_param, port, texts, ContextDeps, Node, NodeSpec, ParamSpec, PortSpec,
};
use crate::shaping::{masked, measure_range, measured, relayered, value_at};
use vstd::prelude::*;

verus! {

/// Terrace modifier: one input, one output.
#[derive(Clone, Copy, Debug)]
pub struct Terrace;

/// What the node declares.
pub open spec fn terrace_node() -> Node {
    Node {
        type_id: "modifier.terrace"@,
        category: "filter"@,
        tags: Seq::empty(),
        inputs: seq![port("in"@)],
        outputs: seq![port("out"@)],
        params: seq![
            float_param("bands"@, 2_000_000, 64_000_000, 8_000_000),
            float_param("sharpness"@, 0, 1_000_000, 500_000),
            enum_param("range"@, seq!["auto"@, "fixed"@], "auto"@),
        ],
        emitted_layers: Seq::empty(),
        mask_aware: false,
    }
}

impl Terrace {
    /// The node's declaration.
    pub fn spec(&self) -> (r: NodeSpec)
        ensures
            r@ == terrace_node(),
            r@.defaults_admitted(),
    {
        let options: Vec<&'static str> = vec!["auto", "fixed"];
        assert(texts(options@) =~= seq!["auto"@, "fixed"@]);
        assert(texts(options@)[0] == "auto"@);
        let r: NodeSpec = NodeSpec {
            type_id: "modifier.terrace",
            category: "filter",
            tags: Vec::new(),
            inputs: vec![PortSpec::new("in")],
            outputs: vec![PortSpec::new("out")],
            params: vec![
                ParamSpec::number("bands", 2_000_000, 64_000_000, 8_000_000),
                ParamSpec::number("sharpness", 0, 1_000_000, 500_000),
                ParamSpec::choice("range", options, "auto"),
            ],
            emitted_layers: Vec::new(),
            mask_aware: false,
        };
        assert(r@ =~= terrace_node());
        r
    }

    /// Which world settings the node reads.
    pub fn context_deps(&self) -> (r: ContextDeps)
        ensures
            r == ContextDeps::NoWorld,
    {
        ContextDeps::NoWorld
    }
}

impl Terrace {
    /// Shapes every height by `cell`, which takes the range, the height and the mask there.
    /// `ends` is the height of a field without one, and a full mask. The range is `fixed`, or what `measure` reads off
    /// the heights, as `range` says.
    pub fn eval<V: Copy, R: Copy, S: Copy, M: Fn(&Vec<V>) -> S, F: Fn(S, V, V) -> V>(
        input: &Field<V, R>,
        ends: (V, V),
        range: Option<&str>,
        fixed: S,
        measure: &M,
        cell: &F,
    ) -> (r: Field<V, R>)
        requires
            input.wf(),
            total_list(*measure),
            total3(*cell),
        ensures
            relayered(r, *input, HEIGHT@),
            exists|s: S| #[trigger]
                measured(range, fixed, *measure, input.layer_or_of(HEIGHT@, ends.0).cells, s) && forall|x: int, y: int|
                    0 <= x < input.width && 0 <= y < input.height ==> call_ensures(
                        *cell,
                        (
                            s,
                            value_at(input.layer_or_of(HEIGHT@, ends.0), x, y, ends.0),
                            value_at(input.layer_or_of(MASK@, ends.1), x, y, ends.1),
                        ),
                        (#[trigger] r.layers()[HEIGHT@].at(x, y))->0,
                    ),
    {
        let h: Layer<V> = input.layer_or(HEIGHT, ends.0);
        let s: S = measure_range(range, fixed, measure, &h.cells);
        let shape = |v: V, m: V| -> (o: V)
            ensures
                call_ensures(*cell, (s, v, m), o),
            { cell(s, v, m) };
        masked(input, ends, &shape)
    }
}

} // verus!
