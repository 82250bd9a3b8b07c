//! The histogram scan: a window over the distribution of heights becomes a selection.
use crate::field::{Field, Layer, HEIGHT};
use crate::functions::{total2, total_list};
use crate::node::{
    enum_param, float_param, port, texts, ContextDeps, Node, NodeSpec, ParamSpec, PortSpec,
};
use crate::shaping::{measure_range, measured, relayered, select, value_at};
use vstd::prelude::*;

verus! {

/// Histogram-Scan modifier: one input, one output. Writes the window selection to
/// the height layer.
#[derive(Clone, Copy, Debug)]
pub struct HistogramScan;

/// What the node declares.
pub open spec fn histogram_scan_node() -> Node {
    Node {
        type_id: "modifier.histogram_scan"@,
        category: "adjust"@,
        tags: Seq::empty(),
        inputs: seq![port("in"@)],
        outputs: seq![port("out"@)],
        params: seq![
            float_param("position"@, 0, 1_000_000, 500_000),
            float_param("width"@, 0, 1_000_000, 500_000),
            float_param("falloff"@, 0, 1_000_000, 100_000),
            enum_param("range"@, seq!["auto"@, "fixed"@], "auto"@),
        ],
        emitted_layers: Seq::empty(),
        mask_aware: false,
    }
}

impl HistogramScan {
    /// The node's declaration.
    pub fn spec(&self) -> (r: NodeSpec)
        ensures
            r@ == histogram_scan_node(),
            r@.defaults_admitted(),
    {
        let options: Vec<&'static str> = vec!["auto", "fixed"];
        assert(texts(options@) =~= seq!["auto"@, "fixed"@]);
        assert(texts(options@)[0] == "auto"@);
        let r: NodeSpec = NodeSpec {
            type_id: "modifier.histogram_scan",
            category: "adjust",
            tags: Vec::new(),
            inputs: vec![PortSpec::new("in")],
            outputs: vec![PortSpec::new("out")],
            params: vec![
                ParamSpec::number("position", 0, 1_000_000, 500_000),
                ParamSpec::number("width", 0, 1_000_000, 500_000),
                ParamSpec::number("falloff", 0, 1_000_000, 100_000),
                ParamSpec::choice("range", options, "auto"),
            ],
            emitted_layers: Vec::new(),
            mask_aware: false,
        };
        assert(r@ =~= histogram_scan_node());
        r
    }

    /// Which world settings the node reads.
    pub fn context_deps(&self) -> (r: ContextDeps)
        ensures
            r == ContextDeps::NoWorld,
    {
        ContextDeps::NoWorld
    }
}

impl HistogramScan {
    /// Replaces every height by `cell`, which takes the range and the height. The range is `fixed`,
    /// or what `measure` reads off the heights, as `range` says.
    pub fn eval<V: Copy, R: Copy, S: Copy, M: Fn(&Vec<V>) -> S, F: Fn(S, V) -> V>(
        input: &Field<V, R>,
        zero: V,
        range: Option<&str>,
        fixed: S,
        measure: &M,
        cell: &F,
    ) -> (r: Field<V, R>)
        requires
            input.wf(),
            total_list(*measure),
            total2(*cell),
        ensures
            relayered(r, *input, HEIGHT@),
            exists|s: S| #[trigger]
                measured(range, fixed, *measure, input.layer_or_of(HEIGHT@, zero).cells, s)
                    && forall|x: int, y: int|
                    0 <= x < input.width && 0 <= y < input.height ==> call_ensures(
                        *cell,
                        (s, value_at(input.layer_or_of(HEIGHT@, zero), x, y, zero)),
                        (#[trigger] r.layers()[HEIGHT@].at(x, y))->0,
                    ),
    {
        let h: Layer<V> = input.layer_or(HEIGHT, zero);
        let s: S = measure_range(range, fixed, measure, &h.cells);
        let shape = |v: V| -> (o: V)
            ensures
                call_ensures(*cell, (s, v), o),
            { cell(s, v) };
        select(input, zero, &shape)
    }
}

} // verus!
