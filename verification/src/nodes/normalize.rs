//! The normalize node: heights stretched over their range, through the mask.
use crate::field::{Field, Layer, HEIGHT, MASK};
use crate::functions::{of_list, total3, total_list};
use crate::node::{port, ContextDeps, Node, NodeSpec, PortSpec};
use crate::shaping::{masked, relayered, value_at};
use vstd::prelude::*;

verus! {

/// Normalize modifier: one input, one output.
#[derive(Clone, Copy, Debug)]
pub struct Normalize;

/// What the node declares.
pub open spec fn normalize_node() -> Node {
    Node {
        type_id: "modifier.normalize"@,
        category: "adjust"@,
        tags: Seq::empty(),
        inputs: seq![port("in"@)],
        outputs: seq![port("out"@)],
        params: Seq::empty(),
        emitted_layers: Seq::empty(),
        mask_aware: false,
    }
}

impl Normalize {
    /// The node's declaration.
    pub fn spec(&self) -> (r: NodeSpec)
        ensures
            r@ == normalize_node(),
            r@.defaults_admitted(),
    {
        let r: NodeSpec = NodeSpec {
            type_id: "modifier.normalize",
            category: "adjust",
            tags: Vec::new(),
            inputs: vec![PortSpec::new("in")],
            outputs: vec![PortSpec::new("out")],
            params: Vec::new(),
            emitted_layers: Vec::new(),
            mask_aware: false,
        };
        assert(r@ =~= normalize_node());
        r
    }

    /// Which world settings the node reads.
    pub fn context_deps(&self) -> (r: ContextDeps)
        ensures
            r == ContextDeps::NoWorld,
    {
        ContextDeps::NoWorld
    }
}

impl Normalize {
    /// Shapes every height by `cell`, which takes the range, the height and the mask there.
    /// `ends` is the height of a field without one, and a full mask. The range is what `measure` reads off the
    /// heights.
    pub fn eval<V: Copy, R: Copy, S: Copy, M: Fn(&Vec<V>) -> S, F: Fn(S, V, V) -> V>(
        input: &Field<V, R>,
        ends: (V, V),
        measure: &M,
        cell: &F,
    ) -> (r: Field<V, R>)
        requires
            input.wf(),
            total_list(*measure),
            total3(*cell),
        ensures
            relayered(r, *input, HEIGHT@),
            exists|s: S| #[trigger]
                of_list(*measure, input.layer_or_of(HEIGHT@, ends.0).cells, s) && forall|x: int, y: int|
                    0 <= x < input.width && 0 <= y < input.height ==> call_ensures(
                        *cell,
                        (
                            s,
                            value_at(input.layer_or_of(HEIGHT@, ends.0), x, y, ends.0),
                            value_at(input.layer_or_of(MASK@, ends.1), x, y, ends.1),
                        ),
                        (#[trigger] r.layers()[HEIGHT@].at(x, y))->0,
                    ),
    {
        let h: Layer<V> = input.layer_or(HEIGHT, ends.0);
        let s: S = measure(&h.cells);
        assert(of_list(*measure, h.cells@, s));
        let shape = |v: V, m: V| -> (o: V)
            ensures
                call_ensures(*cell, (s, v, m), o),
            { cell(s, v, m) };
        masked(input, ends, &shape)
    }
}

} // verus!
