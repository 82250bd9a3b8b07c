//! The invert node: heights turned over, through the mask.
use crate::field::{Field, HEIGHT, MASK};
use crate::functions::total2;
use crate::node::{port, Node, NodeSpec, PortSpec};
use crate::shaping::{masked, relayered, value_at};
use vstd::prelude::*;

verus! {

/// Invert the height layer: one input, one output, no parameters.
#[derive(Clone, Copy, Debug)]
pub struct Invert;

/// What the node declares.
pub open spec fn invert_node() -> Node {
    Node {
        type_id: "modifier.invert"@,
        category: "adjust"@,
        tags: seq!["invert"@, "flip"@, "negate"@, "modifier"@],
        inputs: seq![port("in"@)],
        outputs: seq![port("out"@)],
        params: Seq::empty(),
        emitted_layers: Seq::empty(),
        mask_aware: false,
    }
}

impl Invert {
    /// The node's declaration.
    pub fn spec(&self) -> (r: NodeSpec)
        ensures
            r@ == invert_node(),
            r@.defaults_admitted(),
    {
        let r: NodeSpec = NodeSpec {
            type_id: "modifier.invert",
            category: "adjust",
            tags: vec!["invert", "flip", "negate", "modifier"],
            inputs: vec![PortSpec::new("in")],
            outputs: vec![PortSpec::new("out")],
            params: Vec::new(),
            emitted_layers: Vec::new(),
            mask_aware: false,
        };
        assert(r@ =~= invert_node());
        r
    }
}

impl Invert {
    /// Shapes every height by `cell`, which takes it and the mask there. `ends` is the height of a
    /// field without one, and a full mask.
    pub fn eval<V: Copy, R: Copy, F: Fn(V, V) -> V>(
        input: &Field<V, R>,
        ends: (V, V),
        cell: &F,
    ) -> (r: Field<V, R>)
        requires
            input.wf(),
            total2(*cell),
        ensures
            relayered(r, *input, HEIGHT@),
            forall|x: int, y: int|
                0 <= x < input.width && 0 <= y < input.height ==> call_ensures(
                    *cell,
                    (
                        value_at(input.layer_or_of(HEIGHT@, ends.0), x, y, ends.0),
                        value_at(input.layer_or_of(MASK@, ends.1), x, y, ends.1),
                    ),
                    (#[trigger] r.layers()[HEIGHT@].at(x, y))->0,
                ),
    {
        masked(input, ends, cell)
    }
}

} // verus!
