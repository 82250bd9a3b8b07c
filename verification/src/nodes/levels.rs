//! The levels node: heights moved from an input window to an output window, through the mask.
use crate::field::{Field, HEIGHT, MASK};
use crate::functions::total2;
use crate::node::{
    float_param, port, ContextDeps, Node, NodeSpec, Param, ParamGroup, ParamSpec, PortSpec, Unit,
};
use crate::shaping::{masked, relayered, value_at};
use vstd::prelude::*;

verus! {

/// Levels modifier: one input, one output.
#[derive(Clone, Copy, Debug)]
pub struct Levels;

/// What the node declares.
pub open spec fn levels_node() -> Node {
    Node {
        type_id: "modifier.levels"@,
        category: "adjust"@,
        tags: Seq::empty(),
        inputs: seq![port("in"@)],
        outputs: seq![port("out"@)],
        params: seq![
            Param {
                group: Some(ParamGroup::Levels),
                ..float_param("in_low"@, -100_000_000_000, 100_000_000_000, 0)
            },
            Param {
                group: Some(ParamGroup::Levels),
                ..float_param("in_high"@, -100_000_000_000, 100_000_000_000, 1_000_000)
            },
            Param {
                logarithmic: true,
                group: Some(ParamGroup::Levels),
                ..float_param("gamma"@, 100_000, 10_000_000, 1_000_000)
            },
            Param {
                unit: Some(Unit::Meters),
                group: Some(ParamGroup::Levels),
                ..float_param("out_low"@, -100_000_000_000, 100_000_000_000, 0)
            },
            Param {
                unit: Some(Unit::Meters),
                group: Some(ParamGroup::Levels),
                ..float_param("out_high"@, -100_000_000_000, 100_000_000_000, 256_000_000)
            },
        ],
        emitted_layers: Seq::empty(),
        mask_aware: true,
    }
}

impl Levels {
    /// The node's declaration.
    pub fn spec(&self) -> (r: NodeSpec)
        ensures
            r@ == levels_node(),
            r@.defaults_admitted(),
    {
        let r: NodeSpec = NodeSpec {
            type_id: "modifier.levels",
            category: "adjust",
            tags: Vec::new(),
            inputs: vec![PortSpec::new("in")],
            outputs: vec![PortSpec::new("out")],
            params: vec![
                ParamSpec::number("in_low", -100_000_000_000, 100_000_000_000, 0)
                    .in_group(ParamGroup::Levels),
                ParamSpec::number("in_high", -100_000_000_000, 100_000_000_000, 1_000_000)
                    .in_group(ParamGroup::Levels),
                ParamSpec::number("gamma", 100_000, 10_000_000, 1_000_000)
                    .logarithmic()
                    .in_group(ParamGroup::Levels),
                ParamSpec::number("out_low", -100_000_000_000, 100_000_000_000, 0)
                    .with_unit(Unit::Meters)
                    .in_group(ParamGroup::Levels),
                ParamSpec::number("out_high", -100_000_000_000, 100_000_000_000, 256_000_000)
                    .with_unit(Unit::Meters)
                    .in_group(ParamGroup::Levels),
            ],
            emitted_layers: Vec::new(),
            mask_aware: true,
        };
        assert(r@ =~= levels_node());
        r
    }

    /// Which world settings the node reads.
    pub fn context_deps(&self) -> (r: ContextDeps)
        ensures
            r == ContextDeps::WorldHeight,
    {
        ContextDeps::WorldHeight
    }
}

impl Levels {
    /// Shapes every height by `cell`, which takes it and the mask there. `ends` is the height of a
    /// field without one, and a full mask.
    pub fn eval<V: Copy, R: Copy, F: Fn(V, V) -> V>(
        input: &Field<V, R>,
        ends: (V, V),
        cell: &F,
    ) -> (r: Field<V, R>)
        requires
            input.wf(),
            total2(*cell),
        ensures
            relayered(r, *input, HEIGHT@),
            forall|x: int, y: int|
                0 <= x < input.width && 0 <= y < input.height ==> call_ensures(
                    *cell,
                    (
                        value_at(input.layer_or_of(HEIGHT@, ends.0), x, y, ends.0),
                        value_at(input.layer_or_of(MASK@, ends.1), x, y, ends.1),
                    ),
                    (#[trigger] r.layers()[HEIGHT@].at(x, y))->0,
                ),
    {
        masked(input, ends, cell)
    }
}

} // verus!
