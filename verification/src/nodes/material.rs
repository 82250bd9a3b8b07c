//! Material.
use crate::field::{Field, HEIGHT};
use crate::functions::total1;
use crate::node::{
    param, port, selection_port, ContextDeps, Decimal, Kind, Node, NodeSpec, ParamKind, ParamSpec,
    ParamValue, PortSpec, Value,
};
use crate::shaping::{relayered, select, value_at};
use vstd::prelude::*;

verus! {

/// Names and colours a selection. One input (the selection), one output (its weight).
#[derive(Clone, Copy, Debug)]
pub struct Material;

/// What the node declares.
pub open spec fn material_node() -> Node {
    Node {
        type_id: "modifier.material"@,
        category: "material"@,
        tags: Seq::empty(),
        inputs: seq![port("selection"@)],
        outputs: seq![selection_port("out"@)],
        params: seq![
            param("color"@, Kind::Color, Value::Color(500_000, 500_000, 500_000)),
        ],
        emitted_layers: Seq::empty(),
        mask_aware: false,
    }
}

impl Material {
    /// The node's declaration.
    pub fn spec(&self) -> (r: NodeSpec)
        ensures
            r@ == material_node(),
            r@.defaults_admitted(),
    {
        let r: NodeSpec = NodeSpec {
            type_id: "modifier.material",
            category: "material",
            tags: Vec::new(),
            inputs: vec![PortSpec::new("selection")],
            outputs: vec![PortSpec::new("out").selection()],
            params: vec![
                ParamSpec::new(
                    "color",
                    ParamKind::Color,
                    ParamValue::Color(
                        Decimal { millionths: 500_000 },
                        Decimal { millionths: 500_000 },
                        Decimal { millionths: 500_000 },
                    ),
                ),
            ],
            emitted_layers: Vec::new(),
            mask_aware: false,
        };
        assert(r@ =~= material_node());
        r
    }

    /// Which world settings the node reads.
    pub fn context_deps(&self) -> (r: ContextDeps)
        ensures
            r == ContextDeps::NoWorld,
    {
        ContextDeps::NoWorld
    }
}

impl Material {
    /// The weight of the material: every height of the selection, brought within bounds by `clamp`.
    pub fn eval<V: Copy, R: Copy, F: Fn(V) -> V>(
        input: &Field<V, R>,
        zero: V,
        clamp: &F,
    ) -> (r: Field<V, R>)
        requires
            input.wf(),
            total1(*clamp),
        ensures
            relayered(r, *input, HEIGHT@),
            forall|x: int, y: int|
                0 <= x < input.width && 0 <= y < input.height ==> call_ensures(
                    *clamp,
                    (value_at(input.layer_or_of(HEIGHT@, zero), x, y, zero),),
                    (#[trigger] r.layers()[HEIGHT@].at(x, y))->0,
                ),
    {
        select(input, zero, clamp)
    }
}

} // verus!
