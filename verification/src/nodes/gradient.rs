//! The directional gradient generator.
use crate::field::{rastered, Field, HEIGHT};
use crate::functions::accepts_cells;
use crate::node::{
    float_param, port, unit_param, ContextDeps, Node, NodeGroup, NodeSpec, ParamSpec, PortSpec,
    Unit,
};
use crate::shaping::generate;
use vstd::prelude::*;

verus! {

/// Directional gradient generator: no inputs, one output.
#[derive(Clone, Copy, Debug)]
pub struct Gradient;

/// What the node declares.
pub open spec fn gradient_node() -> Node {
    Node {
        type_id: "generator.gradient"@,
        category: "generator"@,
        tags: Seq::empty(),
        inputs: Seq::empty(),
        outputs: seq![port("out"@)],
        params: seq![
            unit_param("angle"@, 0, 360_000_000, 0, Unit::Degrees),
            unit_param("width"@, 0, 100_000_000_000, 1_024_000_000, Unit::Meters),
            float_param("center_x"@, 0, 1_000_000, 500_000),
            float_param("center_y"@, 0, 1_000_000, 500_000),
        ],
        emitted_layers: Seq::empty(),
        mask_aware: false,
    }
}

impl Gradient {
    /// The node's declaration.
    pub fn spec(&self) -> (r: NodeSpec)
        ensures
            r@ == gradient_node(),
            r@.defaults_admitted(),
    {
        let r: NodeSpec = NodeSpec {
            type_id: "generator.gradient",
            category: "generator",
            tags: Vec::new(),
            inputs: Vec::new(),
            outputs: vec![PortSpec::new("out")],
            params: vec![
                ParamSpec::number("angle", 0, 360_000_000, 0).with_unit(Unit::Degrees),
                ParamSpec::number("width", 0, 100_000_000_000, 1_024_000_000)
                    .with_unit(Unit::Meters),
                ParamSpec::number("center_x", 0, 1_000_000, 500_000),
                ParamSpec::number("center_y", 0, 1_000_000, 500_000),
            ],
            emitted_layers: Vec::new(),
            mask_aware: false,
        };
        assert(r@ =~= gradient_node());
        r
    }

    /// Which world settings the node reads.
    pub fn context_deps(&self) -> (r: ContextDeps)
        ensures
            r == ContextDeps::WorldExtent,
    {
        ContextDeps::WorldExtent
    }

    /// The node's place in the palette.
    pub fn group(&self) -> (r: NodeGroup)
        ensures
            r.group@ == "gradient"@,
            r.sort == 40,
    {
        NodeGroup { group: "gradient", sort: 40 }
    }
}

impl Gradient {
    /// A directional ramp: `cell` gives the height of every cell.
    pub fn eval<V: Copy, R: Copy, F: Fn(usize, usize) -> V>(
        width: usize,
        height: usize,
        region: R,
        cell: &F,
    ) -> (r: Field<V, R>)
        requires
            width * height <= usize::MAX,
            accepts_cells(*cell, width, height),
        ensures
            r.wf(),
            r.width == width,
            r.height == height,
            r.region == region,
            r.layers().dom() == set![HEIGHT@],
            rastered(r.layers()[HEIGHT@], width, height, *cell),
    {
        generate(width, height, region, cell)
    }
}

} // verus!
