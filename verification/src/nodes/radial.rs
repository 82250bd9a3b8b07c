//! The radial gradient generator.
use crate::field::{rastered, Field, HEIGHT};
use crate::functions::accepts_cells;
use crate::node::{float_param, port, unit_param, Node, NodeSpec, ParamSpec, PortSpec, Unit};
use crate::shaping::generate;
use vstd::prelude::*;

verus! {

/// Radial gradient generator: no inputs, one output.
#[derive(Clone, Copy, Debug)]
pub struct Radial;

/// What the node declares.
pub open spec fn radial_node() -> Node {
    Node {
        type_id: "generator.radial"@,
        category: "generator"@,
        tags: seq![
            "radial"@,
            "gradient"@,
            "shape"@,
            "envelope"@,
            "falloff"@,
            "circle"@,
            "dome"@,
            "island"@,
            "generator"@,
        ],
        inputs: Seq::empty(),
        outputs: seq![port("out"@)],
        params: seq![
            unit_param("radius"@, 0, 100_000_000_000, 500_000_000, Unit::Meters),
            float_param("center_x"@, 0, 1_000_000, 500_000),
            float_param("center_y"@, 0, 1_000_000, 500_000),
        ],
        emitted_layers: Seq::empty(),
        mask_aware: false,
    }
}

impl Radial {
    /// The node's declaration.
    pub fn spec(&self) -> (r: NodeSpec)
        ensures
            r@ == radial_node(),
            r@.defaults_admitted(),
    {
        let r: NodeSpec = NodeSpec {
            type_id: "generator.radial",
            category: "generator",
            tags: vec![
                "radial",
                "gradient",
                "shape",
                "envelope",
                "falloff",
                "circle",
                "dome",
                "island",
                "generator",
            ],
            inputs: Vec::new(),
            outputs: vec![PortSpec::new("out")],
            params: vec![
                ParamSpec::number("radius", 0, 100_000_000_000, 500_000_000)
                    .with_unit(Unit::Meters),
                ParamSpec::number("center_x", 0, 1_000_000, 500_000),
                ParamSpec::number("center_y", 0, 1_000_000, 500_000),
            ],
            emitted_layers: Vec::new(),
            mask_aware: false,
        };
        assert(r@ =~= radial_node());
        r
    }
}

impl Radial {
    /// A radial dome: `cell` gives the height of every cell.
    pub fn eval<V: Copy, R: Copy, F: Fn(usize, usize) -> V>(
        width: usize,
        height: usize,
        region: R,
        cell: &F,
    ) -> (r: Field<V, R>)
        requires
            width * height <= usize::MAX,
            accepts_cells(*cell, width, height),
        ensures
            r.wf(),
            r.width == width,
            r.height == height,
            r.region == region,
            r.layers().dom() == set![HEIGHT@],
            rastered(r.layers()[HEIGHT@], width, height, *cell),
    {
        generate(width, height, region, cell)
    }
}

} // verus!
