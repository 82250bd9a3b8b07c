//! The polygon generator.
use crate::field::{rastered, Field, HEIGHT};
use crate::functions::accepts_cells;
use crate::node::{
    float_param, int_param, port, unit_param, ContextDeps, Node, NodeGroup, NodeSpec, ParamSpec,
    PortSpec, Unit,
};
use crate::shaping::generate;
use vstd::prelude::*;

verus! {

/// Polygon generator: no inputs, one output.
#[derive(Clone, Copy, Debug)]
pub struct Polygon;

/// What the node declares.
pub open spec fn polygon_node() -> Node {
    Node {
        type_id: "generator.polygon"@,
        category: "generator"@,
        tags: Seq::empty(),
        inputs: Seq::empty(),
        outputs: seq![port("out"@)],
        params: seq![
            unit_param("radius"@, 0, 100_000_000_000, 400_000_000, Unit::Meters),
            int_param("sides"@, 3, 12, 6),
            unit_param("falloff"@, 0, 100_000_000_000, 120_000_000, Unit::Meters),
            unit_param("rotation"@, 0, 360_000_000, 0, Unit::Degrees),
            float_param("center_x"@, 0, 1_000_000, 500_000),
            float_param("center_y"@, 0, 1_000_000, 500_000),
        ],
        emitted_layers: Seq::empty(),
        mask_aware: false,
    }
}

impl Polygon {
    /// The node's declaration.
    pub fn spec(&self) -> (r: NodeSpec)
        ensures
            r@ == polygon_node(),
            r@.defaults_admitted(),
    {
        let r: NodeSpec = NodeSpec {
            type_id: "generator.polygon",
            category: "generator",
            tags: Vec::new(),
            inputs: Vec::new(),
            outputs: vec![PortSpec::new("out")],
            params: vec![
                ParamSpec::number("radius", 0, 100_000_000_000, 400_000_000)
                    .with_unit(Unit::Meters),
                ParamSpec::integer("sides", 3, 12, 6),
                ParamSpec::number("falloff", 0, 100_000_000_000, 120_000_000)
                    .with_unit(Unit::Meters),
                ParamSpec::number("rotation", 0, 360_000_000, 0).with_unit(Unit::Degrees),
                ParamSpec::number("center_x", 0, 1_000_000, 500_000),
                ParamSpec::number("center_y", 0, 1_000_000, 500_000),
            ],
            emitted_layers: Vec::new(),
            mask_aware: false,
        };
        assert(r@ =~= polygon_node());
        r
    }

    /// Which world settings the node reads.
    pub fn context_deps(&self) -> (r: ContextDeps)
        ensures
            r == ContextDeps::WorldExtent,
    {
        ContextDeps::WorldExtent
    }

    /// The node's place in the palette.
    pub fn group(&self) -> (r: NodeGroup)
        ensures
            r.group@ == "shape"@,
            r.sort == 33,
    {
        NodeGroup { group: "shape", sort: 33 }
    }
}

impl Polygon {
    /// A regular polygon: `cell` gives the height of every cell.
    pub fn eval<V: Copy, R: Copy, F: Fn(usize, usize) -> V>(
        width: usize,
        height: usize,
        region: R,
        cell: &F,
    ) -> (r: Field<V, R>)
        requires
            width * height <= usize::MAX,
            accepts_cells(*cell, width, height),
        ensures
            r.wf(),
            r.width == width,
            r.height == height,
            r.region == region,
            r.layers().dom() == set![HEIGHT@],
            rastered(r.layers()[HEIGHT@], width, height, *cell),
    {
        generate(width, height, region, cell)
    }
}

/// The fewest sides a polygon can have.
pub const MIN_SIDES: i64 = 3;

/// The sides asked for, and at least three.
pub open spec fn sides_of(requested: int) -> int {
    if requested < MIN_SIDES {
        MIN_SIDES as int
    } else {
        requested
    }
}

impl Polygon {
    /// The sides asked for, and at least three.
    pub fn sides(requested: i64) -> (r: i64)
        ensures
            r == sides_of(requested as int),
    {
        if requested < MIN_SIDES {
            MIN_SIDES
        } else {
            requested
        }
    }
}

} // verus!
