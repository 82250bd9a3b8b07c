//! The hybrid-multifractal generator.
use crate::field::{rastered, Field, HEIGHT};
use crate::functions::accepts_cells;
use crate::node::{
    float_param, int_param, port, ContextDeps, Node, NodeGroup, NodeSpec, ParamSpec, PortSpec,
};
use crate::shaping::generate;
use vstd::prelude::*;

verus! {

/// Hybrid-multifractal noise generator. A generator by arity: no inputs, one output.
#[derive(Clone, Copy, Debug)]
pub struct Hybrid;

/// What the node declares.
pub open spec fn hybrid_node() -> Node {
    Node {
        type_id: "generator.hybrid"@,
        category: "generator"@,
        tags: Seq::empty(),
        inputs: Seq::empty(),
        outputs: seq![port("out"@)],
        params: seq![
            float_param("frequency"@, 0, 64_000_000, 2_000_000),
            int_param("octaves"@, 1, 12, 5),
            float_param("lacunarity"@, 1_000_000, 4_000_000, 2_000_000),
            float_param("gain"@, 0, 1_000_000, 500_000),
            float_param("bias"@, 0, 2_000_000, 700_000),
            int_param("seed"@, 0, 2_147_483_647, 0),
            int_param("offset_x"@, -10_000, 10_000, 0),
            int_param("offset_y"@, -10_000, 10_000, 0),
        ],
        emitted_layers: Seq::empty(),
        mask_aware: false,
    }
}

impl Hybrid {
    /// The node's declaration.
    pub fn spec(&self) -> (r: NodeSpec)
        ensures
            r@ == hybrid_node(),
            r@.defaults_admitted(),
    {
        let r: NodeSpec = NodeSpec {
            type_id: "generator.hybrid",
            category: "generator",
            tags: Vec::new(),
            inputs: Vec::new(),
            outputs: vec![PortSpec::new("out")],
            params: vec![
                ParamSpec::number("frequency", 0, 64_000_000, 2_000_000),
                ParamSpec::integer("octaves", 1, 12, 5),
                ParamSpec::number("lacunarity", 1_000_000, 4_000_000, 2_000_000),
                ParamSpec::number("gain", 0, 1_000_000, 500_000),
                ParamSpec::number("bias", 0, 2_000_000, 700_000),
                ParamSpec::integer("seed", 0, 2_147_483_647, 0),
                ParamSpec::integer("offset_x", -10_000, 10_000, 0),
                ParamSpec::integer("offset_y", -10_000, 10_000, 0),
            ],
            emitted_layers: Vec::new(),
            mask_aware: false,
        };
        assert(r@ =~= hybrid_node());
        r
    }

    /// Which world settings the node reads.
    pub fn context_deps(&self) -> (r: ContextDeps)
        ensures
            r == ContextDeps::NoWorld,
    {
        ContextDeps::NoWorld
    }

    /// The node's place in the palette.
    pub fn group(&self) -> (r: NodeGroup)
        ensures
            r.group@ == "noise"@,
            r.sort == 13,
    {
        NodeGroup { group: "noise", sort: 13 }
    }
}

impl Hybrid {
    /// Hybrid multifractal noise: `cell` gives the height of every cell.
    pub fn eval<V: Copy, R: Copy, F: Fn(usize, usize) -> V>(
        width: usize,
        height: usize,
        region: R,
        cell: &F,
    ) -> (r: Field<V, R>)
        requires
            width * height <= usize::MAX,
            accepts_cells(*cell, width, height),
        ensures
            r.wf(),
            r.width == width,
            r.height == height,
            r.region == region,
            r.layers().dom() == set![HEIGHT@],
            rastered(r.layers()[HEIGHT@], width, height, *cell),
    {
        generate(width, height, region, cell)
    }
}

} // verus!
