//! The fBm noise generator.
use crate::field::{Field, HEIGHT};
use crate::functions::{accepts_cells, total1};
use crate::node::{
    float_param, int_param, port, unit_param, ContextDeps, Node, NodeGroup, NodeSpec, ParamSpec,
    PortSpec, Unit,
};
use crate::shaping::{generate, lemma_rastered_at, select, sized, value_at};
use vstd::prelude::*;

verus! {

/// fBm Perlin noise generator. A generator by arity: no inputs, one output.
#[derive(Clone, Copy, Debug)]
pub struct Fbm;

/// What the node declares.
pub open spec fn fbm_node() -> Node {
    Node {
        type_id: "generator.fbm"@,
        category: "generator"@,
        tags: Seq::empty(),
        inputs: Seq::empty(),
        outputs: seq![port("out"@)],
        params: seq![
            unit_param("wavelength"@, 0, 100_000_000_000, 512_000_000, Unit::Meters),
            int_param("octaves"@, 1, 12, 5),
            float_param("lacunarity"@, 1_000_000, 4_000_000, 2_000_000),
            float_param("gain"@, 0, 1_000_000, 500_000),
            float_param("amplitude"@, 0, 4_000_000, 1_000_000),
            float_param("bias"@, -1_000_000, 1_000_000, 0),
            int_param("seed"@, 0, 2_147_483_647, 0),
            unit_param("offset_x"@, -100_000_000_000, 100_000_000_000, 0, Unit::Meters),
            unit_param("offset_y"@, -100_000_000_000, 100_000_000_000, 0, Unit::Meters),
        ],
        emitted_layers: Seq::empty(),
        mask_aware: false,
    }
}

impl Fbm {
    /// The node's declaration.
    pub fn spec(&self) -> (r: NodeSpec)
        ensures
            r@ == fbm_node(),
            r@.defaults_admitted(),
    {
        let r: NodeSpec = NodeSpec {
            type_id: "generator.fbm",
            category: "generator",
            tags: Vec::new(),
            inputs: Vec::new(),
            outputs: vec![PortSpec::new("out")],
            params: vec![
                ParamSpec::number("wavelength", 0, 100_000_000_000, 512_000_000)
                    .with_unit(Unit::Meters),
                ParamSpec::integer("octaves", 1, 12, 5),
                ParamSpec::number("lacunarity", 1_000_000, 4_000_000, 2_000_000),
                ParamSpec::number("gain", 0, 1_000_000, 500_000),
                ParamSpec::number("amplitude", 0, 4_000_000, 1_000_000),
                ParamSpec::number("bias", -1_000_000, 1_000_000, 0),
                ParamSpec::integer("seed", 0, 2_147_483_647, 0),
                ParamSpec::number("offset_x", -100_000_000_000, 100_000_000_000, 0)
                    .with_unit(Unit::Meters),
                ParamSpec::number("offset_y", -100_000_000_000, 100_000_000_000, 0)
                    .with_unit(Unit::Meters),
            ],
            emitted_layers: Vec::new(),
            mask_aware: false,
        };
        assert(r@ =~= fbm_node());
        r
    }

    /// Which world settings the node reads.
    pub fn context_deps(&self) -> (r: ContextDeps)
        ensures
            r == ContextDeps::WorldExtent,
    {
        ContextDeps::WorldExtent
    }

    /// The node's place in the palette.
    pub fn group(&self) -> (r: NodeGroup)
        ensures
            r.group@ == "noise"@,
            r.sort == 10,
    {
        NodeGroup { group: "noise", sort: 10 }
    }
}

/// `v` is the shape at `(x, y)`, scaled where there is a scale.
pub open spec fn scaled<V, F: Fn(usize, usize) -> V, S: Fn(V) -> V>(
    shape: F,
    scale: Option<&S>,
    x: usize,
    y: usize,
    v: V,
) -> bool {
    match scale {
        Some(s) => exists|raw: V|
            call_ensures(shape, (x, y), raw) && #[trigger] call_ensures(*s, (raw,), v),
        None => call_ensures(shape, (x, y), v),
    }
}

impl Fbm {
    /// Fractal noise: `shape` gives every cell, and `scale`, where the output is scaled at all,
    /// its height.
    pub fn eval<V: Copy, R: Copy, F: Fn(usize, usize) -> V, S: Fn(V) -> V>(
        width: usize,
        height: usize,
        region: R,
        zero: V,
        shape: &F,
        scale: Option<&S>,
    ) -> (r: Field<V, R>)
        requires
            width * height <= usize::MAX,
            accepts_cells(*shape, width, height),
            scale matches Some(s) ==> total1(*s),
        ensures
            r.wf(),
            r.width == width,
            r.height == height,
            r.region == region,
            r.layers().dom() == set![HEIGHT@],
            sized(r.layers()[HEIGHT@], width, height),
            forall|x: int, y: int|
                0 <= x < width && 0 <= y < height ==> scaled(
                    *shape,
                    scale,
                    x as usize,
                    y as usize,
                    (#[trigger] r.layers()[HEIGHT@].at(x, y))->0,
                ),
    {
        let plain: Field<V, R> = generate(width, height, region, shape);
        let ghost h = plain.layers()[HEIGHT@];
        assert(plain.layers().contains_key(HEIGHT@));
        match scale {
            Some(s) => {
                let r: Field<V, R> = select(&plain, zero, s);
                proof {
                    assert(r.layers().dom() =~= set![HEIGHT@]);
                    assert forall|x: int, y: int| 0 <= x < width && 0 <= y < height implies scaled(
                        *shape,
                        scale,
                        x as usize,
                        y as usize,
                        (#[trigger] r.layers()[HEIGHT@].at(x, y))->0,
                    ) by {
                        lemma_rastered_at(h, width, height, *shape, x, y);
                        assert(value_at(h, x, y, zero) == h.at(x, y)->0);
                    }
                }
                r
            },
            None => {
                proof {
                    assert forall|x: int, y: int| 0 <= x < width && 0 <= y < height implies scaled(
                        *shape,
                        scale,
                        x as usize,
                        y as usize,
                        (#[trigger] plain.layers()[HEIGHT@].at(x, y))->0,
                    ) by {
                        lemma_rastered_at(h, width, height, *shape, x, y);
                    }
                }
                plain
            },
        }
    }
}

} // verus!
