//! The flow noise generator.
use crate::field::{Field, Layer, Raster, HEIGHT};
use crate::functions::accepts_cells;
use crate::grid::{lemma_cell, Grid};
use crate::node::{
    float_param, int_param, port, ContextDeps, Node, NodeGroup, NodeSpec, ParamSpec, PortSpec,
};
use vstd::prelude::*;

verus! {

/// Flow (curl-warped) noise generator. A generator by arity: no inputs, one output.
#[derive(Clone, Copy, Debug)]
pub struct Flow;

/// What the node declares.
pub open spec fn flow_node() -> Node {
    Node {
        type_id: "generator.flow"@,
        category: "generator"@,
        tags: Seq::empty(),
        inputs: Seq::empty(),
        outputs: seq![port("out"@)],
        params: seq![
            float_param("frequency"@, 0, 64_000_000, 2_000_000),
            int_param("octaves"@, 1, 12, 5),
            float_param("lacunarity"@, 1_000_000, 4_000_000, 2_000_000),
            float_param("gain"@, 0, 1_000_000, 500_000),
            float_param("strength"@, 0, 4_000_000, 400_000),
            int_param("seed"@, 0, 2_147_483_647, 0),
            int_param("offset_x"@, -10_000, 10_000, 0),
            int_param("offset_y"@, -10_000, 10_000, 0),
        ],
        emitted_layers: Seq::empty(),
        mask_aware: false,
    }
}

impl Flow {
    /// The node's declaration.
    pub fn spec(&self) -> (r: NodeSpec)
        ensures
            r@ == flow_node(),
            r@.defaults_admitted(),
    {
        let r: NodeSpec = NodeSpec {
            type_id: "generator.flow",
            category: "generator",
            tags: Vec::new(),
            inputs: Vec::new(),
            outputs: vec![PortSpec::new("out")],
            params: vec![
                ParamSpec::number("frequency", 0, 64_000_000, 2_000_000),
                ParamSpec::integer("octaves", 1, 12, 5),
                ParamSpec::number("lacunarity", 1_000_000, 4_000_000, 2_000_000),
                ParamSpec::number("gain", 0, 1_000_000, 500_000),
                ParamSpec::number("strength", 0, 4_000_000, 400_000),
                ParamSpec::integer("seed", 0, 2_147_483_647, 0),
                ParamSpec::integer("offset_x", -10_000, 10_000, 0),
                ParamSpec::integer("offset_y", -10_000, 10_000, 0),
            ],
            emitted_layers: Vec::new(),
            mask_aware: false,
        };
        assert(r@ =~= flow_node());
        r
    }

    /// Which world settings the node reads.
    pub fn context_deps(&self) -> (r: ContextDeps)
        ensures
            r == ContextDeps::NoWorld,
    {
        ContextDeps::NoWorld
    }

    /// The node's place in the palette.
    pub fn group(&self) -> (r: NodeGroup)
        ensures
            r.group@ == "noise"@,
            r.sort == 14,
    {
        NodeGroup { group: "noise", sort: 14 }
    }
}

/// The layer of the flow's column component.
pub const FLOW_X: &'static str = "flow_x";

/// The layer of the flow's row component.
pub const FLOW_Y: &'static str = "flow_y";

impl Flow {
    /// Noise warped along a flow: `cell` gives the height and the two components of the flow at
    /// every cell, which go to three layers.
    pub fn eval<V: Copy, R: Copy, F: Fn(usize, usize) -> (V, V, V)>(
        width: usize,
        height: usize,
        region: R,
        cell: &F,
    ) -> (r: Field<V, R>)
        requires
            width * height <= usize::MAX,
            accepts_cells(*cell, width, height),
        ensures
            r.wf(),
            r.width == width,
            r.height == height,
            r.region == region,
            exists|h: Seq<V>, u: Seq<V>, v: Seq<V>|
                {
                    &&& h.len() == width * height && u.len() == h.len() && v.len() == h.len()
                    &&& r.layers() == #[trigger] three_layers(width, height, h, u, v)
                    &&& forall|c: int|
                        0 <= c < h.len() ==> call_ensures(
                            *cell,
                            ((c % (width as int)) as usize, (c / (width as int)) as usize),
                            (#[trigger] h[c], u[c], v[c]),
                        )
                },
    {
        let grid: Grid = Grid { width, height };
        let n: usize = grid.len();
        let mut h: Vec<V> = Vec::with_capacity(n);
        let mut u: Vec<V> = Vec::with_capacity(n);
        let mut v: Vec<V> = Vec::with_capacity(n);
        let mut c: usize = 0;
        while c < n
            invariant
                grid == (Grid { width, height }),
                n == grid.cells(),
                accepts_cells(*cell, width, height),
                c <= n,
                h@.len() == c,
                u@.len() == c,
                v@.len() == c,
                forall|b: int|
                    0 <= b < c ==> call_ensures(
                        *cell,
                        ((b % (width as int)) as usize, (b / (width as int)) as usize),
                        (#[trigger] h@[b], u@[b], v@[b]),
                    ),
            decreases n - c,
        {
            proof {
                lemma_cell(grid, c as int);
            }
            let (a, b, d): (V, V, V) = cell(c % width, c / width);
            h.push(a);
            u.push(b);
            v.push(d);
            c += 1;
        }
        let ghost (hs, us, vs) = (h@, u@, v@);
        let mut out: Field<V, R> = Field::new(width, height, region);
        out.set_layer(HEIGHT, Layer { width, height, cells: h });
        out.set_layer(FLOW_X, Layer { width, height, cells: u });
        out.set_layer(FLOW_Y, Layer { width, height, cells: v });
        assert(out.layers() == three_layers(width, height, hs, us, vs));
        out
    }
}

/// A height and the two components of a flow, as layers.
pub open spec fn three_layers<V>(
    width: usize,
    height: usize,
    h: Seq<V>,
    u: Seq<V>,
    v: Seq<V>,
) -> Map<Seq<char>, Raster<V>> {
    let (w, t) = (width as nat, height as nat);
    Map::<Seq<char>, Raster<V>>::empty().insert(
        HEIGHT@,
        Raster { width: w, height: t, cells: h },
    ).insert(FLOW_X@, Raster { width: w, height: t, cells: u }).insert(
        FLOW_Y@,
        Raster { width: w, height: t, cells: v },
    )
}

} // verus!
