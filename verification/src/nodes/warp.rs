//! Domain warp.
use crate::field::{Field, Layer, Raster, HEIGHT};
use crate::functions::{accepts_cells, total2};
use crate::node::{
    float_param, int_param, port, unit_param, ContextDeps, Node, NodeSpec, ParamSpec, PortSpec,
    Unit,
};
use crate::noise::{node_seed, node_seed_of, WARP_Y_SALT};
use crate::shaping::{lemma_rastered_at, relayered, value_at, value_or};
use crate::water_sim::Sided;
use vstd::prelude::*;

verus! {

/// Domain Warp modifier: one input, one output.
#[derive(Clone, Copy, Debug)]
pub struct Warp;

/// What the node declares.
pub open spec fn warp_node() -> Node {
    Node {
        type_id: "modifier.warp"@,
        category: "filter"@,
        tags: Seq::empty(),
        inputs: seq![port("in"@)],
        outputs: seq![port("out"@)],
        params: seq![
            unit_param("amount"@, 0, 100_000_000_000, 50_000_000, Unit::Meters),
            float_param("frequency"@, 0, 64_000_000, 2_000_000),
            int_param("octaves"@, 1, 12, 4),
            int_param("seed"@, 0, 2_147_483_647, 0),
        ],
        emitted_layers: Seq::empty(),
        mask_aware: false,
    }
}

impl Warp {
    /// The node's declaration.
    pub fn spec(&self) -> (r: NodeSpec)
        ensures
            r@ == warp_node(),
            r@.defaults_admitted(),
    {
        let r: NodeSpec = NodeSpec {
            type_id: "modifier.warp",
            category: "filter",
            tags: Vec::new(),
            inputs: vec![PortSpec::new("in")],
            outputs: vec![PortSpec::new("out")],
            params: vec![
                ParamSpec::number("amount", 0, 100_000_000_000, 50_000_000)
                    .with_unit(Unit::Meters),
                ParamSpec::number("frequency", 0, 64_000_000, 2_000_000),
                ParamSpec::integer("octaves", 1, 12, 4),
                ParamSpec::integer("seed", 0, 2_147_483_647, 0),
            ],
            emitted_layers: Vec::new(),
            mask_aware: false,
        };
        assert(r@ =~= warp_node());
        r
    }

    /// Which world settings the node reads.
    pub fn context_deps(&self) -> (r: ContextDeps)
        ensures
            r == ContextDeps::WorldExtent,
    {
        ContextDeps::WorldExtent
    }
}

/// A coordinate held to the edge: the boundary stands for everything past it.
pub open spec fn held(v: int, size: int) -> int {
    if v < 0 || size <= 0 {
        0
    } else if v >= size {
        size - 1
    } else {
        v
    }
}

/// The four values from `(x, y)`, held to the edge: here, right, below, and below right.
pub open spec fn four_at<V>(h: Raster<V>, size: (int, int), at: (int, int), zero: V) -> Sided<V> {
    let (xa, xb) = (held(at.0, size.0), held(at.0 + 1, size.0));
    let (ya, yb) = (held(at.1, size.1), held(at.1 + 1, size.1));
    (
        value_at(h, xa, ya, zero),
        value_at(h, xb, ya, zero),
        value_at(h, xa, yb, zero),
        value_at(h, xb, yb, zero),
    )
}

/// `v` is `mix` of the four values under where `displace` moves the cell `(x, y)`.
pub open spec fn warped<V, T, D: Fn(usize, usize) -> ((i64, i64), T), M: Fn(Sided<V>, T) -> V>(
    h: Raster<V>,
    size: (int, int),
    zero: V,
    displace: D,
    mix: M,
    x: usize,
    y: usize,
    v: V,
) -> bool {
    exists|at: ((i64, i64), T)| #[trigger]
        call_ensures(displace, (x, y), at) && call_ensures(
            mix,
            (four_at(h, size, (at.0.0 as int, at.0.1 as int), zero), at.1),
            v,
        )
}

/// A coordinate held to the edge.
fn hold(v: i64, size: usize) -> (r: usize)
    ensures
        r == held(v as int, size as int),
{
    if v < 0 || size == 0 {
        0
    } else if v as u64 >= size as u64 {
        size - 1
    } else {
        v as usize
    }
}

/// The coordinate after `v`, held to the edge.
fn hold_next(v: i64, size: usize) -> (r: usize)
    ensures
        r == held(v + 1, size as int),
{
    if v == i64::MAX {
        if size == 0 {
            0
        } else if size as u64 <= 0x8000_0000_0000_0000 {
            size - 1
        } else {
            0x8000_0000_0000_0000u64 as usize
        }
    } else {
        hold(v + 1, size)
    }
}

impl Warp {
    /// The seeds of the two displacements: the node's own, and one apart from it.
    pub fn seeds(world: u64, own: i64) -> (r: (u64, u64))
        ensures
            r.0 == node_seed_of(world, own),
            r.1 == node_seed_of(world, own) ^ WARP_Y_SALT,
            r.0 != r.1,
    {
        let seed: u64 = node_seed(world, own);
        assert(seed != seed ^ 0xD1B5_4A32_D192_ED03u64) by (bit_vector);
        (seed, seed ^ WARP_Y_SALT)
    }

    /// Warps the input: every height is read where `displace` moves its cell, as the cell to the
    /// upper left of there and the fractions from it, and blended by `mix`.
    pub fn eval<
        V: Copy,
        R: Copy,
        T: Copy,
        D: Fn(usize, usize) -> ((i64, i64), T),
        M: Fn(Sided<V>, T) -> V,
    >(input: &Field<V, R>, zero: V, displace: &D, mix: &M) -> (r: Field<V, R>)
        requires
            input.wf(),
            accepts_cells(*displace, input.width, input.height),
            total2(*mix),
        ensures
            relayered(r, *input, HEIGHT@),
            forall|x: int, y: int|
                0 <= x < input.width && 0 <= y < input.height ==> warped(
                    input.layer_or_of(HEIGHT@, zero),
                    (input.width as int, input.height as int),
                    zero,
                    *displace,
                    *mix,
                    x as usize,
                    y as usize,
                    (#[trigger] r.layers()[HEIGHT@].at(x, y))->0,
                ),
    {
        let h: Layer<V> = input.layer_or(HEIGHT, zero);
        let (width, height): (usize, usize) = (input.width, input.height);
        let cell = |x: usize, y: usize| -> (v: V)
            requires
                x < width && y < height,
            ensures
                warped(
                    h@,
                    (width as int, height as int),
                    zero,
                    *displace,
                    *mix,
                    x,
                    y,
                    v,
                ),
            {
                let at: ((i64, i64), T) = displace(x, y);
                let (xa, xb): (usize, usize) = (hold(at.0.0, width), hold_next(at.0.0, width));
                let (ya, yb): (usize, usize) = (hold(at.0.1, height), hold_next(at.0.1, height));
                let four: Sided<V> = (
                    value_or(&h, xa, ya, zero),
                    value_or(&h, xb, ya, zero),
                    value_or(&h, xa, yb, zero),
                    value_or(&h, xb, yb, zero),
                );
                mix(four, at.1)
            };
        let r: Field<V, R> = input.reshaped(HEIGHT, &cell);
        proof {
            assert forall|x: int, y: int|
                0 <= x < input.width && 0 <= y < input.height implies warped(
                input.layer_or_of(HEIGHT@, zero),
                (input.width as int, input.height as int),
                zero,
                *displace,
                *mix,
                x as usize,
                y as usize,
                (#[trigger] r.layers()[HEIGHT@].at(x, y))->0,
            ) by {
                lemma_rastered_at(r.layers()[HEIGHT@], width, height, cell, x, y);
            }
        }
        r
    }
}

/// A displacement past the border holds the boundary: the cells read always lie on the field.
pub proof fn law_displacement_holds_the_edge(v: int, size: int)
    requires
        size > 0,
    ensures
        0 <= held(v, size) < size,
        0 <= v < size ==> held(v, size) == v,
        v < 0 ==> held(v, size) == 0,
        v >= size ==> held(v, size) == size - 1,
{
}

} // verus!
