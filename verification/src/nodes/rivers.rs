//! Rivers.
use crate::blur::{blur_math, blurred, box_blur, BlurMath};
use crate::erosion::{
    byproduct_field, changed, changes, composite, composites, mask_layer, mask_of, taps,
};
use crate::field::{Field, Layer, HEIGHT};
use crate::flow_selector::keyed;
use crate::functions::{computes1, computes2, total1, total2, total3};
use crate::grid::Grid;
use crate::hydrology::drainage::{
    drainage_math, drainage_total, solve_drainage, Drainage, DrainageFns, DrainageMath,
};
use crate::hydrology::incise::{largest, largest_area};
use crate::hydrology::routing::drains_off;
use crate::node::{float_param, optional_port, port, Node, NodeSpec, ParamSpec, PortSpec};
use crate::shaping::map_cells;
use vstd::prelude::*;

verus! {

/// Rivers modifier: one input (plus an optional mask), and the incised terrain, flow, and wear.
#[derive(Clone, Copy, Debug)]
pub struct Rivers;

/// What the node declares.
pub open spec fn rivers_node() -> Node {
    Node {
        type_id: "modifier.rivers"@,
        category: "geology"@,
        tags: Seq::empty(),
        inputs: seq![port("in"@), optional_port("mask"@)],
        outputs: seq![port("heightfield"@), port("flow"@), port("wear"@)],
        params: seq![
            float_param("depth"@, 0, 1_000_000, 200_000),
            float_param("sharpness"@, 1_000_000, 4_000_000, 2_000_000),
            float_param("concentration"@, 1_000_000, 6_000_000, 1_500_000),
            float_param("fill"@, 0, 1_000_000, 50_000),
            float_param("smoothing"@, 0, 1_000_000, 500_000),
        ],
        emitted_layers: Seq::empty(),
        mask_aware: false,
    }
}

impl Rivers {
    /// The node's declaration.
    pub fn spec(&self) -> (r: NodeSpec)
        ensures
            r@ == rivers_node(),
            r@.defaults_admitted(),
    {
        let r: NodeSpec = NodeSpec {
            type_id: "modifier.rivers",
            category: "geology",
            tags: Vec::new(),
            inputs: vec![PortSpec::new("in"), PortSpec::optional("mask")],
            outputs: vec![
                PortSpec::new("heightfield"),
                PortSpec::new("flow"),
                PortSpec::new("wear"),
            ],
            params: vec![
                ParamSpec::number("depth", 0, 1_000_000, 200_000),
                ParamSpec::number("sharpness", 1_000_000, 4_000_000, 2_000_000),
                ParamSpec::number("concentration", 1_000_000, 6_000_000, 1_500_000),
                ParamSpec::number("fill", 0, 1_000_000, 50_000),
                ParamSpec::number("smoothing", 0, 1_000_000, 500_000),
            ],
            emitted_layers: Vec::new(),
            mask_aware: false,
        };
        assert(r@ =~= rivers_node());
        r
    }
}

/// Box passes over the carve: two approximate a Gaussian, so the banks are smooth.
pub const SMOOTH_PASSES: usize = 2;

/// The arithmetic of the carve, as executable functions.
pub struct CarveFns<F, K, P, D, L> {
    /// The normalized flow of an area, given the largest.
    pub flow: F,
    /// How deep a flow cuts.
    pub cut: K,
    /// The sum of two depths.
    pub plus: P,
    /// A sum of depths divided by a number of cells.
    pub over: D,
    /// A bed lowered by a depth.
    pub lower: L,
}

/// The arithmetic of the carve.
#[verifier::reject_recursive_types(V)]
pub ghost struct CarveMath<V> {
    pub flow: spec_fn(u32, u32) -> V,
    pub cut: spec_fn(V) -> V,
    pub blur: BlurMath<V>,
    pub lower: spec_fn(i32, V) -> i32,
}

/// The executable functions accept every argument.
pub open spec fn carve_total<
    V,
    F: Fn(u32, u32) -> V,
    K: Fn(V) -> V,
    P: Fn(V, V) -> V,
    D: Fn(V, usize) -> V,
    L: Fn(i32, V) -> i32,
>(f: CarveFns<F, K, P, D, L>) -> bool {
    total2(f.flow) && total1(f.cut) && total2(f.plus) && total2(f.over) && total2(f.lower)
}

/// The executable functions compute the arithmetic `m`.
pub open spec fn carve_math<
    V,
    F: Fn(u32, u32) -> V,
    K: Fn(V) -> V,
    P: Fn(V, V) -> V,
    D: Fn(V, usize) -> V,
    L: Fn(i32, V) -> i32,
>(m: CarveMath<V>, zero: V, f: CarveFns<F, K, P, D, L>) -> bool {
    &&& computes2(f.flow, m.flow)
    &&& computes1(f.cut, m.cut)
    &&& blur_math(m.blur, zero, f.plus, f.over)
    &&& computes2(f.lower, m.lower)
}

/// The river map: the flow of every cell.
pub open spec fn river_flow<V>(d: Drainage, m: CarveMath<V>) -> Seq<V> {
    Seq::new(
        d.area@.len(),
        |c: int| (m.flow)(d.area@[c], largest(d.area@, 0, d.area@.len() as int)),
    )
}

/// The carve of every cell: as deep as its flow cuts where it drains off the grid, nothing in the
/// closed basins; smoothed over `radius`.
pub open spec fn river_carve<V>(d: Drainage, grid: Grid, radius: usize, m: CarveMath<V>) -> Seq<V> {
    let raw = Seq::new(
        grid.cells(),
        |c: int|
            if drains_off(d.receivers.to@, grid, c) {
                (m.cut)(river_flow(d, m)[c])
            } else {
                m.blur.zero
            },
    );
    if radius == 0 {
        raw
    } else {
        blurred(m.blur, raw, grid, radius as int, SMOOTH_PASSES as nat)
    }
}

/// The bed with its channels: lowered by the carve where it drains off the grid.
pub open spec fn river_bed<V>(
    bed: Seq<i32>,
    d: Drainage,
    grid: Grid,
    radius: usize,
    m: CarveMath<V>,
) -> Seq<i32> {
    Seq::new(
        grid.cells(),
        |c: int|
            if drains_off(d.receivers.to@, grid, c) {
                (m.lower)(bed[c], river_carve(d, grid, radius, m)[c])
            } else {
                bed[c]
            },
    )
}

/// The terrain `z` is the bed with the channels its drainage cuts, and `flow` the flow that cut
/// them, by whatever arithmetic the executable functions compute.
pub open spec fn channelled<
    V,
    C: Fn(i32) -> i32,
    U: Fn(u32, u32) -> u32,
    B: Fn(u32) -> u32,
    R: Fn(i32, Option<(u32, u32)>, u32) -> i32,
    S: Fn(i32, i32, bool) -> i32,
    W: Fn(i32, i32, bool) -> u32,
    P: Fn(u32, u32) -> u32,
    Q: Fn(u32, u32, u32) -> u32,
    CF: Fn(u32, u32) -> V,
    CK: Fn(V) -> V,
    CP: Fn(V, V) -> V,
    CD: Fn(V, usize) -> V,
    CL: Fn(i32, V) -> i32,
>(
    bed: Seq<i32>,
    grid: Grid,
    cell: u32,
    radius: usize,
    zero: V,
    drainage: DrainageFns<C, U, B, R, S, W, P, Q>,
    f: CarveFns<CF, CK, CP, CD, CL>,
    z: Seq<i32>,
    flow: Seq<V>,
) -> bool {
    &&& z.len() == grid.cells()
    &&& flow.len() == grid.cells()
    &&& exists|d: Drainage| #[trigger]
        d.wf(grid) && (forall|m: DrainageMath| #[trigger]
            drainage_math(m, drainage) ==> d.solves(bed, grid, cell, m)) && (forall|
            m: CarveMath<V>,
        | #[trigger]
            carve_math(m, zero, f) ==> flow == river_flow(d, m) && z == river_bed(
                bed,
                d,
                grid,
                radius,
                m,
            ))
}

/// Channels cut into a bed, and the flow that cut them.
pub struct Channels<V> {
    pub z: Vec<i32>,
    pub flow: Vec<V>,
}

impl Rivers {
    /// Cuts the channel network the bed's drainage implies: every cell that drains off the grid is
    /// lowered by how much its flow cuts, smoothed over `radius`. Polls `cancelled` before and after
    /// the drainage solve, and stops without a result when it says so.
    pub fn carve<
        V: Copy,
        C: Fn(i32) -> i32,
        U: Fn(u32, u32) -> u32,
        B: Fn(u32) -> u32,
        R: Fn(i32, Option<(u32, u32)>, u32) -> i32,
        S: Fn(i32, i32, bool) -> i32,
        W: Fn(i32, i32, bool) -> u32,
        P: Fn(u32, u32) -> u32,
        Q: Fn(u32, u32, u32) -> u32,
        CF: Fn(u32, u32) -> V,
        CK: Fn(V) -> V,
        CP: Fn(V, V) -> V,
        CD: Fn(V, usize) -> V,
        CL: Fn(i32, V) -> i32,
        X: Fn() -> bool,
    >(
        bed: &Vec<i32>,
        grid: &Grid,
        cell: u32,
        radius: usize,
        zero: V,
        drainage: &DrainageFns<C, U, B, R, S, W, P, Q>,
        f: &CarveFns<CF, CK, CP, CD, CL>,
        cancelled: &X,
    ) -> (r: Option<Channels<V>>)
        requires
            grid.wf(),
            bed@.len() == grid.cells(),
            drainage_total(*drainage),
            carve_total(*f),
            call_requires(*cancelled, ()),
        ensures
            match r {
                Some(out) => channelled(
                    bed@,
                    *grid,
                    cell,
                    radius,
                    zero,
                    *drainage,
                    *f,
                    out.z@,
                    out.flow@,
                ),
                None => call_ensures(*cancelled, (), true),
            },
            r is Some ==> call_ensures(*cancelled, (), false),
    {
        if cancelled() {
            return None;
        }
        let n: usize = grid.len();
        let d: Drainage = solve_drainage(bed.as_slice(), grid, cell, drainage);
        if cancelled() {
            return None;
        }
        let top: u32 = largest_area(d.area.as_slice(), 0);
        let mut flow: Vec<V> = Vec::with_capacity(n);
        let mut raw: Vec<V> = Vec::with_capacity(n);
        let mut c: usize = 0;
        while c < n
            invariant
                n == grid.cells(),
                d.wf(*grid),
                carve_total(*f),
                top == largest(d.area@, 0, d.area@.len() as int),
                c <= n,
                flow@.len() == c,
                raw@.len() == c,
                forall|m: CarveMath<V>| #[trigger]
                    carve_math(m, zero, *f) ==> forall|b: int|
                        0 <= b < c ==> #[trigger] flow@[b] == river_flow(d, m)[b] && raw@[b] == if drains_off(
                            d.receivers.to@,
                            *grid,
                            b,
                        ) {
                            (m.cut)(river_flow(d, m)[b])
                        } else {
                            zero
                        },
            decreases n - c,
        {
            let v: V = (f.flow)(d.area[c], top);
            proof {
                assert forall|m: CarveMath<V>| #[trigger] carve_math(m, zero, *f) implies v
                    == river_flow(d, m)[c as int] by {
                    assert(call_ensures(f.flow, (d.area@[c as int], top), v));
                }
            }
            let k: V = if d.drains[c] {
                let k: V = (f.cut)(v);
                proof {
                    assert forall|m: CarveMath<V>| #[trigger] carve_math(m, zero, *f) implies k
                        == (m.cut)(v) by {
                        assert(call_ensures(f.cut, (v,), k));
                    }
                }
                k
            } else {
                zero
            };
            flow.push(v);
            raw.push(k);
            c += 1;
        }
        let carve: Vec<V> = box_blur(&raw, grid, radius, SMOOTH_PASSES, zero, &f.plus, &f.over);
        proof {
            assert forall|m: CarveMath<V>| #[trigger] carve_math(m, zero, *f) implies carve@
                == river_carve(d, *grid, radius, m) && flow@ == river_flow(d, m) by {
                assert(flow@ =~= river_flow(d, m));
                assert forall|b: int| 0 <= b < n implies #[trigger] raw@[b] == if drains_off(
                    d.receivers.to@,
                    *grid,
                    b,
                ) {
                    (m.cut)(river_flow(d, m)[b])
                } else {
                    zero
                } by {
                    assert(flow@[b] == river_flow(d, m)[b]);
                }
                assert(raw@ =~= Seq::new(
                    grid.cells(),
                    |b: int|
                        if drains_off(d.receivers.to@, *grid, b) {
                            (m.cut)(river_flow(d, m)[b])
                        } else {
                            m.blur.zero
                        },
                ));
                assert(blur_math(m.blur, zero, f.plus, f.over));
            }
        }
        let mut z: Vec<i32> = Vec::with_capacity(n);
        let mut c: usize = 0;
        while c < n
            invariant
                n == grid.cells(),
                bed@.len() == n,
                d.wf(*grid),
                carve_total(*f),
                carve@.len() == n,
                forall|m: CarveMath<V>| #[trigger]
                    carve_math(m, zero, *f) ==> carve@ == river_carve(d, *grid, radius, m),
                c <= n,
                z@.len() == c,
                forall|m: CarveMath<V>| #[trigger]
                    carve_math(m, zero, *f) ==> forall|b: int|
                        0 <= b < c ==> #[trigger] z@[b] == river_bed(
                            bed@,
                            d,
                            *grid,
                            radius,
                            m,
                        )[b],
            decreases n - c,
        {
            let v: i32 = if d.drains[c] {
                let v: i32 = (f.lower)(bed[c], carve[c]);
                proof {
                    assert forall|m: CarveMath<V>| #[trigger] carve_math(m, zero, *f) implies v
                        == (m.lower)(bed@[c as int], carve@[c as int]) by {
                        assert(call_ensures(
                            f.lower,
                            (bed@[c as int], carve@[c as int]),
                            v,
                        ));
                    }
                }
                v
            } else {
                bed[c]
            };
            z.push(v);
            c += 1;
        }
        proof {
            assert forall|m: CarveMath<V>| #[trigger] carve_math(m, zero, *f) implies z@
                == river_bed(bed@, d, *grid, radius, m) by {
                assert(z@ =~= river_bed(bed@, d, *grid, radius, m));
            }
            assert(d.wf(*grid));
        }
        Some(Channels { z, flow })
    }
}

/// A closed basin, whose drainage does not reach the boundary, keeps its floor exactly, even where
/// the smoothing spreads some carve across its shoreline.
pub proof fn law_lakes_keep_their_floor<V>(
    bed: Seq<i32>,
    d: Drainage,
    grid: Grid,
    radius: usize,
    m: CarveMath<V>,
    c: int,
)
    requires
        0 <= c < grid.cells(),
        !drains_off(d.receivers.to@, grid, c),
    ensures
        river_bed(bed, d, grid, radius, m)[c] == bed[c],
{
}

/// Where lowering never raises, the bed only ever lowers.
pub proof fn law_rivers_only_lower<V>(
    bed: Seq<i32>,
    d: Drainage,
    grid: Grid,
    radius: usize,
    m: CarveMath<V>,
    c: int,
)
    requires
        0 <= c < grid.cells(),
        forall|b: i32, v: V| #[trigger] (m.lower)(b, v) <= b,
    ensures
        river_bed(bed, d, grid, radius, m)[c] <= bed[c],
{
}

/// What the rivers do with their result, as executable functions over order keys and values: the
/// key of a height, the blend of a height with its carved height through the mask, and the material
/// a cell lost.
pub struct RiverFns<K, F, E> {
    pub key: K,
    pub blend: F,
    pub wear: E,
}

/// The fields of the rivers, from the bed, its channels, and the flow that cut them.
pub open spec fn river_outputs<
    V,
    G,
    K: Fn(V) -> i32,
    F: Fn(i32, i32, V) -> V,
    E: Fn(i32, i32) -> V,
>(
    out: Seq<Field<V, G>>,
    input: Field<V, G>,
    mask: Option<&Field<V, G>>,
    one: V,
    bed: Seq<i32>,
    z: Seq<i32>,
    flow: Seq<V>,
    finish: RiverFns<K, F, E>,
) -> bool {
    &&& out.len() == 3
    &&& composites(out[0], input, bed, z, mask_of(input, mask, one), one, finish.blend)
    &&& taps(out[1], input.width, input.height, input.region, flow)
    &&& exists|wear: Seq<V>|
        {
            &&& #[trigger] taps(out[2], input.width, input.height, input.region, wear)
            &&& changed(wear, bed, z, finish.wear)
        }
}

impl Rivers {
    /// Cuts rivers into the input: the input with its height composited through the mask, and the
    /// flow and what wore beside it. `ends` is the height of a field without one, and a full mask.
    /// `None` when cancelled.
    pub fn eval<
        V: Copy,
        G: Copy,
        C: Fn(i32) -> i32,
        U: Fn(u32, u32) -> u32,
        B: Fn(u32) -> u32,
        R: Fn(i32, Option<(u32, u32)>, u32) -> i32,
        S: Fn(i32, i32, bool) -> i32,
        W: Fn(i32, i32, bool) -> u32,
        P: Fn(u32, u32) -> u32,
        Q: Fn(u32, u32, u32) -> u32,
        CF: Fn(u32, u32) -> V,
        CK: Fn(V) -> V,
        CP: Fn(V, V) -> V,
        CD: Fn(V, usize) -> V,
        CL: Fn(i32, V) -> i32,
        K: Fn(V) -> i32,
        F: Fn(i32, i32, V) -> V,
        E: Fn(i32, i32) -> V,
        X: Fn() -> bool,
    >(
        input: &Field<V, G>,
        mask: Option<&Field<V, G>>,
        ends: (V, V),
        cell: u32,
        radius: usize,
        drainage: &DrainageFns<C, U, B, R, S, W, P, Q>,
        f: &CarveFns<CF, CK, CP, CD, CL>,
        finish: &RiverFns<K, F, E>,
        cancelled: &X,
    ) -> (r: Option<Vec<Field<V, G>>>)
        requires
            input.wf(),
            mask matches Some(m) ==> m.wf(),
            input.layer_or_of(HEIGHT@, ends.0).cells.len() == input.width * input.height,
            drainage_total(*drainage),
            carve_total(*f),
            total1(finish.key),
            total3(finish.blend),
            total2(finish.wear),
            call_requires(*cancelled, ()),
        ensures
            r is None ==> call_ensures(*cancelled, (), true),
            r is Some ==> call_ensures(*cancelled, (), false),
            r matches Some(out) ==> exists|bed: Seq<i32>, z: Seq<i32>, flow: Seq<V>|
                {
                    &&& #[trigger] keyed(input.layer_or_of(HEIGHT@, ends.0).cells, finish.key, bed)
                    &&& #[trigger] channelled(
                        bed,
                        (Grid { width: input.width, height: input.height }),
                        cell,
                        radius,
                        ends.0,
                        *drainage,
                        *f,
                        z,
                        flow,
                    )
                    &&& river_outputs(out@, *input, mask, ends.1, bed, z, flow, *finish)
                },
    {
        let grid: Grid = Grid { width: input.width, height: input.height };
        let h: Layer<V> = input.layer_or(HEIGHT, ends.0);
        let bed: Vec<i32> = map_cells(&h.cells, &finish.key);
        assert(keyed(input.layer_or_of(HEIGHT@, ends.0).cells, finish.key, bed@));
        let channels: Channels<V> = match Self::carve(
            &bed,
            &grid,
            cell,
            radius,
            ends.0,
            drainage,
            f,
            cancelled,
        ) {
            Some(c) => c,
            None => {
                return None;
            },
        };
        let ghost (z, flow) = (channels.z@, channels.flow@);
        let m: Layer<V> = mask_layer(input, mask, ends.1);
        let worn: Vec<V> = changes(&bed, &channels.z, &finish.wear);
        let ghost wear = worn@;
        let (w, t): (usize, usize) = (input.width, input.height);
        let out: Vec<Field<V, G>> = vec![
            composite(input, &bed, &channels.z, &m, ends.1, &finish.blend),
            byproduct_field(channels.flow, w, t, input.region),
            byproduct_field(worn, w, t, input.region),
        ];
        let r: Option<Vec<Field<V, G>>> = Some(out);
        proof {
            assert(taps(r->0@[1], w, t, input.region, flow));
            assert(taps(r->0@[2], w, t, input.region, wear));
            assert(river_outputs(r->0@, *input, mask, ends.1, bed@, z, flow, *finish));
        }
        r
    }
}

} // verus!
