//! Stream erosion.
use crate::erosion::{
    byproduct_field, changed, changes, composite, composites, mask_layer, mask_of, taps,
};
use crate::field::{Field, Layer, HEIGHT};
use crate::flow_selector::keyed;
use crate::functions::{accepts_lists, computes3, keeps_lists, of_list, total1, total2, total3};
use crate::grid::Grid;
use crate::hydrology::drainage::{
    drainage_math, drainage_total, solve_drainage, Drainage, DrainageFns, DrainageMath,
};
use crate::hydrology::incise::{
    incise, incised, largest, law_incision_keeps_the_floor, law_incision_spares_closed_basins,
    law_incision_stops_at_the_receiver, stops_at_the_receiver,
};
use crate::node::{
    float_param, int_param, optional_port, port, ContextDeps, Node, NodeSpec, ParamSpec, PortSpec,
};
use crate::shaping::map_cells;
use crate::talus::{relax_pass, relaxed_once, talus_math, talus_total, TalusFns, TalusMath};
use vstd::prelude::*;

verus! {

/// Stream erosion modifier: one input (plus an optional mask), two outputs.
#[derive(Clone, Copy, Debug)]
pub struct StreamErosion;

/// What the node declares.
pub open spec fn stream_node() -> Node {
    Node {
        type_id: "modifier.stream_erosion"@,
        category: "geology"@,
        tags: Seq::empty(),
        inputs: seq![port("in"@), optional_port("mask"@)],
        outputs: seq![
            port("heightfield"@),
            port("flow"@),
            port("wear"@),
            port("deposition"@),
        ],
        params: seq![
            float_param("strength"@, 0, 1_000_000, 200_000),
            float_param("diffusion"@, 0, 1_000_000, 500_000),
            int_param("iterations"@, 0, 500, 30),
            float_param("concavity"@, 100_000, 2_000_000, 500_000),
            float_param("concentration"@, 1_000_000, 6_000_000, 1_500_000),
            float_param("fill"@, 0, 1_000_000, 50_000),
        ],
        emitted_layers: Seq::empty(),
        mask_aware: false,
    }
}

impl StreamErosion {
    /// The node's declaration.
    pub fn spec(&self) -> (r: NodeSpec)
        ensures
            r@ == stream_node(),
            r@.defaults_admitted(),
    {
        let r: NodeSpec = NodeSpec {
            type_id: "modifier.stream_erosion",
            category: "geology",
            tags: Vec::new(),
            inputs: vec![PortSpec::new("in"), PortSpec::optional("mask")],
            outputs: vec![
                PortSpec::new("heightfield"),
                PortSpec::new("flow"),
                PortSpec::new("wear"),
                PortSpec::new("deposition"),
            ],
            params: vec![
                ParamSpec::number("strength", 0, 1_000_000, 200_000),
                ParamSpec::number("diffusion", 0, 1_000_000, 500_000),
                ParamSpec::integer("iterations", 0, 500, 30),
                ParamSpec::number("concavity", 100_000, 2_000_000, 500_000),
                ParamSpec::number("concentration", 1_000_000, 6_000_000, 1_500_000),
                ParamSpec::number("fill", 0, 1_000_000, 50_000),
            ],
            emitted_layers: Vec::new(),
            mask_aware: false,
        };
        assert(r@ =~= stream_node());
        r
    }

    /// Which world settings the node reads.
    pub fn context_deps(&self) -> (r: ContextDeps)
        ensures
            r == ContextDeps::WorldExtent,
    {
        ContextDeps::WorldExtent
    }
}

/// The arithmetic of stream erosion, as executable functions: that of the drainage solve, the level
/// a cell is drawn to, and that of the relaxation of the walls the incision leaves.
pub struct StreamFns<D, L, T> {
    pub drainage: D,
    pub lowered: L,
    pub talus: T,
}

/// The arithmetic of stream erosion.
#[verifier::reject_recursive_types(A)]
pub ghost struct StreamMath<A> {
    pub drainage: DrainageMath,
    pub lowered: spec_fn((i32, i32), (u32, u32), bool) -> i32,
    pub talus: TalusMath<i32, A>,
}

/// A stage of the evolution: the terrain, and the catchments it was last carved by.
pub ghost struct Stage {
    pub z: Seq<i32>,
    pub area: Seq<u32>,
}

/// How an evolution goes: on which grid, from which area per cell, with which least largest area,
/// and whether the walls relax.
pub ghost struct Course {
    pub grid: Grid,
    pub cell: u32,
    pub floor: u32,
    pub relaxing: bool,
}

/// The terrain incised along a drainage, and relaxed.
pub open spec fn carved<A>(z: Seq<i32>, d: Drainage, o: Course, m: StreamMath<A>) -> Seq<i32> {
    let top = largest(d.area@, o.floor, d.area@.len() as int);
    let cut = incised(d, o.grid, top, m.lowered, z, d.stack@.len() as int);
    if o.relaxing {
        relaxed_once(m.talus, cut, o.grid)
    } else {
        cut
    }
}

/// One iteration: the terrain's drainage is solved, and the terrain carved along it.
pub open spec fn iterated<A>(s: Stage, t: Stage, o: Course, m: StreamMath<A>) -> bool {
    exists|d: Drainage|
        {
            &&& d.wf(o.grid)
            &&& #[trigger] d.solves(s.z, o.grid, o.cell, m.drainage)
            &&& t.area == d.area@
            &&& t.z == carved(s.z, d, o, m)
        }
}

/// An evolution of `n` iterations from the bed.
pub open spec fn evolution<A>(
    stages: Seq<Stage>,
    bed: Seq<i32>,
    n: nat,
    o: Course,
    m: StreamMath<A>,
) -> bool {
    &&& stages.len() == n + 1
    &&& stages[0].z == bed
    &&& stages[0].area == Seq::new(bed.len(), |c: int| o.cell)
    &&& forall|i: int| 0 <= i < n ==> iterated(stages[i], #[trigger] stages[i + 1], o, m)
}

/// The terrain `z` and its catchments are where `n` iterations take the bed, by whatever arithmetic
/// the executable functions compute.
pub open spec fn evolved<
    A,
    C: Fn(i32) -> i32,
    U: Fn(u32, u32) -> u32,
    B: Fn(u32) -> u32,
    R: Fn(i32, Option<(u32, u32)>, u32) -> i32,
    S: Fn(i32, i32, bool) -> i32,
    W: Fn(i32, i32, bool) -> u32,
    P: Fn(u32, u32) -> u32,
    Q: Fn(u32, u32, u32) -> u32,
    L: Fn((i32, i32), (u32, u32), bool) -> i32,
    TE: Fn(i32, i32, bool) -> Option<A>,
    TT: Fn((A, A), A) -> (A, A),
    TS: Fn(A) -> A,
    TN: Fn(A) -> A,
    TR: Fn(A, (A, A, A)) -> A,
    TM: Fn(i32, A) -> i32,
>(
    bed: Seq<i32>,
    n: nat,
    o: Course,
    f: StreamFns<DrainageFns<C, U, B, R, S, W, P, Q>, L, TalusFns<A, TE, TT, TS, TN, TR, TM>>,
    z: Seq<i32>,
    area: Seq<u32>,
) -> bool {
    &&& z.len() == o.grid.cells()
    &&& area.len() == o.grid.cells()
    &&& exists|stages: Seq<Stage>|
        {
            &&& (#[trigger] stages.last()).z == z
            &&& stages.last().area == area
            &&& forall|m: StreamMath<A>|
                drainage_math(m.drainage, f.drainage) && computes3(f.lowered, m.lowered)
                    && talus_math(m.talus, f.talus) ==> #[trigger] evolution(
                    stages,
                    bed,
                    n,
                    o,
                    m,
                )
        }
}

/// The iterations asked for, within bounds.
pub open spec fn iterations_of(requested: int) -> int {
    if requested < 0 {
        0
    } else if requested > 100_000 {
        100_000
    } else {
        requested
    }
}

impl StreamErosion {
    /// The iterations asked for, within bounds.
    pub fn iterations(requested: i64) -> (r: usize)
        ensures
            r == iterations_of(requested as int),
    {
        if requested < 0 {
            0
        } else if requested > 100_000 {
            100_000
        } else {
            requested as usize
        }
    }

    /// Evolves the bed: each iteration solves its drainage, incises it along the drainage, and
    /// relaxes the walls where `relaxing`. Polls `cancelled` before each iteration, and stops
    /// without a result when it says so. The result is the terrain and its last catchments.
    pub fn evolve<
        A: Copy,
        C: Fn(i32) -> i32,
        U: Fn(u32, u32) -> u32,
        B: Fn(u32) -> u32,
        R: Fn(i32, Option<(u32, u32)>, u32) -> i32,
        S: Fn(i32, i32, bool) -> i32,
        W: Fn(i32, i32, bool) -> u32,
        P: Fn(u32, u32) -> u32,
        Q: Fn(u32, u32, u32) -> u32,
        L: Fn((i32, i32), (u32, u32), bool) -> i32,
        TE: Fn(i32, i32, bool) -> Option<A>,
        TT: Fn((A, A), A) -> (A, A),
        TS: Fn(A) -> A,
        TN: Fn(A) -> A,
        TR: Fn(A, (A, A, A)) -> A,
        TM: Fn(i32, A) -> i32,
        X: Fn() -> bool,
    >(
        bed: &Vec<i32>,
        grid: &Grid,
        cell: u32,
        floor: u32,
        relaxing: bool,
        iterations: usize,
        f: &StreamFns<
            DrainageFns<C, U, B, R, S, W, P, Q>,
            L,
            TalusFns<A, TE, TT, TS, TN, TR, TM>,
        >,
        cancelled: &X,
    ) -> (r: Option<(Vec<i32>, Vec<u32>)>)
        requires
            grid.wf(),
            bed@.len() == grid.cells(),
            drainage_total(f.drainage),
            total3(f.lowered),
            talus_total(f.talus),
            call_requires(*cancelled, ()),
        ensures
            match r {
                Some((z, area)) => evolved(
                    bed@,
                    iterations as nat,
                    (Course { grid: *grid, cell, floor, relaxing }),
                    *f,
                    z@,
                    area@,
                ),
                None => iterations > 0 && call_ensures(*cancelled, (), true),
            },
            r is Some ==> iterations == 0 || call_ensures(*cancelled, (), false),
    {
        let n: usize = grid.len();
        let ghost o = Course { grid: *grid, cell, floor, relaxing };
        let mut z: Vec<i32> = vstd::slice::slice_to_vec(bed.as_slice());
        let mut area: Vec<u32> = vec![cell; n];
        let ghost mut stages: Seq<Stage> = seq![Stage { z: z@, area: area@ }];
        proof {
            assert(area@ =~= Seq::new(bed@.len(), |c: int| cell));
        }
        let mut i: usize = 0;
        while i < iterations
            invariant
                grid.wf(),
                n == grid.cells(),
                o == (Course { grid: *grid, cell, floor, relaxing }),
                bed@.len() == n,
                drainage_total(f.drainage),
                total3(f.lowered),
                talus_total(f.talus),
                call_requires(*cancelled, ()),
                i <= iterations,
                i > 0 ==> call_ensures(*cancelled, (), false),
                z@.len() == n,
                area@.len() == n,
                stages.len() == i + 1,
                stages.last().z == z@,
                stages.last().area == area@,
                stages[0].z == bed@,
                stages[0].area == Seq::new(bed@.len(), |c: int| cell),
                forall|m: StreamMath<A>, j: int|
                    #![trigger iterated(stages[j], stages[j + 1], o, m)]
                    drainage_math(m.drainage, f.drainage) && computes3(f.lowered, m.lowered)
                        && talus_math(m.talus, f.talus) && 0 <= j < i ==> iterated(
                        stages[j],
                        stages[j + 1],
                        o,
                        m,
                    ),
            decreases iterations - i,
        {
            if cancelled() {
                return None;
            }
            let ghost was = z@;
            let d: Drainage = solve_drainage(z.as_slice(), grid, cell, &f.drainage);
            incise(&mut z, &d, grid, floor, &f.lowered);
            let ghost cut = z@;
            if relaxing {
                z = relax_pass(&z, grid, &f.talus);
            }
            let ghost next = Stage { z: z@, area: d.area@ };
            let ghost before = stages;
            proof {
                stages = stages.push(next);
                assert forall|m: StreamMath<A>, j: int|
                    #![trigger iterated(stages[j], stages[j + 1], o, m)]
                    drainage_math(m.drainage, f.drainage) && computes3(f.lowered, m.lowered)
                        && talus_math(m.talus, f.talus) && 0 <= j < i + 1 implies iterated(
                    stages[j],
                    stages[j + 1],
                    o,
                    m,
                ) by {
                    if j < i {
                        assert(iterated(before[j], before[j + 1], o, m));
                        assert(stages[j] == before[j]);
                        assert(stages[j + 1] == before[j + 1]);
                    } else {
                        assert(stages[j].z == was);
                        assert(stages[j + 1] == next);
                        assert(d.solves(stages[j].z, o.grid, o.cell, m.drainage));
                        assert(z@ == carved(was, d, o, m));
                        assert(iterated(stages[j], next, o, m));
                    }
                }
            }
            area = d.area;
            i += 1;
        }
        proof {
            assert forall|m: StreamMath<A>|
                drainage_math(m.drainage, f.drainage) && computes3(f.lowered, m.lowered)
                    && talus_math(m.talus, f.talus) implies #[trigger] evolution(
                stages,
                bed@,
                iterations as nat,
                o,
                m,
            ) by {
                assert forall|j: int| 0 <= j < iterations implies iterated(
                    stages[j],
                    #[trigger] stages[j + 1],
                    o,
                    m,
                ) by {}
            }
        }
        Some((z, area))
    }
}

/// Without relaxation the bed only ever lowers.
pub proof fn law_pure_incision_only_lowers<A>(
    stages: Seq<Stage>,
    bed: Seq<i32>,
    n: nat,
    o: Course,
    m: StreamMath<A>,
    i: int,
    c: int,
)
    requires
        evolution(stages, bed, n, o, m),
        !o.relaxing,
        bed.len() == o.grid.cells(),
        0 <= i <= n,
        0 <= c < o.grid.cells(),
    ensures
        stages[i].z.len() == o.grid.cells(),
        stages[i].z[c] <= bed[c],
    decreases i,
{
    if i > 0 {
        law_pure_incision_only_lowers(stages, bed, n, o, m, i - 1, c);
        assert(iterated(stages[i - 1], stages[i - 1 + 1], o, m));
        let s = stages[i - 1];
        let t = stages[i];
        let d = choose|d: Drainage|
            {
                &&& d.wf(o.grid)
                &&& #[trigger] d.solves(s.z, o.grid, o.cell, m.drainage)
                &&& t.area == d.area@
                &&& t.z == carved(s.z, d, o, m)
            };
        let top = largest(d.area@, o.floor, d.area@.len() as int);
        law_incision_spares_closed_basins(
            d,
            o.grid,
            top,
            m.lowered,
            s.z,
            d.stack@.len() as int,
            c,
        );
    }
}

/// A stage follows another by cutting along a drainage of it, and cuts no cell below its receiver.
pub open spec fn cuts_to_receivers<A>(s: Stage, t: Stage, o: Course, m: StreamMath<A>) -> bool {
    exists|d: Drainage|
        {
            &&& d.wf(o.grid)
            &&& #[trigger] d.solves(s.z, o.grid, o.cell, m.drainage)
            &&& forall|c: int|
                0 <= c < o.grid.cells() ==> #[trigger] t.z[c] == s.z[c] || t.z[c]
                    >= t.z[d.receivers.to@[c] as int]
        }
}

/// Without relaxation no iteration cuts a cell below the cell it drains into, nor any cell below
/// the lowest of the bed, where the step stops at the receiver.
pub proof fn law_pure_incision_stops_at_receivers<A>(
    stages: Seq<Stage>,
    bed: Seq<i32>,
    n: nat,
    o: Course,
    m: StreamMath<A>,
    i: int,
    floor: i32,
)
    requires
        evolution(stages, bed, n, o, m),
        !o.relaxing,
        bed.len() == o.grid.cells(),
        0 <= i <= n,
        stops_at_the_receiver(m.lowered),
        forall|c: int| 0 <= c < o.grid.cells() ==> floor <= #[trigger] bed[c],
    ensures
        stages[i].z.len() == o.grid.cells(),
        forall|c: int| 0 <= c < o.grid.cells() ==> floor <= #[trigger] stages[i].z[c],
        i > 0 ==> cuts_to_receivers(stages[i - 1], stages[i], o, m),
    decreases i,
{
    if i > 0 {
        law_pure_incision_stops_at_receivers(stages, bed, n, o, m, i - 1, floor);
        assert(iterated(stages[i - 1], stages[i - 1 + 1], o, m));
        let s = stages[i - 1];
        let t = stages[i];
        let d = choose|d: Drainage|
            {
                &&& d.wf(o.grid)
                &&& #[trigger] d.solves(s.z, o.grid, o.cell, m.drainage)
                &&& t.area == d.area@
                &&& t.z == carved(s.z, d, o, m)
            };
        let top = largest(d.area@, o.floor, d.area@.len() as int);
        law_incision_keeps_the_floor(
            d,
            o.grid,
            top,
            m.lowered,
            s.z,
            d.stack@.len() as int,
            floor,
        );
        assert forall|c: int| 0 <= c < o.grid.cells() implies #[trigger] t.z[c] == s.z[c] || t.z[c]
            >= t.z[d.receivers.to@[c] as int] by {
            law_incision_stops_at_the_receiver(d, o.grid, top, m.lowered, s.z, c);
        }
    }
}

/// What stream erosion does with its result, as executable functions over order keys and values:
/// the key of a height, the blend of a height with its eroded height through the mask, the flow map
/// of the catchments, and the material a cell lost or gained.
pub struct OutputFns<K, F, M, E, D> {
    pub key: K,
    pub blend: F,
    pub flow: M,
    pub wear: E,
    pub deposition: D,
}

impl StreamErosion {
    /// Erodes the input by streams: the input with its height composited through the mask, and the
    /// flow, what wore and what settled beside it. `ends` is the height of a field without one, and
    /// a full mask. `None` when cancelled.
    pub fn eval<
        V: Copy,
        G: Copy,
        A: Copy,
        C: Fn(i32) -> i32,
        U: Fn(u32, u32) -> u32,
        B: Fn(u32) -> u32,
        R: Fn(i32, Option<(u32, u32)>, u32) -> i32,
        S: Fn(i32, i32, bool) -> i32,
        W: Fn(i32, i32, bool) -> u32,
        P: Fn(u32, u32) -> u32,
        Q: Fn(u32, u32, u32) -> u32,
        L: Fn((i32, i32), (u32, u32), bool) -> i32,
        TE: Fn(i32, i32, bool) -> Option<A>,
        TT: Fn((A, A), A) -> (A, A),
        TS: Fn(A) -> A,
        TN: Fn(A) -> A,
        TR: Fn(A, (A, A, A)) -> A,
        TM: Fn(i32, A) -> i32,
        K: Fn(V) -> i32,
        F: Fn(i32, i32, V) -> V,
        M: Fn(&Vec<u32>) -> Vec<V>,
        E: Fn(i32, i32) -> V,
        D: Fn(i32, i32) -> V,
        X: Fn() -> bool,
    >(
        input: &Field<V, G>,
        mask: Option<&Field<V, G>>,
        ends: (V, V),
        cell: u32,
        floor: u32,
        relaxing: bool,
        iterations: usize,
        f: &StreamFns<
            DrainageFns<C, U, B, R, S, W, P, Q>,
            L,
            TalusFns<A, TE, TT, TS, TN, TR, TM>,
        >,
        finish: &OutputFns<K, F, M, E, D>,
        cancelled: &X,
    ) -> (r: Option<Vec<Field<V, G>>>)
        requires
            input.wf(),
            mask matches Some(m) ==> m.wf(),
            input.layer_or_of(HEIGHT@, ends.0).cells.len() == input.width * input.height,
            drainage_total(f.drainage),
            total3(f.lowered),
            talus_total(f.talus),
            total1(finish.key),
            total3(finish.blend),
            accepts_lists(finish.flow, (input.width * input.height) as nat),
            keeps_lists(finish.flow, (input.width * input.height) as nat),
            total2(finish.wear),
            total2(finish.deposition),
            call_requires(*cancelled, ()),
        ensures
            r is None ==> iterations > 0 && call_ensures(*cancelled, (), true),
            r is Some ==> iterations == 0 || call_ensures(*cancelled, (), false),
            r matches Some(out) ==> exists|bed: Seq<i32>, z: Seq<i32>, area: Seq<u32>|
                {
                    &&& #[trigger] keyed(input.layer_or_of(HEIGHT@, ends.0).cells, finish.key, bed)
                    &&& #[trigger] evolved(
                        bed,
                        iterations as nat,
                        (Course {
                            grid: Grid { width: input.width, height: input.height },
                            cell,
                            floor,
                            relaxing,
                        }),
                        *f,
                        z,
                        area,
                    )
                    &&& stream_outputs(out@, *input, mask, ends.1, bed, z, area, *finish)
                },
    {
        let grid: Grid = Grid { width: input.width, height: input.height };
        let h: Layer<V> = input.layer_or(HEIGHT, ends.0);
        let bed: Vec<i32> = map_cells(&h.cells, &finish.key);
        assert(keyed(input.layer_or_of(HEIGHT@, ends.0).cells, finish.key, bed@));
        let (z, area): (Vec<i32>, Vec<u32>) = match Self::evolve(
            &bed,
            &grid,
            cell,
            floor,
            relaxing,
            iterations,
            f,
            cancelled,
        ) {
            Some(p) => p,
            None => {
                return None;
            },
        };
        let flow: Vec<V> = (finish.flow)(&area);
        let ghost map = flow;
        assert(of_list(finish.flow, area@, map));
        let m: Layer<V> = mask_layer(input, mask, ends.1);
        let worn: Vec<V> = changes(&bed, &z, &finish.wear);
        let settled: Vec<V> = changes(&bed, &z, &finish.deposition);
        let ghost (wear, deposition) = (worn@, settled@);
        let (w, t): (usize, usize) = (input.width, input.height);
        let out: Vec<Field<V, G>> = vec![
            composite(input, &bed, &z, &m, ends.1, &finish.blend),
            byproduct_field(flow, w, t, input.region),
            byproduct_field(worn, w, t, input.region),
            byproduct_field(settled, w, t, input.region),
        ];
        let r: Option<Vec<Field<V, G>>> = Some(out);
        proof {
            assert(taps(r->0@[1], w, t, input.region, map@));
            assert(taps(r->0@[2], w, t, input.region, wear));
            assert(taps(r->0@[3], w, t, input.region, deposition));
            assert(stream_outputs(r->0@, *input, mask, ends.1, bed@, z@, area@, *finish));
        }
        r
    }
}

/// The fields of stream erosion, from the bed, where it was taken, and its last catchments.
pub open spec fn stream_outputs<
    V,
    G,
    K: Fn(V) -> i32,
    F: Fn(i32, i32, V) -> V,
    M: Fn(&Vec<u32>) -> Vec<V>,
    E: Fn(i32, i32) -> V,
    D: Fn(i32, i32) -> V,
>(
    out: Seq<Field<V, G>>,
    input: Field<V, G>,
    mask: Option<&Field<V, G>>,
    one: V,
    bed: Seq<i32>,
    z: Seq<i32>,
    area: Seq<u32>,
    finish: OutputFns<K, F, M, E, D>,
) -> bool {
    &&& out.len() == 4
    &&& composites(out[0], input, bed, z, mask_of(input, mask, one), one, finish.blend)
    &&& exists|flow: Vec<V>, wear: Seq<V>, deposition: Seq<V>|
        {
            &&& #[trigger] of_list(finish.flow, area, flow)
            &&& taps(out[1], input.width, input.height, input.region, flow@)
            &&& #[trigger] taps(out[2], input.width, input.height, input.region, wear)
            &&& changed(wear, bed, z, finish.wear)
            &&& #[trigger] taps(out[3], input.width, input.height, input.region, deposition)
            &&& changed(deposition, bed, z, finish.deposition)
        }
}

} // verus!
