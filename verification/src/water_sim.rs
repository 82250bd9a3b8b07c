//! Shallow-water simulation over virtual pipes.
//!
//! Water is a depth over the terrain. A pipe runs from every cell to each of its four axial
//! neighbours; its outflow follows the drop in water surface. A step rains, updates the outflows
//! and scales them to the water present, moves the water, and tallies the depth. Every pass reads
//! the previous buffers, so a cell depends only on its neighbours' old values. Past the edge the
//! terrain is extrapolated, so water leaves only where the ground slopes out.
use crate::functions::{computes1, computes2, computes3, total1, total2, total3};
use crate::grid::{law_neighbors_are_mutual, opposite, Grid};
use vstd::prelude::*;

verus! {

/// The four axial sides of a cell: left, right, up, down, in the order of the grid's directions.
pub const SIDES: usize = 4;

/// A value for each side.
pub type Sided<V> = (V, V, V, V);

/// The value for side `k`.
pub open spec fn side<V>(v: Sided<V>, k: int) -> V {
    if k == 0 {
        v.0
    } else if k == 1 {
        v.1
    } else if k == 2 {
        v.2
    } else {
        v.3
    }
}

/// The arithmetic of the simulation, as executable functions.
pub struct WaterFns<V, N, L, I, P, C, D, T> {
    /// No water.
    pub zero: V,
    /// A depth with one step's rain.
    pub rain: N,
    /// The water surface over a bed height with a depth.
    pub level: L,
    /// The bed past the edge, from the bed at the edge and the bed one cell back.
    pub mirror: I,
    /// A pipe's outflow, from its last one and the surfaces here and at its far end.
    pub pipe: P,
    /// The outflows scaled to the depth present.
    pub limit: C,
    /// The depth after what arrived and what left, and after evaporation.
    pub settle: D,
    /// The tally with one step's depth more.
    pub tally: T,
}

/// The arithmetic of the simulation.
#[verifier::reject_recursive_types(V)]
pub ghost struct WaterMath<V> {
    pub zero: V,
    pub rain: spec_fn(V) -> V,
    pub level: spec_fn(V, V) -> V,
    pub mirror: spec_fn(V, V) -> V,
    pub pipe: spec_fn(V, V, V) -> V,
    pub limit: spec_fn(Sided<V>, V) -> Sided<V>,
    pub settle: spec_fn(V, Sided<V>, Sided<V>) -> V,
    pub tally: spec_fn(V, V) -> V,
}

/// The executable functions accept every argument.
pub open spec fn water_total<
    V,
    N: Fn(V) -> V,
    L: Fn(V, V) -> V,
    I: Fn(V, V) -> V,
    P: Fn(V, V, V) -> V,
    C: Fn(Sided<V>, V) -> Sided<V>,
    D: Fn(V, Sided<V>, Sided<V>) -> V,
    T: Fn(V, V) -> V,
>(f: WaterFns<V, N, L, I, P, C, D, T>) -> bool {
    &&& total1(f.rain)
    &&& total2(f.level)
    &&& total2(f.mirror)
    &&& total3(f.pipe)
    &&& total2(f.limit)
    &&& total3(f.settle)
    &&& total2(f.tally)
}

/// The executable functions compute the arithmetic `m`.
pub open spec fn water_math<
    V,
    N: Fn(V) -> V,
    L: Fn(V, V) -> V,
    I: Fn(V, V) -> V,
    P: Fn(V, V, V) -> V,
    C: Fn(Sided<V>, V) -> Sided<V>,
    D: Fn(V, Sided<V>, Sided<V>) -> V,
    T: Fn(V, V) -> V,
>(m: WaterMath<V>, f: WaterFns<V, N, L, I, P, C, D, T>) -> bool {
    &&& m.zero == f.zero
    &&& computes1(f.rain, m.rain)
    &&& computes2(f.level, m.level)
    &&& computes2(f.mirror, m.mirror)
    &&& computes3(f.pipe, m.pipe)
    &&& computes2(f.limit, m.limit)
    &&& computes3(f.settle, m.settle)
    &&& computes2(f.tally, m.tally)
}

/// The state of a simulation: depth, outflows and tally, cell by cell.
#[verifier::reject_recursive_types(V)]
#[verifier::ext_equal]
pub ghost struct Water<V> {
    pub depth: Seq<V>,
    pub flux: Seq<Sided<V>>,
    pub tally: Seq<V>,
}

/// No water, no flow, nothing tallied.
pub open spec fn dry<V>(n: nat, zero: V) -> Water<V> {
    Water {
        depth: Seq::new(n, |c: int| zero),
        flux: Seq::new(n, |c: int| (zero, zero, zero, zero)),
        tally: Seq::new(n, |c: int| zero),
    }
}

/// The depths with one step's rain.
pub open spec fn rained<V>(m: WaterMath<V>, depth: Seq<V>) -> Seq<V> {
    Seq::new(depth.len(), |c: int| (m.rain)(depth[c]))
}

/// The surface that the pipe of cell `c` on side `k` drains toward: the neighbour's, or past the
/// edge that of the cell's own depth over the terrain extrapolated from the opposite side.
pub open spec fn facing<V>(
    m: WaterMath<V>,
    bed: Seq<V>,
    wet: Seq<V>,
    grid: Grid,
    c: int,
    k: int,
) -> V {
    match grid.neighbor(c, k) {
        Some(n) => (m.level)(bed[n], wet[n]),
        None => {
            let beyond = match grid.neighbor(c, opposite(k)) {
                Some(b) => (m.mirror)(bed[c], bed[b]),
                None => bed[c],
            };
            (m.level)(beyond, wet[c])
        },
    }
}

/// The outflow of the pipe of cell `c` on side `k`, before it is scaled.
pub open spec fn piped<V>(
    m: WaterMath<V>,
    bed: Seq<V>,
    wet: Seq<V>,
    flux: Seq<Sided<V>>,
    grid: Grid,
    c: int,
    k: int,
) -> V {
    (m.pipe)(
        side(flux[c], k),
        (m.level)(bed[c], wet[c]),
        facing(m, bed, wet, grid, c, k),
    )
}

/// The outflows of cell `c`.
pub open spec fn outflow<V>(
    m: WaterMath<V>,
    bed: Seq<V>,
    wet: Seq<V>,
    flux: Seq<Sided<V>>,
    grid: Grid,
    c: int,
) -> Sided<V> {
    (m.limit)(
        (
            piped(m, bed, wet, flux, grid, c, 0),
            piped(m, bed, wet, flux, grid, c, 1),
            piped(m, bed, wet, flux, grid, c, 2),
            piped(m, bed, wet, flux, grid, c, 3),
        ),
        wet[c],
    )
}

/// What arrives at cell `c` over side `k`: what the neighbour there sends back this way, and
/// nothing over the edge.
pub open spec fn arriving<V>(zero: V, out: Seq<Sided<V>>, grid: Grid, c: int, k: int) -> V {
    match grid.neighbor(c, k) {
        Some(n) => side(out[n], opposite(k)),
        None => zero,
    }
}

/// What arrives at cell `c`, side by side.
pub open spec fn inflow<V>(zero: V, out: Seq<Sided<V>>, grid: Grid, c: int) -> Sided<V> {
    (
        arriving(zero, out, grid, c, 0),
        arriving(zero, out, grid, c, 1),
        arriving(zero, out, grid, c, 2),
        arriving(zero, out, grid, c, 3),
    )
}

/// One step of the simulation.
pub open spec fn stepped<V>(m: WaterMath<V>, bed: Seq<V>, grid: Grid, s: Water<V>) -> Water<V> {
    let wet = rained(m, s.depth);
    let out = Seq::new(grid.cells(), |c: int| outflow(m, bed, wet, s.flux, grid, c));
    let depth = Seq::new(
        grid.cells(),
        |c: int| (m.settle)(wet[c], inflow(m.zero, out, grid, c), out[c]),
    );
    Water {
        depth,
        flux: out,
        tally: Seq::new(grid.cells(), |c: int| (m.tally)(s.tally[c], depth[c])),
    }
}

/// The state after `n` steps from dry.
pub open spec fn simulated<V>(m: WaterMath<V>, bed: Seq<V>, grid: Grid, n: nat) -> Water<V>
    decreases n,
{
    if n == 0 {
        dry(grid.cells(), m.zero)
    } else {
        stepped(m, bed, grid, simulated(m, bed, grid, (n - 1) as nat))
    }
}

/// A running simulation over a fixed bed.
#[derive(Debug)]
pub struct Sim<V> {
    pub depth: Vec<V>,
    pub flux: Vec<Sided<V>>,
    pub tally: Vec<V>,
}

impl<V> View for Sim<V> {
    type V = Water<V>;

    open spec fn view(&self) -> Water<V> {
        Water { depth: self.depth@, flux: self.flux@, tally: self.tally@ }
    }
}

impl<V> Sim<V> {
    /// Every cell has its depth, outflows and tally.
    pub open spec fn wf(self, grid: Grid) -> bool {
        &&& self.depth@.len() == grid.cells()
        &&& self.flux@.len() == grid.cells()
        &&& self.tally@.len() == grid.cells()
    }
}

impl<V: Copy> Sim<V> {
    /// A dry simulation.
    pub fn new(grid: &Grid, zero: V) -> (r: Self)
        requires
            grid.wf(),
        ensures
            r.wf(*grid),
            r@ == dry(grid.cells(), zero),
    {
        let n: usize = grid.len();
        let mut depth: Vec<V> = Vec::with_capacity(n);
        let mut flux: Vec<Sided<V>> = Vec::with_capacity(n);
        let mut tally: Vec<V> = Vec::with_capacity(n);
        let mut c: usize = 0;
        while c < n
            invariant
                c <= n,
                depth@ == Seq::new(c as nat, |b: int| zero),
                flux@ == Seq::new(c as nat, |b: int| (zero, zero, zero, zero)),
                tally@ == Seq::new(c as nat, |b: int| zero),
            decreases n - c,
        {
            depth.push(zero);
            flux.push((zero, zero, zero, zero));
            tally.push(zero);
            c += 1;
        }
        Sim { depth, flux, tally }
    }

    /// Advances the simulation one step.
    pub fn step<
        N: Fn(V) -> V,
        L: Fn(V, V) -> V,
        I: Fn(V, V) -> V,
        P: Fn(V, V, V) -> V,
        C: Fn(Sided<V>, V) -> Sided<V>,
        D: Fn(V, Sided<V>, Sided<V>) -> V,
        T: Fn(V, V) -> V,
    >(&mut self, bed: &Vec<V>, grid: &Grid, f: &WaterFns<V, N, L, I, P, C, D, T>)
        requires
            grid.wf(),
            bed@.len() == grid.cells(),
            old(self).wf(*grid),
            water_total(*f),
        ensures
            final(self).wf(*grid),
            forall|m: WaterMath<V>| #[trigger]
                water_math(m, *f) ==> final(self)@ == stepped(m, bed@, *grid, old(self)@),
    {
        let n: usize = grid.len();
        let wet: Vec<V> = rain_all(&self.depth, f);
        let out: Vec<Sided<V>> = drain_all(bed, &wet, &self.flux, grid, f);
        let mut depth: Vec<V> = Vec::with_capacity(n);
        let mut tally: Vec<V> = Vec::with_capacity(n);
        let mut c: usize = 0;
        while c < n
            invariant
                grid.wf(),
                n == grid.cells(),
                wet@.len() == n,
                out@.len() == n,
                self.wf(*grid),
                water_total(*f),
                c <= n,
                depth@.len() == c,
                tally@.len() == c,
                forall|m: WaterMath<V>| #[trigger]
                    water_math(m, *f) ==> forall|b: int|
                        0 <= b < c ==> #[trigger] depth@[b] == (m.settle)(
                            wet@[b],
                            inflow(m.zero, out@, *grid, b),
                            out@[b],
                        ) && tally@[b] == (m.tally)(self.tally@[b], depth@[b]),
            decreases n - c,
        {
            let arrived: Sided<V> = (
                arrive(f.zero, &out, grid, c, 0),
                arrive(f.zero, &out, grid, c, 1),
                arrive(f.zero, &out, grid, c, 2),
                arrive(f.zero, &out, grid, c, 3),
            );
            let d: V = (f.settle)(wet[c], arrived, out[c]);
            let t: V = (f.tally)(self.tally[c], d);
            proof {
                assert(arrived == inflow(f.zero, out@, *grid, c as int));
                assert forall|m: WaterMath<V>| #[trigger] water_math(m, *f) implies d
                    == (m.settle)(
                    wet@[c as int],
                    inflow(m.zero, out@, *grid, c as int),
                    out@[c as int],
                ) && t == (m.tally)(self.tally@[c as int], d) by {
                    assert(call_ensures(f.settle, (wet@[c as int], arrived, out@[c as int]), d));
                    assert(call_ensures(f.tally, (self.tally@[c as int], d), t));
                }
            }
            depth.push(d);
            tally.push(t);
            c += 1;
        }
        proof {
            assert forall|m: WaterMath<V>| #[trigger] water_math(m, *f) implies (Water {
                depth: depth@,
                flux: out@,
                tally: tally@,
            }) == stepped(m, bed@, *grid, old(self)@) by {
                let next = stepped(m, bed@, *grid, old(self)@);
                assert(wet@ =~= rained(m, old(self)@.depth));
                assert(out@ =~= next.flux);
                assert forall|b: int| 0 <= b < n implies #[trigger] depth@[b] == next.depth[b]
                    && tally@[b] == next.tally[b] by {}
                assert(depth@ =~= next.depth);
                assert(tally@ =~= next.tally);
            }
        }
        self.depth = depth;
        self.flux = out;
        self.tally = tally;
    }
}

/// Every depth with one step's rain.
fn rain_all<
    V: Copy,
    N: Fn(V) -> V,
    L: Fn(V, V) -> V,
    I: Fn(V, V) -> V,
    P: Fn(V, V, V) -> V,
    C: Fn(Sided<V>, V) -> Sided<V>,
    D: Fn(V, Sided<V>, Sided<V>) -> V,
    T: Fn(V, V) -> V,
>(depth: &Vec<V>, f: &WaterFns<V, N, L, I, P, C, D, T>) -> (r: Vec<V>)
    requires
        water_total(*f),
    ensures
        r@.len() == depth@.len(),
        forall|m: WaterMath<V>| #[trigger] water_math(m, *f) ==> r@ == rained(m, depth@),
{
    let mut wet: Vec<V> = Vec::with_capacity(depth.len());
    let mut c: usize = 0;
    while c < depth.len()
        invariant
            water_total(*f),
            c <= depth@.len(),
            wet@.len() == c,
            forall|m: WaterMath<V>| #[trigger]
                water_math(m, *f) ==> forall|b: int|
                    0 <= b < c ==> #[trigger] wet@[b] == (m.rain)(depth@[b]),
        decreases depth.len() - c,
    {
        let v: V = (f.rain)(depth[c]);
        proof {
            assert forall|m: WaterMath<V>| #[trigger] water_math(m, *f) implies v == (m.rain)(
                depth@[c as int],
            ) by {
                assert(call_ensures(f.rain, (depth@[c as int],), v));
            }
        }
        wet.push(v);
        c += 1;
    }
    proof {
        assert forall|m: WaterMath<V>| #[trigger] water_math(m, *f) implies wet@ == rained(
            m,
            depth@,
        ) by {
            assert(wet@ =~= rained(m, depth@));
        }
    }
    wet
}

/// The outflow of one pipe, before it is scaled.
fn drain<
    V: Copy,
    N: Fn(V) -> V,
    L: Fn(V, V) -> V,
    I: Fn(V, V) -> V,
    P: Fn(V, V, V) -> V,
    C: Fn(Sided<V>, V) -> Sided<V>,
    D: Fn(V, Sided<V>, Sided<V>) -> V,
    T: Fn(V, V) -> V,
>(
    bed: &Vec<V>,
    wet: &Vec<V>,
    flux: &Vec<Sided<V>>,
    grid: &Grid,
    f: &WaterFns<V, N, L, I, P, C, D, T>,
    c: usize,
    k: usize,
) -> (r: V)
    requires
        grid.wf(),
        bed@.len() == grid.cells(),
        wet@.len() == grid.cells(),
        flux@.len() == grid.cells(),
        water_total(*f),
        c < grid.cells(),
        k < SIDES,
    ensures
        forall|m: WaterMath<V>| #[trigger]
            water_math(m, *f) ==> r == piped(m, bed@, wet@, flux@, *grid, c as int, k as int),
{
    let last: V = match k {
        0 => flux[c].0,
        1 => flux[c].1,
        2 => flux[c].2,
        _ => flux[c].3,
    };
    let back: usize = match k {
        0 => 1,
        1 => 0,
        2 => 3,
        _ => 2,
    };
    let here: V = (f.level)(bed[c], wet[c]);
    let there: V = match grid.neighbour(c, k) {
        Some(n) => {
            let v: V = (f.level)(bed[n], wet[n]);
            proof {
                assert forall|m: WaterMath<V>| #[trigger] water_math(m, *f) implies v == facing(
                    m,
                    bed@,
                    wet@,
                    *grid,
                    c as int,
                    k as int,
                ) by {
                    assert(call_ensures(f.level, (bed@[n as int], wet@[n as int]), v));
                }
            }
            v
        },
        None => {
            let beyond: V = match grid.neighbour(c, back) {
                Some(b) => {
                    let v: V = (f.mirror)(bed[c], bed[b]);
                    proof {
                        assert forall|m: WaterMath<V>| #[trigger] water_math(m, *f) implies v
                            == (m.mirror)(bed@[c as int], bed@[b as int]) by {
                            assert(call_ensures(f.mirror, (bed@[c as int], bed@[b as int]), v));
                        }
                    }
                    v
                },
                None => bed[c],
            };
            let v: V = (f.level)(beyond, wet[c]);
            proof {
                assert forall|m: WaterMath<V>| #[trigger] water_math(m, *f) implies v == facing(
                    m,
                    bed@,
                    wet@,
                    *grid,
                    c as int,
                    k as int,
                ) by {
                    assert(call_ensures(f.level, (beyond, wet@[c as int]), v));
                }
            }
            v
        },
    };
    let r: V = (f.pipe)(last, here, there);
    proof {
        assert forall|m: WaterMath<V>| #[trigger] water_math(m, *f) implies r == piped(
            m,
            bed@,
            wet@,
            flux@,
            *grid,
            c as int,
            k as int,
        ) by {
            assert(call_ensures(f.level, (bed@[c as int], wet@[c as int]), here));
            assert(call_ensures(f.pipe, (last, here, there), r));
        }
    }
    r
}

/// The outflows of every cell.
fn drain_all<
    V: Copy,
    N: Fn(V) -> V,
    L: Fn(V, V) -> V,
    I: Fn(V, V) -> V,
    P: Fn(V, V, V) -> V,
    C: Fn(Sided<V>, V) -> Sided<V>,
    D: Fn(V, Sided<V>, Sided<V>) -> V,
    T: Fn(V, V) -> V,
>(
    bed: &Vec<V>,
    wet: &Vec<V>,
    flux: &Vec<Sided<V>>,
    grid: &Grid,
    f: &WaterFns<V, N, L, I, P, C, D, T>,
) -> (r: Vec<Sided<V>>)
    requires
        grid.wf(),
        bed@.len() == grid.cells(),
        wet@.len() == grid.cells(),
        flux@.len() == grid.cells(),
        water_total(*f),
    ensures
        r@.len() == grid.cells(),
        forall|m: WaterMath<V>| #[trigger]
            water_math(m, *f) ==> r@ == Seq::new(
                grid.cells(),
                |c: int| outflow(m, bed@, wet@, flux@, *grid, c),
            ),
{
    let n: usize = grid.len();
    let mut out: Vec<Sided<V>> = Vec::with_capacity(n);
    let mut c: usize = 0;
    while c < n
        invariant
            grid.wf(),
            n == grid.cells(),
            bed@.len() == n,
            wet@.len() == n,
            flux@.len() == n,
            water_total(*f),
            c <= n,
            out@.len() == c,
            forall|m: WaterMath<V>| #[trigger]
                water_math(m, *f) ==> forall|b: int|
                    0 <= b < c ==> #[trigger] out@[b] == outflow(m, bed@, wet@, flux@, *grid, b),
        decreases n - c,
    {
        let raw: Sided<V> = (
            drain(bed, wet, flux, grid, f, c, 0),
            drain(bed, wet, flux, grid, f, c, 1),
            drain(bed, wet, flux, grid, f, c, 2),
            drain(bed, wet, flux, grid, f, c, 3),
        );
        let v: Sided<V> = (f.limit)(raw, wet[c]);
        proof {
            assert forall|m: WaterMath<V>| #[trigger] water_math(m, *f) implies v == outflow(
                m,
                bed@,
                wet@,
                flux@,
                *grid,
                c as int,
            ) by {
                assert(call_ensures(f.limit, (raw, wet@[c as int]), v));
            }
        }
        out.push(v);
        c += 1;
    }
    proof {
        assert forall|m: WaterMath<V>| #[trigger] water_math(m, *f) implies out@ == Seq::new(
            grid.cells(),
            |c: int| outflow(m, bed@, wet@, flux@, *grid, c),
        ) by {
            assert(out@ =~= Seq::new(
                grid.cells(),
                |c: int| outflow(m, bed@, wet@, flux@, *grid, c),
            ));
        }
    }
    out
}

/// What arrives at a cell over one side.
fn arrive<V: Copy>(zero: V, out: &Vec<Sided<V>>, grid: &Grid, c: usize, k: usize) -> (r: V)
    requires
        grid.wf(),
        out@.len() == grid.cells(),
        c < grid.cells(),
        k < SIDES,
    ensures
        r == arriving(zero, out@, *grid, c as int, k as int),
{
    match grid.neighbour(c, k) {
        Some(n) => match k {
            0 => out[n].1,
            1 => out[n].0,
            2 => out[n].3,
            _ => out[n].2,
        },
        None => zero,
    }
}

/// Runs a dry simulation for `iterations` steps and gives its tally, the flow map. Polls
/// `cancelled` before each step, and stops without a result when it says so.
pub fn simulate_flow<
    V: Copy,
    N: Fn(V) -> V,
    L: Fn(V, V) -> V,
    I: Fn(V, V) -> V,
    P: Fn(V, V, V) -> V,
    C: Fn(Sided<V>, V) -> Sided<V>,
    D: Fn(V, Sided<V>, Sided<V>) -> V,
    T: Fn(V, V) -> V,
    X: Fn() -> bool,
>(
    bed: &Vec<V>,
    grid: &Grid,
    iterations: usize,
    f: &WaterFns<V, N, L, I, P, C, D, T>,
    cancelled: &X,
) -> (r: Option<Vec<V>>)
    requires
        grid.wf(),
        bed@.len() == grid.cells(),
        water_total(*f),
        call_requires(*cancelled, ()),
    ensures
        match r {
            Some(t) => {
                &&& t@.len() == grid.cells()
                &&& forall|m: WaterMath<V>| #[trigger]
                    water_math(m, *f) ==> t@ == simulated(
                        m,
                        bed@,
                        *grid,
                        iterations as nat,
                    ).tally
            },
            None => iterations > 0 && call_ensures(*cancelled, (), true),
        },
        r is Some ==> iterations == 0 || call_ensures(*cancelled, (), false),
{
    let mut sim: Sim<V> = Sim::new(grid, f.zero);
    let mut i: usize = 0;
    while i < iterations
        invariant
            grid.wf(),
            bed@.len() == grid.cells(),
            water_total(*f),
            call_requires(*cancelled, ()),
            i <= iterations,
            i > 0 ==> call_ensures(*cancelled, (), false),
            sim.wf(*grid),
            forall|m: WaterMath<V>| #[trigger]
                water_math(m, *f) ==> sim@ == simulated(m, bed@, *grid, i as nat),
        decreases iterations - i,
    {
        if cancelled() {
            return None;
        }
        sim.step(bed, grid, f);
        i += 1;
    }
    proof {
        assert forall|m: WaterMath<V>| #[trigger] water_math(m, *f) implies sim.tally@
            == simulated(m, bed@, *grid, iterations as nat).tally by {
            assert(sim@.tally == sim.tally@);
        }
    }
    Some(sim.tally)
}

/// Water is moved, not made: what a cell sends to a neighbour is what arrives there from that side.
pub proof fn law_outflow_arrives<V>(zero: V, out: Seq<Sided<V>>, grid: Grid, c: int, k: int)
    requires
        0 <= c < grid.cells(),
        0 <= k < SIDES,
        grid.neighbor(c, k) is Some,
    ensures
        grid.neighbor(grid.neighbor(c, k)->0, opposite(k)) == Some(c),
        arriving(zero, out, grid, grid.neighbor(c, k)->0, opposite(k)) == side(out[c], k),
{
    law_neighbors_are_mutual(grid, c, k);
}

/// Nothing arrives over the edge.
pub proof fn law_nothing_arrives_over_the_edge<V>(
    zero: V,
    out: Seq<Sided<V>>,
    grid: Grid,
    c: int,
    k: int,
)
    requires
        grid.neighbor(c, k) is None,
    ensures
        arriving(zero, out, grid, c, k) == zero,
{
}

/// A flat edge drains nothing: where the bed does not fall toward the edge, the pipe over the edge
/// faces the cell's own surface.
pub proof fn law_flat_edge_faces_itself<V>(
    m: WaterMath<V>,
    bed: Seq<V>,
    wet: Seq<V>,
    grid: Grid,
    c: int,
    k: int,
)
    requires
        grid.neighbor(c, k) is None,
        grid.neighbor(c, opposite(k)) matches Some(b) ==> bed[b] == bed[c],
        (m.mirror)(bed[c], bed[c]) == bed[c],
    ensures
        facing(m, bed, wet, grid, c, k) == (m.level)(bed[c], wet[c]),
{
}

} // verus!
