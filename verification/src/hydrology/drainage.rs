//! The drainage solve: condition a terrain for routing, route it, and accumulate its catchments.
use crate::functions::{computes1, computes3, total1, total2, total3};
use crate::grid::Grid;
use crate::hydrology::area::{accumulated, area_math, drainage_area_mfd, sorted_range, AreaMath};
use crate::hydrology::fill::{fill_depressions, flooded};
use crate::hydrology::flats::labelling;
use crate::hydrology::resolve::{relief_math, resolve_flats, resolved, ReliefMath};
use crate::hydrology::routing::{
    downhill, drains_off, drains_out, law_routing_reaches_a_sink, receivers, routed, Receivers,
};
use crate::hydrology::stack::{
    build_stack, drainage_order, flow_graph, law_stack_visits_every_cell_once, reaches_sink,
    topological,
};
use vstd::prelude::*;

verus! {

/// The arithmetic of a drainage solve, as executable functions.
pub struct DrainageFns<C, U, B, R, S, W, P, Q> {
    /// The highest level a bed may be filled to.
    pub cap: C,
    /// The upwind distance update.
    pub upwind: U,
    /// The distance across a diagonal.
    pub bridge: B,
    /// The elevation of a flat cell with its relief.
    pub relief: R,
    /// The slope of a descent.
    pub slope: S,
    /// The weight of a descent.
    pub weight: W,
    /// The sum of two non-negative values.
    pub plus: P,
    /// The part of an area that a weight draws out of a total.
    pub part: Q,
}

/// The arithmetic of a drainage solve.
pub ghost struct DrainageMath {
    pub cap: spec_fn(i32) -> i32,
    pub relief: ReliefMath,
    pub slope: spec_fn(i32, i32, bool) -> i32,
    pub area: AreaMath,
}

/// The executable functions accept every argument.
pub open spec fn drainage_total<
    C: Fn(i32) -> i32,
    U: Fn(u32, u32) -> u32,
    B: Fn(u32) -> u32,
    R: Fn(i32, Option<(u32, u32)>, u32) -> i32,
    S: Fn(i32, i32, bool) -> i32,
    W: Fn(i32, i32, bool) -> u32,
    P: Fn(u32, u32) -> u32,
    Q: Fn(u32, u32, u32) -> u32,
>(f: DrainageFns<C, U, B, R, S, W, P, Q>) -> bool {
    &&& total1(f.cap)
    &&& total2(f.upwind)
    &&& total1(f.bridge)
    &&& total3(f.relief)
    &&& total3(f.slope)
    &&& total3(f.weight)
    &&& total2(f.plus)
    &&& total3(f.part)
}

/// The executable functions compute the arithmetic `m`.
pub open spec fn drainage_math<
    C: Fn(i32) -> i32,
    U: Fn(u32, u32) -> u32,
    B: Fn(u32) -> u32,
    R: Fn(i32, Option<(u32, u32)>, u32) -> i32,
    S: Fn(i32, i32, bool) -> i32,
    W: Fn(i32, i32, bool) -> u32,
    P: Fn(u32, u32) -> u32,
    Q: Fn(u32, u32, u32) -> u32,
>(m: DrainageMath, f: DrainageFns<C, U, B, R, S, W, P, Q>) -> bool {
    &&& computes1(f.cap, m.cap)
    &&& relief_math(m.relief, f.upwind, f.bridge, f.relief)
    &&& computes3(f.slope, m.slope)
    &&& area_math(m.area, f.weight, f.plus, f.part)
}

/// The caps of a bed.
pub open spec fn caps(bed: Seq<i32>, cap: spec_fn(i32) -> i32) -> Seq<i32> {
    bed.map_values(cap)
}

/// A solved drainage.
pub struct Drainage {
    /// The terrain that was routed: filled, with its flats resolved.
    pub filled: Vec<i32>,
    /// Where each cell drains.
    pub receivers: Receivers,
    /// The drainage stack.
    pub stack: Vec<usize>,
    /// Which cells drain off the grid.
    pub drains: Vec<bool>,
    /// The catchment of each cell.
    pub area: Vec<u32>,
}

impl Drainage {
    /// The parts have the size of the grid and fit together.
    pub open spec fn wf(self, grid: Grid) -> bool {
        let to = self.receivers.to@;
        &&& self.filled@.len() == grid.cells()
        &&& to.len() == grid.cells()
        &&& self.receivers.diagonal@.len() == grid.cells()
        &&& flow_graph(to)
        &&& self.stack@ == drainage_order(to, to.len() as int)
        &&& topological(to, self.stack@)
        &&& forall|c: usize| #[trigger]
            self.stack@.contains(c) <==> c < to.len() && reaches_sink(to, c as int)
        &&& self.drains@.len() == grid.cells()
        &&& forall|c: int|
            0 <= c < grid.cells() ==> #[trigger] self.drains@[c] == drains_off(to, grid, c)
        &&& self.area@.len() == grid.cells()
    }

    /// The drainage is that of the terrain, under the arithmetic `m`.
    pub open spec fn solves(self, bed: Seq<i32>, grid: Grid, cell: u32, m: DrainageMath) -> bool {
        let level = flooded(bed, caps(bed, m.cap), grid);
        &&& exists|label: Seq<usize>, count: usize| #[trigger]
            labelling(level, grid, label, count) && self.filled@ == resolved(
                level,
                grid,
                label,
                m.relief,
            )
        &&& forall|c: int|
            0 <= c < grid.cells() ==> routed(
                self.filled@,
                grid,
                m.slope,
                c,
                #[trigger] self.receivers.to@[c],
                self.receivers.diagonal@[c],
            )
        &&& forall|order: Seq<usize>| #[trigger]
            sorted_range(self.filled@, 0, grid.cells() as int, order) ==> self.area@
                == accumulated(
                self.filled@,
                grid,
                m.area,
                cell,
                order,
                grid.cells() as int,
            )
    }
}

/// Fills the bed's shallow pits, resolves the flats that leaves, routes every cell, and accumulates
/// catchment area from `cell` per cell.
pub fn solve_drainage<
    C: Fn(i32) -> i32,
    U: Fn(u32, u32) -> u32,
    B: Fn(u32) -> u32,
    R: Fn(i32, Option<(u32, u32)>, u32) -> i32,
    S: Fn(i32, i32, bool) -> i32,
    W: Fn(i32, i32, bool) -> u32,
    P: Fn(u32, u32) -> u32,
    Q: Fn(u32, u32, u32) -> u32,
>(bed: &[i32], grid: &Grid, cell: u32, f: &DrainageFns<C, U, B, R, S, W, P, Q>) -> (r: Drainage)
    requires
        grid.wf(),
        bed@.len() == grid.cells(),
        drainage_total(*f),
    ensures
        r.wf(*grid),
        forall|m: DrainageMath| #[trigger]
            drainage_math(m, *f) ==> r.solves(bed@, *grid, cell, m),
{
    let n: usize = bed.len();
    let mut cap: Vec<i32> = Vec::with_capacity(n);
    let mut c: usize = 0;
    while c < n
        invariant
            n == bed@.len(),
            total1(f.cap),
            c <= n,
            cap@.len() == c,
            forall|m: DrainageMath| #[trigger]
                drainage_math(m, *f) ==> forall|b: int|
                    0 <= b < c ==> #[trigger] cap@[b] == (m.cap)(bed@[b]),
        decreases n - c,
    {
        let v: i32 = (f.cap)(bed[c]);
        proof {
            assert forall|m: DrainageMath| #[trigger] drainage_math(m, *f) implies v == (m.cap)(
                bed@[c as int],
            ) by {
                assert(call_ensures(f.cap, (bed@[c as int],), v));
            }
        }
        cap.push(v);
        c += 1;
    }
    proof {
        assert forall|m: DrainageMath| #[trigger] drainage_math(m, *f) implies cap@ == caps(
            bed@,
            m.cap,
        ) by {
            assert(cap@ =~= caps(bed@, m.cap));
        }
    }
    let level: Vec<i32> = fill_depressions(bed, cap.as_slice(), grid);
    let filled: Vec<i32> = resolve_flats(
        level.as_slice(),
        grid,
        &f.upwind,
        &f.bridge,
        &f.relief,
    );
    let recv: Receivers = receivers(filled.as_slice(), grid, &f.slope);
    let stack: Vec<usize> = build_stack(recv.to.as_slice());
    let drains: Vec<bool> = drains_out(stack.as_slice(), recv.to.as_slice(), grid);
    let area: Vec<u32> = drainage_area_mfd(
        filled.as_slice(),
        grid,
        cell,
        &f.weight,
        &f.plus,
        &f.part,
    );
    let r: Drainage = Drainage { filled, receivers: recv, stack, drains, area };
    proof {
        let (label, count): (Seq<usize>, usize) = choose|label: Seq<usize>, count: usize| #[trigger]
            labelling(level@, *grid, label, count) && forall|m: ReliefMath| #[trigger]
                relief_math(m, f.upwind, f.bridge, f.relief) ==> filled@ == resolved(
                    level@,
                    *grid,
                    label,
                    m,
                );
        assert forall|m: DrainageMath| #[trigger] drainage_math(m, *f) implies r.solves(
            bed@,
            *grid,
            cell,
            m,
        ) by {
            assert(level@ == flooded(bed@, caps(bed@, m.cap), *grid));
            assert(relief_math(m.relief, f.upwind, f.bridge, f.relief));
            assert(labelling(level@, *grid, label, count));
            assert(computes3(&f.slope, m.slope));
            assert(area_math(m.area, f.weight, f.plus, f.part));
        }
    }
    r
}

/// Where slopes are positive only downhill, the drainage stack of a solved drainage visits every
/// cell exactly once.
pub proof fn law_solved_stack_visits_every_cell(
    d: Drainage,
    bed: Seq<i32>,
    grid: Grid,
    cell: u32,
    m: DrainageMath,
)
    requires
        grid.wf(),
        d.wf(grid),
        d.solves(bed, grid, cell, m),
        downhill(m.slope),
    ensures
        d.stack@.len() == grid.cells(),
        forall|c: usize| c < grid.cells() ==> #[trigger] d.stack@.contains(c),
{
    let to = d.receivers.to@;
    assert forall|c: int| 0 <= c < to.len() implies #[trigger] reaches_sink(to, c) by {
        law_routing_reaches_a_sink(d.filled@, grid, m.slope, to, d.receivers.diagonal@, c);
    }
    law_stack_visits_every_cell_once(to, d.stack@);
}

} // verus!
