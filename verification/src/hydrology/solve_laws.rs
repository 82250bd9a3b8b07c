//! What a solved drainage says of its terrain.
use crate::grid::{is_diagonal, Grid, DIRECTIONS};
use crate::hydrology::area::sorted_range;
use crate::hydrology::area_laws::{accumulates_exactly, bottom_sum, law_bottoms_hold_all_area};
use crate::hydrology::drainage::{caps, Drainage, DrainageMath};
use crate::hydrology::fill_laws::law_fill_raises_to_a_neighbor;
use crate::hydrology::flats::labelling;
use crate::hydrology::flow_laws::law_receiver_is_the_steepest_neighbor;
use crate::hydrology::relief_laws::has_equal;
use crate::hydrology::resolve::{law_sloping_ground_is_untouched, resolved};
use crate::hydrology::routing::drains_off;
use crate::hydrology::stack::downstream;
use vstd::prelude::*;

verus! {

/// A solved drainage runs over its own filled terrain: every cell drains to the neighbour that the
/// steepest slope of the filled terrain leads to, no matter how the bed lies; cells of the boundary
/// drain nowhere else.
pub proof fn law_drainage_runs_over_the_filled_terrain(
    d: Drainage,
    bed: Seq<i32>,
    grid: Grid,
    cell: u32,
    m: DrainageMath,
    c: int,
    k: int,
)
    requires
        d.wf(grid),
        d.solves(bed, grid, cell, m),
        0 <= c < grid.cells(),
        0 <= k < DIRECTIONS,
    ensures
        ({
            let (to, z) = (d.receivers.to@[c] as int, d.filled@);
            let diagonal = d.receivers.diagonal@[c];
            &&& grid.on_boundary(c) ==> to == c
            &&& to == c || grid.adjacent(c, to) && (m.slope)(z[c], z[to], diagonal) > 0
            &&& !grid.on_boundary(c) && grid.neighbor(c, k) is Some && (m.slope)(
                z[c],
                z[grid.neighbor(c, k)->0],
                is_diagonal(k),
            ) > 0 ==> to != c && (m.slope)(z[c], z[to], diagonal) >= (m.slope)(
                z[c],
                z[grid.neighbor(c, k)->0],
                is_diagonal(k),
            )
        }),
{
    law_receiver_is_the_steepest_neighbor(
        d.filled@,
        grid,
        m.slope,
        c,
        d.receivers.to@[c],
        d.receivers.diagonal@[c],
        k,
    );
}

/// The filled terrain of a drainage stands where the bed is filled to: on the boundary, away from
/// flats, at the bed; everywhere away from flats no lower than the bed, and no higher than it or its
/// cap.
pub proof fn law_filled_terrain_stands_between_bed_and_cap(
    d: Drainage,
    bed: Seq<i32>,
    grid: Grid,
    cell: u32,
    m: DrainageMath,
    level: Seq<i32>,
    c: int,
)
    requires
        grid.wf(),
        d.solves(bed, grid, cell, m),
        bed.len() == grid.cells(),
        level == crate::hydrology::fill::flooded(bed, bed.map_values(m.cap), grid),
        0 <= c < grid.cells(),
        !has_equal(level, grid, c),
    ensures
        d.filled@[c] >= bed[c],
        d.filled@[c] == bed[c] || d.filled@[c] <= (m.cap)(bed[c]),
        grid.on_boundary(c) ==> d.filled@[c] == bed[c],
{
    assert(caps(bed, m.cap) =~= bed.map_values(m.cap));
    law_fill_raises_to_a_neighbor(bed, caps(bed, m.cap), grid, c);
    let (label, count) = choose|label: Seq<usize>, count: usize| #[trigger]
        labelling(level, grid, label, count) && d.filled@ == resolved(level, grid, label, m.relief);
    crate::hydrology::relief_laws::lemma_classes(level, grid, c);
    law_sloping_ground_is_untouched(level, grid, label, count, m.relief, c);
}

/// The catchments of a solved drainage are of its filled terrain, and none is lost: where the steps
/// are exact, those of the cells that no neighbour on the filled terrain lies below come to the
/// areas of all cells.
pub proof fn law_catchments_are_of_the_filled_terrain(
    d: Drainage,
    bed: Seq<i32>,
    grid: Grid,
    cell: u32,
    m: DrainageMath,
    v: spec_fn(u32) -> real,
    order: Seq<usize>,
)
    requires
        grid.wf(),
        d.solves(bed, grid, cell, m),
        sorted_range(d.filled@, 0, grid.cells() as int, order),
        accumulates_exactly(d.filled@, grid, m.area, v, cell, order),
    ensures
        bottom_sum(d.filled@, grid, v, d.area@) == v(cell) * (grid.cells() as real),
{
    law_bottoms_hold_all_area(d.filled@, grid, m.area, v, cell, order);
}

/// A cell drains off the grid exactly where following the receivers from it comes to a cell of the
/// boundary that drains nowhere else.
pub proof fn law_drains_are_followed_to_the_boundary(d: Drainage, grid: Grid, c: int)
    requires
        d.wf(grid),
        0 <= c < grid.cells(),
    ensures
        d.drains@[c] <==> exists|steps: nat|
            {
                let s = #[trigger] downstream(d.receivers.to@, c, steps);
                let (x, y) = (s % (grid.width as int), s / (grid.width as int));
                &&& d.receivers.to@[s] == s
                &&& x == 0 || y == 0 || x == grid.width - 1 || y == grid.height - 1
            },
{
    let to = d.receivers.to@;
    if drains_off(to, grid, c) {
        let steps = choose|steps: nat|
            {
                let s = #[trigger] downstream(to, c, steps);
                to[s] == s && grid.on_boundary(s)
            };
        let s = downstream(to, c, steps);
        assert(to[s] == s && grid.on_boundary(s));
    }
    if exists|steps: nat|
        {
            let s = #[trigger] downstream(to, c, steps);
            let (x, y) = (s % (grid.width as int), s / (grid.width as int));
            &&& to[s] == s
            &&& x == 0 || y == 0 || x == grid.width - 1 || y == grid.height - 1
        } {
        let steps = choose|steps: nat|
            {
                let s = #[trigger] downstream(to, c, steps);
                let (x, y) = (s % (grid.width as int), s / (grid.width as int));
                &&& to[s] == s
                &&& x == 0 || y == 0 || x == grid.width - 1 || y == grid.height - 1
            };
        let s = downstream(to, c, steps);
        assert(to[s] == s && grid.on_boundary(s));
    }
}

} // verus!
