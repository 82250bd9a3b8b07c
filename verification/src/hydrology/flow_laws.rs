//! How water chooses its way and shares itself out.
use crate::grid::{is_diagonal, law_neighbors_are_mutual, lemma_neighbor_in_range, Grid, DIRECTIONS};
use crate::grid_laws::{law_directions_lead_one_cell_on, law_neighbors_are_the_cells_around};
use crate::hydrology::area::{
    accumulated, descends, passed_down, poured, sorted_range, total_of, weight_of, AreaMath,
};
use crate::hydrology::fill::flooded;
use crate::hydrology::fill_laws::law_fill_raises_to_a_neighbor;
use crate::hydrology::routing::{pit, routed, slope_to, steepest};
use crate::totals::total;
use vstd::prelude::*;

verus! {

/// The receiver of a cell is where it descends most steeply: no neighbour of the cell is reached by
/// a steeper slope than its receiver, which is a neighbour and lies strictly down; and a cell of
/// the boundary, or one that descends nowhere, is its own receiver.
pub proof fn law_receiver_is_the_steepest_neighbor(
    filled: Seq<i32>,
    grid: Grid,
    slope: spec_fn(i32, i32, bool) -> i32,
    c: int,
    to: usize,
    diagonal: bool,
    k: int,
)
    requires
        routed(filled, grid, slope, c, to, diagonal),
        0 <= c < grid.cells(),
        0 <= k < DIRECTIONS,
    ensures
        grid.on_boundary(c) ==> to == c,
        to == c || grid.adjacent(c, to as int),
        to == c ==> !diagonal,
        to != c ==> slope(filled[c], filled[to as int], diagonal) > 0,
        !grid.on_boundary(c) && grid.neighbor(c, k) is Some && slope(
            filled[c],
            filled[grid.neighbor(c, k)->0],
            is_diagonal(k),
        ) > 0 ==> to != c && slope(filled[c], filled[to as int], diagonal) >= slope(
            filled[c],
            filled[grid.neighbor(c, k)->0],
            is_diagonal(k),
        ),
        to != c ==> (diagonal <==> to as int % (grid.width as int) != c % (grid.width as int)
            && to as int / (grid.width as int) != c / (grid.width as int)),
{
    if !(grid.on_boundary(c) || pit(filled, grid, slope, c)) {
        let j = choose|j: int| #[trigger]
            steepest(filled, grid, slope, c, j) && grid.neighbor(c, j) == Some(to as int)
                && diagonal == is_diagonal(j);
        law_neighbors_are_mutual(grid, c, j);
        law_directions_lead_one_cell_on(grid, c, j);
        crate::grid::lemma_cell(grid, c);
        crate::grid::lemma_index(
            grid,
            grid.col(c) + crate::grid::step_x(j),
            grid.row(c) + crate::grid::step_y(j),
        );
        assert(slope_to(filled, grid, slope, c, j) == slope(
            filled[c],
            filled[to as int],
            diagonal,
        ));
        if k != j {
            assert(slope_to(filled, grid, slope, c, k) <= slope_to(filled, grid, slope, c, j));
        }
    } else if !grid.on_boundary(c) {
        assert(slope_to(filled, grid, slope, c, k) <= 0);
    }
}

/// What the first `k` directions leave at a neighbour.
proof fn lemma_poured_at(
    filled: Seq<i32>,
    grid: Grid,
    m: AreaMath,
    areas: Seq<u32>,
    c: int,
    j: int,
    k: int,
)
    requires
        areas.len() == grid.cells(),
        0 <= c < grid.cells(),
        0 <= j < DIRECTIONS,
        0 <= k <= DIRECTIONS,
        grid.neighbor(c, j) is Some,
    ensures
        poured(filled, grid, m, areas, c, k).len() == grid.cells(),
        ({
            let n = grid.neighbor(c, j)->0;
            poured(filled, grid, m, areas, c, k)[n] == if j < k && weight_of(
                filled,
                grid,
                m,
                c,
                j,
            ) > 0 {
                (m.plus)(
                    areas[n],
                    (m.part)(
                        areas[c],
                        total_of(filled, grid, m, c, DIRECTIONS as int),
                        weight_of(filled, grid, m, c, j),
                    ),
                )
            } else {
                areas[n]
            }
        }),
    decreases k,
{
    lemma_neighbor_in_range(grid, c, j);
    if k > 0 {
        lemma_poured_at(filled, grid, m, areas, c, j, k - 1);
        let w = weight_of(filled, grid, m, c, k - 1);
        if w > 0 {
            lemma_neighbor_in_range(grid, c, k - 1);
            let (n, b) = (grid.neighbor(c, j)->0, grid.neighbor(c, k - 1)->0);
            if n == b && k - 1 != j {
                law_directions_lead_one_cell_on(grid, c, j);
                crate::grid::lemma_cell(grid, n);
                law_neighbors_are_the_cells_around(
                    grid,
                    c,
                    n % (grid.width as int),
                    n / (grid.width as int),
                );
                assert(grid.neighbor(c, j) == grid.neighbor(c, k - 1));
            }
        }
    }
}

/// A cell hands its area to every lower neighbour, in proportion to the weight of the descent: a
/// strictly lower neighbour whose descent weighs something gains the part of the cell's area that
/// this weight draws out of all the weights; any other neighbour gains nothing.
pub proof fn law_area_is_shared_by_weight(
    filled: Seq<i32>,
    grid: Grid,
    m: AreaMath,
    areas: Seq<u32>,
    c: int,
    k: int,
)
    requires
        areas.len() == grid.cells(),
        0 <= c < grid.cells(),
        0 <= k < DIRECTIONS,
        grid.neighbor(c, k) is Some,
        total_of(filled, grid, m, c, DIRECTIONS as int) > 0,
    ensures
        ({
            let n = grid.neighbor(c, k)->0;
            let w = (m.weight)(filled[c], filled[n], is_diagonal(k));
            let after = passed_down(filled, grid, m, areas, c);
            &&& after.len() == grid.cells()
            &&& after[n] == if filled[n] < filled[c] && w > 0 {
                (m.plus)(
                    areas[n],
                    (m.part)(areas[c], total_of(filled, grid, m, c, DIRECTIONS as int), w),
                )
            } else {
                areas[n]
            }
        }),
{
    lemma_poured_at(filled, grid, m, areas, c, k, DIRECTIONS as int);
}

/// The weights of the descents come to the sum of the weights toward all lower neighbours, where
/// sums are exact.
pub proof fn law_weights_are_those_of_the_descents(
    filled: Seq<i32>,
    grid: Grid,
    m: AreaMath,
    v: spec_fn(u32) -> real,
    c: int,
    k: int,
)
    requires
        v(0) == 0 as real,
        forall|a: u32, b: u32| v(#[trigger] (m.plus)(a, b)) == v(a) + v(b),
        0 <= k,
    ensures
        v(total_of(filled, grid, m, c, k)) == total(
            |j: int|
                match grid.neighbor(c, j) {
                    Some(n) => if filled[n] < filled[c] {
                        v((m.weight)(filled[c], filled[n], is_diagonal(j)))
                    } else {
                        0 as real
                    },
                    None => 0 as real,
                },
            0,
            k,
        ),
    decreases k,
{
    if k > 0 {
        law_weights_are_those_of_the_descents(filled, grid, m, v, c, k - 1);
        assert(descends(filled, grid, c, k - 1) || !descends(filled, grid, c, k - 1));
    }
}

/// Areas are handed on from the highest cell down, each cell once: along any list of areas, from
/// each cell's own, in which each is the one before after the next cell of the order has handed its
/// area on, the accumulated areas are the last.
pub proof fn law_area_goes_down_the_order(
    filled: Seq<i32>,
    grid: Grid,
    m: AreaMath,
    cell: u32,
    order: Seq<usize>,
    stages: Seq<Seq<u32>>,
)
    requires
        stages.len() == grid.cells() + 1,
        sorted_range(filled, 0, grid.cells() as int, order),
        stages[0] == Seq::new(grid.cells(), |c: int| cell),
        forall|i: int|
            0 <= i < grid.cells() ==> #[trigger] stages[i + 1] == passed_down(
                filled,
                grid,
                m,
                stages[i],
                order[i] as int,
            ),
    ensures
        accumulated(filled, grid, m, cell, order, grid.cells() as int) == stages.last(),
        forall|i: int, j: int|
            0 <= i < j < grid.cells() ==> filled[#[trigger] order[i] as int]
                >= filled[#[trigger] order[j] as int],
{
    lemma_stages(filled, grid, m, cell, order, stages, grid.cells() as int);
    assert forall|i: int, j: int| 0 <= i < j < grid.cells() implies filled[#[trigger] order[i] as int]
        >= filled[#[trigger] order[j] as int] by {
        assert(crate::hydrology::area::ahead(filled, order[i], order[j]));
    }
}

proof fn lemma_stages(
    filled: Seq<i32>,
    grid: Grid,
    m: AreaMath,
    cell: u32,
    order: Seq<usize>,
    stages: Seq<Seq<u32>>,
    i: int,
)
    requires
        stages.len() == grid.cells() + 1,
        stages[0] == Seq::new(grid.cells(), |c: int| cell),
        forall|i: int|
            0 <= i < grid.cells() ==> #[trigger] stages[i + 1] == passed_down(
                filled,
                grid,
                m,
                stages[i],
                order[i] as int,
            ),
        0 <= i <= grid.cells(),
    ensures
        accumulated(filled, grid, m, cell, order, i) == stages[i],
    decreases i,
{
    if i > 0 {
        lemma_stages(filled, grid, m, cell, order, stages, i - 1);
        assert(stages[(i - 1) + 1] == stages[i]);
    }
}

/// A filled cell that is not on the boundary stands at the level of some neighbour, but no higher
/// than its cap allows and no lower than its bed.
pub proof fn law_filled_cell_stands_at_a_neighbor(
    bed: Seq<i32>,
    cap: Seq<i32>,
    grid: Grid,
    c: int,
)
    requires
        grid.wf(),
        bed.len() == grid.cells(),
        cap.len() == grid.cells(),
        0 <= c < grid.cells(),
        !grid.on_boundary(c),
    ensures
        exists|p: int|
            {
                let level = flooded(bed, cap, grid);
                &&& 0 <= p < grid.cells()
                &&& #[trigger] grid.adjacent(p, c)
                &&& level[c] == bed[c] && (bed[c] >= level[p] || bed[c] >= cap[c]) || level[c]
                    == cap[c] && cap[c] > bed[c] && cap[c] <= level[p] || level[c] == level[p]
                    && level[p] > bed[c] && level[p] <= cap[c]
            },
{
    law_fill_raises_to_a_neighbor(bed, cap, grid, c);
    let level = flooded(bed, cap, grid);
    let p = choose|p: int|
        0 <= p < grid.cells() && #[trigger] grid.adjacent(p, c) && level[c]
            == crate::hydrology::fill::spill(bed[c], cap[c], level[p]);
    assert(grid.adjacent(p, c));
}

} // verus!
