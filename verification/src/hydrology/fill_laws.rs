//! What depression filling does to a terrain.
use crate::grid::{
    law_neighbors_are_mutual, lemma_cell, lemma_index, lemma_neighbor_in_range, step_x, step_y,
    Grid, DIRECTIONS,
};
use crate::hydrology::fill::{
    accounted, flood, flood_start, flood_step, flooded, flooding, lemma_flood,
    lemma_flood_start, lemma_flood_step, lemma_lowest_exists, lemma_pass, lemma_pass_all,
    lemma_taken, leveled, lowest, pass_all, raised, raised_from, spill, taken, Flood,
};
use vstd::prelude::*;

verus! {

/// A finished flood has reached every cell.
proof fn lemma_all_reached(f: Flood, bed: Seq<i32>, cap: Seq<i32>, grid: Grid, c: int)
    requires
        grid.wf(),
        flooding(f, bed, cap, grid),
        f.waiting.len() == 0,
        0 <= c < grid.cells(),
    ensures
        f.reached[c],
        f.drained.contains(c as usize),
    decreases grid.col(c),
{
    lemma_cell(grid, c);
    if grid.col(c) == 0 {
        assert(grid.on_boundary(c));
        assert(f.filled[c] == bed[c] && f.reached[c]);
    } else {
        let x = grid.col(c) - 1;
        let y = grid.row(c);
        let left = grid.index(x, y);
        lemma_index(grid, x, y);
        lemma_all_reached(f, bed, cap, grid, left);
        assert(step_x(1) == 1 && step_y(1) == 0);
        assert(grid.neighbor(left, 1) == Some(c));
        assert(f.reached[grid.neighbor(left, 1)->0]);
    }
    let seen = f.drained + f.waiting;
    assert(seen =~= f.drained);
    assert(f.reached[c] == seen.contains(c as usize));
}

/// Filling never lowers a cell and never raises it above its cap; it leaves the boundary as it is;
/// and it raises every other cell to the level of some neighbour, as far as its cap allows.
pub proof fn law_fill_raises_to_a_neighbor(bed: Seq<i32>, cap: Seq<i32>, grid: Grid, c: int)
    requires
        grid.wf(),
        bed.len() == grid.cells(),
        cap.len() == grid.cells(),
        0 <= c < grid.cells(),
    ensures
        flooded(bed, cap, grid).len() == grid.cells(),
        bed[c] <= flooded(bed, cap, grid)[c],
        flooded(bed, cap, grid)[c] <= bed[c] || flooded(bed, cap, grid)[c] <= cap[c],
        grid.on_boundary(c) ==> flooded(bed, cap, grid)[c] == bed[c],
        !grid.on_boundary(c) ==> exists|p: int|
            0 <= p < grid.cells() && #[trigger] grid.adjacent(p, c) && flooded(bed, cap, grid)[c]
                == spill(bed[c], cap[c], flooded(bed, cap, grid)[p]),
{
    lemma_flood_start(bed, cap, grid);
    let f = flood(flood_start(bed, grid), bed, cap, grid);
    lemma_flood(flood_start(bed, grid), bed, cap, grid);
    lemma_all_reached(f, bed, cap, grid, c);
    if grid.on_boundary(c) {
        assert(f.filled[c] == bed[c]);
    } else {
        assert(raised(f, bed, cap, grid, c));
        let p = choose|p: int|
            0 <= p < grid.cells() && grid.adjacent(p, c) && #[trigger] raised_from(
                f,
                bed,
                cap,
                c,
                p,
            );
        assert(grid.adjacent(p, c));
    }
}

/// A way out: neighbouring cells from `c` to the boundary.
pub open spec fn escape(grid: Grid, path: Seq<int>, c: int) -> bool {
    &&& path.len() > 0
    &&& path[0] == c
    &&& grid.on_boundary(path.last())
    &&& forall|i: int| 0 <= i < path.len() ==> 0 <= #[trigger] path[i] < grid.cells()
    &&& forall|i: int|
        0 <= i < path.len() - 1 ==> grid.adjacent(path[i], #[trigger] path[i + 1])
}

/// The highest bed along a way.
pub open spec fn peak(bed: Seq<i32>, path: Seq<int>) -> int
    decreases path.len(),
{
    if path.len() == 0 {
        i32::MIN as int
    } else {
        let rest = peak(bed, path.drop_first());
        if bed[path[0]] >= rest {
            bed[path[0]] as int
        } else {
            rest
        }
    }
}

/// The larger of two heights.
pub open spec fn upper(a: i32, b: i32) -> i32 {
    if a >= b {
        a
    } else {
        b
    }
}

/// Some way out of `c` goes exactly as high as `level`.
pub open spec fn way_out(bed: Seq<i32>, grid: Grid, c: int, level: i32) -> bool {
    exists|path: Seq<int>| #[trigger] escape(grid, path, c) && peak(bed, path) == level
}

/// A way out of a neighbour, from `c`, goes as high as it and the bed ask.
proof fn lemma_way_from_neighbor(bed: Seq<i32>, grid: Grid, p: int, level: i32, k: int)
    requires
        bed.len() == grid.cells(),
        0 <= p < grid.cells(),
        0 <= k < DIRECTIONS,
        grid.neighbor(p, k) is Some,
        way_out(bed, grid, p, level),
    ensures
        way_out(bed, grid, grid.neighbor(p, k)->0, upper(bed[grid.neighbor(p, k)->0], level)),
{
    let c = grid.neighbor(p, k)->0;
    lemma_neighbor_in_range(grid, p, k);
    law_neighbors_are_mutual(grid, p, k);
    let rest = choose|path: Seq<int>| #[trigger]
        escape(grid, path, p) && peak(bed, path) == level;
    let path = seq![c] + rest;
    assert(path.drop_first() =~= rest);
    assert(path.last() == rest.last());
    assert forall|i: int| 0 <= i < path.len() - 1 implies grid.adjacent(
        path[i],
        #[trigger] path[i + 1],
    ) by {
        if i > 0 {
            assert(path[i] == rest[i - 1]);
            assert(path[i + 1] == rest[i - 1 + 1]);
        }
    }
    assert forall|i: int| 0 <= i < path.len() implies 0 <= #[trigger] path[i] < grid.cells() by {
        if i > 0 {
            assert(path[i] == rest[i - 1]);
        }
    }
    assert(escape(grid, path, c));
    assert(peak(bed, path) == upper(bed[c], level));
}

/// No cap binds.
pub open spec fn uncapped(bed: Seq<i32>, cap: Seq<i32>) -> bool {
    forall|c: int, d: int|
        0 <= c < bed.len() && 0 <= d < bed.len() ==> #[trigger] bed[d] <= #[trigger] cap[c]
}

/// Some bed is as high as `level`.
spec fn topped(bed: Seq<i32>, level: i32) -> bool {
    exists|d: int| 0 <= d < bed.len() && level <= #[trigger] bed[d]
}

/// An uncapped flood that has come up to `level`: the cells that have passed it on are no higher,
/// those that wait are no lower, no reached cell is higher than its bed and the level ask, and
/// none is higher than its bed and a neighbour that has passed the flood on ask.
spec fn rising(f: Flood, bed: Seq<i32>, grid: Grid, level: i32) -> bool {
    &&& forall|i: int| 0 <= i < f.drained.len() ==> f.filled[#[trigger] f.drained[i] as int] <= level
    &&& forall|i: int| 0 <= i < f.waiting.len() ==> f.filled[#[trigger] f.waiting[i] as int] >= level
    &&& forall|c: int|
        0 <= c < grid.cells() && f.reached[c] ==> #[trigger] f.filled[c] <= upper(bed[c], level)
    &&& forall|d: int, k: int|
        0 <= d < grid.cells() && f.drained.contains(d as usize) && 0 <= k < DIRECTIONS && (
        #[trigger] grid.neighbor(d, k)) is Some ==> f.filled[grid.neighbor(d, k)->0] <= upper(
            bed[grid.neighbor(d, k)->0],
            f.filled[d],
        )
    &&& forall|c: int|
        0 <= c < grid.cells() ==> #[trigger] topped(bed, f.filled[c])
    &&& forall|c: int|
        0 <= c < grid.cells() && f.reached[c] ==> #[trigger] way_out(bed, grid, c, f.filled[c])
}

/// Passing an uncapped flood on at its level keeps what is known of the levels.
proof fn lemma_pass_levels(
    f: Flood,
    bed: Seq<i32>,
    cap: Seq<i32>,
    grid: Grid,
    c: int,
    k: int,
    level: i32,
)
    requires
        grid.wf(),
        bed.len() == grid.cells(),
        cap.len() == grid.cells(),
        uncapped(bed, cap),
        accounted(f, grid),
        leveled(f, bed, cap, grid),
        0 <= c < grid.cells(),
        0 <= k <= DIRECTIONS,
        f.drained.contains(c as usize),
        f.filled[c] == level,
        forall|i: int| 0 <= i < f.waiting.len() ==> f.filled[#[trigger] f.waiting[i] as int] >= level,
        forall|b: int|
            0 <= b < grid.cells() && f.reached[b] ==> #[trigger] f.filled[b] <= upper(
                bed[b],
                level,
            ),
        forall|b: int|
            0 <= b < grid.cells() ==> #[trigger] topped(bed, f.filled[b]),
        forall|b: int|
            0 <= b < grid.cells() && f.reached[b] ==> #[trigger] way_out(
                bed,
                grid,
                b,
                f.filled[b],
            ),
    ensures
        ({
            let g = pass_all(f, bed, cap, grid, c, k);
            &&& forall|i: int|
                0 <= i < g.waiting.len() ==> g.filled[#[trigger] g.waiting[i] as int] >= level
            &&& forall|b: int|
                0 <= b < grid.cells() && g.reached[b] ==> #[trigger] g.filled[b] <= upper(
                    bed[b],
                    level,
                )
            &&& forall|b: int|
                0 <= b < grid.cells() ==> #[trigger] topped(bed, g.filled[b])
            &&& forall|b: int|
                0 <= b < grid.cells() && g.reached[b] ==> #[trigger] way_out(
                    bed,
                    grid,
                    b,
                    g.filled[b],
                )
        }),
    decreases k,
{
    if k > 0 {
        lemma_pass_levels(f, bed, cap, grid, c, k - 1, level);
        lemma_pass_all(f, bed, cap, grid, c, k - 1);
        lemma_pass_all(f, bed, cap, grid, c, k);
        let g = pass_all(f, bed, cap, grid, c, k - 1);
        lemma_pass(g, bed, cap, grid, c, k - 1);
        let h = pass_all(f, bed, cap, grid, c, k);
        let j = choose|j: int| 0 <= j < f.drained.len() && f.drained[j] == c as usize;
        assert((f.drained + f.waiting)[j] == c as usize);
        assert(f.reached[c] && g.filled[c] == level);
        if grid.neighbor(c, k - 1) is Some && !g.reached[grid.neighbor(c, k - 1)->0] {
            let n = grid.neighbor(c, k - 1)->0;
            lemma_neighbor_in_range(grid, c, k - 1);
            assert(topped(bed, g.filled[c]));
            let d = choose|d: int| 0 <= d < bed.len() && g.filled[c] <= #[trigger] bed[d];
            assert(bed[d] <= cap[n]);
            assert(h.filled[n] == upper(bed[n], level));
            assert forall|i: int| 0 <= i < h.waiting.len() implies h.filled[#[trigger] h.waiting[i] as int]
                >= level by {
                if i < g.waiting.len() {
                    let w = g.waiting[i];
                    assert((g.drained + g.waiting)[g.drained.len() + i] == w);
                    assert(g.reached[w as int]);
                    assert(h.filled[w as int] == g.filled[w as int]);
                }
            }
            assert(way_out(bed, grid, c, g.filled[c]));
            lemma_way_from_neighbor(bed, grid, c, level, k - 1);
            assert forall|b: int| 0 <= b < grid.cells() && h.reached[b] implies #[trigger] way_out(
                bed,
                grid,
                b,
                h.filled[b],
            ) by {
                if b != n {
                    assert(way_out(bed, grid, b, g.filled[b]));
                }
            }
            assert forall|b: int| 0 <= b < grid.cells() implies #[trigger] topped(
                bed,
                h.filled[b],
            ) by {
                if b == n {
                    if bed[n] >= level {
                        assert(h.filled[n] <= bed[n]);
                    } else {
                        assert(h.filled[n] <= bed[d]);
                    }
                } else {
                    assert(topped(bed, g.filled[b]));
                }
            }
        }
    }
}

/// Each step takes an uncapped flood to a level that is no lower.
proof fn lemma_step_rises(
    f: Flood,
    bed: Seq<i32>,
    cap: Seq<i32>,
    grid: Grid,
    i: int,
    level: i32,
)
    requires
        grid.wf(),
        flooding(f, bed, cap, grid),
        uncapped(bed, cap),
        rising(f, bed, grid, level),
        lowest(f.filled, f.waiting, i),
    ensures
        rising(flood_step(f, bed, cap, grid), bed, grid, f.filled[f.waiting[i] as int]),
{
    let c = f.waiting[i] as int;
    let next = f.filled[c];
    let t = taken(f, i);
    let g = flood_step(f, bed, cap, grid);
    assert(next >= level);
    lemma_taken(f, bed, cap, grid, i);
    lemma_flood_step(f, bed, cap, grid, i);
    lemma_pass_all(t, bed, cap, grid, c, DIRECTIONS as int);
    assert forall|j: int| 0 <= j < t.waiting.len() implies t.filled[#[trigger] t.waiting[j] as int]
        >= next by {
        let k = if j < i {
            j
        } else {
            j + 1
        };
        assert(t.waiting[j] == f.waiting[k]);
    }
    lemma_pass_levels(t, bed, cap, grid, c, DIRECTIONS as int, next);
    assert forall|j: int| 0 <= j < g.drained.len() implies g.filled[#[trigger] g.drained[j] as int]
        <= next by {
        let d = g.drained[j];
        if j < f.drained.len() {
            assert(f.drained[j] == d);
            assert((f.drained + f.waiting)[j] == d);
            assert(f.reached[d as int]);
        }
        assert(g.filled[d as int] == f.filled[d as int]);
    }
    assert forall|d: int, k: int|
        0 <= d < grid.cells() && g.drained.contains(d as usize) && 0 <= k < DIRECTIONS && (
        #[trigger] grid.neighbor(d, k)) is Some implies g.filled[grid.neighbor(d, k)->0] <= upper(
        bed[grid.neighbor(d, k)->0],
        g.filled[d],
    ) by {
        let n = grid.neighbor(d, k)->0;
        lemma_neighbor_in_range(grid, d, k);
        assert(g.reached[n]);
        if d == c {
            assert(g.filled[n] <= upper(bed[n], next));
            assert(g.filled[c] == next);
        } else {
            let p = choose|p: int| 0 <= p < g.drained.len() && g.drained[p] == d as usize;
            assert(p < f.drained.len());
            assert(f.drained[p] == d as usize);
            assert((f.drained + f.waiting)[p] == d as usize);
            assert(f.reached[d]);
            assert(f.reached[n]);
            assert(f.filled[n] <= upper(bed[n], f.filled[d]));
        }
    }
}

/// An uncapped flood ends with no cell above what its bed and its neighbours ask.
proof fn lemma_flood_rises(f: Flood, bed: Seq<i32>, cap: Seq<i32>, grid: Grid, level: i32) -> (last:
    i32)
    requires
        grid.wf(),
        flooding(f, bed, cap, grid),
        uncapped(bed, cap),
        rising(f, bed, grid, level),
    ensures
        rising(flood(f, bed, cap, grid), bed, grid, last),
    decreases grid.cells() - f.drained.len(),
{
    if f.waiting.len() > 0 {
        lemma_lowest_exists(f.filled, f.waiting);
        let i = choose|i: int| lowest(f.filled, f.waiting, i);
        lemma_flood_step(f, bed, cap, grid, i);
        lemma_step_rises(f, bed, cap, grid, i, level);
        lemma_flood_rises(
            flood_step(f, bed, cap, grid),
            bed,
            cap,
            grid,
            f.filled[f.waiting[i] as int],
        )
    } else {
        level
    }
}

/// Along every way out some bed is at least as high as the filled level.
proof fn lemma_fill_below_peak(
    f: Flood,
    bed: Seq<i32>,
    cap: Seq<i32>,
    grid: Grid,
    level: i32,
    path: Seq<int>,
    c: int,
)
    requires
        grid.wf(),
        flooding(f, bed, cap, grid),
        f.waiting.len() == 0,
        rising(f, bed, grid, level),
        0 <= c < grid.cells(),
        escape(grid, path, c),
    ensures
        f.filled[c] <= peak(bed, path),
    decreases path.len(),
{
    if path.len() == 1 {
        assert(path.last() == c);
        assert(f.filled[c] == bed[c]);
    } else {
        let rest = path.drop_first();
        let n = path[1];
        assert(rest[0] == n);
        assert(rest.last() == path.last());
        assert forall|i: int| 0 <= i < rest.len() - 1 implies grid.adjacent(
            rest[i],
            #[trigger] rest[i + 1],
        ) by {
            assert(grid.adjacent(path[i + 1], path[i + 1 + 1]));
        }
        assert forall|i: int| 0 <= i < rest.len() implies 0 <= #[trigger] rest[i] < grid.cells() by {
            assert(rest[i] == path[i + 1]);
        }
        lemma_fill_below_peak(f, bed, cap, grid, level, rest, n);
        assert(grid.adjacent(path[0], path[0int + 1]));
        let k = choose|k: int| 0 <= k < DIRECTIONS && #[trigger] grid.neighbor(c, k) == Some(n);
        law_neighbors_are_mutual(grid, c, k);
        assert(grid.adjacent(n, c));
        let j = choose|j: int| 0 <= j < DIRECTIONS && #[trigger] grid.neighbor(n, j) == Some(c);
        lemma_all_reached(f, bed, cap, grid, n);
        assert(f.filled[grid.neighbor(n, j)->0] <= upper(
            bed[grid.neighbor(n, j)->0],
            f.filled[n],
        ));
    }
}

/// Where no cap binds, filling raises each cell to its spill level exactly: the lowest level from
/// which water can leave the terrain. No way to the boundary stays below it, and one stays within
/// it.
pub proof fn law_uncapped_fill_is_the_spill_level(
    bed: Seq<i32>,
    cap: Seq<i32>,
    grid: Grid,
    c: int,
)
    requires
        grid.wf(),
        bed.len() == grid.cells(),
        cap.len() == grid.cells(),
        uncapped(bed, cap),
        0 <= c < grid.cells(),
    ensures
        forall|path: Seq<int>| #[trigger]
            escape(grid, path, c) ==> flooded(bed, cap, grid)[c] <= peak(bed, path),
        way_out(bed, grid, c, flooded(bed, cap, grid)[c]),
{
    let start = flood_start(bed, grid);
    let f = flood(start, bed, cap, grid);
    lemma_flood_start(bed, cap, grid);
    lemma_flood(start, bed, cap, grid);
    assert(rising(start, bed, grid, i32::MIN)) by {
        assert forall|d: int, k: int|
            0 <= d < grid.cells() && start.drained.contains(d as usize) && 0 <= k < DIRECTIONS && (
            #[trigger] grid.neighbor(d, k)) is Some implies start.filled[grid.neighbor(d, k)->0]
            <= upper(bed[grid.neighbor(d, k)->0], start.filled[d]) by {
            assert(Seq::<usize>::empty().contains(d as usize));
        }
        assert forall|i: int| 0 <= i < start.waiting.len() implies start.filled[#[trigger] start.waiting[i] as int]
            >= i32::MIN by {}
        assert forall|b: int| 0 <= b < grid.cells() && start.reached[b] implies #[trigger] start.filled[b]
            <= upper(bed[b], i32::MIN) by {}
        assert forall|b: int| 0 <= b < grid.cells() implies #[trigger] topped(
            bed,
            start.filled[b],
        ) by {
            assert(start.filled[b] <= bed[b]);
        }
        assert forall|b: int| 0 <= b < grid.cells() && start.reached[b] implies #[trigger] way_out(
            bed,
            grid,
            b,
            start.filled[b],
        ) by {
            let path = seq![b];
            assert(path.drop_first() =~= Seq::empty());
            assert(peak(bed, path.drop_first()) == i32::MIN);
            assert(escape(grid, path, b));
            assert(peak(bed, path) == bed[b]);
        }
    }
    let last = lemma_flood_rises(start, bed, cap, grid, i32::MIN);
    lemma_all_reached(f, bed, cap, grid, c);
    assert forall|path: Seq<int>| #[trigger] escape(grid, path, c) implies f.filled[c] <= peak(
        bed,
        path,
    ) by {
        lemma_fill_below_peak(f, bed, cap, grid, last, path, c);
    }
    assert(way_out(bed, grid, c, f.filled[c]));
}

} // verus!
