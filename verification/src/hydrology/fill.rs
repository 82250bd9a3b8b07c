//! Depression filling by priority flood.
use crate::grid::{
    law_neighbors_are_mutual, lemma_neighbor_in_range, Grid, DIRECTIONS,
};
use crate::hydrology::queue::{before, FloodNode, FloodQueue};
use crate::hydrology::stack::lemma_distinct_bound;
use vstd::prelude::*;

verus! {

/// A flood in progress: the levels so far, the cells it has reached, those among them that wait to
/// pass it on, in the order in which they were reached, and those that have passed it on.
pub ghost struct Flood {
    pub filled: Seq<i32>,
    pub reached: Seq<bool>,
    pub waiting: Seq<usize>,
    pub drained: Seq<usize>,
}

/// The level of a cell that the flood reaches at `elev`: raised to it, but no higher than the
/// cell's cap, and never below its bed.
pub open spec fn spill(bed: i32, cap: i32, elev: i32) -> i32 {
    let level = if elev <= cap {
        elev
    } else {
        cap
    };
    if bed >= level {
        bed
    } else {
        level
    }
}

/// The boundary cells below `k`, in ascending order.
pub open spec fn boundary_below(grid: Grid, k: int) -> Seq<usize>
    decreases k,
{
    if k <= 0 {
        Seq::empty()
    } else if grid.on_boundary(k - 1) {
        boundary_below(grid, k - 1).push((k - 1) as usize)
    } else {
        boundary_below(grid, k - 1)
    }
}

/// The flood at its start: it has reached the boundary.
pub open spec fn flood_start(bed: Seq<i32>, grid: Grid) -> Flood {
    Flood {
        filled: bed,
        reached: Seq::new(grid.cells(), |c: int| grid.on_boundary(c)),
        waiting: boundary_below(grid, grid.cells() as int),
        drained: Seq::empty(),
    }
}

/// The waiting cell at position `i` is the lowest, and the earliest of equals.
pub open spec fn lowest(filled: Seq<i32>, waiting: Seq<usize>, i: int) -> bool {
    &&& 0 <= i < waiting.len()
    &&& forall|j: int|
        0 <= j < i ==> filled[#[trigger] waiting[j] as int] > filled[waiting[i] as int]
    &&& forall|j: int|
        i < j < waiting.len() ==> filled[#[trigger] waiting[j] as int]
            >= filled[waiting[i] as int]
}

/// The flood passes from `c` to its neighbour in direction `k`, if it has not reached it yet.
pub open spec fn pass(f: Flood, bed: Seq<i32>, cap: Seq<i32>, grid: Grid, c: int, k: int) -> Flood {
    match grid.neighbor(c, k) {
        Some(n) => if f.reached[n] {
            f
        } else {
            Flood {
                filled: f.filled.update(n, spill(bed[n], cap[n], f.filled[c])),
                reached: f.reached.update(n, true),
                waiting: f.waiting.push(n as usize),
                drained: f.drained,
            }
        },
        None => f,
    }
}

/// The flood passes from `c` to its neighbours in the first `k` directions.
pub open spec fn pass_all(
    f: Flood,
    bed: Seq<i32>,
    cap: Seq<i32>,
    grid: Grid,
    c: int,
    k: int,
) -> Flood
    decreases k,
{
    if k <= 0 {
        f
    } else {
        pass(pass_all(f, bed, cap, grid, c, k - 1), bed, cap, grid, c, k - 1)
    }
}

/// The flood when the waiting cell at position `i` has stopped waiting.
pub open spec fn taken(f: Flood, i: int) -> Flood {
    Flood {
        filled: f.filled,
        reached: f.reached,
        waiting: f.waiting.remove(i),
        drained: f.drained.push(f.waiting[i]),
    }
}

/// The flood after its lowest waiting cell has passed it on.
pub open spec fn flood_step(f: Flood, bed: Seq<i32>, cap: Seq<i32>, grid: Grid) -> Flood {
    let i = choose|i: int| lowest(f.filled, f.waiting, i);
    pass_all(taken(f, i), bed, cap, grid, f.waiting[i] as int, DIRECTIONS as int)
}

/// The flood when no cell waits any more.
pub open spec fn flood(f: Flood, bed: Seq<i32>, cap: Seq<i32>, grid: Grid) -> Flood
    decreases grid.cells() - f.drained.len(),
{
    if f.waiting.len() == 0 || f.drained.len() >= grid.cells() {
        f
    } else {
        proof {
            let i = choose|i: int| lowest(f.filled, f.waiting, i);
            lemma_pass_all_drained(
                taken(f, i),
                bed,
                cap,
                grid,
                f.waiting[i] as int,
                DIRECTIONS as int,
            );
        }
        flood(flood_step(f, bed, cap, grid), bed, cap, grid)
    }
}

/// The levels of the flooded bed.
pub open spec fn flooded(bed: Seq<i32>, cap: Seq<i32>, grid: Grid) -> Seq<i32> {
    flood(flood_start(bed, grid), bed, cap, grid).filled
}

/// Passing the flood on drains no cell.
pub proof fn lemma_pass_all_drained(
    f: Flood,
    bed: Seq<i32>,
    cap: Seq<i32>,
    grid: Grid,
    c: int,
    k: int,
)
    ensures
        pass_all(f, bed, cap, grid, c, k).drained == f.drained,
    decreases k,
{
    if k > 0 {
        lemma_pass_all_drained(f, bed, cap, grid, c, k - 1);
    }
}

/// Only one waiting cell is the lowest and earliest.
proof fn lemma_lowest_unique(filled: Seq<i32>, waiting: Seq<usize>, i: int, j: int)
    requires
        lowest(filled, waiting, i),
        lowest(filled, waiting, j),
    ensures
        i == j,
{
    if i < j {
        assert(filled[waiting[i] as int] > filled[waiting[j] as int]);
    } else if j < i {
        assert(filled[waiting[j] as int] > filled[waiting[i] as int]);
    }
}

/// Some waiting cell is the lowest and earliest.
pub proof fn lemma_lowest_exists(filled: Seq<i32>, waiting: Seq<usize>)
    requires
        waiting.len() > 0,
    ensures
        exists|i: int| lowest(filled, waiting, i),
    decreases waiting.len(),
{
    let n = waiting.len() as int;
    if n == 1 {
        assert(lowest(filled, waiting, 0));
    } else {
        let front = waiting.drop_last();
        lemma_lowest_exists(filled, front);
        let i = choose|i: int| lowest(filled, front, i);
        assert(forall|j: int| 0 <= j < n - 1 ==> front[j] == waiting[j]);
        if filled[waiting[n - 1] as int] < filled[waiting[i] as int] {
            assert(lowest(filled, waiting, n - 1)) by {
                assert forall|j: int| 0 <= j < n - 1 implies filled[#[trigger] waiting[j] as int]
                    > filled[waiting[n - 1] as int] by {
                    assert(front[j] == waiting[j]);
                }
            }
        } else {
            assert(lowest(filled, waiting, i)) by {
                assert forall|j: int| 0 <= j < i implies filled[#[trigger] waiting[j] as int]
                    > filled[waiting[i] as int] by {
                    assert(front[j] == waiting[j]);
                }
                assert forall|j: int| i < j < n implies filled[#[trigger] waiting[j] as int]
                    >= filled[waiting[i] as int] by {
                    if j < n - 1 {
                        assert(front[j] == waiting[j]);
                    }
                }
            }
        }
    }
}

/// The cells that wait or have passed the flood on are exactly those it has reached, each once.
pub open spec fn accounted(f: Flood, grid: Grid) -> bool {
    let seen = f.drained + f.waiting;
    &&& f.filled.len() == grid.cells()
    &&& f.reached.len() == grid.cells()
    &&& seen.no_duplicates()
    &&& forall|i: int| 0 <= i < seen.len() ==> #[trigger] seen[i] < grid.cells()
    &&& forall|c: int|
        0 <= c < grid.cells() ==> #[trigger] f.reached[c] == seen.contains(c as usize)
}

/// Cell `c`, reached from `p`, has the level the flood has there.
pub open spec fn raised_from(f: Flood, bed: Seq<i32>, cap: Seq<i32>, c: int, p: int) -> bool {
    f.drained.contains(p as usize) && f.filled[c] == spill(bed[c], cap[c], f.filled[p])
}

/// Cell `c` was raised from some neighbour.
pub open spec fn raised(f: Flood, bed: Seq<i32>, cap: Seq<i32>, grid: Grid, c: int) -> bool {
    exists|p: int|
        0 <= p < grid.cells() && grid.adjacent(p, c) && #[trigger] raised_from(f, bed, cap, c, p)
}

/// Cells not reached keep their bed, and so does the boundary; any other cell was raised from a
/// neighbour.
pub open spec fn leveled(f: Flood, bed: Seq<i32>, cap: Seq<i32>, grid: Grid) -> bool {
    &&& forall|c: int| 0 <= c < grid.cells() && !f.reached[c] ==> #[trigger] f.filled[c] == bed[c]
    &&& forall|c: int|
        0 <= c < grid.cells() && grid.on_boundary(c) ==> #[trigger] f.filled[c] == bed[c]
            && f.reached[c]
    &&& forall|c: int|
        0 <= c < grid.cells() && f.reached[c] && !grid.on_boundary(c) ==> #[trigger] raised(
            f,
            bed,
            cap,
            grid,
            c,
        )
}

/// The flood has reached the neighbours of every cell that has passed it on.
pub open spec fn passed_on(f: Flood, grid: Grid) -> bool {
    forall|d: int, k: int|
        0 <= d < grid.cells() && f.drained.contains(d as usize) && 0 <= k < DIRECTIONS && (
        #[trigger] grid.neighbor(d, k)) is Some ==> f.reached[grid.neighbor(d, k)->0]
}

/// What holds of a flood at every step.
pub open spec fn flooding(f: Flood, bed: Seq<i32>, cap: Seq<i32>, grid: Grid) -> bool {
    &&& bed.len() == grid.cells()
    &&& cap.len() == grid.cells()
    &&& accounted(f, grid)
    &&& leveled(f, bed, cap, grid)
    &&& passed_on(f, grid)
}

/// The later flood has reached and drained what the earlier one had, at the same levels.
pub open spec fn continues(f: Flood, g: Flood, grid: Grid) -> bool {
    &&& forall|c: int|
        0 <= c < grid.cells() && #[trigger] f.reached[c] ==> g.reached[c] && g.filled[c]
            == f.filled[c]
    &&& forall|c: usize| f.drained.contains(c) ==> #[trigger] g.drained.contains(c)
}

/// A cell raised in a flood stays raised.
proof fn lemma_raised_stays(f: Flood, g: Flood, bed: Seq<i32>, cap: Seq<i32>, grid: Grid, c: int)
    requires
        grid.wf(),
        accounted(f, grid),
        continues(f, g, grid),
        0 <= c < grid.cells(),
        f.reached[c],
        raised(f, bed, cap, grid, c),
    ensures
        raised(g, bed, cap, grid, c),
{
    let p = choose|p: int|
        0 <= p < grid.cells() && grid.adjacent(p, c) && #[trigger] raised_from(f, bed, cap, c, p);
    assert(f.reached[p]) by {
        let i = choose|i: int| 0 <= i < f.drained.len() && f.drained[i] == p as usize;
        assert((f.drained + f.waiting)[i] == p as usize);
    }
    assert(raised_from(g, bed, cap, c, p));
}

/// Passing the flood to one neighbour keeps the accounts.
proof fn lemma_pass_accounted(f: Flood, bed: Seq<i32>, cap: Seq<i32>, grid: Grid, c: int, k: int)
    requires
        grid.wf(),
        accounted(f, grid),
        0 <= c < grid.cells(),
        0 <= k < DIRECTIONS,
        f.drained.contains(c as usize),
    ensures
        accounted(pass(f, bed, cap, grid, c, k), grid),
        continues(f, pass(f, bed, cap, grid, c, k), grid),
        f.reached[c],
{
    let g = pass(f, bed, cap, grid, c, k);
    let seen = f.drained + f.waiting;
    let at = choose|i: int| 0 <= i < f.drained.len() && f.drained[i] == c as usize;
    assert(seen[at] == c as usize);
    assert(f.reached[c]);
    if grid.neighbor(c, k) is Some && !f.reached[grid.neighbor(c, k)->0] {
        let n = grid.neighbor(c, k)->0;
        lemma_neighbor_in_range(grid, c, k);
        let seen2 = g.drained + g.waiting;
        assert(seen2 =~= seen.push(n as usize));
        assert(!seen.contains(n as usize));
        assert forall|i: int, j: int| 0 <= i < j < seen2.len() implies #[trigger] seen2[i]
            != #[trigger] seen2[j] by {
            if j == seen.len() {
                assert(seen.contains(seen[i]));
            }
        }
        assert forall|b: int| 0 <= b < grid.cells() implies #[trigger] g.reached[b]
            == seen2.contains(b as usize) by {
            assert(f.reached[b] == seen.contains(b as usize));
            if seen.contains(b as usize) {
                let i = choose|i: int| 0 <= i < seen.len() && seen[i] == b as usize;
                assert(seen2[i] == b as usize);
            }
            if b == n {
                assert(seen2[seen.len() as int] == n as usize);
            } else if seen2.contains(b as usize) {
                let i = choose|i: int| 0 <= i < seen2.len() && seen2[i] == b as usize;
                assert(seen[i] == b as usize);
            }
        }
    }
}

/// Passing the flood to one neighbour keeps the accounts and the levels.
pub proof fn lemma_pass(f: Flood, bed: Seq<i32>, cap: Seq<i32>, grid: Grid, c: int, k: int)
    requires
        grid.wf(),
        bed.len() == grid.cells(),
        cap.len() == grid.cells(),
        accounted(f, grid),
        leveled(f, bed, cap, grid),
        0 <= c < grid.cells(),
        0 <= k < DIRECTIONS,
        f.drained.contains(c as usize),
    ensures
        accounted(pass(f, bed, cap, grid, c, k), grid),
        leveled(pass(f, bed, cap, grid, c, k), bed, cap, grid),
        continues(f, pass(f, bed, cap, grid, c, k), grid),
        grid.neighbor(c, k) is Some ==> pass(f, bed, cap, grid, c, k).reached[grid.neighbor(
            c,
            k,
        )->0],
{
    let g = pass(f, bed, cap, grid, c, k);
    lemma_pass_accounted(f, bed, cap, grid, c, k);
    if grid.neighbor(c, k) is Some && !f.reached[grid.neighbor(c, k)->0] {
        let n = grid.neighbor(c, k)->0;
        lemma_neighbor_in_range(grid, c, k);
        law_neighbors_are_mutual(grid, c, k);
        assert(grid.adjacent(c, n));
        assert forall|b: int| 0 <= b < grid.cells() && grid.on_boundary(b) implies #[trigger] g.filled[b]
            == bed[b] && g.reached[b] by {
            assert(f.filled[b] == bed[b]);
            assert(f.reached[b]);
        }
        assert forall|b: int| 0 <= b < grid.cells() && !g.reached[b] implies #[trigger] g.filled[b]
            == bed[b] by {
            assert(!f.reached[b]);
            assert(f.filled[b] == bed[b]);
        }
        assert forall|b: int|
            0 <= b < grid.cells() && g.reached[b] && !grid.on_boundary(b) implies #[trigger] raised(
            g,
            bed,
            cap,
            grid,
            b,
        ) by {
            if b == n {
                assert(raised_from(g, bed, cap, n, c));
            } else {
                assert(f.reached[b]);
                assert(raised(f, bed, cap, grid, b));
                lemma_raised_stays(f, g, bed, cap, grid, b);
            }
        }
        assert(leveled(g, bed, cap, grid));
    } else {
        assert(g == f);
    }
}

/// Passing the flood to the neighbours keeps the accounts and the levels, and reaches them.
pub proof fn lemma_pass_all(f: Flood, bed: Seq<i32>, cap: Seq<i32>, grid: Grid, c: int, k: int)
    requires
        grid.wf(),
        bed.len() == grid.cells(),
        cap.len() == grid.cells(),
        accounted(f, grid),
        leveled(f, bed, cap, grid),
        0 <= c < grid.cells(),
        0 <= k <= DIRECTIONS,
        f.drained.contains(c as usize),
    ensures
        accounted(pass_all(f, bed, cap, grid, c, k), grid),
        leveled(pass_all(f, bed, cap, grid, c, k), bed, cap, grid),
        continues(f, pass_all(f, bed, cap, grid, c, k), grid),
        pass_all(f, bed, cap, grid, c, k).drained == f.drained,
        forall|j: int|
            0 <= j < k && (#[trigger] grid.neighbor(c, j)) is Some ==> pass_all(
                f,
                bed,
                cap,
                grid,
                c,
                k,
            ).reached[grid.neighbor(c, j)->0],
    decreases k,
{
    if k > 0 {
        lemma_pass_all(f, bed, cap, grid, c, k - 1);
        let g = pass_all(f, bed, cap, grid, c, k - 1);
        lemma_pass(g, bed, cap, grid, c, k - 1);
        let h = pass_all(f, bed, cap, grid, c, k);
        assert forall|j: int| 0 <= j < k && (#[trigger] grid.neighbor(c, j)) is Some implies h.reached[grid.neighbor(
            c,
            j,
        )->0] by {
            lemma_neighbor_in_range(grid, c, j);
        }
    }
}

/// A cell that stops waiting has passed the flood on once its neighbours are reached.
pub proof fn lemma_taken(f: Flood, bed: Seq<i32>, cap: Seq<i32>, grid: Grid, i: int)
    requires
        grid.wf(),
        flooding(f, bed, cap, grid),
        0 <= i < f.waiting.len(),
    ensures
        accounted(taken(f, i), grid),
        leveled(taken(f, i), bed, cap, grid),
        continues(f, taken(f, i), grid),
        taken(f, i).drained.contains(f.waiting[i]),
        f.waiting[i] < grid.cells(),
        f.drained.len() < grid.cells(),
        f.reached[f.waiting[i] as int],
{
    let g = taken(f, i);
    let c = f.waiting[i];
    let a: int = f.drained.len() as int;
    let seen = f.drained + f.waiting;
    let seen2 = g.drained + g.waiting;
    lemma_distinct_bound(seen, grid.cells());
    assert(seen[a + i] == c);
    assert(g.drained[a] == c);
    let at = |p: int|
        if p < a {
            p
        } else if p == a {
            a + i
        } else if p <= a + i {
            p - 1
        } else {
            p
        };
    assert forall|p: int| 0 <= p < seen2.len() implies #[trigger] seen2[p] == seen[at(p)] by {}
    assert(seen2.len() == seen.len());
    let back = |p: int|
        if p < a {
            p
        } else if p == a + i {
            a
        } else if p < a + i {
            p + 1
        } else {
            p
        };
    assert forall|p: int| 0 <= p < seen.len() implies #[trigger] seen[p] == seen2[back(p)] by {}
    assert forall|b: usize| #[trigger] seen2.contains(b) == seen.contains(b) by {
        if seen.contains(b) {
            let p = choose|p: int| 0 <= p < seen.len() && seen[p] == b;
            assert(seen2[back(p)] == b);
        }
        if seen2.contains(b) {
            let p = choose|p: int| 0 <= p < seen2.len() && seen2[p] == b;
            assert(seen[at(p)] == b);
        }
    }
    assert forall|b: usize| f.drained.contains(b) implies #[trigger] g.drained.contains(b) by {
        let p = choose|p: int| 0 <= p < f.drained.len() && f.drained[p] == b;
        assert(g.drained[p] == b);
    }
    assert forall|b: int|
        0 <= b < grid.cells() && g.reached[b] && !grid.on_boundary(b) implies #[trigger] raised(
        g,
        bed,
        cap,
        grid,
        b,
    ) by {
        assert(raised(f, bed, cap, grid, b));
        lemma_raised_stays(f, g, bed, cap, grid, b);
    }
}

/// One step keeps the flood in order.
pub proof fn lemma_flood_step(f: Flood, bed: Seq<i32>, cap: Seq<i32>, grid: Grid, i: int)
    requires
        grid.wf(),
        flooding(f, bed, cap, grid),
        lowest(f.filled, f.waiting, i),
    ensures
        flood_step(f, bed, cap, grid) == pass_all(
            taken(f, i),
            bed,
            cap,
            grid,
            f.waiting[i] as int,
            DIRECTIONS as int,
        ),
        flooding(flood_step(f, bed, cap, grid), bed, cap, grid),
        continues(f, flood_step(f, bed, cap, grid), grid),
        flood_step(f, bed, cap, grid).drained == f.drained.push(f.waiting[i]),
        f.drained.len() < grid.cells(),
{
    let c = f.waiting[i];
    let j = choose|j: int| lowest(f.filled, f.waiting, j);
    lemma_lowest_unique(f.filled, f.waiting, i, j);
    lemma_taken(f, bed, cap, grid, i);
    let t = taken(f, i);
    lemma_pass_all(t, bed, cap, grid, c as int, DIRECTIONS as int);
    let g = flood_step(f, bed, cap, grid);
    assert forall|d: int, k: int|
        0 <= d < grid.cells() && g.drained.contains(d as usize) && 0 <= k < DIRECTIONS && (
        #[trigger] grid.neighbor(d, k)) is Some implies g.reached[grid.neighbor(d, k)->0] by {
        lemma_neighbor_in_range(grid, d, k);
        if d != c {
            let p = choose|p: int| 0 <= p < g.drained.len() && g.drained[p] == d as usize;
            assert(p < f.drained.len());
            assert(f.drained[p] == d as usize);
            assert(f.reached[grid.neighbor(d, k)->0]);
        }
    }
}

/// What the boundary cells are.
proof fn lemma_boundary(grid: Grid, k: int)
    requires
        grid.wf(),
        0 <= k <= grid.cells(),
    ensures
        forall|c: usize| #[trigger]
            boundary_below(grid, k).contains(c) <==> c < k && grid.on_boundary(c as int),
        boundary_below(grid, k).no_duplicates(),
    decreases k,
{
    if k > 0 {
        lemma_boundary(grid, k - 1);
        let front = boundary_below(grid, k - 1);
        if grid.on_boundary(k - 1) {
            let all = front.push((k - 1) as usize);
            assert forall|c: usize| #[trigger] boundary_below(grid, k).contains(c) <==> c < k
                && grid.on_boundary(c as int) by {
                if front.contains(c) {
                    let j = choose|j: int| 0 <= j < front.len() && front[j] == c;
                    assert(all[j] == c);
                }
                if c == k - 1 {
                    assert(all[front.len() as int] == c);
                }
            }
            assert forall|i: int, j: int|
                0 <= i < j < all.len() implies #[trigger] all[i] != #[trigger] all[j] by {
                if j == front.len() {
                    assert(front.contains(front[i]));
                }
            }
        }
    }
}

/// The flood starts in order.
pub proof fn lemma_flood_start(bed: Seq<i32>, cap: Seq<i32>, grid: Grid)
    requires
        grid.wf(),
        bed.len() == grid.cells(),
        cap.len() == grid.cells(),
    ensures
        flooding(flood_start(bed, grid), bed, cap, grid),
{
    let f = flood_start(bed, grid);
    lemma_boundary(grid, grid.cells() as int);
    let seen = f.drained + f.waiting;
    assert(seen =~= f.waiting);
    assert forall|i: int| 0 <= i < seen.len() implies #[trigger] seen[i] < grid.cells() by {
        assert(f.waiting.contains(seen[i]));
    }
}

/// The flood ends in order, with no cell waiting.
pub proof fn lemma_flood(f: Flood, bed: Seq<i32>, cap: Seq<i32>, grid: Grid)
    requires
        grid.wf(),
        flooding(f, bed, cap, grid),
    ensures
        flooding(flood(f, bed, cap, grid), bed, cap, grid),
        flood(f, bed, cap, grid).waiting.len() == 0,
        continues(f, flood(f, bed, cap, grid), grid),
    decreases grid.cells() - f.drained.len(),
{
    if f.waiting.len() > 0 {
        lemma_lowest_exists(f.filled, f.waiting);
        let i = choose|i: int| lowest(f.filled, f.waiting, i);
        lemma_flood_step(f, bed, cap, grid, i);
        lemma_flood(flood_step(f, bed, cap, grid), bed, cap, grid);
    }
}

/// The queue entry of the waiting cell at position `i`.
spec fn entry(filled: Seq<i32>, waiting: Seq<usize>, tags: Seq<u64>, i: int) -> FloodNode {
    FloodNode { elev: filled[waiting[i] as int], seq: tags[i], idx: waiting[i] }
}

/// The queue holds exactly the waiting cells, tagged in the order in which they were reached.
spec fn queued(
    queue: Set<FloodNode>,
    filled: Seq<i32>,
    waiting: Seq<usize>,
    tags: Seq<u64>,
    seq: u64,
) -> bool {
    &&& tags.len() == waiting.len()
    &&& forall|i: int, j: int| 0 <= i < j < tags.len() ==> #[trigger] tags[i] < #[trigger] tags[j]
    &&& forall|i: int| 0 <= i < tags.len() ==> #[trigger] tags[i] < seq
    &&& forall|x: FloodNode| #[trigger]
        queue.contains(x) <==> exists|i: int|
            0 <= i < waiting.len() && x == #[trigger] entry(filled, waiting, tags, i)
}

/// A new cell waits behind the others.
proof fn lemma_queue_push(
    queue: Set<FloodNode>,
    filled: Seq<i32>,
    waiting: Seq<usize>,
    tags: Seq<u64>,
    seq: u64,
    c: usize,
    level: i32,
)
    requires
        queued(queue, filled, waiting, tags, seq),
        seq < u64::MAX,
        c < filled.len(),
        !waiting.contains(c),
        forall|i: int| 0 <= i < waiting.len() ==> #[trigger] waiting[i] < filled.len(),
    ensures
        !queue.contains(FloodNode { elev: level, seq, idx: c }),
        queued(
            queue.insert(FloodNode { elev: level, seq, idx: c }),
            filled.update(c as int, level),
            waiting.push(c),
            tags.push(seq),
            (seq + 1) as u64,
        ),
{
    let node = FloodNode { elev: level, seq, idx: c };
    let filled2 = filled.update(c as int, level);
    let waiting2 = waiting.push(c);
    let tags2 = tags.push(seq);
    let queue2 = queue.insert(node);
    if queue.contains(node) {
        let i = choose|i: int|
            0 <= i < waiting.len() && node == #[trigger] entry(filled, waiting, tags, i);
        assert(waiting[i] == c);
    }
    assert forall|i: int| 0 <= i < waiting.len() implies entry(filled, waiting, tags, i)
        == #[trigger] entry(filled2, waiting2, tags2, i) by {
        assert(waiting[i] != c);
    }
    assert(entry(filled2, waiting2, tags2, waiting.len() as int) == node);
    assert forall|x: FloodNode| #[trigger] queue2.contains(x) <==> exists|i: int|
        0 <= i < waiting2.len() && x == #[trigger] entry(filled2, waiting2, tags2, i) by {
        if queue.contains(x) {
            let i = choose|i: int|
                0 <= i < waiting.len() && x == #[trigger] entry(filled, waiting, tags, i);
            assert(x == entry(filled2, waiting2, tags2, i));
        }
        if exists|i: int|
            0 <= i < waiting2.len() && x == #[trigger] entry(filled2, waiting2, tags2, i) {
            let i = choose|i: int|
                0 <= i < waiting2.len() && x == #[trigger] entry(filled2, waiting2, tags2, i);
            if i < waiting.len() {
                assert(x == entry(filled, waiting, tags, i));
            }
        }
    }
}

/// The queue's first entry is the lowest waiting cell, and the others keep waiting.
proof fn lemma_queue_pop(
    queue: Set<FloodNode>,
    filled: Seq<i32>,
    waiting: Seq<usize>,
    tags: Seq<u64>,
    seq: u64,
    node: FloodNode,
) -> (i: int)
    requires
        queued(queue, filled, waiting, tags, seq),
        queue.contains(node),
        forall|x: FloodNode| #[trigger] queue.contains(x) ==> !before(x, node),
    ensures
        lowest(filled, waiting, i),
        waiting[i] == node.idx,
        filled[waiting[i] as int] == node.elev,
        queued(queue.remove(node), filled, waiting.remove(i), tags.remove(i), seq),
{
    let i = choose|i: int|
        0 <= i < waiting.len() && node == #[trigger] entry(filled, waiting, tags, i);
    assert forall|j: int| 0 <= j < waiting.len() && j != i implies (j < i ==> filled[#[trigger] waiting[j] as int]
        > node.elev) && filled[waiting[j] as int] >= node.elev by {
        let x = entry(filled, waiting, tags, j);
        assert(queue.contains(x));
        if j < i {
            assert(tags[j] < tags[i]);
        }
    }
    let waiting2 = waiting.remove(i);
    let tags2 = tags.remove(i);
    assert forall|j: int| 0 <= j < waiting2.len() implies #[trigger] entry(
        filled,
        waiting2,
        tags2,
        j,
    ) == entry(
        filled,
        waiting,
        tags,
        if j < i {
            j
        } else {
            j + 1
        },
    ) by {}
    assert forall|x: FloodNode| #[trigger] queue.remove(node).contains(x) <==> exists|j: int|
        0 <= j < waiting2.len() && x == #[trigger] entry(filled, waiting2, tags2, j) by {
        if queue.remove(node).contains(x) {
            let j = choose|j: int|
                0 <= j < waiting.len() && x == #[trigger] entry(filled, waiting, tags, j);
            assert(j != i);
            assert(x == entry(
                filled,
                waiting2,
                tags2,
                if j < i {
                    j
                } else {
                    j - 1
                },
            ));
        }
        if exists|j: int|
            0 <= j < waiting2.len() && x == #[trigger] entry(filled, waiting2, tags2, j) {
            let j = choose|j: int|
                0 <= j < waiting2.len() && x == #[trigger] entry(filled, waiting2, tags2, j);
            let k = if j < i {
                j
            } else {
                j + 1
            };
            assert(x == entry(filled, waiting, tags, k));
            assert(tags[k] != tags[i]);
        }
    }
    assert forall|a: int, b: int| 0 <= a < b < tags2.len() implies #[trigger] tags2[a]
        < #[trigger] tags2[b] by {
        let a2 = if a < i {
            a
        } else {
            a + 1
        };
        let b2 = if b < i {
            b
        } else {
            b + 1
        };
        assert(tags2[a] == tags[a2] && tags2[b] == tags[b2]);
    }
    i
}

/// Priority-flood depression filling with a cap on the level of each cell: shallow pits fill
/// completely so flow routes through them, but a pit that would need more than its cap allows
/// keeps its floor below the spill and stays a depression, a lake.
///
/// Filled basins come out exactly flat, with no downhill direction of their own.
pub fn fill_depressions(bed: &[i32], cap: &[i32], grid: &Grid) -> (r: Vec<i32>)
    requires
        grid.wf(),
        bed@.len() == grid.cells(),
        cap@.len() == grid.cells(),
    ensures
        r@ == flooded(bed@, cap@, *grid),
        r@.len() == grid.cells(),
{
    let n: usize = grid.len();
    let mut filled: Vec<i32> = vstd::slice::slice_to_vec(bed);
    let mut visited: Vec<bool> = vec![false; n];
    let mut queue: FloodQueue = FloodQueue::new();
    let mut seq: u64 = 0;
    let ghost mut tags: Seq<u64> = Seq::empty();
    let mut c: usize = 0;
    while c < n
        invariant
            grid.wf(),
            n == grid.cells(),
            bed@.len() == n,
            filled@ == bed@,
            visited@.len() == n,
            c <= n,
            queue.wf(),
            seq <= c,
            forall|b: int|
                0 <= b < n ==> #[trigger] visited@[b] == (b < c && grid.on_boundary(b)),
            queued(
                queue.contents(),
                filled@,
                boundary_below(*grid, c as int),
                tags,
                seq,
            ),
            seq == boundary_below(*grid, c as int).len(),
        decreases n - c,
    {
        if grid.is_boundary(c) {
            let node: FloodNode = FloodNode { elev: filled[c], seq, idx: c };
            proof {
                lemma_boundary(*grid, c as int);
                let ring = boundary_below(*grid, c as int);
                assert(!ring.contains(c));
                assert forall|i: int| 0 <= i < ring.len() implies #[trigger] ring[i] < n by {
                    assert(ring.contains(ring[i]));
                }
                lemma_queue_push(
                    queue.contents(),
                    filled@,
                    boundary_below(*grid, c as int),
                    tags,
                    seq,
                    c,
                    filled@[c as int],
                );
                assert(filled@.update(c as int, filled@[c as int]) =~= filled@);
                tags = tags.push(seq);
            }
            visited.set(c, true);
            queue.push(node);
            seq += 1;
        }
        c += 1;
    }
    let ghost mut f = flood_start(bed@, *grid);
    proof {
        lemma_flood_start(bed@, cap@, *grid);
        assert(visited@ =~= f.reached);
    }
    loop
        invariant_except_break
            grid.wf(),
            n == grid.cells(),
            bed@.len() == n,
            cap@.len() == n,
            filled@ == f.filled,
            visited@ == f.reached,
            flooding(f, bed@, cap@, *grid),
            queue.wf(),
            seq == f.drained.len() + f.waiting.len(),
            queued(queue.contents(), f.filled, f.waiting, tags, seq),
            flood(f, bed@, cap@, *grid) == flood(flood_start(bed@, *grid), bed@, cap@, *grid),
        ensures
            filled@ == flooded(bed@, cap@, *grid),
        decreases n - f.drained.len(),
    {
        let ghost held = queue.contents();
        let node: FloodNode = match queue.pop() {
            Some(node) => node,
            None => {
                proof {
                    if f.waiting.len() > 0 {
                        let x = entry(f.filled, f.waiting, tags, 0);
                        assert(held.contains(x));
                    }
                }
                break;
            },
        };
        let ghost before_pop = f;
        proof {
            let i = lemma_queue_pop(held, f.filled, f.waiting, tags, seq, node);
            lemma_taken(f, bed@, cap@, *grid, i);
            lemma_flood_step(f, bed@, cap@, *grid, i);
            f = taken(f, i);
            tags = tags.remove(i);
        }
        let ghost start = f;
        let mut k: usize = 0;
        while k < DIRECTIONS
            invariant
                grid.wf(),
                n == grid.cells(),
                bed@.len() == n,
                cap@.len() == n,
                filled@ == f.filled,
                visited@ == f.reached,
                node.idx < n,
                k <= DIRECTIONS,
                accounted(start, *grid),
                leveled(start, bed@, cap@, *grid),
                start.drained.contains(node.idx),
                f == pass_all(start, bed@, cap@, *grid, node.idx as int, k as int),
                f.filled[node.idx as int] == node.elev,
                f.drained == start.drained,
                accounted(f, *grid),
                queue.wf(),
                seq == f.drained.len() + f.waiting.len(),
                queued(queue.contents(), f.filled, f.waiting, tags, seq),
            decreases DIRECTIONS - k,
        {
            proof {
                lemma_pass_all(start, bed@, cap@, *grid, node.idx as int, k as int);
                lemma_pass_all(start, bed@, cap@, *grid, node.idx as int, k + 1);
                let seen = f.drained + f.waiting;
                lemma_distinct_bound(seen, grid.cells());
                let next_seen = pass_all(start, bed@, cap@, *grid, node.idx as int, k + 1);
                lemma_distinct_bound(next_seen.drained + next_seen.waiting, grid.cells());
            }
            match grid.neighbour(node.idx, k) {
                Some(nc) => {
                    if !visited[nc] {
                        let level: i32 = if node.elev <= cap[nc] {
                            node.elev
                        } else {
                            cap[nc]
                        };
                        let raised_level: i32 = if bed[nc] >= level {
                            bed[nc]
                        } else {
                            level
                        };
                        proof {
                            assert(!f.waiting.contains(nc)) by {
                                if f.waiting.contains(nc) {
                                    let j = choose|j: int|
                                        0 <= j < f.waiting.len() && f.waiting[j] == nc;
                                    assert((f.drained + f.waiting)[f.drained.len() + j] == nc);
                                    assert(f.reached[nc as int]);
                                }
                            }
                            assert forall|j: int| 0 <= j < f.waiting.len() implies #[trigger] f.waiting[j]
                                < n by {
                                assert((f.drained + f.waiting)[f.drained.len() + j]
                                    == f.waiting[j]);
                            }
                            lemma_queue_push(
                                queue.contents(),
                                f.filled,
                                f.waiting,
                                tags,
                                seq,
                                nc,
                                raised_level,
                            );
                            tags = tags.push(seq);
                        }
                        visited.set(nc, true);
                        filled.set(nc, raised_level);
                        queue.push(FloodNode { elev: raised_level, seq, idx: nc });
                        seq += 1;
                    }
                },
                None => {},
            }
            proof {
                let g = pass_all(start, bed@, cap@, *grid, node.idx as int, k + 1);
                assert(g == pass(f, bed@, cap@, *grid, node.idx as int, k as int));
                f = g;
                let j = choose|j: int|
                    0 <= j < start.drained.len() && start.drained[j] == node.idx;
                assert((start.drained + start.waiting)[j] == node.idx);
                assert(start.reached[node.idx as int]);
            }
            k += 1;
        }
        proof {
            assert(f == flood_step(before_pop, bed@, cap@, *grid));
        }
    }
    proof {
        lemma_flood_start(bed@, cap@, *grid);
        lemma_flood(flood_start(bed@, *grid), bed@, cap@, *grid);
    }
    filled
}

} // verus!
