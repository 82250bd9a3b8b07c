//! Flow routing: where each cell drains, and whether it drains off the grid.
use crate::functions::{computes3, total3};
use crate::grid::{
    is_diagonal, law_interior_has_all_neighbors, lemma_neighbor_in_range, Grid, DIRECTIONS,
};
use crate::hydrology::stack::{downstream, flow_graph, reaches_sink, topological};
use vstd::prelude::*;

verus! {

/// The flow graph: each cell's receiver (the cell it drains into; itself for a base-level sink),
/// and whether the step to it is a diagonal one, which is longer.
pub struct Receivers {
    pub to: Vec<usize>,
    pub diagonal: Vec<bool>,
}

/// The slope from cell `c` down to its neighbour in direction `k`, as an order key: positive where
/// it descends.
pub open spec fn slope_to(
    filled: Seq<i32>,
    grid: Grid,
    slope: spec_fn(i32, i32, bool) -> i32,
    c: int,
    k: int,
) -> i32 {
    slope(filled[c], filled[grid.neighbor(c, k)->0], is_diagonal(k))
}

/// Direction `k` is the first of the steepest descents from `c`.
pub open spec fn steepest(
    filled: Seq<i32>,
    grid: Grid,
    slope: spec_fn(i32, i32, bool) -> i32,
    c: int,
    k: int,
) -> bool {
    &&& 0 <= k < DIRECTIONS
    &&& slope_to(filled, grid, slope, c, k) > 0
    &&& forall|j: int|
        0 <= j < k ==> #[trigger] slope_to(filled, grid, slope, c, j) < slope_to(
            filled,
            grid,
            slope,
            c,
            k,
        )
    &&& forall|j: int|
        k < j < DIRECTIONS ==> #[trigger] slope_to(filled, grid, slope, c, j) <= slope_to(
            filled,
            grid,
            slope,
            c,
            k,
        )
}

/// Cell `c` descends in no direction.
pub open spec fn pit(
    filled: Seq<i32>,
    grid: Grid,
    slope: spec_fn(i32, i32, bool) -> i32,
    c: int,
) -> bool {
    forall|k: int| 0 <= k < DIRECTIONS ==> #[trigger] slope_to(filled, grid, slope, c, k) <= 0
}

/// Where cell `c` drains: a boundary cell drains off the grid and a pit nowhere, so both are their
/// own receivers; any other cell drains along its first steepest descent.
pub open spec fn routed(
    filled: Seq<i32>,
    grid: Grid,
    slope: spec_fn(i32, i32, bool) -> i32,
    c: int,
    to: usize,
    diagonal: bool,
) -> bool {
    if grid.on_boundary(c) || pit(filled, grid, slope, c) {
        to == c && !diagonal
    } else {
        exists|k: int| #[trigger]
            steepest(filled, grid, slope, c, k) && grid.neighbor(c, k) == Some(to as int)
                && diagonal == is_diagonal(k)
    }
}

/// Each cell's steepest-descent receiver. A cell with no lower neighbour, and every boundary cell,
/// is its own receiver: a base level.
pub fn receivers<S: Fn(i32, i32, bool) -> i32>(filled: &[i32], grid: &Grid, slope: S) -> (r:
    Receivers)
    requires
        grid.wf(),
        filled@.len() == grid.cells(),
        total3(slope),
    ensures
        r.to@.len() == grid.cells(),
        r.diagonal@.len() == grid.cells(),
        flow_graph(r.to@),
        forall|f: spec_fn(i32, i32, bool) -> i32| #[trigger]
            computes3(slope, f) ==> forall|c: int|
                0 <= c < grid.cells() ==> routed(
                    filled@,
                    *grid,
                    f,
                    c,
                    #[trigger] r.to@[c],
                    r.diagonal@[c],
                ),
{
    let n: usize = grid.len();
    let mut to: Vec<usize> = Vec::with_capacity(n);
    let mut diagonal: Vec<bool> = Vec::with_capacity(n);
    let mut c: usize = 0;
    while c < n
        invariant
            grid.wf(),
            n == grid.cells(),
            filled@.len() == n,
            total3(slope),
            c <= n,
            to@.len() == c,
            diagonal@.len() == c,
            forall|b: int| 0 <= b < c ==> #[trigger] to@[b] < n,
            forall|f: spec_fn(i32, i32, bool) -> i32| #[trigger]
                computes3(slope, f) ==> forall|b: int|
                    0 <= b < c ==> routed(filled@, *grid, f, b, #[trigger] to@[b], diagonal@[b]),
        decreases n - c,
    {
        let mut best: usize = c;
        let mut best_diagonal: bool = false;
        if !grid.is_boundary(c) {
            let here: i32 = filled[c];
            let mut best_slope: i32 = 0;
            let ghost mut found: int = -1;
            let mut k: usize = 0;
            proof {
                law_interior_has_all_neighbors(*grid, c as int);
            }
            while k < DIRECTIONS
                invariant
                    grid.wf(),
                    n == grid.cells(),
                    filled@.len() == n,
                    total3(slope),
                    c < n,
                    best < n,
                    here == filled@[c as int],
                    !grid.on_boundary(c as int),
                    forall|j: int|
                        0 <= j < DIRECTIONS ==> #[trigger] grid.neighbor(c as int, j) is Some,
                    k <= DIRECTIONS,
                    -1 <= found < k,
                    found == -1 ==> best == c && !best_diagonal && best_slope == 0,
                    found >= 0 ==> grid.neighbor(c as int, found) == Some(best as int)
                        && best_diagonal == is_diagonal(found) && best_slope > 0,
                    forall|f: spec_fn(i32, i32, bool) -> i32| #[trigger]
                        computes3(slope, f) ==> {
                            &&& found >= 0 ==> slope_to(filled@, *grid, f, c as int, found)
                                == best_slope
                            &&& forall|j: int|
                                0 <= j < found ==> #[trigger] slope_to(
                                    filled@,
                                    *grid,
                                    f,
                                    c as int,
                                    j,
                                ) < best_slope
                            &&& forall|j: int|
                                0 <= j < k ==> #[trigger] slope_to(filled@, *grid, f, c as int, j)
                                    <= best_slope
                        },
                decreases DIRECTIONS - k,
            {
                match grid.neighbour(c, k) {
                    Some(nc) => {
                        let s: i32 = slope(here, filled[nc], k >= 4);
                        proof {
                            assert forall|f: spec_fn(i32, i32, bool) -> i32| #[trigger]
                                computes3(slope, f) implies slope_to(
                                filled@,
                                *grid,
                                f,
                                c as int,
                                k as int,
                            ) == s by {
                                assert(call_ensures(
                                    slope,
                                    (here, filled@[nc as int], k >= 4),
                                    s,
                                ));
                            }
                        }
                        if s > best_slope {
                            best_slope = s;
                            best = nc;
                            best_diagonal = k >= 4;
                            proof {
                                found = k as int;
                            }
                        }
                    },
                    None => {},
                }
                k += 1;
            }
            proof {
                assert forall|f: spec_fn(i32, i32, bool) -> i32| #[trigger]
                    computes3(slope, f) implies routed(
                    filled@,
                    *grid,
                    f,
                    c as int,
                    best,
                    best_diagonal,
                ) by {
                    if found >= 0 {
                        assert(slope_to(filled@, *grid, f, c as int, found) > 0);
                        assert(steepest(filled@, *grid, f, c as int, found));
                    }
                }
            }
        }
        to.push(best);
        diagonal.push(best_diagonal);
        c += 1;
    }
    Receivers { to, diagonal }
}

/// A slope function that is positive only downhill.
pub open spec fn downhill(slope: spec_fn(i32, i32, bool) -> i32) -> bool {
    forall|here: i32, there: i32, d: bool| #[trigger] slope(here, there, d) > 0 ==> there < here
}

/// Water that only runs downhill reaches a sink from every cell.
pub proof fn law_routing_reaches_a_sink(
    filled: Seq<i32>,
    grid: Grid,
    slope: spec_fn(i32, i32, bool) -> i32,
    to: Seq<usize>,
    diagonal: Seq<bool>,
    c: int,
)
    requires
        filled.len() == grid.cells(),
        to.len() == grid.cells(),
        downhill(slope),
        forall|b: int|
            0 <= b < grid.cells() ==> routed(filled, grid, slope, b, #[trigger] to[b], diagonal[b]),
        0 <= c < grid.cells(),
    ensures
        reaches_sink(to, c),
    decreases filled[c] - i32::MIN,
{
    assert(routed(filled, grid, slope, c, to[c], diagonal[c]));
    if to[c] == c {
        assert(downstream(to, c, 0) == c);
    } else {
        let k = choose|k: int| #[trigger]
            steepest(filled, grid, slope, c, k) && grid.neighbor(c, k) == Some(to[c] as int)
                && diagonal[c] == is_diagonal(k);
        let r = to[c] as int;
        lemma_neighbor_in_range(grid, c, k);
        assert(slope_to(filled, grid, slope, c, k) > 0);
        law_routing_reaches_a_sink(filled, grid, slope, to, diagonal, r);
        let steps = choose|steps: nat|
            {
                let s = #[trigger] downstream(to, r, steps);
                to[s] == s
            };
        assert(downstream(to, c, steps + 1) == downstream(to, r, steps));
    }
}

/// Whether water from `c` runs off the grid: it reaches a sink on the boundary, rather than a
/// closed basin.
pub open spec fn drains_off(receiver: Seq<usize>, grid: Grid, c: int) -> bool {
    exists|steps: nat|
        {
            let s = #[trigger] downstream(receiver, c, steps);
            receiver[s] == s && grid.on_boundary(s)
        }
}

/// A sink stays where it is.
proof fn lemma_sink_stays(receiver: Seq<usize>, c: int, steps: nat)
    requires
        receiver[c] == c,
    ensures
        downstream(receiver, c, steps) == c,
    decreases steps,
{
    if steps > 0 {
        lemma_sink_stays(receiver, c, (steps - 1) as nat);
    }
}

/// A sink drains off the grid exactly when it lies on the boundary; any other cell exactly when its
/// receiver does.
pub proof fn law_drains_off_step(receiver: Seq<usize>, grid: Grid, c: int)
    ensures
        drains_off(receiver, grid, c) == if receiver[c] == c {
            grid.on_boundary(c)
        } else {
            drains_off(receiver, grid, receiver[c] as int)
        },
{
    let r = receiver[c] as int;
    if drains_off(receiver, grid, c) {
        let steps = choose|steps: nat|
            {
                let s = #[trigger] downstream(receiver, c, steps);
                receiver[s] == s && grid.on_boundary(s)
            };
        if r == c {
            lemma_sink_stays(receiver, c, steps);
        } else {
            assert(steps > 0);
            assert(downstream(receiver, r, (steps - 1) as nat) == downstream(receiver, c, steps));
        }
    }
    if r == c && grid.on_boundary(c) {
        assert(downstream(receiver, c, 0) == c);
    }
    if r != c && drains_off(receiver, grid, r) {
        let steps = choose|steps: nat|
            {
                let s = #[trigger] downstream(receiver, r, steps);
                receiver[s] == s && grid.on_boundary(s)
            };
        assert(downstream(receiver, c, steps + 1) == downstream(receiver, r, steps));
    }
}

/// Which cells drain off the grid. The flag is set at the sinks and inherited along the stack,
/// which lists every receiver before its donors.
pub fn drains_out(stack: &[usize], receiver: &[usize], grid: &Grid) -> (r: Vec<bool>)
    requires
        grid.wf(),
        receiver@.len() == grid.cells(),
        flow_graph(receiver@),
        topological(receiver@, stack@),
        forall|c: usize| #[trigger]
            stack@.contains(c) <==> c < receiver@.len() && reaches_sink(receiver@, c as int),
    ensures
        r@.len() == grid.cells(),
        forall|c: int|
            0 <= c < grid.cells() ==> #[trigger] r@[c] == drains_off(receiver@, *grid, c),
{
    let n: usize = receiver.len();
    let mut out: Vec<bool> = vec![false; n];
    let mut i: usize = 0;
    while i < stack.len()
        invariant
            grid.wf(),
            n == receiver@.len(),
            n == grid.cells(),
            flow_graph(receiver@),
            topological(receiver@, stack@),
            i <= stack@.len(),
            out@.len() == n,
            forall|j: int|
                0 <= j < i ==> out@[#[trigger] stack@[j] as int] == drains_off(
                    receiver@,
                    *grid,
                    stack@[j] as int,
                ),
            forall|c: int|
                0 <= c < n && !stack@.take(i as int).contains(c as usize) ==> !#[trigger] out@[c],
        decreases stack.len() - i,
    {
        let c: usize = stack[i];
        let r: usize = receiver[c];
        let ghost before = out@;
        proof {
            law_drains_off_step(receiver@, *grid, c as int);
            if r != c {
                let j = choose|j: int|
                    0 <= j < i && #[trigger] stack@[j] == receiver@[stack@[i as int] as int];
                assert(stack@[j] == r);
            }
        }
        if r == c {
            out.set(c, grid.is_boundary(c));
        } else {
            out.set(c, out[r]);
        }
        proof {
            assert(stack@.take(i + 1) =~= stack@.take(i as int).push(c));
            assert(stack@.take(i + 1)[i as int] == c);
            assert forall|b: int|
                0 <= b < n && !stack@.take(i + 1).contains(b as usize) implies !#[trigger] out@[b] by {
                assert(b != c);
                if stack@.take(i as int).contains(b as usize) {
                    let j = choose|j: int|
                        0 <= j < i && stack@.take(i as int)[j] == b as usize;
                    assert(stack@.take(i + 1)[j] == b as usize);
                }
                assert(!before[b]);
            }
        }
        i += 1;
    }
    proof {
        assert(stack@.take(i as int) =~= stack@);
        assert forall|c: int| 0 <= c < n implies #[trigger] out@[c] == drains_off(
            receiver@,
            *grid,
            c,
        ) by {
            if stack@.contains(c as usize) {
                let j = choose|j: int| 0 <= j < stack@.len() && stack@[j] == c as usize;
                assert(stack@[j] == c);
            } else if drains_off(receiver@, *grid, c) {
                assert(reaches_sink(receiver@, c)) by {
                    let steps = choose|steps: nat|
                        {
                            let s = #[trigger] downstream(receiver@, c, steps);
                            receiver@[s] == s && grid.on_boundary(s)
                        };
                    assert(receiver@[downstream(receiver@, c, steps)] == downstream(
                        receiver@,
                        c,
                        steps,
                    ));
                }
            }
        }
    }
    out
}

} // verus!
