//! How far the sweeps carry distances.
use crate::grid::{lemma_cell, lemma_index, Grid};
use crate::hydrology::eikonal::{lemma_sweep_cell, sweep_cell, Eikonal};
use crate::keys::INFINITY_BITS;
use vstd::prelude::*;

verus! {

/// A way over the flat that never turns back: every step goes one cell to the right, or to the left
/// where `right` is false, or one cell down, or up where `down` is false; all its cells are in the
/// domain and in one flat.
pub open spec fn staircase(p: Eikonal, path: Seq<int>, right: bool, down: bool) -> bool {
    &&& path.len() > 0
    &&& forall|i: int|
        0 <= i < path.len() ==> 0 <= #[trigger] path[i] < p.grid.cells() && p.domain[path[i]]
            && p.label[path[i]] == p.label[path[0]]
    &&& forall|i: int|
        0 <= i < path.len() - 1 ==> p.grid.neighbor(
            #[trigger] path[i],
            if right {
                1
            } else {
                0
            },
        ) == Some(path[i + 1]) || p.grid.neighbor(
            path[i],
            if down {
                3
            } else {
                2
            },
        ) == Some(path[i + 1])
}

/// An update from a finite distance along either axis is finite.
pub open spec fn carries(p: Eikonal) -> bool {
    forall|u: u32, v: u32|
        u < INFINITY_BITS || v < INFINITY_BITS ==> #[trigger] (p.upwind)(u, v) < INFINITY_BITS
}

/// When sweep `o` comes to cell `c`.
spec fn turn(grid: Grid, o: int, c: int) -> int {
    let x = if o >= 2 {
        grid.width - 1 - grid.col(c)
    } else {
        grid.col(c)
    };
    let y = if o == 1 || o == 3 {
        grid.height - 1 - grid.row(c)
    } else {
        grid.row(c)
    };
    grid.index(x, y)
}

/// A sweep comes to every cell at its turn.
proof fn lemma_turn(grid: Grid, o: int, c: int)
    requires
        0 <= c < grid.cells(),
    ensures
        0 <= turn(grid, o, c) < grid.cells(),
        sweep_cell(grid, o, turn(grid, o, c)) == c,
{
    lemma_cell(grid, c);
    let x = if o >= 2 {
        grid.width - 1 - grid.col(c)
    } else {
        grid.col(c)
    };
    let y = if o == 1 || o == 3 {
        grid.height - 1 - grid.row(c)
    } else {
        grid.row(c)
    };
    lemma_index(grid, x, y);
}

/// Along a staircase that goes with the sweep, the turns come in order.
proof fn lemma_turns_rise(grid: Grid, o: int, c: int, k: int)
    requires
        0 <= c < grid.cells(),
        0 <= o < 4,
        k == if o < 2 {
            1int
        } else {
            0
        } || k == if o == 0 || o == 2 {
            3int
        } else {
            2
        },
        grid.neighbor(c, k) is Some,
    ensures
        turn(grid, o, c) < turn(grid, o, grid.neighbor(c, k)->0),
{
    let n = grid.neighbor(c, k)->0;
    lemma_cell(grid, c);
    lemma_index(
        grid,
        grid.col(c) + crate::grid::step_x(k),
        grid.row(c) + crate::grid::step_y(k),
    );
    let (w, h, y) = (grid.width as int, grid.height as int, grid.row(c));
    assert((y + 1) * w == y * w + w) by (nonlinear_arith);
    assert((h - 1 - (y - 1)) * w == (h - 1 - y) * w + w) by (nonlinear_arith);
    assert(w > 0);
}

/// A nearest distance is at most that of any joined neighbour.
proof fn lemma_nearest_at_most(p: Eikonal, t: Seq<u32>, c: int, from: int, to: int, k: int)
    requires
        from <= k < to,
        p.joined(c, k),
    ensures
        p.nearest(t, c, from, to) <= t[p.grid.neighbor(c, k)->0],
    decreases to - from,
{
    if k < to - 1 {
        lemma_nearest_at_most(p, t, c, from, to - 1, k);
    }
}

/// An update never adds to a distance.
proof fn lemma_relaxed_lowers(p: Eikonal, t: Seq<u32>, pinch: Option<Seq<bool>>, c: int)
    requires
        t.len() == p.grid.cells(),
        0 <= c < p.grid.cells(),
    ensures
        p.relaxed(t, pinch, c).len() == p.grid.cells(),
        forall|b: int| 0 <= b < p.grid.cells() ==> #[trigger] p.relaxed(t, pinch, c)[b] <= t[b],
{
}

/// Nor do sweeps.
proof fn lemma_swept_lowers(
    p: Eikonal,
    t: Seq<u32>,
    pinch: Option<Seq<bool>>,
    o: int,
    i: int,
)
    requires
        t.len() == p.grid.cells(),
        0 <= i <= p.grid.cells(),
    ensures
        p.swept(t, pinch, o, i).len() == p.grid.cells(),
        forall|b: int| 0 <= b < p.grid.cells() ==> #[trigger] p.swept(t, pinch, o, i)[b] <= t[b],
    decreases i,
{
    if i > 0 {
        lemma_swept_lowers(p, t, pinch, o, i - 1);
        lemma_sweep_cell(p.grid, o, i - 1);
        let u = p.swept(t, pinch, o, i - 1);
        lemma_relaxed_lowers(p, u, pinch, sweep_cell(p.grid, o, i - 1));
        assert forall|b: int| 0 <= b < p.grid.cells() implies #[trigger] p.swept(t, pinch, o, i)[b]
            <= t[b] by {
            assert(u[b] <= t[b]);
        }
    }
}

proof fn lemma_sweeps_lower(p: Eikonal, t: Seq<u32>, pinch: Option<Seq<bool>>, o: int)
    requires
        t.len() == p.grid.cells(),
    ensures
        p.sweeps(t, pinch, o).len() == p.grid.cells(),
        forall|b: int| 0 <= b < p.grid.cells() ==> #[trigger] p.sweeps(t, pinch, o)[b] <= t[b],
    decreases o,
{
    if o > 0 {
        lemma_sweeps_lower(p, t, pinch, o - 1);
        let u = p.sweeps(t, pinch, o - 1);
        lemma_swept_lowers(p, u, pinch, o - 1, p.grid.cells() as int);
        assert forall|b: int| 0 <= b < p.grid.cells() implies #[trigger] p.sweeps(t, pinch, o)[b]
            <= t[b] by {
            assert(u[b] <= t[b]);
        }
    }
}

proof fn lemma_passes_lower(p: Eikonal, t: Seq<u32>, pinch: Option<Seq<bool>>, n: nat)
    requires
        t.len() == p.grid.cells(),
    ensures
        p.passes(t, pinch, n).len() == p.grid.cells(),
        forall|b: int| 0 <= b < p.grid.cells() ==> #[trigger] p.passes(t, pinch, n)[b] <= t[b],
    decreases n,
{
    if n > 0 {
        lemma_sweeps_lower(p, t, pinch, 4);
        let u = p.sweeps(t, pinch, 4);
        lemma_passes_lower(p, u, pinch, (n - 1) as nat);
        assert forall|b: int| 0 <= b < p.grid.cells() implies #[trigger] p.passes(t, pinch, n)[b]
            <= t[b] by {
            assert(u[b] <= t[b]);
        }
    }
}

/// Within a sweep that goes with the staircase, its cells have finite distances once their turns
/// have come.
proof fn lemma_sweep_carries(
    p: Eikonal,
    t: Seq<u32>,
    o: int,
    i: int,
    path: Seq<int>,
    j: int,
)
    requires
        p.wf(),
        carries(p),
        t.len() == p.grid.cells(),
        forall|c: int|
            0 <= c < p.grid.cells() && p.domain[c] && p.source[c] ==> #[trigger] t[c]
                < INFINITY_BITS,
        0 <= o < 4,
        staircase(p, path, o < 2, o == 0 || o == 2),
        t[path[0]] < INFINITY_BITS,
        0 <= i <= p.grid.cells(),
        0 <= j < path.len(),
        j == 0 || turn(p.grid, o, path[j]) < i,
    ensures
        p.swept(t, None, o, i)[path[j]] < INFINITY_BITS,
    decreases i,
{
    lemma_swept_lowers(p, t, None, o, i);
    let c = path[j];
    if j == 0 {
        assert(p.swept(t, None, o, i)[c] <= t[c]);
    } else {
        lemma_turn(p.grid, o, c);
        let before = p.swept(t, None, o, i - 1);
        let at = sweep_cell(p.grid, o, i - 1);
        lemma_sweep_cell(p.grid, o, i - 1);
        lemma_swept_lowers(p, t, None, o, i - 1);
        lemma_relaxed_lowers(p, before, None, at);
        if turn(p.grid, o, c) < i - 1 {
            lemma_sweep_carries(p, t, o, i - 1, path, j);
            assert(p.relaxed(before, None, at)[c] <= before[c]);
        } else {
            assert(at == c);
            let b = path[j - 1];
            assert(path[(j - 1) + 1] == c);
            let k: int = if p.grid.neighbor(
                b,
                if o < 2 {
                    1
                } else {
                    0
                },
            ) == Some(c) {
                if o < 2 {
                    1
                } else {
                    0
                }
            } else {
                if o == 0 || o == 2 {
                    3
                } else {
                    2
                }
            };
            assert(p.grid.neighbor(b, k) == Some(c));
            lemma_turns_rise(p.grid, o, b, k);
            lemma_sweep_carries(p, t, o, i - 1, path, j - 1);
            let back = crate::grid::opposite(k);
            crate::grid::law_neighbors_are_mutual(p.grid, b, k);
            assert(p.joined(c, back));
            if p.source[c] {
                assert(t[c] < INFINITY_BITS);
                assert(before[c] <= t[c]);
                assert(p.relaxed(before, None, at)[c] <= before[c]);
            } else {
                let (u, v) = (p.nearest(before, c, 0, 2), p.nearest(before, c, 2, 4));
                if back < 2 {
                    lemma_nearest_at_most(p, before, c, 0, 2, back);
                } else {
                    lemma_nearest_at_most(p, before, c, 2, 4, back);
                }
                assert((p.upwind)(u, v) < INFINITY_BITS);
                assert(p.upwind_at(before, c) < INFINITY_BITS);
            }
        }
    }
}

/// A pass carries a distance along any staircase.
proof fn lemma_pass_carries(
    p: Eikonal,
    t: Seq<u32>,
    path: Seq<int>,
    right: bool,
    down: bool,
)
    requires
        p.wf(),
        carries(p),
        t.len() == p.grid.cells(),
        forall|c: int|
            0 <= c < p.grid.cells() && p.domain[c] && p.source[c] ==> #[trigger] t[c]
                < INFINITY_BITS,
        staircase(p, path, right, down),
        t[path[0]] < INFINITY_BITS,
    ensures
        p.sweeps(t, None, 4)[path.last()] < INFINITY_BITS,
{
    let o: int = if right {
        if down {
            0
        } else {
            1
        }
    } else {
        if down {
            2
        } else {
            3
        }
    };
    let n = p.grid.cells() as int;
    let u = p.sweeps(t, None, o);
    lemma_sweeps_lower(p, t, None, o);
    assert(u[path[0]] <= t[path[0]]);
    assert forall|c: int| 0 <= c < p.grid.cells() && p.domain[c] && p.source[c] implies #[trigger] u[c]
        < INFINITY_BITS by {
        assert(u[c] <= t[c]);
    }
    let last = path.len() - 1;
    lemma_turn(p.grid, o, path[last]);
    lemma_sweep_carries(p, u, o, n, path, last);
    let v = p.sweeps(t, None, o + 1);
    assert(v == p.swept(u, None, o, n));
    assert(v[path.last()] < INFINITY_BITS);
    lemma_later_sweeps(p, t, o + 1);
}

/// The sweeps after the first `o` of a pass never add to a distance.
proof fn lemma_later_sweeps(p: Eikonal, t: Seq<u32>, o: int)
    requires
        t.len() == p.grid.cells(),
        0 <= o <= 4,
    ensures
        forall|b: int|
            0 <= b < p.grid.cells() ==> #[trigger] p.sweeps(t, None, 4)[b] <= p.sweeps(
                t,
                None,
                o,
            )[b],
    decreases 4 - o,
{
    if o < 4 {
        lemma_later_sweeps(p, t, o + 1);
        let u = p.sweeps(t, None, o);
        lemma_sweeps_lower(p, t, None, o);
        lemma_swept_lowers(p, u, None, o, p.grid.cells() as int);
        assert forall|b: int| 0 <= b < p.grid.cells() implies #[trigger] p.sweeps(t, None, 4)[b]
            <= u[b] by {
            assert(p.sweeps(t, None, o + 1)[b] <= u[b]);
        }
    }
}

/// Staircases one after the other, each from where the one before ends.
pub open spec fn turning_way(
    p: Eikonal,
    legs: Seq<Seq<int>>,
    turns: Seq<(bool, bool)>,
) -> bool {
    &&& legs.len() > 0
    &&& turns.len() == legs.len()
    &&& forall|i: int|
        0 <= i < legs.len() ==> staircase(p, #[trigger] legs[i], turns[i].0, turns[i].1)
    &&& forall|i: int| 0 <= i < legs.len() - 1 ==> (#[trigger] legs[i]).last() == legs[i + 1][0]
}

/// Passes carry a distance along as many staircases.
proof fn lemma_passes_carry(
    p: Eikonal,
    t: Seq<u32>,
    legs: Seq<Seq<int>>,
    turns: Seq<(bool, bool)>,
    n: nat,
)
    requires
        p.wf(),
        carries(p),
        t.len() == p.grid.cells(),
        forall|c: int|
            0 <= c < p.grid.cells() && p.domain[c] && p.source[c] ==> #[trigger] t[c]
                < INFINITY_BITS,
        turning_way(p, legs, turns),
        legs.len() <= n,
        t[legs[0][0]] < INFINITY_BITS,
    ensures
        p.passes(t, None, n)[legs.last().last()] < INFINITY_BITS,
    decreases n,
{
    let u = p.sweeps(t, None, 4);
    lemma_sweeps_lower(p, t, None, 4);
    lemma_pass_carries(p, t, legs[0], turns[0].0, turns[0].1);
    assert forall|c: int| 0 <= c < p.grid.cells() && p.domain[c] && p.source[c] implies #[trigger] u[c]
        < INFINITY_BITS by {
        assert(u[c] <= t[c]);
    }
    let end = legs.last().last();
    assert(0 <= end < p.grid.cells()) by {
        let l = legs[legs.len() - 1];
        assert(0 <= l[l.len() - 1] < p.grid.cells());
    }
    if legs.len() == 1 {
        lemma_passes_lower(p, u, None, (n - 1) as nat);
        assert(p.passes(u, None, (n - 1) as nat)[end] <= u[end]);
    } else {
        let (rest, others) = (legs.skip(1), turns.skip(1));
        assert forall|i: int| 0 <= i < rest.len() implies staircase(
            p,
            #[trigger] rest[i],
            others[i].0,
            others[i].1,
        ) by {
            assert(legs[i + 1] == rest[i]);
        }
        assert forall|i: int| 0 <= i < rest.len() - 1 implies (#[trigger] rest[i]).last()
            == rest[i + 1][0] by {
            assert(legs[i + 1] == rest[i]);
        }
        assert(legs[0].last() == rest[0][0]);
        lemma_passes_carry(p, u, rest, others, (n - 1) as nat);
    }
}

/// Distances reach round corners: from a source along up to four staircases over a flat, each going
/// whichever way, every cell at the end has a finite distance, where an update from a finite
/// distance is finite.
pub proof fn law_distances_reach_round_corners(
    p: Eikonal,
    legs: Seq<Seq<int>>,
    turns: Seq<(bool, bool)>,
)
    requires
        p.wf(),
        carries(p),
        turning_way(p, legs, turns),
        legs.len() <= 4,
        p.source[legs[0][0]],
    ensures
        p.distances()[legs.last().last()] < INFINITY_BITS,
{
    let t = p.initial();
    let start = legs[0][0];
    assert(staircase(p, legs[0], turns[0].0, turns[0].1));
    assert(0 <= start < p.grid.cells() && p.domain[start]);
    assert(t[start] == 0);
    lemma_passes_carry(p, t, legs, turns, 4);
    let u = p.isotropic();
    lemma_passes_lower(p, t, None, 4);
    lemma_passes_lower(p, u, Some(p.pinched(u)), 4);
    let end = legs.last().last();
    let l = legs[legs.len() - 1];
    assert(0 <= l[l.len() - 1] < p.grid.cells());
    assert(p.distances()[end] <= u[end]);
}

} // verus!
