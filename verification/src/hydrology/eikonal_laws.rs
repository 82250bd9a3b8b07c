//! Where the distances over flats come from, and where they stay infinite.
use crate::grid::{lemma_neighbor_in_range, DIRECTIONS};
use crate::hydrology::eikonal::{lemma_sweep_cell, sweep_cell, Eikonal, EIKONAL_PASSES};
use crate::keys::INFINITY_BITS;
use vstd::prelude::*;

verus! {

/// A way from `c` to a source over neighbouring domain cells of the same flat.
pub open spec fn way_to_source(p: Eikonal, path: Seq<int>, c: int) -> bool {
    &&& path.len() > 0
    &&& path[0] == c
    &&& p.source[path.last()]
    &&& forall|i: int|
        0 <= i < path.len() ==> 0 <= #[trigger] path[i] < p.grid.cells() && p.domain[path[i]]
            && p.label[path[i]] == p.label[c]
    &&& forall|i: int|
        0 <= i < path.len() - 1 ==> p.grid.adjacent(path[i], #[trigger] path[i + 1])
}

/// Some source reaches `c` within its flat and the domain.
pub open spec fn supplied(p: Eikonal, c: int) -> bool {
    exists|path: Seq<int>| #[trigger] way_to_source(p, path, c)
}

/// Distances only where a source reaches, zero at the sources, and none outside the domain.
spec fn contained(p: Eikonal, t: Seq<u32>) -> bool {
    &&& t.len() == p.grid.cells()
    &&& forall|c: int|
        0 <= c < p.grid.cells() && !p.domain[c] ==> #[trigger] t[c] == INFINITY_BITS
    &&& forall|c: int|
        0 <= c < p.grid.cells() && p.domain[c] && p.source[c] ==> #[trigger] t[c] == 0
    &&& forall|c: int|
        0 <= c < p.grid.cells() && #[trigger] t[c] < INFINITY_BITS ==> supplied(p, c)
}

/// The cells a pass may update: none, or domain cells that are no source.
spec fn fair(p: Eikonal, pinch: Option<Seq<bool>>) -> bool {
    pinch matches Some(marked) ==> marked.len() == p.grid.cells() && forall|c: int|
        0 <= c < marked.len() && #[trigger] marked[c] ==> p.domain[c] && !p.source[c]
}

/// A finite nearest distance comes from a joined neighbour.
proof fn lemma_nearest(p: Eikonal, t: Seq<u32>, c: int, from: int, to: int)
    requires
        0 <= from <= to <= DIRECTIONS,
        p.nearest(t, c, from, to) < INFINITY_BITS,
    ensures
        exists|k: int|
            from <= k < to && #[trigger] p.joined(c, k) && t[p.grid.neighbor(c, k)->0]
                < INFINITY_BITS,
    decreases to - from,
{
    if from < to {
        if p.joined(c, to - 1) && t[p.grid.neighbor(c, to - 1)->0] < p.nearest(
            t,
            c,
            from,
            to - 1,
        ) {
            assert(p.joined(c, to - 1));
        } else {
            lemma_nearest(p, t, c, from, to - 1);
        }
    }
}

/// A source that reaches a joined neighbour reaches the cell.
proof fn lemma_supplied_step(p: Eikonal, t: Seq<u32>, c: int, from: int, to: int)
    requires
        p.wf(),
        contained(p, t),
        0 <= c < p.grid.cells(),
        p.domain[c],
        0 <= from <= to <= DIRECTIONS,
        p.nearest(t, c, from, to) < INFINITY_BITS,
    ensures
        supplied(p, c),
{
    lemma_nearest(p, t, c, from, to);
    let k = choose|k: int|
        from <= k < to && #[trigger] p.joined(c, k) && t[p.grid.neighbor(c, k)->0]
            < INFINITY_BITS;
    let n = p.grid.neighbor(c, k)->0;
    lemma_neighbor_in_range(p.grid, c, k);
    assert(t[n] < INFINITY_BITS);
    let rest = choose|path: Seq<int>| #[trigger] way_to_source(p, path, n);
    let path = seq![c] + rest;
    assert(path.last() == rest.last());
    assert(p.grid.adjacent(c, n));
    assert forall|i: int| 0 <= i < path.len() - 1 implies p.grid.adjacent(
        path[i],
        #[trigger] path[i + 1],
    ) by {
        if i > 0 {
            assert(path[i] == rest[i - 1]);
            assert(path[i + 1] == rest[i - 1 + 1]);
        }
    }
    assert forall|i: int| 0 <= i < path.len() implies 0 <= #[trigger] path[i] < p.grid.cells()
        && p.domain[path[i]] && p.label[path[i]] == p.label[c] by {
        if i > 0 {
            assert(path[i] == rest[i - 1]);
        }
    }
    assert(way_to_source(p, path, c));
}

/// An update keeps distances where sources reach.
proof fn lemma_relaxed(p: Eikonal, t: Seq<u32>, pinch: Option<Seq<bool>>, c: int)
    requires
        p.wf(),
        (p.upwind)(INFINITY_BITS, INFINITY_BITS) >= INFINITY_BITS,
        contained(p, t),
        fair(p, pinch),
        0 <= c < p.grid.cells(),
    ensures
        contained(p, p.relaxed(t, pinch, c)),
        forall|b: int|
            0 <= b < p.grid.cells() ==> #[trigger] p.relaxed(t, pinch, c)[b] <= t[b],
        pinch matches Some(marked) ==> forall|b: int|
            0 <= b < p.grid.cells() && !marked[b] ==> #[trigger] p.relaxed(t, pinch, c)[b] == t[b],
{
    let u = p.relaxed(t, pinch, c);
    if u != t {
        assert(t[c] <= INFINITY_BITS || p.domain[c]);
        if u[c] < INFINITY_BITS {
            let h = p.nearest(t, c, 0, 2);
            let v = p.nearest(t, c, 2, 4);
            let d = p.nearest(t, c, 4, 8);
            lemma_nearest_bound(p, t, c, 0, 2);
            lemma_nearest_bound(p, t, c, 2, 4);
            if h < INFINITY_BITS {
                lemma_supplied_step(p, t, c, 0, 2);
            } else if v < INFINITY_BITS {
                lemma_supplied_step(p, t, c, 2, 4);
            } else if pinch is Some && d < INFINITY_BITS {
                lemma_supplied_step(p, t, c, 4, 8);
            } else {
                assert(p.upwind_at(t, c) >= INFINITY_BITS);
            }
        }
    }
}

/// A nearest distance is at most infinite.
proof fn lemma_nearest_bound(p: Eikonal, t: Seq<u32>, c: int, from: int, to: int)
    ensures
        p.nearest(t, c, from, to) <= INFINITY_BITS,
    decreases to - from,
{
    if from < to {
        lemma_nearest_bound(p, t, c, from, to - 1);
    }
}

/// What a list of updates keeps.
spec fn kept(p: Eikonal, t: Seq<u32>, u: Seq<u32>, pinch: Option<Seq<bool>>) -> bool {
    &&& contained(p, u)
    &&& forall|b: int| 0 <= b < p.grid.cells() ==> #[trigger] u[b] <= t[b]
    &&& pinch matches Some(marked) ==> forall|b: int|
        0 <= b < p.grid.cells() && !marked[b] ==> #[trigger] u[b] == t[b]
}

proof fn lemma_swept(p: Eikonal, t: Seq<u32>, pinch: Option<Seq<bool>>, o: int, i: int)
    requires
        p.wf(),
        (p.upwind)(INFINITY_BITS, INFINITY_BITS) >= INFINITY_BITS,
        contained(p, t),
        fair(p, pinch),
        0 <= i <= p.grid.cells(),
    ensures
        kept(p, t, p.swept(t, pinch, o, i), pinch),
    decreases i,
{
    if i > 0 {
        lemma_swept(p, t, pinch, o, i - 1);
        lemma_sweep_cell(p.grid, o, i - 1);
        let u = p.swept(t, pinch, o, i - 1);
        lemma_relaxed(p, u, pinch, sweep_cell(p.grid, o, i - 1));
    }
}

proof fn lemma_sweeps(p: Eikonal, t: Seq<u32>, pinch: Option<Seq<bool>>, o: int)
    requires
        p.wf(),
        (p.upwind)(INFINITY_BITS, INFINITY_BITS) >= INFINITY_BITS,
        contained(p, t),
        fair(p, pinch),
    ensures
        kept(p, t, p.sweeps(t, pinch, o), pinch),
    decreases o,
{
    if o > 0 {
        lemma_sweeps(p, t, pinch, o - 1);
        lemma_swept(p, p.sweeps(t, pinch, o - 1), pinch, o - 1, p.grid.cells() as int);
    }
}

proof fn lemma_passes(p: Eikonal, t: Seq<u32>, pinch: Option<Seq<bool>>, passes: nat)
    requires
        p.wf(),
        (p.upwind)(INFINITY_BITS, INFINITY_BITS) >= INFINITY_BITS,
        contained(p, t),
        fair(p, pinch),
    ensures
        kept(p, t, p.passes(t, pinch, passes), pinch),
    decreases passes,
{
    if passes > 0 {
        lemma_sweeps(p, t, pinch, 4);
        lemma_passes(p, p.sweeps(t, pinch, 4), pinch, (passes - 1) as nat);
    }
}

/// Distances spread only within a flat and the domain: a cell has a finite distance only where a
/// way over domain cells of its own flat leads to a source; sources are at zero, and cells outside
/// the domain stay infinite. Only an update from two infinite distances must itself be infinite.
pub proof fn law_distances_respect_walls(p: Eikonal, c: int)
    requires
        p.wf(),
        (p.upwind)(INFINITY_BITS, INFINITY_BITS) >= INFINITY_BITS,
        0 <= c < p.grid.cells(),
    ensures
        p.distances().len() == p.grid.cells(),
        p.distances()[c] < INFINITY_BITS ==> supplied(p, c),
        p.domain[c] && p.source[c] ==> p.distances()[c] == 0,
        !p.domain[c] ==> p.distances()[c] == INFINITY_BITS,
{
    lemma_initial(p);
    lemma_passes(p, p.initial(), None, EIKONAL_PASSES as nat);
    let t = p.isotropic();
    lemma_passes(p, t, Some(p.pinched(t)), EIKONAL_PASSES as nat);
}

/// The start is contained.
proof fn lemma_initial(p: Eikonal)
    requires
        p.wf(),
    ensures
        contained(p, p.initial()),
{
    assert forall|c: int|
        0 <= c < p.grid.cells() && #[trigger] p.initial()[c] < INFINITY_BITS implies supplied(
        p,
        c,
    ) by {
        assert(way_to_source(p, seq![c], c));
    }
}

/// Bridging corners touches no distance that the upwind sweeps had settled.
pub proof fn law_bridging_keeps_settled_distances(p: Eikonal, c: int)
    requires
        p.wf(),
        (p.upwind)(INFINITY_BITS, INFINITY_BITS) >= INFINITY_BITS,
        0 <= c < p.grid.cells(),
        p.isotropic()[c] < INFINITY_BITS,
    ensures
        p.distances()[c] == p.isotropic()[c],
{
    lemma_initial(p);
    lemma_passes(p, p.initial(), None, EIKONAL_PASSES as nat);
    let t = p.isotropic();
    lemma_passes(p, t, Some(p.pinched(t)), EIKONAL_PASSES as nat);
    assert(!p.pinched(t)[c]);
}

} // verus!
