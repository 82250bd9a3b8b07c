//! How distances fall toward their sources, and how resolved flats drain.
use crate::grid::{is_diagonal, law_neighbors_are_mutual, lemma_neighbor_in_range, Grid, DIRECTIONS};
use crate::hydrology::eikonal::{lemma_sweep_cell, sweep_cell, Eikonal, EIKONAL_PASSES};
use crate::hydrology::eikonal_laws::law_distances_respect_walls;
use crate::hydrology::flats::{
    above, is_defined, is_flat, labelling, level_step, level_way, level_with, same_flat, NO_LABEL,
};
use crate::hydrology::resolve::{away, greatest, resolved, resolved_at, toward, ReliefMath};
use crate::keys::INFINITY_BITS;
use vstd::prelude::*;

verus! {

/// The values of distances, and by how much at least a distance grows over an axis step and across
/// a corner.
pub ghost struct Gauge {
    pub value: spec_fn(u32) -> real,
    pub straight: real,
    pub across: real,
}

impl Gauge {
    /// The least growth over one step in direction `k`.
    pub open spec fn growth(self, k: int) -> real {
        if is_diagonal(k) {
            self.across
        } else {
            self.straight
        }
    }

    /// Zero has no length, finite distances are ordered as their values are, and every step adds.
    pub open spec fn wf(self) -> bool {
        &&& (self.value)(0) == 0 as real
        &&& forall|x: u32, y: u32|
            x <= y < INFINITY_BITS ==> #[trigger] (self.value)(x) <= #[trigger] (self.value)(y)
        &&& self.straight > 0 as real
        &&& self.across > 0 as real
    }

    /// Both updates grow by no less than a step: an upwind update over the lesser of its two
    /// distances, and a bridge over its one.
    pub open spec fn measures(
        self,
        upwind: spec_fn(u32, u32) -> u32,
        bridge: spec_fn(u32) -> u32,
    ) -> bool {
        &&& forall|u: u32, v: u32|
            #[trigger] upwind(u, v) < INFINITY_BITS ==> {
                let least = if u < v {
                    u
                } else {
                    v
                };
                &&& least < INFINITY_BITS
                &&& (self.value)(upwind(u, v)) >= (self.value)(least) + self.straight
            }
        &&& forall|d: u32|
            d < INFINITY_BITS && #[trigger] bridge(d) < INFINITY_BITS ==> (self.value)(bridge(d))
                >= (self.value)(d) + self.across
    }
}

/// The neighbour of `c` in direction `k` is of its flat and nearer by no less than a step.
pub open spec fn nearer(p: Eikonal, g: Gauge, t: Seq<u32>, c: int, k: int) -> bool {
    &&& p.joined(c, k)
    &&& t[p.grid.neighbor(c, k)->0] < INFINITY_BITS
    &&& (g.value)(t[c]) >= (g.value)(t[p.grid.neighbor(c, k)->0]) + g.growth(k)
}

/// Every finite distance but a source's has a nearer neighbour.
spec fn graded(p: Eikonal, g: Gauge, t: Seq<u32>) -> bool {
    &&& t.len() == p.grid.cells()
    &&& forall|c: int|
        0 <= c < p.grid.cells() && p.domain[c] && !p.source[c] && #[trigger] t[c] < INFINITY_BITS
            ==> exists|k: int| 0 <= k < DIRECTIONS && #[trigger] nearer(p, g, t, c, k)
}

/// A finite nearest distance is that of a joined neighbour.
proof fn lemma_nearest_is_taken(p: Eikonal, t: Seq<u32>, c: int, from: int, to: int) -> (k: int)
    requires
        0 <= from <= to <= DIRECTIONS,
        p.nearest(t, c, from, to) < INFINITY_BITS,
    ensures
        from <= k < to,
        p.joined(c, k),
        t[p.grid.neighbor(c, k)->0] == p.nearest(t, c, from, to),
    decreases to - from,
{
    if from < to && p.joined(c, to - 1) && t[p.grid.neighbor(c, to - 1)->0] < p.nearest(
        t,
        c,
        from,
        to - 1,
    ) {
        to - 1
    } else {
        lemma_nearest_is_taken(p, t, c, from, to - 1)
    }
}

/// A finite upwind update has a nearer neighbour along an axis.
proof fn lemma_upwind_source(p: Eikonal, g: Gauge, t: Seq<u32>, c: int) -> (k: int)
    requires
        g.measures(p.upwind, p.bridge),
        p.upwind_at(t, c) < INFINITY_BITS,
    ensures
        0 <= k < 4,
        p.joined(c, k),
        t[p.grid.neighbor(c, k)->0] < INFINITY_BITS,
        (g.value)(p.upwind_at(t, c)) >= (g.value)(t[p.grid.neighbor(c, k)->0]) + g.growth(k),
{
    let u = p.nearest(t, c, 0, 2);
    let v = p.nearest(t, c, 2, 4);
    assert((p.upwind)(u, v) < INFINITY_BITS);
    if u < v {
        lemma_nearest_is_taken(p, t, c, 0, 2)
    } else {
        lemma_nearest_is_taken(p, t, c, 2, 4)
    }
}

/// A finite update has a nearer neighbour.
proof fn lemma_bridged_source(p: Eikonal, g: Gauge, t: Seq<u32>, c: int) -> (k: int)
    requires
        g.measures(p.upwind, p.bridge),
        p.bridged_at(t, c) < INFINITY_BITS,
    ensures
        0 <= k < DIRECTIONS,
        p.joined(c, k),
        t[p.grid.neighbor(c, k)->0] < INFINITY_BITS,
        (g.value)(p.bridged_at(t, c)) >= (g.value)(t[p.grid.neighbor(c, k)->0]) + g.growth(k),
{
    let d = p.nearest(t, c, 4, 8);
    if d < INFINITY_BITS && (p.bridge)(d) < p.upwind_at(t, c) {
        lemma_nearest_is_taken(p, t, c, 4, 8)
    } else {
        lemma_upwind_source(p, g, t, c)
    }
}

/// An update keeps every distance graded.
proof fn lemma_relaxed_graded(p: Eikonal, g: Gauge, t: Seq<u32>, pinch: Option<Seq<bool>>, c: int)
    requires
        p.wf(),
        g.wf(),
        g.measures(p.upwind, p.bridge),
        graded(p, g, t),
        0 <= c < p.grid.cells(),
    ensures
        graded(p, g, p.relaxed(t, pinch, c)),
{
    let u = p.relaxed(t, pinch, c);
    if u != t {
        assert forall|b: int|
            0 <= b < p.grid.cells() && p.domain[b] && !p.source[b] && #[trigger] u[b]
                < INFINITY_BITS implies exists|k: int|
            0 <= k < DIRECTIONS && #[trigger] nearer(p, g, u, b, k) by {
            if b == c {
                let k = if pinch is None {
                    lemma_upwind_source(p, g, t, c)
                } else {
                    lemma_bridged_source(p, g, t, c)
                };
                law_neighbors_are_mutual(p.grid, c, k);
                lemma_neighbor_in_range(p.grid, c, k);
                assert(u[p.grid.neighbor(c, k)->0] == t[p.grid.neighbor(c, k)->0]);
                assert(nearer(p, g, u, c, k));
            } else {
                assert(t[b] == u[b]);
                let k = choose|k: int| 0 <= k < DIRECTIONS && #[trigger] nearer(p, g, t, b, k);
                let n = p.grid.neighbor(b, k)->0;
                lemma_neighbor_in_range(p.grid, b, k);
                assert((g.value)(u[n]) <= (g.value)(t[n]));
                assert(nearer(p, g, u, b, k));
            }
        }
    }
}

proof fn lemma_swept_graded(
    p: Eikonal,
    g: Gauge,
    t: Seq<u32>,
    pinch: Option<Seq<bool>>,
    o: int,
    i: int,
)
    requires
        p.wf(),
        g.wf(),
        g.measures(p.upwind, p.bridge),
        graded(p, g, t),
        0 <= i <= p.grid.cells(),
    ensures
        graded(p, g, p.swept(t, pinch, o, i)),
    decreases i,
{
    if i > 0 {
        lemma_swept_graded(p, g, t, pinch, o, i - 1);
        lemma_sweep_cell(p.grid, o, i - 1);
        let u = p.swept(t, pinch, o, i - 1);
        lemma_relaxed_graded(p, g, u, pinch, sweep_cell(p.grid, o, i - 1));
    }
}

proof fn lemma_sweeps_graded(p: Eikonal, g: Gauge, t: Seq<u32>, pinch: Option<Seq<bool>>, o: int)
    requires
        p.wf(),
        g.wf(),
        g.measures(p.upwind, p.bridge),
        graded(p, g, t),
    ensures
        graded(p, g, p.sweeps(t, pinch, o)),
    decreases o,
{
    if o > 0 {
        lemma_sweeps_graded(p, g, t, pinch, o - 1);
        let u = p.sweeps(t, pinch, o - 1);
        lemma_swept_graded(p, g, u, pinch, o - 1, p.grid.cells() as int);
    }
}

proof fn lemma_passes_graded(
    p: Eikonal,
    g: Gauge,
    t: Seq<u32>,
    pinch: Option<Seq<bool>>,
    passes: nat,
)
    requires
        p.wf(),
        g.wf(),
        g.measures(p.upwind, p.bridge),
        graded(p, g, t),
    ensures
        graded(p, g, p.passes(t, pinch, passes)),
    decreases passes,
{
    if passes > 0 {
        lemma_sweeps_graded(p, g, t, pinch, 4);
        lemma_passes_graded(p, g, p.sweeps(t, pinch, 4), pinch, (passes - 1) as nat);
    }
}

/// Distances fall toward the sources, whether or not the sweeps have settled: a cell of the domain
/// that is no source and has a finite distance has a neighbour in its own flat that is nearer by no
/// less than a step, where the updates measure their steps.
pub proof fn law_distances_fall_toward_sources(p: Eikonal, g: Gauge, c: int)
    requires
        p.wf(),
        g.wf(),
        g.measures(p.upwind, p.bridge),
        0 <= c < p.grid.cells(),
        p.domain[c],
        !p.source[c],
        p.distances()[c] < INFINITY_BITS,
    ensures
        exists|k: int| 0 <= k < DIRECTIONS && #[trigger] nearer(p, g, p.distances(), c, k),
{
    assert(graded(p, g, p.initial()));
    lemma_passes_graded(p, g, p.initial(), None, EIKONAL_PASSES as nat);
    let t = p.isotropic();
    lemma_passes_graded(p, g, t, Some(p.pinched(t)), EIKONAL_PASSES as nat);
}

/// The rise of cell `c` over its flat: how much nearer it is to the walls than the flat's middle,
/// and twice its distance from the outlets.
pub open spec fn rise(
    filled: Seq<i32>,
    grid: Grid,
    label: Seq<usize>,
    m: ReliefMath,
    g: Gauge,
    c: int,
) -> real {
    let a = away(filled, grid, label, m).distances();
    let t = toward(filled, grid, label, m).distances();
    let inward = if a[c] < INFINITY_BITS {
        (g.value)(greatest(a, label, label[c], grid.cells() as int)) - (g.value)(a[c])
    } else {
        0 as real
    };
    inward + (g.value)(t[c]) + (g.value)(t[c])
}

/// Between neighbouring cells of one flat that do not drain yet, the distance from the walls is
/// known for both or for neither, and grows by less than twice a step.
pub open spec fn walls_are_even(
    filled: Seq<i32>,
    grid: Grid,
    label: Seq<usize>,
    m: ReliefMath,
    g: Gauge,
) -> bool {
    let p = away(filled, grid, label, m);
    let a = p.distances();
    forall|c: int, k: int|
        0 <= c < grid.cells() && 0 <= k < DIRECTIONS && p.domain[c] && #[trigger] p.joined(c, k)
            ==> {
            let n = grid.neighbor(c, k)->0;
            &&& a[c] < INFINITY_BITS <==> a[n] < INFINITY_BITS
            &&& a[c] < INFINITY_BITS ==> (g.value)(a[c]) < (g.value)(a[n]) + g.growth(k)
                + g.growth(k)
        }
}

/// Resolution orders the reached cells of a flat by their rise, and lifts none of them to the
/// ground above it.
pub open spec fn relief_is_fine(
    filled: Seq<i32>,
    grid: Grid,
    label: Seq<usize>,
    m: ReliefMath,
    g: Gauge,
) -> bool {
    let t = toward(filled, grid, label, m).distances();
    &&& forall|a: int, b: int|
        0 <= a < grid.cells() && 0 <= b < grid.cells() && label[a] == label[b] && label[a]
            != NO_LABEL && t[a] < INFINITY_BITS && t[b] < INFINITY_BITS && #[trigger] rise(
            filled,
            grid,
            label,
            m,
            g,
            a,
        ) < #[trigger] rise(filled, grid, label, m, g, b) ==> resolved_at(
            filled,
            grid,
            label,
            m,
            a,
        ) < resolved_at(filled, grid, label, m, b)
    &&& forall|c: int, k: int|
        0 <= c < grid.cells() && 0 <= k < DIRECTIONS && #[trigger] above(filled, grid, c, k)
            ==> resolved_at(filled, grid, label, m, grid.neighbor(c, k)->0) < filled[c]
    &&& forall|l: i32| #[trigger] (m.relief)(l, None, 0) == l
}

/// A finite distance is at most the greatest of its label.
proof fn lemma_greatest(t: Seq<u32>, label: Seq<usize>, c: int, k: int)
    requires
        0 <= c < k,
        t[c] < INFINITY_BITS,
    ensures
        t[c] <= greatest(t, label, label[c], k) < INFINITY_BITS,
    decreases k,
{
    if c < k - 1 {
        lemma_greatest(t, label, c, k - 1);
    } else {
        lemma_greatest_finite(t, label, label[c], k - 1);
    }
}

proof fn lemma_greatest_finite(t: Seq<u32>, label: Seq<usize>, l: usize, k: int)
    ensures
        greatest(t, label, l, k) < INFINITY_BITS,
    decreases k,
{
    if k > 0 {
        lemma_greatest_finite(t, label, l, k - 1);
    }
}

/// Resolved flats drain: after resolution every cell of a flat that an outlet reaches has a
/// strictly lower neighbour, unless it drains off the grid.
pub proof fn law_resolved_flats_drain(
    filled: Seq<i32>,
    grid: Grid,
    label: Seq<usize>,
    count: usize,
    m: ReliefMath,
    g: Gauge,
    c: int,
)
    requires
        grid.wf(),
        filled.len() == grid.cells(),
        labelling(filled, grid, label, count),
        g.wf(),
        g.measures(m.upwind, m.bridge),
        walls_are_even(filled, grid, label, m, g),
        relief_is_fine(filled, grid, label, m, g),
        0 <= c < grid.cells(),
        is_flat(filled, grid, c),
        !grid.on_boundary(c),
        toward(filled, grid, label, m).distances()[c] < INFINITY_BITS,
    ensures
        exists|k: int|
            0 <= k < DIRECTIONS && #[trigger] above(resolved(filled, grid, label, m), grid, c, k),
{
    let r = resolved(filled, grid, label, m);
    let tp = toward(filled, grid, label, m);
    let ap = away(filled, grid, label, m);
    let (t, a) = (tp.distances(), ap.distances());
    assert((m.upwind)(INFINITY_BITS, INFINITY_BITS) >= INFINITY_BITS);
    law_distances_respect_walls(tp, c);
    law_distances_respect_walls(ap, c);
    assert(label[c] < count);
    if is_defined(filled, grid, c) {
        assert(tp.source[c] && tp.domain[c] && !ap.domain[c]);
        assert(r[c] == (m.relief)(filled[c], None, 0));
        let k = choose|k: int| 0 <= k < DIRECTIONS && #[trigger] above(filled, grid, c, k);
        lemma_neighbor_in_range(grid, c, k);
        assert(above(r, grid, c, k));
    } else {
        law_distances_fall_toward_sources(tp, g, c);
        let k = choose|k: int| 0 <= k < DIRECTIONS && #[trigger] nearer(tp, g, t, c, k);
        let n = grid.neighbor(c, k)->0;
        lemma_neighbor_in_range(grid, c, k);
        law_distances_respect_walls(tp, n);
        law_distances_respect_walls(ap, n);
        assert(label[n] == label[c]);
        assert(tp.domain[n]);
        assert(is_flat(filled, grid, n));
        assert(g.growth(k) > 0 as real);
        if a[c] < INFINITY_BITS {
            lemma_greatest(a, label, c, grid.cells() as int);
        }
        if is_defined(filled, grid, n) {
            assert(!ap.domain[n]);
            assert(t[n] == 0);
        } else {
            assert(ap.domain[c] && ap.domain[n]);
            assert(ap.joined(c, k));
        }
        assert(rise(filled, grid, label, m, g, n) < rise(filled, grid, label, m, g, c));
        assert(above(r, grid, c, k));
    }
}

/// The sweeps have spread as far as they can: no cell of the domain without a distance has a
/// neighbour of its flat with one.
pub open spec fn spread(p: Eikonal) -> bool {
    forall|c: int, k: int|
        0 <= c < p.grid.cells() && 0 <= k < DIRECTIONS && p.domain[c] && #[trigger] p.joined(c, k)
            && p.distances()[p.grid.neighbor(c, k)->0] < INFINITY_BITS ==> p.distances()[c]
            < INFINITY_BITS
}

/// An outlet at the end of a level way reaches the cell `i` steps along it.
proof fn lemma_outlet_reaches(
    filled: Seq<i32>,
    grid: Grid,
    label: Seq<usize>,
    count: usize,
    m: ReliefMath,
    path: Seq<int>,
    i: int,
)
    requires
        grid.wf(),
        filled.len() == grid.cells(),
        labelling(filled, grid, label, count),
        (m.upwind)(INFINITY_BITS, INFINITY_BITS) >= INFINITY_BITS,
        spread(toward(filled, grid, label, m)),
        0 <= i < path.len(),
        level_way(filled, grid, path, path[0], path.last()),
        is_flat(filled, grid, path.last()),
        is_defined(filled, grid, path.last()),
    ensures
        is_flat(filled, grid, path[i]),
        toward(filled, grid, label, m).distances()[path[i]] < INFINITY_BITS,
    decreases path.len() - i,
{
    let p = toward(filled, grid, label, m);
    let c = path[i];
    if i == path.len() - 1 {
        law_distances_respect_walls(p, c);
    } else {
        lemma_outlet_reaches(filled, grid, label, count, m, path, i + 1);
        let n = path[i + 1];
        assert(level_step(filled, grid, c, n));
        let k = choose|k: int| 0 <= k < DIRECTIONS && #[trigger] grid.neighbor(c, k) == Some(n);
        assert(level_with(filled, grid, c, k));
        assert(is_flat(filled, grid, c));
        let step = seq![c, n];
        assert(level_way(filled, grid, step, c, n));
        assert(same_flat(filled, grid, c, n));
        assert(label[c] == label[n]);
        assert(p.joined(c, k));
    }
}

/// A flat with an outlet drains from every cell: once the sweeps have spread, each of its cells has
/// a strictly lower neighbour after resolution, unless it drains off the grid.
pub proof fn law_flat_with_an_outlet_drains(
    filled: Seq<i32>,
    grid: Grid,
    label: Seq<usize>,
    count: usize,
    m: ReliefMath,
    g: Gauge,
    c: int,
    outlet: int,
)
    requires
        grid.wf(),
        filled.len() == grid.cells(),
        labelling(filled, grid, label, count),
        g.wf(),
        g.measures(m.upwind, m.bridge),
        spread(toward(filled, grid, label, m)),
        walls_are_even(filled, grid, label, m, g),
        relief_is_fine(filled, grid, label, m, g),
        0 <= c < grid.cells(),
        is_flat(filled, grid, c),
        !grid.on_boundary(c),
        same_flat(filled, grid, c, outlet),
        is_flat(filled, grid, outlet),
        is_defined(filled, grid, outlet),
    ensures
        exists|k: int|
            0 <= k < DIRECTIONS && #[trigger] above(resolved(filled, grid, label, m), grid, c, k),
{
    assert((m.upwind)(INFINITY_BITS, INFINITY_BITS) >= INFINITY_BITS);
    let path = choose|path: Seq<int>| #[trigger] level_way(filled, grid, path, c, outlet);
    lemma_outlet_reaches(filled, grid, label, count, m, path, 0);
    law_resolved_flats_drain(filled, grid, label, count, m, g, c);
}

} // verus!
