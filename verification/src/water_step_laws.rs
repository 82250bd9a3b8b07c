//! What one step of the water simulation does over any bed.
use crate::grid::Grid;
use crate::grid_laws::law_axis_directions;
use crate::totals::not_below_zero;
use crate::water_laws::{exact_water, four, scale, WaterRates};
use crate::water_sim::{
    arriving, facing, inflow, piped, rained, side, simulated, stepped, Sided, Water, WaterMath,
};
use vstd::prelude::*;

verus! {

/// The cell left, right, above or below `c`, by rows of cells.
pub open spec fn beside(grid: Grid, c: int, k: int) -> Option<int> {
    let (x, y, w) = (c % (grid.width as int), c / (grid.width as int), grid.width as int);
    if k == 0 {
        if x > 0 {
            Some(c - 1)
        } else {
            None
        }
    } else if k == 1 {
        if x < w - 1 {
            Some(c + 1)
        } else {
            None
        }
    } else if k == 2 {
        if y > 0 {
            Some(c - w)
        } else {
            None
        }
    } else {
        if y < grid.height - 1 {
            Some(c + w)
        } else {
            None
        }
    }
}

/// The side across from side `k`.
pub open spec fn across(k: int) -> int {
    if k == 0 {
        1
    } else if k == 1 {
        0
    } else if k == 2 {
        3
    } else {
        2
    }
}

/// The value of a side, in the order left, right, above, below.
pub open spec fn part_of<V>(v: spec_fn(V) -> real, s: Sided<V>, k: int) -> real {
    if k == 0 {
        v(s.0)
    } else if k == 1 {
        v(s.1)
    } else if k == 2 {
        v(s.2)
    } else {
        v(s.3)
    }
}

/// The water surface at a cell after the rain.
pub open spec fn surface<V>(
    v: spec_fn(V) -> real,
    w: WaterRates,
    bed: Seq<V>,
    s: Water<V>,
    c: int,
) -> real {
    v(bed[c]) + v(s.depth[c]) + w.rain
}

/// The surface that cell `c` faces on side `k`: that of the cell beside it; past the edge its own
/// depth over the bed that goes on as it comes from the other side; where there is none, its own.
pub open spec fn faced<V>(
    v: spec_fn(V) -> real,
    w: WaterRates,
    bed: Seq<V>,
    grid: Grid,
    s: Water<V>,
    c: int,
    k: int,
) -> real {
    match beside(grid, c, k) {
        Some(n) => surface(v, w, bed, s, n),
        None => match beside(grid, c, across(k)) {
            Some(b) => surface(v, w, bed, s, c) + (v(bed[c]) - v(bed[b])),
            None => surface(v, w, bed, s, c),
        },
    }
}

/// What the pipe on side `k` would carry: what it carried, driven by the drop of the surface, and
/// never backward.
pub open spec fn driven<V>(
    v: spec_fn(V) -> real,
    w: WaterRates,
    bed: Seq<V>,
    grid: Grid,
    s: Water<V>,
    c: int,
    k: int,
) -> real {
    not_below_zero(
        part_of(v, s.flux[c], k) + w.flow * (surface(v, w, bed, s, c) - faced(
            v,
            w,
            bed,
            grid,
            s,
            c,
            k,
        )),
    )
}

/// What comes in over side `k`: what the cell there sends this way.
pub open spec fn comes_in<V>(
    v: spec_fn(V) -> real,
    grid: Grid,
    flux: Seq<Sided<V>>,
    c: int,
    k: int,
) -> real {
    match beside(grid, c, k) {
        Some(n) => part_of(v, flux[n], across(k)),
        None => 0 as real,
    }
}

/// The grid's directions are those of the sides.
proof fn lemma_beside(grid: Grid, c: int, k: int)
    requires
        0 <= c < grid.cells(),
        0 <= k < 4,
    ensures
        grid.neighbor(c, k) == beside(grid, c, k),
        crate::grid::opposite(k) == across(k),
{
    law_axis_directions(grid, c);
}

/// One step, cell by cell, where the arithmetic is exact: the pipe on each side follows the drop
/// from the cell's surface to the surface on that side, and the four are scaled together to the
/// water there; the depth changes by what the cells beside send this way and what leaves, less what
/// evaporates; and the tally grows by the new depth.
pub proof fn law_step_follows_the_surface<V>(
    m: WaterMath<V>,
    v: spec_fn(V) -> real,
    w: WaterRates,
    bed: Seq<V>,
    grid: Grid,
    s: Water<V>,
    c: int,
)
    requires
        exact_water(m, v, w),
        bed.len() == grid.cells(),
        s.depth.len() == grid.cells(),
        s.flux.len() == grid.cells(),
        s.tally.len() == grid.cells(),
        0 <= c < grid.cells(),
    ensures
        ({
            let next = stepped(m, bed, grid, s);
            let wet = v(s.depth[c]) + w.rain;
            let sum = driven(v, w, bed, grid, s, c, 0) + driven(v, w, bed, grid, s, c, 1) + driven(
                v,
                w,
                bed,
                grid,
                s,
                c,
                2,
            ) + driven(v, w, bed, grid, s, c, 3);
            let o = next.flux[c];
            let out = v(o.0) + v(o.1) + v(o.2) + v(o.3);
            let come = comes_in(v, grid, next.flux, c, 0) + comes_in(v, grid, next.flux, c, 1)
                + comes_in(v, grid, next.flux, c, 2) + comes_in(v, grid, next.flux, c, 3);
            &&& next.depth.len() == grid.cells()
            &&& next.flux.len() == grid.cells()
            &&& next.tally.len() == grid.cells()
            &&& v(o.0) == driven(v, w, bed, grid, s, c, 0) * scale(sum, wet, w.step)
            &&& v(o.1) == driven(v, w, bed, grid, s, c, 1) * scale(sum, wet, w.step)
            &&& v(o.2) == driven(v, w, bed, grid, s, c, 2) * scale(sum, wet, w.step)
            &&& v(o.3) == driven(v, w, bed, grid, s, c, 3) * scale(sum, wet, w.step)
            &&& v(next.depth[c]) == not_below_zero(
                (wet + w.step * (come - out)) * (1 as real - w.evaporation),
            )
            &&& v(next.tally[c]) == v(s.tally[c]) + v(next.depth[c])
        }),
{
    let next = stepped(m, bed, grid, s);
    let wet = rained(m, s.depth);
    let f = (
        piped(m, bed, wet, s.flux, grid, c, 0),
        piped(m, bed, wet, s.flux, grid, c, 1),
        piped(m, bed, wet, s.flux, grid, c, 2),
        piped(m, bed, wet, s.flux, grid, c, 3),
    );
    let o = next.flux[c];
    let i = inflow(m.zero, next.flux, grid, c);
    assert(wet[c] == (m.rain)(s.depth[c]));
    assert forall|k: int| 0 <= k < 4 implies v(#[trigger] side(f, k)) == driven(
        v,
        w,
        bed,
        grid,
        s,
        c,
        k,
    ) && v(side(i, k)) == comes_in(v, grid, next.flux, c, k) by {
        lemma_beside(grid, c, k);
        lemma_beside(grid, c, across(k));
        assert(side(f, k) == piped(m, bed, wet, s.flux, grid, c, k));
        let there = facing(m, bed, wet, grid, c, k);
        match grid.neighbor(c, k) {
            Some(n) => {
                crate::grid::lemma_neighbor_in_range(grid, c, k);
                assert(wet[n] == (m.rain)(s.depth[n]));
            },
            None => {},
        }
        assert(v(there) == faced(v, w, bed, grid, s, c, k));
        assert(side(i, k) == arriving(m.zero, next.flux, grid, c, k));
    }
    assert(o == (m.limit)(f, wet[c]));
    let sum = four(v, f);
    assert(v(side(f, 0)) == v(f.0) && v(side(f, 1)) == v(f.1) && v(side(f, 2)) == v(f.2) && v(
        side(f, 3),
    ) == v(f.3));
    assert(v(side(i, 0)) == v(i.0) && v(side(i, 1)) == v(i.1) && v(side(i, 2)) == v(i.2) && v(
        side(i, 3),
    ) == v(i.3));
    assert(v(side((m.limit)(f, wet[c]), 0)) == v(f.0) * scale(sum, v(wet[c]), w.step));
    assert(v(side((m.limit)(f, wet[c]), 1)) == v(f.1) * scale(sum, v(wet[c]), w.step));
    assert(v(side((m.limit)(f, wet[c]), 2)) == v(f.2) * scale(sum, v(wet[c]), w.step));
    assert(v(side((m.limit)(f, wet[c]), 3)) == v(f.3) * scale(sum, v(wet[c]), w.step));
    assert(next.depth[c] == (m.settle)(wet[c], i, o));
}

/// Water at rest runs only downhill: a pipe that carried nothing sends nothing toward a surface as
/// high as the cell's own or higher.
pub proof fn law_water_at_rest_runs_downhill<V>(
    m: WaterMath<V>,
    v: spec_fn(V) -> real,
    w: WaterRates,
    bed: Seq<V>,
    grid: Grid,
    s: Water<V>,
    c: int,
    k: int,
)
    requires
        exact_water(m, v, w),
        w.flow >= 0 as real,
        bed.len() == grid.cells(),
        s.depth.len() == grid.cells(),
        s.flux.len() == grid.cells(),
        s.tally.len() == grid.cells(),
        0 <= c < grid.cells(),
        0 <= k < 4,
        part_of(v, s.flux[c], k) == 0 as real,
        beside(grid, c, k) matches Some(n) && v(bed[n]) + v(s.depth[n]) >= v(bed[c]) + v(
            s.depth[c],
        ),
    ensures
        part_of(v, stepped(m, bed, grid, s).flux[c], k) == 0 as real,
{
    law_step_follows_the_surface(m, v, w, bed, grid, s, c);
    let drop = surface(v, w, bed, s, c) - faced(v, w, bed, grid, s, c, k);
    let f = w.flow;
    assert(f * drop <= 0 as real) by (nonlinear_arith)
        requires
            f >= 0 as real,
            drop <= 0 as real,
    ;
    let wet = v(s.depth[c]) + w.rain;
    let sum = driven(v, w, bed, grid, s, c, 0) + driven(v, w, bed, grid, s, c, 1) + driven(
        v,
        w,
        bed,
        grid,
        s,
        c,
        2,
    ) + driven(v, w, bed, grid, s, c, 3);
    let by = scale(sum, wet, w.step);
    assert((0 as real) * by == 0 as real) by (nonlinear_arith);
}

/// The simulation takes its steps one after the other: along any list of states, from dry, in which
/// each is the one before stepped once, the state after `n` steps is the last.
pub proof fn law_simulation_takes_its_steps<V>(
    m: WaterMath<V>,
    bed: Seq<V>,
    grid: Grid,
    states: Seq<Water<V>>,
)
    requires
        states.len() > 0,
        states[0].depth == Seq::new(grid.cells(), |c: int| m.zero),
        states[0].tally == Seq::new(grid.cells(), |c: int| m.zero),
        states[0].flux == Seq::new(grid.cells(), |c: int| (m.zero, m.zero, m.zero, m.zero)),
        forall|k: int|
            0 <= k < states.len() - 1 ==> #[trigger] states[k + 1] == stepped(
                m,
                bed,
                grid,
                states[k],
            ),
    ensures
        simulated(m, bed, grid, (states.len() - 1) as nat) == states.last(),
    decreases states.len(),
{
    if states.len() > 1 {
        let rest = states.drop_last();
        assert forall|k: int| 0 <= k < rest.len() - 1 implies #[trigger] rest[k + 1] == stepped(
            m,
            bed,
            grid,
            rest[k],
        ) by {
            assert(states[k + 1] == rest[k + 1]);
        }
        law_simulation_takes_its_steps(m, bed, grid, rest);
        assert(states[(states.len() - 2) + 1] == states.last());
    }
}

} // verus!
