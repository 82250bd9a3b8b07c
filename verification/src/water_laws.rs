//! What the water simulation keeps over a flat bed, exactly and up to rounding.
use crate::grid::{law_neighbors_are_mutual, lemma_neighbor_in_range, opposite, Grid};
use crate::totals::{
    crossings, lemma_crossings_arrive, lemma_total_constant, lemma_total_multiple, lemma_total_sum,
    lemma_totals_near, near, not_below_zero, passes_on, total,
};
use crate::water_sim::{
    arriving, facing, inflow, piped, rained, side, simulated, stepped, Sided, Water,
    WaterMath, SIDES,
};
use vstd::prelude::*;

verus! {

/// The rates of a simulation: the rain of one step, the flow that a drop of one adds to a pipe, the
/// length of a step, and the share of the water that evaporates.
pub ghost struct WaterRates {
    pub rain: real,
    pub flow: real,
    pub step: real,
    pub evaporation: real,
}

impl WaterRates {
    /// Rain adds, time advances, and no more evaporates than there is.
    pub open spec fn wf(self) -> bool {
        &&& self.rain >= 0 as real
        &&& self.step > 0 as real
        &&& 0 as real <= self.evaporation <= 1 as real
    }
}

/// The sum over the four sides.
pub open spec fn four<V>(v: spec_fn(V) -> real, s: Sided<V>) -> real {
    v(s.0) + v(s.1) + v(s.2) + v(s.3)
}

/// How far outflows of the sum `out` are scaled to leave no more than `depth`.
pub open spec fn scale(out: real, depth: real, step: real) -> real {
    if out > 0 as real && depth / (out * step) < 1 as real {
        depth / (out * step)
    } else {
        1 as real
    }
}

/// The arithmetic `m` is exact at the rates `w`, where a quantity has the value that `v` gives.
pub open spec fn exact_water<V>(m: WaterMath<V>, v: spec_fn(V) -> real, w: WaterRates) -> bool {
    &&& v(m.zero) == 0 as real
    &&& forall|d: V| v(#[trigger] (m.rain)(d)) == v(d) + w.rain
    &&& forall|b: V, d: V| v(#[trigger] (m.level)(b, d)) == v(b) + v(d)
    &&& forall|a: V, b: V| v(#[trigger] (m.mirror)(a, b)) == v(a) + v(a) - v(b)
    &&& forall|l: V, a: V, b: V| v(#[trigger] (m.pipe)(l, a, b)) == not_below_zero(
        v(l) + w.flow * (v(a) - v(b)),
    )
    &&& forall|f: Sided<V>, d: V, k: int|
        0 <= k < SIDES ==> v(#[trigger] side((m.limit)(f, d), k)) == v(side(f, k)) * scale(
            four(v, f),
            v(d),
            w.step,
        )
    &&& forall|d: V, i: Sided<V>, o: Sided<V>| v(#[trigger] (m.settle)(d, i, o)) == not_below_zero(
        (v(d) + w.step * (four(v, i) - four(v, o))) * (1 as real - w.evaporation),
    )
    &&& forall|t: V, d: V| v(#[trigger] (m.tally)(t, d)) == v(t) + v(d)
}

/// The sum over the cells.
pub open spec fn water_sum<V>(v: spec_fn(V) -> real, depth: Seq<V>) -> real {
    total(|c: int| v(depth[c]), 0, depth.len() as int)
}

/// The bed has one height everywhere.
pub open spec fn flat_bed<V>(v: spec_fn(V) -> real, bed: Seq<V>) -> bool {
    forall|a: int, b: int|
        0 <= a < bed.len() && 0 <= b < bed.len() ==> v(#[trigger] bed[a]) == v(#[trigger] bed[b])
}

/// A state with every cell in it, no depth or outflow below zero, and nothing flowing over the
/// edge.
pub open spec fn contained<V>(v: spec_fn(V) -> real, grid: Grid, s: Water<V>) -> bool {
    &&& s.depth.len() == grid.cells()
    &&& s.flux.len() == grid.cells()
    &&& s.tally.len() == grid.cells()
    &&& forall|c: int| 0 <= c < grid.cells() ==> v(#[trigger] s.depth[c]) >= 0 as real
    &&& forall|c: int, k: int|
        0 <= c < grid.cells() && 0 <= k < SIDES ==> v(#[trigger] side(s.flux[c], k)) >= 0 as real
    &&& forall|c: int, k: int|
        0 <= c < grid.cells() && 0 <= k < SIDES && (#[trigger] grid.neighbor(c, k)) is None ==> v(
            side(s.flux[c], k),
        ) == 0 as real
}

/// Scaled outflows are not below zero and leave no more than the depth.
proof fn lemma_scale(out: real, depth: real, step: real)
    requires
        out >= 0 as real,
        depth >= 0 as real,
        step > 0 as real,
    ensures
        scale(out, depth, step) >= 0 as real,
        step * (out * scale(out, depth, step)) <= depth,
{
    if out > 0 as real {
        assert(out * step > 0 as real) by (nonlinear_arith)
            requires
                out > 0 as real,
                step > 0 as real,
        ;
        let whole = out * step;
        let q = depth / whole;
        assert(q * whole == depth) by (nonlinear_arith)
            requires
                whole > 0 as real,
                q == depth / whole,
        ;
        assert(q >= 0 as real) by (nonlinear_arith)
            requires
                q * whole == depth,
                whole > 0 as real,
                depth >= 0 as real,
        ;
        let k = scale(out, depth, step);
        assert(k <= q);
        assert(step * (out * k) <= depth) by (nonlinear_arith)
            requires
                k <= q,
                q * (out * step) == depth,
                out * step > 0 as real,
        ;
    } else {
        assert(step * (out * (1 as real)) == 0 as real) by (nonlinear_arith)
            requires
                out == 0 as real,
        ;
    }
}

/// One step from `s` over `bed` rounds no value by more than `e`, where a quantity has the value
/// that `v` gives. What comparisons decide is exact: pipes, outflows and depths are not below zero, a
/// pipe at rest between level surfaces stays at rest, and a bed extrapolated from level ground is
/// level.
pub open spec fn rounds_water<V>(
    m: WaterMath<V>,
    v: spec_fn(V) -> real,
    w: WaterRates,
    e: real,
    bed: Seq<V>,
    grid: Grid,
    s: Water<V>,
) -> bool {
    let wet = rained(m, s.depth);
    let next = stepped(m, bed, grid, s);
    &&& e >= 0 as real
    &&& v(m.zero) == 0 as real
    &&& forall|a: V, b: V, d: V|
        v(a) == v(b) ==> v(#[trigger] (m.level)(a, d)) == v(#[trigger] (m.level)(b, d))
    &&& forall|a: int, b: int|
        0 <= a < bed.len() && 0 <= b < bed.len() && v(bed[a]) == v(bed[b]) ==> v(
            #[trigger] (m.mirror)(bed[a], bed[b]),
        ) == v(bed[a])
    &&& forall|l: V, a: V, b: V| v(#[trigger] (m.pipe)(l, a, b)) >= 0 as real
    &&& forall|l: V, a: V, b: V|
        v(l) == 0 as real && v(a) == v(b) ==> v(#[trigger] (m.pipe)(l, a, b)) == 0 as real
    &&& forall|f: Sided<V>, d: V, k: int|
        0 <= k < SIDES && v(side(f, k)) == 0 as real ==> v(#[trigger] side((m.limit)(f, d), k))
            == 0 as real
    &&& forall|f: Sided<V>, d: V, k: int|
        0 <= k < SIDES && v(side(f, k)) >= 0 as real && v(d) >= 0 as real ==> v(
            #[trigger] side((m.limit)(f, d), k),
        ) >= 0 as real
    &&& forall|d: V, i: Sided<V>, o: Sided<V>| v(#[trigger] (m.settle)(d, i, o)) >= 0 as real
    &&& forall|c: int|
        0 <= c < grid.cells() ==> v(#[trigger] wet[c]) >= 0 as real && near(
            v(wet[c]),
            v(s.depth[c]) + w.rain,
            e,
        )
    &&& forall|c: int|
        0 <= c < grid.cells() ==> w.step * four(v, #[trigger] next.flux[c]) <= v(wet[c]) + e
    &&& forall|c: int|
        0 <= c < grid.cells() ==> near(
            v(#[trigger] next.depth[c]),
            not_below_zero(
                (v(wet[c]) + w.step * (four(v, inflow(m.zero, next.flux, grid, c)) - four(
                    v,
                    next.flux[c],
                ))) * (1 as real - w.evaporation),
            ),
            e,
        )
    &&& forall|c: int|
        0 <= c < grid.cells() ==> near(
            v(#[trigger] next.tally[c]),
            v(s.tally[c]) + v(next.depth[c]),
            e,
        )
}

/// One cell of a step: its outflows are not below zero, and over a flat bed nothing leaves past the
/// edge.
proof fn lemma_outflow<V>(
    m: WaterMath<V>,
    v: spec_fn(V) -> real,
    w: WaterRates,
    e: real,
    bed: Seq<V>,
    grid: Grid,
    s: Water<V>,
    c: int,
)
    requires
        rounds_water(m, v, w, e, bed, grid, s),
        bed.len() == grid.cells(),
        flat_bed(v, bed),
        contained(v, grid, s),
        0 <= c < grid.cells(),
    ensures
        ({
            let o = stepped(m, bed, grid, s).flux[c];
            &&& forall|k: int| 0 <= k < SIDES ==> v(#[trigger] side(o, k)) >= 0 as real
            &&& forall|k: int|
                0 <= k < SIDES && (#[trigger] grid.neighbor(c, k)) is None ==> v(side(o, k))
                    == 0 as real
        }),
{
    let wet = rained(m, s.depth);
    let f = (
        piped(m, bed, wet, s.flux, grid, c, 0),
        piped(m, bed, wet, s.flux, grid, c, 1),
        piped(m, bed, wet, s.flux, grid, c, 2),
        piped(m, bed, wet, s.flux, grid, c, 3),
    );
    let o = stepped(m, bed, grid, s).flux[c];
    assert(o == (m.limit)(f, wet[c]));
    assert(v(wet[c]) >= 0 as real);
    assert forall|k: int| 0 <= k < SIDES implies v(#[trigger] side(o, k)) >= 0 as real && (
    grid.neighbor(c, k) is None ==> v(side(o, k)) == 0 as real) by {
        assert(side(f, k) == piped(m, bed, wet, s.flux, grid, c, k));
        assert(v(side((m.limit)(f, wet[c]), k)) >= 0 as real);
        if grid.neighbor(c, k) is None {
            let here = (m.level)(bed[c], wet[c]);
            let there = facing(m, bed, wet, grid, c, k);
            if grid.neighbor(c, opposite(k)) is Some {
                lemma_neighbor_in_range(grid, c, opposite(k));
                let b = grid.neighbor(c, opposite(k))->0;
                assert(v(bed[b]) == v(bed[c]));
                assert(v((m.mirror)(bed[c], bed[b])) == v(bed[c]));
            }
            assert(v(there) == v(here));
            assert(v(side(s.flux[c], k)) == 0 as real);
            assert(v(side((m.limit)(f, wet[c]), k)) == 0 as real);
        }
    }
}

/// What arrives over the four sides is not below zero.
proof fn lemma_inflow<V>(
    m: WaterMath<V>,
    v: spec_fn(V) -> real,
    w: WaterRates,
    e: real,
    bed: Seq<V>,
    grid: Grid,
    s: Water<V>,
    c: int,
)
    requires
        rounds_water(m, v, w, e, bed, grid, s),
        bed.len() == grid.cells(),
        flat_bed(v, bed),
        contained(v, grid, s),
        0 <= c < grid.cells(),
    ensures
        four(v, inflow(m.zero, stepped(m, bed, grid, s).flux, grid, c)) >= 0 as real,
{
    let out = stepped(m, bed, grid, s).flux;
    assert forall|j: int| 0 <= j < SIDES implies v(
        #[trigger] arriving(m.zero, out, grid, c, j),
    ) >= 0 as real by {
        if grid.neighbor(c, j) is Some {
            let b = grid.neighbor(c, j)->0;
            lemma_neighbor_in_range(grid, c, j);
            lemma_outflow(m, v, w, e, bed, grid, s, b);
            assert(0 <= opposite(j) < SIDES);
            assert(v(side(out[b], opposite(j))) >= 0 as real);
        }
    }
    assert(v(arriving(m.zero, out, grid, c, 0)) >= 0 as real);
    assert(v(arriving(m.zero, out, grid, c, 1)) >= 0 as real);
    assert(v(arriving(m.zero, out, grid, c, 2)) >= 0 as real);
    assert(v(arriving(m.zero, out, grid, c, 3)) >= 0 as real);
}

/// A depth that rounding alone takes below zero, and that is kept at zero, is off by no more than
/// the rounding.
proof fn lemma_settled_cell(wet: real, came: real, went: real, step: real, keep: real, e: real)
    requires
        step > 0 as real,
        0 as real <= keep <= 1 as real,
        came >= 0 as real,
        step * went <= wet + e,
        e >= 0 as real,
    ensures
        near(
            not_below_zero((wet + step * (came - went)) * keep),
            (wet + step * (came - went)) * keep,
            e,
        ),
{
    let left = wet + step * (came - went);
    assert(left >= -e) by (nonlinear_arith)
        requires
            left == wet + step * (came - went),
            step * went <= wet + e,
            came >= 0 as real,
            step > 0 as real,
    ;
    assert(left * keep >= -e) by (nonlinear_arith)
        requires
            left >= -e,
            e >= 0 as real,
            0 as real <= keep <= 1 as real,
    ;
}

/// Over a flat bed no water is lost but by rounding: a step that rounds by no more than `e` leaves a
/// contained state contained, and its water differs by no more than `e` three times for each cell
/// from that of the step before with the rain on every cell, less what evaporates.
pub proof fn law_flat_step_keeps_the_water_up_to_rounding<V>(
    m: WaterMath<V>,
    v: spec_fn(V) -> real,
    w: WaterRates,
    e: real,
    bed: Seq<V>,
    grid: Grid,
    s: Water<V>,
)
    requires
        w.wf(),
        rounds_water(m, v, w, e, bed, grid, s),
        bed.len() == grid.cells(),
        flat_bed(v, bed),
        contained(v, grid, s),
    ensures
        contained(v, grid, stepped(m, bed, grid, s)),
        near(
            water_sum(v, stepped(m, bed, grid, s).depth),
            (water_sum(v, s.depth) + w.rain * grid.cells() as real) * (1 as real - w.evaporation),
            3 as real * e * grid.cells() as real,
        ),
{
    let n = grid.cells() as int;
    let sides = SIDES as int;
    let wet = rained(m, s.depth);
    let next = stepped(m, bed, grid, s);
    let out = next.flux;
    let keep = 1 as real - w.evaporation;
    let goes = |c: int, j: int| v(side(out[c], j));
    let comes = |c: int, j: int| v(arriving(m.zero, out, grid, c, j));
    assert forall|j: int| 0 <= j < sides implies #[trigger] passes_on(grid, goes, comes, j) by {
        assert forall|c: int| 0 <= c < n implies match #[trigger] grid.neighbor(c, j) {
            Some(b) => goes(c, j) == comes(b, opposite(j)),
            None => goes(c, j) == 0 as real,
        } by {
            lemma_outflow(m, v, w, e, bed, grid, s, c);
            if grid.neighbor(c, j) is Some {
                law_neighbors_are_mutual(grid, c, j);
                assert(opposite(opposite(j)) == j);
            }
        }
    }
    lemma_crossings_arrive(grid, goes, comes, sides);
    let before = |c: int| v(s.depth[c]);
    let rain = |c: int| w.rain;
    let fresh = |c: int| before(c) + rain(c);
    let damp = |c: int| v(wet[c]);
    let away = |c: int| total(|j: int| goes(c, j), 0, sides);
    let here = |c: int| total(|j: int| comes(c, j), 0, sides);
    let less = |c: int| (-1 as real) * away(c);
    let net = |c: int| here(c) + less(c);
    let moved = |c: int| w.step * net(c);
    let settled = |c: int| damp(c) + moved(c);
    let kept = |c: int| keep * settled(c);
    let after = |c: int| v(next.depth[c]);
    assert forall|c: int| 0 <= c < n implies near(#[trigger] after(c), kept(c), e + e) by {
        lemma_inflow(m, v, w, e, bed, grid, s, c);
        let i = inflow(m.zero, out, grid, c);
        let o = out[c];
        reveal_with_fuel(total, 5);
        let row = |j: int| goes(c, j);
        let line = |j: int| comes(c, j);
        assert(total(row, 0, 4) == row(0) + row(1) + row(2) + row(3));
        assert(total(line, 0, 4) == line(0) + line(1) + line(2) + line(3));
        assert(away(c) == four(v, o));
        assert(here(c) == four(v, i));
        assert(w.step * four(v, next.flux[c]) <= v(wet[c]) + e);
        lemma_settled_cell(v(wet[c]), four(v, i), four(v, o), w.step, keep, e);
        let left = v(wet[c]) + w.step * (four(v, i) - four(v, o));
        assert(left * keep == keep * left) by (nonlinear_arith);
        assert(near(v(next.depth[c]), not_below_zero(left * keep), e));
        assert(settled(c) == left);
    }
    lemma_totals_near(after, kept, e + e, n);
    lemma_total_multiple(settled, kept, keep, 0, n);
    lemma_total_sum(damp, moved, settled, 0, n);
    lemma_total_multiple(net, moved, w.step, 0, n);
    lemma_total_sum(here, less, net, 0, n);
    lemma_total_multiple(away, less, -1 as real, 0, n);
    assert forall|c: int| 0 <= c < n implies near(#[trigger] damp(c), fresh(c), e) by {
        assert(near(v(wet[c]), v(s.depth[c]) + w.rain, e));
    }
    lemma_totals_near(damp, fresh, e, n);
    lemma_total_sum(before, rain, fresh, 0, n);
    lemma_total_constant(w.rain, n);
    let (gone, come) = (total(away, 0, n), total(here, 0, n));
    assert(gone == crossings(goes, n, sides));
    assert(come == crossings(comes, n, sides));
    assert((-1 as real) * gone == -gone) by (nonlinear_arith);
    assert(total(net, 0, n) == 0 as real);
    assert(w.step * (0 as real) == 0 as real) by (nonlinear_arith);
    let sum = water_sum(v, s.depth) + w.rain * grid.cells() as real;
    let cells = n as real;
    let (now, mid, old) = (total(after, 0, n), total(damp, 0, n), total(fresh, 0, n));
    assert(old == sum);
    assert(total(kept, 0, n) == keep * mid);
    assert(near(now, sum * keep, 3 as real * e * cells)) by (nonlinear_arith)
        requires
            near(now, keep * mid, (e + e) * cells),
            near(mid, sum, e * cells),
            0 as real <= keep <= 1 as real,
            e >= 0 as real,
            cells >= 0 as real,
    ;
    assert(water_sum(v, next.depth) == now);
    assert(contained(v, grid, next)) by {
        assert forall|c: int| 0 <= c < n implies v(#[trigger] next.depth[c]) >= 0 as real by {
            let i = inflow(m.zero, out, grid, c);
            assert(next.depth[c] == (m.settle)(wet[c], i, out[c]));
        }
        assert forall|c: int, k: int| 0 <= c < n && 0 <= k < SIDES implies v(
            #[trigger] side(next.flux[c], k),
        ) >= 0 as real by {
            lemma_outflow(m, v, w, e, bed, grid, s, c);
        }
        assert forall|c: int, k: int|
            0 <= c < n && 0 <= k < SIDES && (#[trigger] grid.neighbor(c, k)) is None implies v(
            side(next.flux[c], k),
        ) == 0 as real by {
            lemma_outflow(m, v, w, e, bed, grid, s, c);
        }
    }
}

/// From dry, over a flat bed, and where no step rounds by more than `e`: no depth is ever below
/// zero, nothing ever flows over the edge, each step keeps the water up to rounding, and each adds
/// its depth to the tally.
pub proof fn law_flat_bed_contains_the_water_up_to_rounding<V>(
    m: WaterMath<V>,
    v: spec_fn(V) -> real,
    w: WaterRates,
    e: real,
    bed: Seq<V>,
    grid: Grid,
    n: nat,
)
    requires
        w.wf(),
        bed.len() == grid.cells(),
        flat_bed(v, bed),
        forall|i: nat|
            i <= n ==> rounds_water(m, v, w, e, bed, grid, #[trigger] simulated(m, bed, grid, i)),
    ensures
        contained(v, grid, simulated(m, bed, grid, n)),
        ({
            let (now, next) = (
                simulated(m, bed, grid, n),
                simulated(m, bed, grid, (n + 1) as nat),
            );
            &&& near(
                water_sum(v, next.depth),
                (water_sum(v, now.depth) + w.rain * grid.cells() as real) * (1 as real
                    - w.evaporation),
                3 as real * e * grid.cells() as real,
            )
            &&& forall|c: int|
                0 <= c < grid.cells() ==> #[trigger] next.tally[c] == (m.tally)(
                    now.tally[c],
                    next.depth[c],
                ) && near(v(next.tally[c]), v(now.tally[c]) + v(next.depth[c]), e)
        }),
    decreases n,
{
    let now = simulated(m, bed, grid, n);
    assert(rounds_water(m, v, w, e, bed, grid, now));
    if n > 0 {
        let was = simulated(m, bed, grid, (n - 1) as nat);
        law_flat_bed_contains_the_water_up_to_rounding(m, v, w, e, bed, grid, (n - 1) as nat);
        assert(rounds_water(m, v, w, e, bed, grid, was));
        law_flat_step_keeps_the_water_up_to_rounding(m, v, w, e, bed, grid, was);
    }
    law_flat_step_keeps_the_water_up_to_rounding(m, v, w, e, bed, grid, now);
    assert(simulated(m, bed, grid, (n + 1) as nat) == stepped(m, bed, grid, now));
}

/// Exact arithmetic does not round.
proof fn lemma_exact_does_not_round<V>(
    m: WaterMath<V>,
    v: spec_fn(V) -> real,
    w: WaterRates,
    bed: Seq<V>,
    grid: Grid,
    s: Water<V>,
)
    requires
        w.wf(),
        exact_water(m, v, w),
        bed.len() == grid.cells(),
        contained(v, grid, s),
    ensures
        rounds_water(m, v, w, 0 as real, bed, grid, s),
{
    let wet = rained(m, s.depth);
    let next = stepped(m, bed, grid, s);
    let n = grid.cells() as int;
    assert forall|l: V, a: V, b: V| v(l) == 0 as real && v(a) == v(b) implies v(
        #[trigger] (m.pipe)(l, a, b),
    ) == 0 as real by {
        let drop = v(a) - v(b);
        assert(w.flow * drop == 0 as real) by (nonlinear_arith)
            requires
                drop == 0 as real,
        ;
    }
    assert forall|f: Sided<V>, d: V, k: int|
        0 <= k < SIDES && v(side(f, k)) == 0 as real implies v(
        #[trigger] side((m.limit)(f, d), k),
    ) == 0 as real by {
        let (x, by) = (v(side(f, k)), scale(four(v, f), v(d), w.step));
        assert(x * by == 0 as real) by (nonlinear_arith)
            requires
                x == 0 as real,
        ;
    }
    assert forall|f: Sided<V>, d: V, k: int|
        0 <= k < SIDES && v(side(f, k)) >= 0 as real && v(d) >= 0 as real implies v(
        #[trigger] side((m.limit)(f, d), k),
    ) >= 0 as real by {
        let out = four(v, f);
        let (x, by) = (v(side(f, k)), scale(out, v(d), w.step));
        if out > 0 as real {
            lemma_scale(out, v(d), w.step);
        }
        assert(x * by >= 0 as real) by (nonlinear_arith)
            requires
                x >= 0 as real,
                by >= 0 as real,
        ;
    }
    assert forall|c: int| 0 <= c < n implies v(#[trigger] wet[c]) >= 0 as real && near(
        v(wet[c]),
        v(s.depth[c]) + w.rain,
        0 as real,
    ) by {
        assert(wet[c] == (m.rain)(s.depth[c]));
    }
    assert forall|c: int| 0 <= c < n implies w.step * four(v, #[trigger] next.flux[c]) <= v(
        wet[c],
    ) + 0 as real by {
        let f = (
            piped(m, bed, wet, s.flux, grid, c, 0),
            piped(m, bed, wet, s.flux, grid, c, 1),
            piped(m, bed, wet, s.flux, grid, c, 2),
            piped(m, bed, wet, s.flux, grid, c, 3),
        );
        let o = next.flux[c];
        assert(v(wet[c]) >= 0 as real);
        assert(o == (m.limit)(f, wet[c]));
        let (a, b, p, q) = (v(f.0), v(f.1), v(f.2), v(f.3));
        let by = scale(four(v, f), v(wet[c]), w.step);
        lemma_scale(four(v, f), v(wet[c]), w.step);
        assert(v(side(o, 0)) == v(side(f, 0)) * by && v(side(o, 1)) == v(side(f, 1)) * by && v(
            side(o, 2),
        ) == v(side(f, 2)) * by && v(side(o, 3)) == v(side(f, 3)) * by);
        assert(a * by + b * by + p * by + q * by == (a + b + p + q) * by) by (nonlinear_arith);
        assert(four(v, o) == four(v, f) * by);
    }
}

/// Over a flat bed no water is lost: where the arithmetic is exact, a step from a contained state
/// leaves a contained state, and its water is that of the step before with the rain on every cell,
/// less what evaporates.
pub proof fn law_flat_step_keeps_the_water<V>(
    m: WaterMath<V>,
    v: spec_fn(V) -> real,
    w: WaterRates,
    bed: Seq<V>,
    grid: Grid,
    s: Water<V>,
)
    requires
        w.wf(),
        exact_water(m, v, w),
        bed.len() == grid.cells(),
        flat_bed(v, bed),
        contained(v, grid, s),
    ensures
        contained(v, grid, stepped(m, bed, grid, s)),
        water_sum(v, stepped(m, bed, grid, s).depth) == (water_sum(v, s.depth) + w.rain
            * grid.cells() as real) * (1 as real - w.evaporation),
{
    lemma_exact_does_not_round(m, v, w, bed, grid, s);
    law_flat_step_keeps_the_water_up_to_rounding(m, v, w, 0 as real, bed, grid, s);
    let cells = grid.cells() as real;
    assert(3 as real * (0 as real) * cells == 0 as real) by (nonlinear_arith);
}

/// From dry, over a flat bed, no depth is ever below zero, nothing ever flows over the edge, and
/// each step adds its depth to the tally, where the arithmetic is exact.
pub proof fn law_flat_bed_contains_the_water<V>(
    m: WaterMath<V>,
    v: spec_fn(V) -> real,
    w: WaterRates,
    bed: Seq<V>,
    grid: Grid,
    n: nat,
)
    requires
        w.wf(),
        exact_water(m, v, w),
        bed.len() == grid.cells(),
        flat_bed(v, bed),
    ensures
        contained(v, grid, simulated(m, bed, grid, n)),
        ({
            let (now, next) = (
                simulated(m, bed, grid, n),
                simulated(m, bed, grid, (n + 1) as nat),
            );
            &&& water_sum(v, next.depth) == (water_sum(v, now.depth) + w.rain
                * grid.cells() as real) * (1 as real - w.evaporation)
            &&& forall|c: int|
                0 <= c < grid.cells() ==> v(#[trigger] next.tally[c]) == v(now.tally[c]) + v(
                    next.depth[c],
                )
        }),
    decreases n,
{
    if n > 0 {
        law_flat_bed_contains_the_water(m, v, w, bed, grid, (n - 1) as nat);
        law_flat_step_keeps_the_water(m, v, w, bed, grid, simulated(m, bed, grid, (n - 1) as nat));
    }
    law_flat_step_keeps_the_water(m, v, w, bed, grid, simulated(m, bed, grid, n));
}

/// The simulation over the real numbers.
pub open spec fn real_water(w: WaterRates) -> WaterMath<real> {
    WaterMath {
        zero: 0 as real,
        rain: |d: real| d + w.rain,
        level: |b: real, d: real| b + d,
        mirror: |here: real, back: real| here + here - back,
        pipe: |last: real, here: real, there: real|
            not_below_zero(last + w.flow * (here - there)),
        limit: |f: Sided<real>, d: real|
            {
                let by = scale(f.0 + f.1 + f.2 + f.3, d, w.step);
                (f.0 * by, f.1 * by, f.2 * by, f.3 * by)
            },
        settle: |d: real, i: Sided<real>, o: Sided<real>|
            not_below_zero(
                (d + w.step * ((i.0 + i.1 + i.2 + i.3) - (o.0 + o.1 + o.2 + o.3))) * (1 as real
                    - w.evaporation),
            ),
        tally: |t: real, d: real| t + d,
    }
}

/// Over the real numbers the arithmetic of the simulation is exact.
pub proof fn law_real_water_is_exact(w: WaterRates)
    ensures
        exact_water(real_water(w), |x: real| x, w),
{
}

} // verus!
