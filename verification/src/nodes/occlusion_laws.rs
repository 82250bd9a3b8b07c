//! What the horizons of a cell are.
use crate::nodes::occlusion::{horizons, marched, MarchMath, Scene};
use crate::shaping::value_at;
use crate::totals::total;
use vstd::prelude::*;

verus! {

/// The sample of ray `k` from `(x, y)` after `s` steps lies on the field.
pub open spec fn on_field<V, A>(
    m: MarchMath<V, A>,
    o: Scene<V>,
    k: usize,
    x: usize,
    y: usize,
    s: int,
) -> bool {
    let (sx, sy) = (m.at)(k, x, y, s as usize);
    0 <= sx < o.width && 0 <= sy < o.height
}

/// The ray is still on the field after `s` steps, and was after every step before.
pub open spec fn reaches<V, A>(
    m: MarchMath<V, A>,
    o: Scene<V>,
    k: usize,
    x: usize,
    y: usize,
    s: int,
) -> bool {
    forall|t: int| 1 <= t <= s ==> #[trigger] on_field(m, o, k, x, y, t)
}

/// The slope from `(x, y)` to the sample of ray `k` after `s` steps.
pub open spec fn slope_at<V, A>(
    m: MarchMath<V, A>,
    o: Scene<V>,
    slope: spec_fn(V, V, usize) -> A,
    k: usize,
    x: usize,
    y: usize,
    s: int,
) -> A {
    let (sx, sy) = (m.at)(k, x, y, s as usize);
    slope(
        value_at(o.h, sx as int, sy as int, o.zero),
        value_at(o.h, x as int, y as int, o.zero),
        s as usize,
    )
}

/// Lifting a horizon gives the steeper of it and of the slope to a sample, as `v` measures
/// steepness.
pub open spec fn lifts_to_the_steeper<V, A>(
    m: MarchMath<V, A>,
    slope: spec_fn(V, V, usize) -> A,
    v: spec_fn(A) -> real,
) -> bool {
    forall|a: A, there: V, here: V, s: usize|
        #[trigger] (m.lift)(a, there, here, s) == if v(slope(there, here, s)) > v(a) {
            slope(there, here, s)
        } else {
            a
        }
}

/// The horizon marched on from step `s` with a horizon already there.
proof fn lemma_marched<V, A>(
    m: MarchMath<V, A>,
    o: Scene<V>,
    slope: spec_fn(V, V, usize) -> A,
    v: spec_fn(A) -> real,
    k: usize,
    x: usize,
    y: usize,
    start: A,
    s: int,
    reach: int,
)
    requires
        lifts_to_the_steeper(m, slope, v),
        1 <= s,
        reaches(m, o, k, x, y, s - 1),
    ensures
        ({
            let r = marched(m, o, k, x, y, start, s, reach);
            &&& v(r) >= v(start)
            &&& forall|t: int|
                s <= t <= reach && #[trigger] reaches(m, o, k, x, y, t) ==> v(r) >= v(
                    slope_at(m, o, slope, k, x, y, t),
                )
            &&& r == start || exists|t: int|
                s <= t <= reach && reaches(m, o, k, x, y, t) && r == #[trigger] slope_at(
                    m,
                    o,
                    slope,
                    k,
                    x,
                    y,
                    t,
                )
        }),
    decreases reach + 1 - s,
{
    let r = marched(m, o, k, x, y, start, s, reach);
    if s <= reach {
        if on_field(m, o, k, x, y, s) {
            let (sx, sy) = (m.at)(k, x, y, s as usize);
            let here = value_at(o.h, x as int, y as int, o.zero);
            let there = value_at(o.h, sx as int, sy as int, o.zero);
            let next = (m.lift)(start, there, here, s as usize);
            let here_slope = slope_at(m, o, slope, k, x, y, s);
            assert(next == start || next == here_slope);
            assert(v(next) >= v(here_slope) && v(next) >= v(start));
            assert(reaches(m, o, k, x, y, s));
            lemma_marched(m, o, slope, v, k, x, y, next, s + 1, reach);
            assert(r == marched(m, o, k, x, y, next, s + 1, reach));
            assert forall|t: int| s <= t <= reach && #[trigger] reaches(m, o, k, x, y, t) implies v(
                r,
            ) >= v(slope_at(m, o, slope, k, x, y, t)) by {}
            if r == next && next != start {
                assert(r == slope_at(m, o, slope, k, x, y, s));
            }
        } else {
            assert(r == start);
            assert forall|t: int| s <= t <= reach && #[trigger] reaches(m, o, k, x, y, t) implies v(
                r,
            ) >= v(slope_at(m, o, slope, k, x, y, t)) by {
                assert(on_field(m, o, k, x, y, s));
            }
        }
    }
}

/// A ray's horizon is the steepest over all its samples on the field: it is no less steep than a
/// flat horizon, nor than the slope to any sample before the ray leaves the field or reaches its
/// end; and it is flat or the slope to one of them.
pub proof fn law_horizon_is_the_steepest_sample<V, A>(
    m: MarchMath<V, A>,
    o: Scene<V>,
    slope: spec_fn(V, V, usize) -> A,
    v: spec_fn(A) -> real,
    k: usize,
    x: usize,
    y: usize,
    reach: int,
)
    requires
        lifts_to_the_steeper(m, slope, v),
    ensures
        ({
            let r = marched(m, o, k, x, y, m.flat, 1, reach);
            &&& v(r) >= v(m.flat)
            &&& forall|t: int|
                1 <= t <= reach && #[trigger] reaches(m, o, k, x, y, t) ==> v(r) >= v(
                    slope_at(m, o, slope, k, x, y, t),
                )
            &&& r == m.flat || exists|t: int|
                1 <= t <= reach && reaches(m, o, k, x, y, t) && r == #[trigger] slope_at(
                    m,
                    o,
                    slope,
                    k,
                    x,
                    y,
                    t,
                )
        }),
{
    lemma_marched(m, o, slope, v, k, x, y, m.flat, 1, reach);
}

/// Marching farther never lowers a horizon.
pub proof fn law_marching_on_never_lowers<V, A>(
    m: MarchMath<V, A>,
    o: Scene<V>,
    slope: spec_fn(V, V, usize) -> A,
    v: spec_fn(A) -> real,
    k: usize,
    x: usize,
    y: usize,
    reach: int,
    farther: int,
)
    requires
        lifts_to_the_steeper(m, slope, v),
        0 <= reach <= farther,
    ensures
        v(marched(m, o, k, x, y, m.flat, 1, reach)) <= v(
            marched(m, o, k, x, y, m.flat, 1, farther),
        ),
{
    lemma_marched(m, o, slope, v, k, x, y, m.flat, 1, reach);
    lemma_marched(m, o, slope, v, k, x, y, m.flat, 1, farther);
    let r = marched(m, o, k, x, y, m.flat, 1, reach);
    if r != m.flat {
        let t = choose|t: int|
            1 <= t <= reach && reaches(m, o, k, x, y, t) && r == #[trigger] slope_at(
                m,
                o,
                slope,
                k,
                x,
                y,
                t,
            );
        assert(reaches(m, o, k, x, y, t));
    }
}

/// Every ray counts once: where a horizon adds its own worth `w` to a sum, the sum over `rays` rays
/// is the total of the worths of their horizons, each marched from a flat one over its whole reach.
pub proof fn law_every_ray_counts_once<V, A>(
    m: MarchMath<V, A>,
    o: Scene<V>,
    v: spec_fn(A) -> real,
    w: spec_fn(A) -> real,
    x: usize,
    y: usize,
    reach: int,
    rays: int,
)
    requires
        v(m.flat) == 0 as real,
        forall|a: A, b: A| v(#[trigger] (m.plus)(a, b)) == v(a) + w(b),
        0 <= rays <= usize::MAX,
    ensures
        v(horizons(m, o, x, y, reach, rays)) == total(
            |k: int| w(marched(m, o, k as usize, x, y, m.flat, 1, reach)),
            0,
            rays,
        ),
    decreases rays,
{
    if rays > 0 {
        law_every_ray_counts_once(m, o, v, w, x, y, reach, rays - 1);
    }
}

} // verus!
