//! The occlusion selector: how much of the sky the terrain around a cell hides.
use crate::field::{Field, Layer, Raster, HEIGHT};
use crate::functions::{computes1, computes2, computes4, total1, total2};
use crate::node::{
    int_param, port, unit_param, ContextDeps, Node, NodeSpec, ParamSpec, PortSpec, Unit,
};
use crate::shaping::{lemma_rastered_at, relayered, value_at, value_or};
use vstd::prelude::*;

verus! {

/// Occlusion selector: one input, one output. Writes the shelter measure to the height layer.
#[derive(Clone, Copy, Debug)]
pub struct Occlusion;

/// What the node declares.
pub open spec fn occlusion_node() -> Node {
    Node {
        type_id: "modifier.occlusion"@,
        category: "selector"@,
        tags: Seq::empty(),
        inputs: seq![port("in"@)],
        outputs: seq![port("out"@)],
        params: seq![
            unit_param("radius"@, 1_000_000, 100_000_000_000, 100_000_000, Unit::Meters),
            int_param("rays"@, 4, 64, 16),
        ],
        emitted_layers: Seq::empty(),
        mask_aware: false,
    }
}

impl Occlusion {
    /// The node's declaration.
    pub fn spec(&self) -> (r: NodeSpec)
        ensures
            r@ == occlusion_node(),
            r@.defaults_admitted(),
    {
        let r: NodeSpec = NodeSpec {
            type_id: "modifier.occlusion",
            category: "selector",
            tags: Vec::new(),
            inputs: vec![PortSpec::new("in")],
            outputs: vec![PortSpec::new("out")],
            params: vec![
                ParamSpec::number("radius", 1_000_000, 100_000_000_000, 100_000_000)
                    .with_unit(Unit::Meters),
                ParamSpec::integer("rays", 4, 64, 16),
            ],
            emitted_layers: Vec::new(),
            mask_aware: false,
        };
        assert(r@ =~= occlusion_node());
        r
    }

    /// Which world settings the node reads.
    pub fn context_deps(&self) -> (r: ContextDeps)
        ensures
            r == ContextDeps::Slope,
    {
        ContextDeps::Slope
    }
}

/// The rays asked for, within bounds.
pub open spec fn rays_of(requested: int) -> int {
    if requested < 4 {
        4
    } else if requested > 64 {
        64
    } else {
        requested
    }
}

/// How far a ray marches: at least one cell, and no farther than the field is long.
pub open spec fn reach_of(cells: int, width: int, height: int) -> int {
    let longest = if width >= height {
        width
    } else {
        height
    };
    if cells < 1 {
        1
    } else if cells > longest {
        longest
    } else {
        cells
    }
}

/// The arithmetic of a march, as executable functions.
pub struct MarchFns<A, P, L, G, E> {
    /// A flat horizon, and the sum of none.
    pub flat: A,
    /// Where ray `k` from the cell at a column and row is after some steps: a column and row, which
    /// may lie off the field.
    pub at: P,
    /// A horizon, raised by the height there as seen from the height here over some steps.
    pub lift: L,
    /// The sum with one horizon more.
    pub plus: G,
    /// The measure for a sum.
    pub measure: E,
}

/// The arithmetic of a march.
#[verifier::reject_recursive_types(V)]
#[verifier::reject_recursive_types(A)]
pub ghost struct MarchMath<V, A> {
    pub flat: A,
    pub at: spec_fn(usize, usize, usize, usize) -> (i64, i64),
    pub lift: spec_fn(A, V, V, usize) -> A,
    pub plus: spec_fn(A, A) -> A,
    pub measure: spec_fn(A) -> V,
}

/// The executable functions accept every argument that `rays` rays of at most `reach` steps over a
/// field of the given size hand them.
pub open spec fn march_total<
    V,
    A,
    P: Fn(usize, usize, usize, usize) -> (i64, i64),
    L: Fn(A, V, V, usize) -> A,
    G: Fn(A, A) -> A,
    E: Fn(A) -> V,
>(f: MarchFns<A, P, L, G, E>, size: (usize, usize), rays: usize, reach: usize) -> bool {
    &&& forall|k: usize, x: usize, y: usize, s: usize|
        k < rays && x < size.0 && y < size.1 && 1 <= s <= reach ==> #[trigger] call_requires(
            f.at,
            (k, x, y, s),
        )
    &&& forall|a: A, there: V, here: V, s: usize|
        1 <= s <= reach ==> #[trigger] call_requires(f.lift, (a, there, here, s))
    &&& total2(f.plus)
    &&& total1(f.measure)
}

/// The executable functions compute the arithmetic `m`.
pub open spec fn march_math<
    V,
    A,
    P: Fn(usize, usize, usize, usize) -> (i64, i64),
    L: Fn(A, V, V, usize) -> A,
    G: Fn(A, A) -> A,
    E: Fn(A) -> V,
>(m: MarchMath<V, A>, f: MarchFns<A, P, L, G, E>) -> bool {
    &&& m.flat == f.flat
    &&& computes4(f.at, m.at)
    &&& computes4(f.lift, m.lift)
    &&& computes2(f.plus, m.plus)
    &&& computes1(f.measure, m.measure)
}

/// What a march is over: the heights, the field's size, and the height past its edge.
#[verifier::reject_recursive_types(V)]
pub ghost struct Scene<V> {
    pub h: Raster<V>,
    pub width: int,
    pub height: int,
    pub zero: V,
}

/// The horizon of ray `k` from `(x, y)`, raised from `horizon` by the steps from `s` to `reach`. It
/// ends where the ray leaves the field.
pub open spec fn marched<V, A>(
    m: MarchMath<V, A>,
    o: Scene<V>,
    k: usize,
    x: usize,
    y: usize,
    horizon: A,
    s: int,
    reach: int,
) -> A
    decreases reach + 1 - s,
{
    if s > reach {
        horizon
    } else {
        let (sx, sy) = (m.at)(k, x, y, s as usize);
        if 0 <= sx < o.width && 0 <= sy < o.height {
            let here = value_at(o.h, x as int, y as int, o.zero);
            let there = value_at(o.h, sx as int, sy as int, o.zero);
            marched(m, o, k, x, y, (m.lift)(horizon, there, here, s as usize), s + 1, reach)
        } else {
            horizon
        }
    }
}

/// The sum of the horizons of the first `n` rays.
pub open spec fn horizons<V, A>(
    m: MarchMath<V, A>,
    o: Scene<V>,
    x: usize,
    y: usize,
    reach: int,
    n: int,
) -> A
    decreases n,
{
    if n <= 0 {
        m.flat
    } else {
        (m.plus)(
            horizons(m, o, x, y, reach, n - 1),
            marched(m, o, (n - 1) as usize, x, y, m.flat, 1, reach),
        )
    }
}

/// The horizon of one ray.
fn march<
    V: Copy,
    A: Copy,
    P: Fn(usize, usize, usize, usize) -> (i64, i64),
    L: Fn(A, V, V, usize) -> A,
    G: Fn(A, A) -> A,
    E: Fn(A) -> V,
>(
    h: &Layer<V>,
    size: (usize, usize),
    zero: V,
    f: &MarchFns<A, P, L, G, E>,
    k: usize,
    x: usize,
    y: usize,
    rays: usize,
    reach: usize,
) -> (r: A)
    requires
        h@.wf(),
        march_total(*f, size, rays, reach),
        k < rays,
        x < size.0,
        y < size.1,
        reach < usize::MAX,
    ensures
        forall|m: MarchMath<V, A>| #[trigger]
            march_math(m, *f) ==> r == marched(
                m,
                (Scene { h: h@, width: size.0 as int, height: size.1 as int, zero }),
                k,
                x,
                y,
                m.flat,
                1,
                reach as int,
            ),
{
    let ghost o = Scene { h: h@, width: size.0 as int, height: size.1 as int, zero };
    let here: V = value_or(h, x, y, zero);
    let mut horizon: A = f.flat;
    let mut s: usize = 1;
    while s <= reach
        invariant
            h@.wf(),
            march_total(*f, size, rays, reach),
            k < rays,
            x < size.0,
            y < size.1,
            reach < usize::MAX,
            1 <= s <= reach + 1,
            o == (Scene { h: h@, width: size.0 as int, height: size.1 as int, zero }),
            here == value_at(h@, x as int, y as int, zero),
            forall|m: MarchMath<V, A>| #[trigger]
                march_math(m, *f) ==> marched(m, o, k, x, y, m.flat, 1, reach as int) == marched(
                    m,
                    o,
                    k,
                    x,
                    y,
                    horizon,
                    s as int,
                    reach as int,
                ),
        decreases reach + 1 - s,
    {
        let (sx, sy): (i64, i64) = (f.at)(k, x, y, s);
        proof {
            assert forall|m: MarchMath<V, A>| #[trigger] march_math(m, *f) implies (m.at)(
                k,
                x,
                y,
                s,
            ) == (sx, sy) by {
                assert(call_ensures(f.at, (k, x, y, s), (sx, sy)));
            }
        }
        if sx < 0 || sy < 0 || sx as u64 >= size.0 as u64 || sy as u64 >= size.1 as u64 {
            return horizon;
        }
        let there: V = value_or(h, sx as usize, sy as usize, zero);
        let ghost was = horizon;
        horizon = (f.lift)(horizon, there, here, s);
        proof {
            assert forall|m: MarchMath<V, A>| #[trigger] march_math(m, *f) implies horizon
                == (m.lift)(was, there, here, s) by {
                assert(call_ensures(f.lift, (was, there, here, s), horizon));
            }
        }
        s += 1;
    }
    horizon
}

/// The sum of the horizons of all rays from a cell, as its measure.
fn shelter<
    V: Copy,
    A: Copy,
    P: Fn(usize, usize, usize, usize) -> (i64, i64),
    L: Fn(A, V, V, usize) -> A,
    G: Fn(A, A) -> A,
    E: Fn(A) -> V,
>(
    h: &Layer<V>,
    size: (usize, usize),
    zero: V,
    f: &MarchFns<A, P, L, G, E>,
    x: usize,
    y: usize,
    rays: usize,
    reach: usize,
) -> (r: V)
    requires
        h@.wf(),
        march_total(*f, size, rays, reach),
        x < size.0,
        y < size.1,
        reach < usize::MAX,
    ensures
        forall|m: MarchMath<V, A>| #[trigger]
            march_math(m, *f) ==> r == (m.measure)(
                horizons(
                    m,
                    (Scene { h: h@, width: size.0 as int, height: size.1 as int, zero }),
                    x,
                    y,
                    reach as int,
                    rays as int,
                ),
            ),
{
    let ghost o = Scene { h: h@, width: size.0 as int, height: size.1 as int, zero };
    let mut sum: A = f.flat;
    let mut k: usize = 0;
    while k < rays
        invariant
            h@.wf(),
            march_total(*f, size, rays, reach),
            x < size.0,
            y < size.1,
            reach < usize::MAX,
            k <= rays,
            o == (Scene { h: h@, width: size.0 as int, height: size.1 as int, zero }),
            forall|m: MarchMath<V, A>| #[trigger]
                march_math(m, *f) ==> sum == horizons(m, o, x, y, reach as int, k as int),
        decreases rays - k,
    {
        let horizon: A = march(h, size, zero, f, k, x, y, rays, reach);
        let ghost was = sum;
        sum = (f.plus)(sum, horizon);
        proof {
            assert forall|m: MarchMath<V, A>| #[trigger] march_math(m, *f) implies sum == horizons(
                m,
                o,
                x,
                y,
                reach as int,
                k + 1,
            ) by {
                assert(call_ensures(f.plus, (was, horizon), sum));
            }
        }
        k += 1;
    }
    let r: V = (f.measure)(sum);
    proof {
        assert forall|m: MarchMath<V, A>| #[trigger] march_math(m, *f) implies r == (m.measure)(
            horizons(m, o, x, y, reach as int, rays as int),
        ) by {
            assert(call_ensures(f.measure, (sum,), r));
        }
    }
    r
}

impl Occlusion {
    /// The rays asked for, within bounds.
    pub fn rays(requested: i64) -> (r: usize)
        ensures
            r == rays_of(requested as int),
    {
        if requested < 4 {
            4
        } else if requested > 64 {
            64
        } else {
            requested as usize
        }
    }

    /// How far a ray marches, in cells.
    pub fn reach(cells: usize, width: usize, height: usize) -> (r: usize)
        requires
            width > 0 || height > 0,
        ensures
            r == reach_of(cells as int, width as int, height as int),
            1 <= r,
    {
        let longest: usize = if width >= height {
            width
        } else {
            height
        };
        if cells < 1 {
            1
        } else if cells > longest {
            longest
        } else {
            cells
        }
    }

    /// Measures shelter: every height replaced by the measure of the horizons around it, `rays` of
    /// them, each marched over at most `reach` cells.
    pub fn eval<
        V: Copy,
        R: Copy,
        A: Copy,
        P: Fn(usize, usize, usize, usize) -> (i64, i64),
        L: Fn(A, V, V, usize) -> A,
        G: Fn(A, A) -> A,
        E: Fn(A) -> V,
    >(
        input: &Field<V, R>,
        zero: V,
        f: &MarchFns<A, P, L, G, E>,
        rays: usize,
        reach: usize,
    ) -> (r: Field<V, R>)
        requires
            input.wf(),
            march_total(*f, (input.width, input.height), rays, reach),
            reach < usize::MAX,
        ensures
            relayered(r, *input, HEIGHT@),
            forall|m: MarchMath<V, A>, x: int, y: int|
                #![trigger march_math(m, *f), r.layers()[HEIGHT@].at(x, y)]
                march_math(m, *f) && 0 <= x < input.width && 0 <= y < input.height
                    ==> r.layers()[HEIGHT@].at(x, y) == Some(
                    (m.measure)(
                        horizons(
                            m,
                            (Scene {
                                h: input.layer_or_of(HEIGHT@, zero),
                                width: input.width as int,
                                height: input.height as int,
                                zero,
                            }),
                            x as usize,
                            y as usize,
                            reach as int,
                            rays as int,
                        ),
                    ),
                ),
    {
        let h: Layer<V> = input.layer_or(HEIGHT, zero);
        let size: (usize, usize) = (input.width, input.height);
        let cell = |x: usize, y: usize| -> (v: V)
            requires
                x < size.0 && y < size.1,
            ensures
                forall|m: MarchMath<V, A>| #[trigger]
                    march_math(m, *f) ==> v == (m.measure)(
                        horizons(
                            m,
                            (Scene { h: h@, width: size.0 as int, height: size.1 as int, zero }),
                            x,
                            y,
                            reach as int,
                            rays as int,
                        ),
                    ),
            { shelter(&h, size, zero, f, x, y, rays, reach) };
        let r: Field<V, R> = input.reshaped(HEIGHT, &cell);
        proof {
            assert forall|m: MarchMath<V, A>, x: int, y: int|
                #![trigger march_math(m, *f), r.layers()[HEIGHT@].at(x, y)]
                march_math(m, *f) && 0 <= x < input.width && 0 <= y < input.height implies
                r.layers()[HEIGHT@].at(x, y) == Some(
                (m.measure)(
                    horizons(
                        m,
                        (Scene {
                            h: input.layer_or_of(HEIGHT@, zero),
                            width: input.width as int,
                            height: input.height as int,
                            zero,
                        }),
                        x as usize,
                        y as usize,
                        reach as int,
                        rays as int,
                    ),
                ),
            ) by {
                lemma_rastered_at(r.layers()[HEIGHT@], size.0, size.1, cell, x, y);
            }
        }
        r
    }
}

/// Ground with nothing higher in sight is open: where no cell of the field raises a flat horizon as
/// seen from `(x, y)`, every ray's horizon stays flat.
pub proof fn law_open_ground_has_a_flat_horizon<V, A>(
    m: MarchMath<V, A>,
    o: Scene<V>,
    k: usize,
    x: usize,
    y: usize,
    s: int,
    reach: int,
)
    requires
        forall|sx: int, sy: int, n: usize|
            0 <= sx < o.width && 0 <= sy < o.height ==> #[trigger] (m.lift)(
                m.flat,
                value_at(o.h, sx, sy, o.zero),
                value_at(o.h, x as int, y as int, o.zero),
                n,
            ) == m.flat,
    ensures
        marched(m, o, k, x, y, m.flat, s, reach) == m.flat,
    decreases reach + 1 - s,
{
    if s <= reach {
        law_open_ground_has_a_flat_horizon(m, o, k, x, y, s + 1, reach);
        let (sx, sy) = (m.at)(k, x, y, s as usize);
        if 0 <= sx < o.width && 0 <= sy < o.height {
            assert((m.lift)(
                m.flat,
                value_at(o.h, sx as int, sy as int, o.zero),
                value_at(o.h, x as int, y as int, o.zero),
                s as usize,
            ) == m.flat);
        }
    }
}

} // verus!
