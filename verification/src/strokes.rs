//! Brush strokes composited onto a base, one after the other.
use crate::field::{Field, Layer, HEIGHT};
use crate::functions::{computes1, computes2, computes3, total1, total2, total3};
use crate::shaping::{lemma_rastered_at, value_at, value_or};
use vstd::prelude::*;

verus! {

/// What a stroke does where it covers a cell.
#[derive(Clone, Copy, Debug, PartialEq, Eq, Structural)]
pub enum StrokeMode {
    /// Paints, or raises.
    Paint,
    /// Erases, or lowers.
    Erase,
}

/// The arithmetic of compositing, as executable functions.
pub struct StrokeFns<B, C, P, E, F> {
    /// What the composite starts from, for a base value.
    pub begin: B,
    /// How much of itself stroke `i` puts on the cell at a column and row; `None` where it does not
    /// cover it.
    pub cover: C,
    /// A value painted by an amount.
    pub paint: P,
    /// A value erased by an amount.
    pub erase: E,
    /// The value after the last stroke.
    pub end: F,
}

/// The arithmetic of compositing.
#[verifier::reject_recursive_types(V)]
#[verifier::reject_recursive_types(A)]
pub ghost struct StrokeMath<V, A> {
    pub begin: spec_fn(V) -> V,
    pub cover: spec_fn(usize, usize, usize) -> Option<A>,
    pub paint: spec_fn(V, A) -> V,
    pub erase: spec_fn(V, A) -> V,
    pub end: spec_fn(V) -> V,
}

/// The executable functions accept every argument.
pub open spec fn strokes_total<
    V,
    A,
    B: Fn(V) -> V,
    C: Fn(usize, usize, usize) -> Option<A>,
    P: Fn(V, A) -> V,
    E: Fn(V, A) -> V,
    F: Fn(V) -> V,
>(f: StrokeFns<B, C, P, E, F>) -> bool {
    &&& total1(f.begin)
    &&& total3(f.cover)
    &&& total2(f.paint)
    &&& total2(f.erase)
    &&& total1(f.end)
}

/// The executable functions compute the arithmetic `m`.
pub open spec fn strokes_math<
    V,
    A,
    B: Fn(V) -> V,
    C: Fn(usize, usize, usize) -> Option<A>,
    P: Fn(V, A) -> V,
    E: Fn(V, A) -> V,
    F: Fn(V) -> V,
>(m: StrokeMath<V, A>, f: StrokeFns<B, C, P, E, F>) -> bool {
    &&& computes1(f.begin, m.begin)
    &&& computes3(f.cover, m.cover)
    &&& computes2(f.paint, m.paint)
    &&& computes2(f.erase, m.erase)
    &&& computes1(f.end, m.end)
}

/// The value of a cell after the first `n` strokes.
pub open spec fn stroked<V, A>(
    m: StrokeMath<V, A>,
    modes: Seq<StrokeMode>,
    base: V,
    x: usize,
    y: usize,
    n: int,
) -> V
    decreases n,
{
    if n <= 0 {
        (m.begin)(base)
    } else {
        let v = stroked(m, modes, base, x, y, n - 1);
        match (m.cover)((n - 1) as usize, x, y) {
            None => v,
            Some(a) => match modes[n - 1] {
                StrokeMode::Paint => (m.paint)(v, a),
                StrokeMode::Erase => (m.erase)(v, a),
            },
        }
    }
}

/// The value of a cell after all strokes.
pub open spec fn composited<V, A>(
    m: StrokeMath<V, A>,
    modes: Seq<StrokeMode>,
    base: V,
    x: usize,
    y: usize,
) -> V {
    (m.end)(stroked(m, modes, base, x, y, modes.len() as int))
}

/// The value a composite starts from at a cell: the base's height, or `zero` without a base.
pub open spec fn base_at<V, R>(base: Option<&Field<V, R>>, zero: V, x: int, y: int) -> V {
    match base {
        Some(f) => value_at(f.layer_or_of(HEIGHT@, zero), x, y, zero),
        None => zero,
    }
}

/// Composites all strokes onto a base value at one cell.
pub fn composite_strokes<
    V: Copy,
    A: Copy,
    B: Fn(V) -> V,
    C: Fn(usize, usize, usize) -> Option<A>,
    P: Fn(V, A) -> V,
    E: Fn(V, A) -> V,
    F: Fn(V) -> V,
>(
    f: &StrokeFns<B, C, P, E, F>,
    modes: &Vec<StrokeMode>,
    base: V,
    x: usize,
    y: usize,
) -> (r: V)
    requires
        strokes_total(*f),
    ensures
        forall|m: StrokeMath<V, A>| #[trigger]
            strokes_math(m, *f) ==> r == composited(m, modes@, base, x, y),
{
    let mut v: V = (f.begin)(base);
    proof {
        assert forall|m: StrokeMath<V, A>| #[trigger] strokes_math(m, *f) implies v == stroked(
            m,
            modes@,
            base,
            x,
            y,
            0,
        ) by {
            assert(call_ensures(f.begin, (base,), v));
        }
    }
    let mut i: usize = 0;
    while i < modes.len()
        invariant
            strokes_total(*f),
            i <= modes@.len(),
            forall|m: StrokeMath<V, A>| #[trigger]
                strokes_math(m, *f) ==> v == stroked(m, modes@, base, x, y, i as int),
        decreases modes.len() - i,
    {
        let c: Option<A> = (f.cover)(i, x, y);
        let ghost was = v;
        if let Some(a) = c {
            v = match modes[i] {
                StrokeMode::Paint => (f.paint)(v, a),
                StrokeMode::Erase => (f.erase)(v, a),
            };
        }
        proof {
            assert forall|m: StrokeMath<V, A>| #[trigger] strokes_math(m, *f) implies v == stroked(
                m,
                modes@,
                base,
                x,
                y,
                i + 1,
            ) by {
                assert(call_ensures(f.cover, (i, x, y), c));
                if let Some(a) = c {
                    match modes@[i as int] {
                        StrokeMode::Paint => {
                            assert(call_ensures(f.paint, (was, a), v));
                        },
                        StrokeMode::Erase => {
                            assert(call_ensures(f.erase, (was, a), v));
                        },
                    }
                }
            }
        }
        i += 1;
    }
    let r: V = (f.end)(v);
    proof {
        assert forall|m: StrokeMath<V, A>| #[trigger] strokes_math(m, *f) implies r == composited(
            m,
            modes@,
            base,
            x,
            y,
        ) by {
            assert(call_ensures(f.end, (v,), r));
        }
    }
    r
}

/// A layer of the composite at every cell. `base` is the height to start from.
pub fn stroke_layer<
    V: Copy,
    A: Copy,
    B: Fn(V) -> V,
    C: Fn(usize, usize, usize) -> Option<A>,
    P: Fn(V, A) -> V,
    E: Fn(V, A) -> V,
    F: Fn(V) -> V,
>(
    f: &StrokeFns<B, C, P, E, F>,
    modes: &Vec<StrokeMode>,
    base: Option<&Layer<V>>,
    zero: V,
    width: usize,
    height: usize,
) -> (r: Layer<V>)
    requires
        width * height <= usize::MAX,
        strokes_total(*f),
        base matches Some(b) ==> b@.wf(),
    ensures
        r@.width == width,
        r@.height == height,
        r@.wf(),
        forall|m: StrokeMath<V, A>, x: int, y: int|
            #![trigger strokes_math(m, *f), r@.at(x, y)]
            strokes_math(m, *f) && 0 <= x < width && 0 <= y < height ==> r@.at(x, y) == Some(
                composited(
                    m,
                    modes@,
                    match base {
                        Some(b) => value_at(b@, x, y, zero),
                        None => zero,
                    },
                    x as usize,
                    y as usize,
                ),
            ),
{
    let cell = |x: usize, y: usize| -> (v: V)
        ensures
            forall|m: StrokeMath<V, A>| #[trigger]
                strokes_math(m, *f) ==> v == composited(
                    m,
                    modes@,
                    match base {
                        Some(b) => value_at(b@, x as int, y as int, zero),
                        None => zero,
                    },
                    x,
                    y,
                ),
        {
            let from: V = match base {
                Some(b) => value_or(b, x, y, zero),
                None => zero,
            };
            composite_strokes(f, modes, from, x, y)
        };
    let r: Layer<V> = Layer::from_fn(width, height, &cell);
    proof {
        assert forall|m: StrokeMath<V, A>, x: int, y: int|
            #![trigger strokes_math(m, *f), r@.at(x, y)]
            strokes_math(m, *f) && 0 <= x < width && 0 <= y < height implies r@.at(x, y) == Some(
            composited(
                m,
                modes@,
                match base {
                    Some(b) => value_at(b@, x, y, zero),
                    None => zero,
                },
                x as usize,
                y as usize,
            ),
        ) by {
            lemma_rastered_at(r@, width, height, cell, x, y);
        }
    }
    r
}

/// A cell that no stroke covers keeps what the composite starts from.
pub proof fn law_uncovered_cell_is_kept<V, A>(
    m: StrokeMath<V, A>,
    modes: Seq<StrokeMode>,
    base: V,
    x: usize,
    y: usize,
    n: int,
)
    requires
        0 <= n <= modes.len(),
        forall|i: int| 0 <= i < n ==> #[trigger] (m.cover)(i as usize, x, y) is None,
    ensures
        stroked(m, modes, base, x, y, n) == (m.begin)(base),
    decreases n,
{
    if n > 0 {
        law_uncovered_cell_is_kept(m, modes, base, x, y, n - 1);
        assert((m.cover)((n - 1) as usize, x, y) is None);
    }
}

/// Strokes act in order: what the first `n` leave is what the stroke after them works on, whatever
/// strokes follow.
pub proof fn law_later_strokes_do_not_matter<V, A>(
    m: StrokeMath<V, A>,
    modes: Seq<StrokeMode>,
    more: Seq<StrokeMode>,
    base: V,
    x: usize,
    y: usize,
    n: int,
)
    requires
        0 <= n <= modes.len(),
    ensures
        stroked(m, modes + more, base, x, y, n) == stroked(m, modes, base, x, y, n),
    decreases n,
{
    if n > 0 {
        law_later_strokes_do_not_matter(m, modes, more, base, x, y, n - 1);
        assert((modes + more)[n - 1] == modes[n - 1]);
    }
}

} // verus!
