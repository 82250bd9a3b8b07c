//! Accumulations mapped to the unit range: against the largest, or across their own span.
use crate::functions::{computes2, total2};
use crate::hydrology::incise::{largest, largest_area, law_largest_area};
use crate::keys::INFINITY_BITS;
use vstd::prelude::*;

verus! {

/// The least of the first `k` values, and of `ceiling`.
pub open spec fn least(values: Seq<u32>, ceiling: u32, k: int) -> u32
    decreases k,
{
    if k <= 0 {
        ceiling
    } else {
        let best = least(values, ceiling, k - 1);
        if values[k - 1] < best {
            values[k - 1]
        } else {
            best
        }
    }
}

/// The span of an accumulation: its least value, and its largest.
pub open spec fn span_of(values: Seq<u32>) -> (u32, u32) {
    (
        least(values, INFINITY_BITS, values.len() as int),
        largest(values, 0, values.len() as int),
    )
}

/// The span of an accumulation. The values are the bits of floats that are not negative.
pub fn span(values: &Vec<u32>) -> (r: (u32, u32))
    ensures
        r == span_of(values@),
{
    let mut low: u32 = INFINITY_BITS;
    let mut i: usize = 0;
    while i < values.len()
        invariant
            i <= values@.len(),
            low == least(values@, INFINITY_BITS, i as int),
        decreases values.len() - i,
    {
        if values[i] < low {
            low = values[i];
        }
        i += 1;
    }
    (low, largest_area(values.as_slice(), 0))
}

/// An accumulation mapped against a fixed largest value: `map` of each value and the largest.
pub fn log_normalize<V, F: Fn(u32, u32) -> V>(values: &Vec<u32>, top: u32, map: &F) -> (r: Vec<V>)
    requires
        total2(*map),
    ensures
        r@.len() == values@.len(),
        forall|m: spec_fn(u32, u32) -> V| #[trigger]
            computes2(*map, m) ==> r@ == Seq::new(values@.len(), |c: int| m(values@[c], top)),
{
    let mut out: Vec<V> = Vec::with_capacity(values.len());
    let mut c: usize = 0;
    while c < values.len()
        invariant
            total2(*map),
            c <= values@.len(),
            out@.len() == c,
            forall|b: int| 0 <= b < c ==> call_ensures(*map, (values@[b], top), #[trigger] out@[b]),
        decreases values.len() - c,
    {
        let v: V = map(values[c], top);
        out.push(v);
        c += 1;
    }
    proof {
        assert forall|m: spec_fn(u32, u32) -> V| #[trigger] computes2(*map, m) implies out@
            == Seq::new(values@.len(), |c: int| m(values@[c], top)) by {
            assert(out@ =~= Seq::new(values@.len(), |c: int| m(values@[c], top)));
        }
    }
    out
}

/// An accumulation mapped across its own span: `map` of each value and the span.
pub fn log_normalize_span<V, F: Fn(u32, (u32, u32)) -> V>(values: &Vec<u32>, map: &F) -> (r: Vec<V>)
    requires
        total2(*map),
    ensures
        r@.len() == values@.len(),
        forall|m: spec_fn(u32, (u32, u32)) -> V| #[trigger]
            computes2(*map, m) ==> r@ == Seq::new(
                values@.len(),
                |c: int| m(values@[c], span_of(values@)),
            ),
{
    let ends: (u32, u32) = span(values);
    let mut out: Vec<V> = Vec::with_capacity(values.len());
    let mut c: usize = 0;
    while c < values.len()
        invariant
            total2(*map),
            c <= values@.len(),
            out@.len() == c,
            forall|b: int| 0 <= b < c ==> call_ensures(*map, (values@[b], ends), #[trigger] out@[b]),
        decreases values.len() - c,
    {
        let v: V = map(values[c], ends);
        out.push(v);
        c += 1;
    }
    proof {
        assert forall|m: spec_fn(u32, (u32, u32)) -> V| #[trigger] computes2(*map, m) implies out@
            == Seq::new(values@.len(), |c: int| m(values@[c], span_of(values@))) by {
            assert(out@ =~= Seq::new(values@.len(), |c: int| m(values@[c], span_of(values@))));
        }
    }
    out
}

/// Every value lies in the span, and the span's ends are values, where there is a finite value at
/// all.
pub proof fn law_span_is_tight(values: Seq<u32>, i: int)
    requires
        0 <= i < values.len(),
        forall|j: int| 0 <= j < values.len() ==> #[trigger] values[j] <= INFINITY_BITS,
    ensures
        span_of(values).0 <= values[i] <= span_of(values).1,
        values.contains(span_of(values).0),
        values.contains(span_of(values).1),
{
    let n = values.len() as int;
    law_largest_area(values, 0, n);
    lemma_least(values, n);
    if span_of(values).1 == 0 {
        assert(values[i] == span_of(values).1);
    }
    if span_of(values).0 == INFINITY_BITS {
        assert(values[i] == span_of(values).0);
    }
}

proof fn lemma_least(values: Seq<u32>, k: int)
    requires
        0 <= k <= values.len(),
        forall|j: int| 0 <= j < values.len() ==> #[trigger] values[j] <= INFINITY_BITS,
    ensures
        least(values, INFINITY_BITS, k) <= INFINITY_BITS,
        forall|i: int| 0 <= i < k ==> least(values, INFINITY_BITS, k) <= #[trigger] values[i],
        least(values, INFINITY_BITS, k) == INFINITY_BITS || exists|i: int|
            0 <= i < k && #[trigger] values[i] == least(values, INFINITY_BITS, k),
    decreases k,
{
    if k > 0 {
        lemma_least(values, k - 1);
        let best = least(values, INFINITY_BITS, k - 1);
        if values[k - 1] >= best && best != INFINITY_BITS {
            let i = choose|i: int| 0 <= i < k - 1 && #[trigger] values[i] == best;
            assert(values[i] == least(values, INFINITY_BITS, k));
        } else {
            assert(values[k - 1] == values[k - 1]);
        }
    }
}

} // verus!
