//! Multiple-flow-direction drainage area.
//!
//! Areas, weights and their sums are non-negative and travel as bit patterns (see
//! [`crate::keys`]); the arithmetic on them is the caller's.
use crate::functions::{computes2, computes3, total2, total3};
use crate::grid::{is_diagonal, lemma_neighbor_in_range, Grid, DIRECTIONS};
use vstd::prelude::*;

verus! {

/// Cell `a` comes before cell `b` from the highest down: it is higher, or as high and earlier.
pub open spec fn ahead(filled: Seq<i32>, a: usize, b: usize) -> bool {
    filled[a as int] > filled[b as int] || (filled[a as int] == filled[b as int] && a < b)
}

/// A list in which every cell comes before those behind it.
pub open spec fn descending(filled: Seq<i32>, s: Seq<usize>) -> bool {
    forall|i: int, j: int| 0 <= i < j < s.len() ==> ahead(filled, #[trigger] s[i], #[trigger] s[j])
}

/// The cells `lo..hi` from the highest down, each once.
pub open spec fn sorted_range(filled: Seq<i32>, lo: int, hi: int, s: Seq<usize>) -> bool {
    &&& descending(filled, s)
    &&& forall|c: usize| #[trigger] s.contains(c) <==> lo <= c < hi
    &&& s.len() == hi - lo
}

/// Merges two descending lists without common cells.
fn merge(filled: &[i32], left: &Vec<usize>, right: &Vec<usize>) -> (out: Vec<usize>)
    requires
        descending(filled@, left@),
        descending(filled@, right@),
        left@.len() + right@.len() <= usize::MAX,
        forall|i: int| 0 <= i < left@.len() ==> #[trigger] left@[i] < filled@.len(),
        forall|i: int| 0 <= i < right@.len() ==> #[trigger] right@[i] < filled@.len(),
        forall|i: int, j: int|
            0 <= i < left@.len() && 0 <= j < right@.len() ==> #[trigger] left@[i]
                < #[trigger] right@[j],
    ensures
        descending(filled@, out@),
        out@.len() == left@.len() + right@.len(),
        forall|c: usize| #[trigger] out@.contains(c) <==> left@.contains(c) || right@.contains(c),
{
    let mut out: Vec<usize> = Vec::with_capacity(left.len() + right.len());
    let mut i: usize = 0;
    let mut j: usize = 0;
    while i < left.len() || j < right.len()
        invariant
            descending(filled@, left@),
            descending(filled@, right@),
            forall|a: int| 0 <= a < left@.len() ==> #[trigger] left@[a] < filled@.len(),
            forall|a: int| 0 <= a < right@.len() ==> #[trigger] right@[a] < filled@.len(),
            forall|a: int, b: int|
                0 <= a < left@.len() && 0 <= b < right@.len() ==> #[trigger] left@[a]
                    < #[trigger] right@[b],
            i <= left@.len(),
            j <= right@.len(),
            out@.len() == i + j,
            descending(filled@, out@),
            forall|a: int, b: int|
                0 <= a < out@.len() && i <= b < left@.len() ==> ahead(
                    filled@,
                    #[trigger] out@[a],
                    #[trigger] left@[b],
                ),
            forall|a: int, b: int|
                0 <= a < out@.len() && j <= b < right@.len() ==> ahead(
                    filled@,
                    #[trigger] out@[a],
                    #[trigger] right@[b],
                ),
            forall|c: usize| #[trigger]
                out@.contains(c) <==> left@.take(i as int).contains(c) || right@.take(
                    j as int,
                ).contains(c),
        decreases left@.len() - i + right@.len() - j,
    {
        let ghost was = out@;
        let from_left: bool = j >= right.len() || (i < left.len() && filled[left[i]]
            >= filled[right[j]]);
        if from_left {
            let c: usize = left[i];
            out.push(c);
            proof {
                lemma_push_contains(was, c);
                lemma_push_contains(left@.take(i as int), c);
                assert(left@.take(i + 1) =~= left@.take(i as int).push(c));
                if j < right@.len() {
                    assert(ahead(filled@, left@[i as int], right@[j as int]));
                    assert forall|b: int| j <= b < right@.len() implies ahead(
                        filled@,
                        c,
                        #[trigger] right@[b],
                    ) by {
                        if b > j {
                            assert(ahead(filled@, right@[j as int], right@[b]));
                        }
                    }
                }
            }
            i += 1;
        } else {
            let c: usize = right[j];
            out.push(c);
            proof {
                lemma_push_contains(was, c);
                lemma_push_contains(right@.take(j as int), c);
                assert(right@.take(j + 1) =~= right@.take(j as int).push(c));
                if i < left@.len() {
                    assert(ahead(filled@, right@[j as int], left@[i as int]));
                    assert forall|b: int| i <= b < left@.len() implies ahead(
                        filled@,
                        c,
                        #[trigger] left@[b],
                    ) by {
                        if b > i {
                            assert(ahead(filled@, left@[i as int], left@[b]));
                        }
                    }
                }
            }
            j += 1;
        }
    }
    proof {
        assert(left@.take(i as int) =~= left@);
        assert(right@.take(j as int) =~= right@);
    }
    out
}

/// What a list with one element more contains.
proof fn lemma_push_contains(s: Seq<usize>, c: usize)
    ensures
        forall|x: usize| #[trigger] s.push(c).contains(x) <==> s.contains(x) || x == c,
{
    assert forall|x: usize| #[trigger] s.push(c).contains(x) <==> s.contains(x) || x == c by {
        if s.contains(x) {
            let i = choose|i: int| 0 <= i < s.len() && s[i] == x;
            assert(s.push(c)[i] == x);
        }
        if x == c {
            assert(s.push(c)[s.len() as int] == x);
        }
    }
}

/// Sorts the cells `lo..hi` from the highest down.
fn sort_range(filled: &[i32], lo: usize, hi: usize) -> (r: Vec<usize>)
    requires
        lo <= hi <= filled@.len(),
    ensures
        sorted_range(filled@, lo as int, hi as int, r@),
    decreases hi - lo,
{
    if hi - lo <= 1 {
        let mut r: Vec<usize> = Vec::new();
        if lo < hi {
            r.push(lo);
            assert(r@ =~= seq![lo]);
            assert(r@[0] == lo);
        }
        return r;
    }
    let mid: usize = lo + (hi - lo) / 2;
    let left: Vec<usize> = sort_range(filled, lo, mid);
    let right: Vec<usize> = sort_range(filled, mid, hi);
    proof {
        assert forall|i: int| 0 <= i < left@.len() implies lo <= #[trigger] left@[i] < mid by {
            assert(left@.contains(left@[i]));
        }
        assert forall|i: int| 0 <= i < right@.len() implies mid <= #[trigger] right@[i] < hi by {
            assert(right@.contains(right@[i]));
        }
    }
    merge(filled, &left, &right)
}

/// The cells from the highest down, ties by index.
pub fn elevation_order(filled: &[i32]) -> (r: Vec<usize>)
    ensures
        sorted_range(filled@, 0, filled@.len() as int, r@),
{
    sort_range(filled, 0, filled.len())
}

/// Only one list holds the cells from the highest down.
pub proof fn law_elevation_order_is_unique(filled: Seq<i32>, s: Seq<usize>, t: Seq<usize>, n: int)
    requires
        sorted_range(filled, 0, n, s),
        sorted_range(filled, 0, n, t),
        n <= usize::MAX,
    ensures
        s == t,
{
    lemma_prefix_agrees(filled, s, t, n);
    assert(s =~= t);
}

/// Two such lists agree on every prefix.
proof fn lemma_prefix_agrees(filled: Seq<i32>, s: Seq<usize>, t: Seq<usize>, k: int)
    requires
        s.len() == t.len(),
        0 <= k <= s.len(),
        descending(filled, s),
        descending(filled, t),
        forall|c: usize| #[trigger] s.contains(c) <==> t.contains(c),
    ensures
        forall|i: int| 0 <= i < k ==> s[i] == t[i],
    decreases k,
{
    if k > 0 {
        lemma_prefix_agrees(filled, s, t, k - 1);
        let i = k - 1;
        if s[i] != t[i] {
            assert(s.contains(s[i]));
            assert(t.contains(s[i]));
            let a = choose|a: int| 0 <= a < t.len() && t[a] == s[i];
            assert(t.contains(t[i]));
            assert(s.contains(t[i]));
            let b = choose|b: int| 0 <= b < s.len() && s[b] == t[i];
            if a < i {
                assert(s[a] == t[a]);
                assert(ahead(filled, s[a], s[i]));
            } else if b < i {
                assert(s[b] == t[b]);
                assert(ahead(filled, t[b], t[i]));
            } else {
                assert(ahead(filled, t[i], t[a]));
                assert(ahead(filled, s[i], s[b]));
            }
        }
    }
}

/// The arithmetic of accumulation: the weight of a descent, the sum of two values, and the part of
/// an area that a weight draws out of a total of weights.
pub ghost struct AreaMath {
    pub weight: spec_fn(i32, i32, bool) -> u32,
    pub plus: spec_fn(u32, u32) -> u32,
    pub part: spec_fn(u32, u32, u32) -> u32,
}

/// The executable functions compute the arithmetic `m`.
pub open spec fn area_math<
    W: Fn(i32, i32, bool) -> u32,
    P: Fn(u32, u32) -> u32,
    Q: Fn(u32, u32, u32) -> u32,
>(m: AreaMath, weight: W, plus: P, part: Q) -> bool {
    computes3(weight, m.weight) && computes2(plus, m.plus) && computes3(part, m.part)
}

/// The neighbour of `c` in direction `k` is strictly lower.
pub open spec fn descends(filled: Seq<i32>, grid: Grid, c: int, k: int) -> bool {
    grid.neighbor(c, k) matches Some(n) && filled[n] < filled[c]
}

/// The weight of direction `k` from `c`: nothing but downhill.
pub open spec fn weight_of(filled: Seq<i32>, grid: Grid, m: AreaMath, c: int, k: int) -> u32 {
    if descends(filled, grid, c, k) {
        (m.weight)(filled[c], filled[grid.neighbor(c, k)->0], is_diagonal(k))
    } else {
        0
    }
}

/// The total weight of the first `k` directions from `c`.
pub open spec fn total_of(filled: Seq<i32>, grid: Grid, m: AreaMath, c: int, k: int) -> u32
    decreases k,
{
    if k <= 0 {
        0
    } else if descends(filled, grid, c, k - 1) {
        (m.plus)(total_of(filled, grid, m, c, k - 1), weight_of(filled, grid, m, c, k - 1))
    } else {
        total_of(filled, grid, m, c, k - 1)
    }
}

/// The areas after `c` has handed `area` to its first `k` directions.
pub open spec fn poured(
    filled: Seq<i32>,
    grid: Grid,
    m: AreaMath,
    areas: Seq<u32>,
    c: int,
    k: int,
) -> Seq<u32>
    decreases k,
{
    if k <= 0 {
        areas
    } else {
        let before = poured(filled, grid, m, areas, c, k - 1);
        let w = weight_of(filled, grid, m, c, k - 1);
        if w > 0 {
            let n = grid.neighbor(c, k - 1)->0;
            let total = total_of(filled, grid, m, c, DIRECTIONS as int);
            before.update(n, (m.plus)(before[n], (m.part)(areas[c], total, w)))
        } else {
            before
        }
    }
}

/// The areas after `c` has handed its own on, in proportion to the weights.
pub open spec fn passed_down(
    filled: Seq<i32>,
    grid: Grid,
    m: AreaMath,
    areas: Seq<u32>,
    c: int,
) -> Seq<u32> {
    if total_of(filled, grid, m, c, DIRECTIONS as int) > 0 {
        poured(filled, grid, m, areas, c, DIRECTIONS as int)
    } else {
        areas
    }
}

/// The areas after the first `i` cells of `order` have handed theirs on; each cell starts with its
/// own area.
pub open spec fn accumulated(
    filled: Seq<i32>,
    grid: Grid,
    m: AreaMath,
    cell: u32,
    order: Seq<usize>,
    i: int,
) -> Seq<u32>
    decreases i,
{
    if i <= 0 {
        Seq::new(grid.cells(), |c: int| cell)
    } else {
        passed_down(
            filled,
            grid,
            m,
            accumulated(filled, grid, m, cell, order, i - 1),
            order[i - 1] as int,
        )
    }
}

/// Drainage area: each cell starts with `cell`; from the highest down, a cell hands its area to
/// every lower neighbour in proportion to the weight of the descent.
pub fn drainage_area_mfd<
    W: Fn(i32, i32, bool) -> u32,
    P: Fn(u32, u32) -> u32,
    Q: Fn(u32, u32, u32) -> u32,
>(filled: &[i32], grid: &Grid, cell: u32, weight: &W, plus: &P, part: &Q) -> (r: Vec<u32>)
    requires
        grid.wf(),
        filled@.len() == grid.cells(),
        total3(*weight),
        total2(*plus),
        total3(*part),
    ensures
        r@.len() == grid.cells(),
        forall|m: AreaMath, order: Seq<usize>| #[trigger]
            area_math(m, *weight, *plus, *part) && #[trigger] sorted_range(
                filled@,
                0,
                grid.cells() as int,
                order,
            ) ==> r@ == accumulated(filled@, *grid, m, cell, order, grid.cells() as int),
{
    let n: usize = grid.len();
    let mut areas: Vec<u32> = vec![cell; n];
    let order: Vec<usize> = elevation_order(filled);
    proof {
        assert forall|m: AreaMath| #[trigger] area_math(m, *weight, *plus, *part) implies areas@
            == accumulated(filled@, *grid, m, cell, order@, 0) by {
            assert(areas@ =~= accumulated(filled@, *grid, m, cell, order@, 0));
        }
    }
    let mut i: usize = 0;
    while i < n
        invariant
            grid.wf(),
            n == grid.cells(),
            filled@.len() == n,
            areas@.len() == n,
            total3(*weight),
            total2(*plus),
            total3(*part),
            sorted_range(filled@, 0, n as int, order@),
            i <= n,
            forall|m: AreaMath| #[trigger]
                area_math(m, *weight, *plus, *part) ==> areas@ == accumulated(
                    filled@,
                    *grid,
                    m,
                    cell,
                    order@,
                    i as int,
                ),
        decreases n - i,
    {
        let c: usize = order[i];
        assert(order@.contains(order@[i as int]));
        let here: i32 = filled[c];
        let ghost start = areas@;
        let mut weights: Vec<u32> = Vec::with_capacity(DIRECTIONS);
        let mut total: u32 = 0;
        let mut k: usize = 0;
        while k < DIRECTIONS
            invariant
                grid.wf(),
                n == grid.cells(),
                filled@.len() == n,
                total3(*weight),
                total2(*plus),
                c < n,
                here == filled@[c as int],
                k <= DIRECTIONS,
                weights@.len() == k,
                forall|j: int|
                    0 <= j < k && #[trigger] weights@[j] > 0 ==> descends(
                        filled@,
                        *grid,
                        c as int,
                        j,
                    ),
                forall|m: AreaMath| #[trigger]
                    area_math(m, *weight, *plus, *part) ==> {
                        &&& total == total_of(filled@, *grid, m, c as int, k as int)
                        &&& forall|j: int|
                            0 <= j < k ==> #[trigger] weights@[j] == weight_of(
                                filled@,
                                *grid,
                                m,
                                c as int,
                                j,
                            )
                    },
            decreases DIRECTIONS - k,
        {
            let mut w: u32 = 0;
            let ghost was = total;
            match grid.neighbour(c, k) {
                Some(nc) => {
                    if filled[nc] < here {
                        w = weight(here, filled[nc], k >= 4);
                        total = plus(total, w);
                        proof {
                            assert forall|m: AreaMath| #[trigger]
                                area_math(m, *weight, *plus, *part) implies w == weight_of(
                                filled@,
                                *grid,
                                m,
                                c as int,
                                k as int,
                            ) && total == (m.plus)(was, w) by {
                                assert(call_ensures(
                                    *weight,
                                    (here, filled@[nc as int], k >= 4),
                                    w,
                                ));
                                assert(call_ensures(*plus, (was, w), total));
                            }
                        }
                    }
                },
                None => {},
            }
            weights.push(w);
            k += 1;
        }
        if total > 0 {
            let area: u32 = areas[c];
            let mut k: usize = 0;
            while k < DIRECTIONS
                invariant
                    grid.wf(),
                    n == grid.cells(),
                    filled@.len() == n,
                    areas@.len() == n,
                    total2(*plus),
                    total3(*part),
                    c < n,
                    start.len() == n,
                    area == start[c as int],
                    k <= DIRECTIONS,
                    weights@.len() == DIRECTIONS,
                    forall|j: int|
                        0 <= j < DIRECTIONS && #[trigger] weights@[j] > 0 ==> descends(
                            filled@,
                            *grid,
                            c as int,
                            j,
                        ),
                    forall|m: AreaMath| #[trigger]
                        area_math(m, *weight, *plus, *part) ==> {
                            &&& total == total_of(
                                filled@,
                                *grid,
                                m,
                                c as int,
                                DIRECTIONS as int,
                            )
                            &&& forall|j: int|
                                0 <= j < DIRECTIONS ==> #[trigger] weights@[j] == weight_of(
                                    filled@,
                                    *grid,
                                    m,
                                    c as int,
                                    j,
                                )
                            &&& areas@ == poured(filled@, *grid, m, start, c as int, k as int)
                        },
                decreases DIRECTIONS - k,
            {
                let w: u32 = weights[k];
                let ghost was = areas@;
                if w > 0 {
                    assert(descends(filled@, *grid, c as int, k as int));
                    match grid.neighbour(c, k) {
                        Some(nc) => {
                            let q: u32 = part(area, total, w);
                            let sum: u32 = plus(areas[nc], q);
                            areas.set(nc, sum);
                            proof {
                                assert forall|m: AreaMath| #[trigger]
                                    area_math(m, *weight, *plus, *part) implies areas@ == poured(
                                    filled@,
                                    *grid,
                                    m,
                                    start,
                                    c as int,
                                    k + 1,
                                ) by {
                                    assert(call_ensures(*part, (area, total, w), q));
                                    assert(call_ensures(*plus, (was[nc as int], q), sum));
                                    assert(weights@[k as int] == weight_of(
                                        filled@,
                                        *grid,
                                        m,
                                        c as int,
                                        k as int,
                                    ));
                                }
                            }
                        },
                        None => {},
                    }
                } else {
                    proof {
                        assert forall|m: AreaMath| #[trigger]
                            area_math(m, *weight, *plus, *part) implies areas@ == poured(
                            filled@,
                            *grid,
                            m,
                            start,
                            c as int,
                            k + 1,
                        ) by {
                            assert(weights@[k as int] == weight_of(
                                filled@,
                                *grid,
                                m,
                                c as int,
                                k as int,
                            ));
                        }
                    }
                }
                k += 1;
            }
        }
        proof {
            assert forall|m: AreaMath| #[trigger]
                area_math(m, *weight, *plus, *part) implies areas@ == accumulated(
                filled@,
                *grid,
                m,
                cell,
                order@,
                i + 1,
            ) by {
                assert(start == accumulated(filled@, *grid, m, cell, order@, i as int));
            }
        }
        i += 1;
    }
    proof {
        assert forall|m: AreaMath, other: Seq<usize>| #[trigger]
            area_math(m, *weight, *plus, *part) && #[trigger] sorted_range(
                filled@,
                0,
                grid.cells() as int,
                other,
            ) implies areas@ == accumulated(
            filled@,
            *grid,
            m,
            cell,
            other,
            grid.cells() as int,
        ) by {
            law_elevation_order_is_unique(filled@, order@, other, n as int);
        }
    }
    areas
}

/// Area is handed only downhill: handing on the area of `c` changes no cell but its strictly lower
/// neighbours.
pub proof fn law_area_runs_downhill(
    filled: Seq<i32>,
    grid: Grid,
    m: AreaMath,
    areas: Seq<u32>,
    c: int,
    b: int,
)
    requires
        areas.len() == grid.cells(),
        0 <= c < grid.cells(),
        0 <= b < grid.cells(),
    ensures
        passed_down(filled, grid, m, areas, c).len() == grid.cells(),
        passed_down(filled, grid, m, areas, c)[b] != areas[b] ==> filled[b] < filled[c]
            && grid.adjacent(c, b),
{
    lemma_poured(filled, grid, m, areas, c, b, DIRECTIONS as int);
}

/// The same, for the first `k` directions.
proof fn lemma_poured(
    filled: Seq<i32>,
    grid: Grid,
    m: AreaMath,
    areas: Seq<u32>,
    c: int,
    b: int,
    k: int,
)
    requires
        areas.len() == grid.cells(),
        0 <= c < grid.cells(),
        0 <= b < grid.cells(),
        0 <= k <= DIRECTIONS,
    ensures
        poured(filled, grid, m, areas, c, k).len() == grid.cells(),
        poured(filled, grid, m, areas, c, k)[b] != areas[b] ==> filled[b] < filled[c]
            && grid.adjacent(c, b),
    decreases k,
{
    if k > 0 {
        lemma_poured(filled, grid, m, areas, c, b, k - 1);
        if weight_of(filled, grid, m, c, k - 1) > 0 {
            lemma_neighbor_in_range(grid, c, k - 1);
        }
    }
}

/// A cell's area is complete before it is handed on: once the cell's turn has come, no later cell
/// adds to it.
pub proof fn law_area_is_complete_when_handed_on(
    filled: Seq<i32>,
    grid: Grid,
    m: AreaMath,
    cell: u32,
    order: Seq<usize>,
    i: int,
    j: int,
)
    requires
        grid.wf(),
        sorted_range(filled, 0, grid.cells() as int, order),
        0 <= i < j <= grid.cells(),
    ensures
        accumulated(filled, grid, m, cell, order, j)[order[i] as int] == accumulated(
            filled,
            grid,
            m,
            cell,
            order,
            i,
        )[order[i] as int],
    decreases j,
{
    assert(order.contains(order[i]));
    assert(order.contains(order[j - 1]));
    lemma_accumulated_len(filled, grid, m, cell, order, j - 1);
    let before = accumulated(filled, grid, m, cell, order, j - 1);
    law_area_runs_downhill(filled, grid, m, before, order[j - 1] as int, order[i] as int);
    if i < j - 1 {
        law_area_is_complete_when_handed_on(filled, grid, m, cell, order, i, j - 1);
        assert(ahead(filled, order[i], order[j - 1]));
    }
}

/// There is an area for every cell.
pub proof fn lemma_accumulated_len(
    filled: Seq<i32>,
    grid: Grid,
    m: AreaMath,
    cell: u32,
    order: Seq<usize>,
    i: int,
)
    requires
        sorted_range(filled, 0, grid.cells() as int, order),
        0 <= i <= grid.cells(),
    ensures
        accumulated(filled, grid, m, cell, order, i).len() == grid.cells(),
    decreases i,
{
    if i > 0 {
        lemma_accumulated_len(filled, grid, m, cell, order, i - 1);
        assert(order.contains(order[i - 1]));
        let before = accumulated(filled, grid, m, cell, order, i - 1);
        law_area_runs_downhill(
            filled,
            grid,
            m,
            before,
            order[i - 1] as int,
            order[i - 1] as int,
        );
    }
}

} // verus!
