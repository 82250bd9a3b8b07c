//! What the accumulation of area keeps, exactly and up to rounding.
use crate::grid::{lemma_neighbor_in_range, Grid, DIRECTIONS};
use crate::hydrology::area::{
    accumulated, ahead, descends, law_area_runs_downhill, lemma_accumulated_len, passed_down,
    poured, sorted_range, total_of, weight_of, AreaMath,
};
use crate::totals::{
    lemma_total_changed, lemma_total_constant, lemma_total_equal, lemma_total_sum, near, total,
};
use vstd::prelude::*;

verus! {

/// No neighbour of `c` is lower.
pub open spec fn is_bottom(filled: Seq<i32>, grid: Grid, c: int) -> bool {
    forall|k: int| 0 <= k < DIRECTIONS ==> !#[trigger] descends(filled, grid, c, k)
}

/// Where `c` hands its area on, each step is exact, where a quantity has the value that `v` gives:
/// a descent has a positive weight, the weights add up, each draws its proportion of the area, and
/// a neighbour grows by what it is handed.
pub open spec fn hands_on_exactly(
    filled: Seq<i32>,
    grid: Grid,
    m: AreaMath,
    v: spec_fn(u32) -> real,
    areas: Seq<u32>,
    c: int,
) -> bool {
    forall|k: int|
        0 <= k < DIRECTIONS && #[trigger] descends(filled, grid, c, k) ==> {
            let w = weight_of(filled, grid, m, c, k);
            let all = total_of(filled, grid, m, c, DIRECTIONS as int);
            let drawn = (m.part)(areas[c], all, w);
            let there = poured(filled, grid, m, areas, c, k)[grid.neighbor(c, k)->0];
            &&& w > 0
            &&& v(w) > 0 as real
            &&& v(total_of(filled, grid, m, c, k + 1)) == v(total_of(filled, grid, m, c, k)) + v(w)
            &&& v(drawn) == v(areas[c]) * (v(w) / v(all))
            &&& v((m.plus)(there, drawn)) == v(there) + v(drawn)
        }
}

/// Every cell hands its area on exactly when its turn comes.
pub open spec fn accumulates_exactly(
    filled: Seq<i32>,
    grid: Grid,
    m: AreaMath,
    v: spec_fn(u32) -> real,
    cell: u32,
    order: Seq<usize>,
) -> bool {
    &&& v(0) == 0 as real
    &&& forall|i: int|
        0 <= i < grid.cells() ==> hands_on_exactly(
            filled,
            grid,
            m,
            v,
            #[trigger] accumulated(filled, grid, m, cell, order, i),
            order[i] as int,
        )
}

/// The sum of the areas at the cells with no lower neighbour.
pub open spec fn bottom_sum(
    filled: Seq<i32>,
    grid: Grid,
    v: spec_fn(u32) -> real,
    areas: Seq<u32>,
) -> real {
    total(
        |c: int|
            if is_bottom(filled, grid, c) {
                v(areas[c])
            } else {
                0 as real
            },
        0,
        grid.cells() as int,
    )
}

/// The area that cell `b` holds and has not handed on, after the turns of `done`.
spec fn held(
    filled: Seq<i32>,
    grid: Grid,
    v: spec_fn(u32) -> real,
    areas: Seq<u32>,
    done: Seq<usize>,
    b: int,
) -> real {
    if is_bottom(filled, grid, b) || !done.contains(b as usize) {
        v(areas[b])
    } else {
        0 as real
    }
}

/// The sum of the areas at all cells.
pub open spec fn area_sum(grid: Grid, v: spec_fn(u32) -> real, areas: Seq<u32>) -> real {
    total(|c: int| v(areas[c]), 0, grid.cells() as int)
}

/// Where `c` hands its area on, its neighbours gain as much, up to `e`.
pub open spec fn hands_on_within(
    filled: Seq<i32>,
    grid: Grid,
    m: AreaMath,
    v: spec_fn(u32) -> real,
    e: real,
    areas: Seq<u32>,
    c: int,
) -> bool {
    is_bottom(filled, grid, c) || near(
        area_sum(grid, v, passed_down(filled, grid, m, areas, c)) - area_sum(grid, v, areas),
        v(areas[c]),
        e,
    )
}

/// Every cell hands its area on up to `e` when its turn comes.
pub open spec fn accumulates_within(
    filled: Seq<i32>,
    grid: Grid,
    m: AreaMath,
    v: spec_fn(u32) -> real,
    e: real,
    cell: u32,
    order: Seq<usize>,
) -> bool {
    &&& e >= 0 as real
    &&& forall|i: int|
        0 <= i < grid.cells() ==> hands_on_within(
            filled,
            grid,
            m,
            v,
            e,
            #[trigger] accumulated(filled, grid, m, cell, order, i),
            order[i] as int,
        )
}

/// The weights of the first directions come to no less than zero, and to more from the first
/// descent on.
proof fn lemma_weights(
    filled: Seq<i32>,
    grid: Grid,
    m: AreaMath,
    v: spec_fn(u32) -> real,
    areas: Seq<u32>,
    c: int,
    k: int,
)
    requires
        v(0) == 0 as real,
        hands_on_exactly(filled, grid, m, v, areas, c),
        0 <= k <= DIRECTIONS,
    ensures
        v(total_of(filled, grid, m, c, k)) >= 0 as real,
        forall|j: int|
            0 <= j < k && #[trigger] descends(filled, grid, c, j) ==> v(
                total_of(filled, grid, m, c, k),
            ) > 0 as real,
        (forall|j: int| 0 <= j < k ==> !#[trigger] descends(filled, grid, c, j)) ==> total_of(
            filled,
            grid,
            m,
            c,
            k,
        ) == 0,
    decreases k,
{
    if k > 0 {
        lemma_weights(filled, grid, m, v, areas, c, k - 1);
        let last = v(weight_of(filled, grid, m, c, k - 1));
        assert(descends(filled, grid, c, k - 1) ==> last > 0 as real);
    }
}

/// Pouring into the first `k` directions adds the proportion of the area that their weights draw.
proof fn lemma_poured_sum(
    filled: Seq<i32>,
    grid: Grid,
    m: AreaMath,
    v: spec_fn(u32) -> real,
    areas: Seq<u32>,
    c: int,
    k: int,
)
    requires
        areas.len() == grid.cells(),
        0 <= c < grid.cells(),
        v(0) == 0 as real,
        hands_on_exactly(filled, grid, m, v, areas, c),
        v(total_of(filled, grid, m, c, DIRECTIONS as int)) > 0 as real,
        0 <= k <= DIRECTIONS,
    ensures
        poured(filled, grid, m, areas, c, k).len() == grid.cells(),
        (area_sum(grid, v, poured(filled, grid, m, areas, c, k)) - area_sum(grid, v, areas)) * v(
            total_of(filled, grid, m, c, DIRECTIONS as int),
        ) == v(areas[c]) * v(total_of(filled, grid, m, c, k)),
    decreases k,
{
    let n = grid.cells() as int;
    let t = v(total_of(filled, grid, m, c, DIRECTIONS as int));
    let a = v(areas[c]);
    let now = poured(filled, grid, m, areas, c, k);
    let before = area_sum(grid, v, areas);
    if k > 0 {
        lemma_poured_sum(filled, grid, m, v, areas, c, k - 1);
        let then = poured(filled, grid, m, areas, c, k - 1);
        let was = v(total_of(filled, grid, m, c, k - 1));
        if descends(filled, grid, c, k - 1) {
            let w = weight_of(filled, grid, m, c, k - 1);
            let d = grid.neighbor(c, k - 1)->0;
            lemma_neighbor_in_range(grid, c, k - 1);
            let x = v(w);
            let part = a * (x / t);
            let h = |b: int| v(then[b]);
            let g = |b: int| v(now[b]);
            assert forall|b: int| 0 <= b < n && b != d implies #[trigger] h(b) == g(b) by {
                assert(now[b] == then[b]);
            }
            lemma_total_changed(h, g, d, 0, n);
            assert(g(d) - h(d) == part);
            assert(part * t == a * x) by (nonlinear_arith)
                requires
                    t > 0 as real,
                    part == a * (x / t),
            ;
            let (mid, after) = (area_sum(grid, v, then), area_sum(grid, v, now));
            assert(mid == total(h, 0, n) && after == total(g, 0, n));
            assert((after - before) * t == a * (was + x)) by (nonlinear_arith)
                requires
                    after == mid + part,
                    (mid - before) * t == a * was,
                    part * t == a * x,
            ;
        } else {
            assert(weight_of(filled, grid, m, c, k - 1) == 0);
            assert(now == then);
        }
    } else {
        assert((before - before) * t == a * (0 as real)) by (nonlinear_arith);
    }
}

/// Exact steps hand on all of the area.
proof fn lemma_exact_hands_on_all(
    filled: Seq<i32>,
    grid: Grid,
    m: AreaMath,
    v: spec_fn(u32) -> real,
    areas: Seq<u32>,
    c: int,
)
    requires
        areas.len() == grid.cells(),
        0 <= c < grid.cells(),
        v(0) == 0 as real,
        hands_on_exactly(filled, grid, m, v, areas, c),
    ensures
        hands_on_within(filled, grid, m, v, 0 as real, areas, c),
{
    if !is_bottom(filled, grid, c) {
        lemma_weights(filled, grid, m, v, areas, c, DIRECTIONS as int);
        lemma_poured_sum(filled, grid, m, v, areas, c, DIRECTIONS as int);
        let t = v(total_of(filled, grid, m, c, DIRECTIONS as int));
        assert(total_of(filled, grid, m, c, DIRECTIONS as int) != 0);
        let after = passed_down(filled, grid, m, areas, c);
        assert(after == poured(filled, grid, m, areas, c, DIRECTIONS as int));
        let (gain, a) = (area_sum(grid, v, after) - area_sum(grid, v, areas), v(areas[c]));
        assert(gain == a) by (nonlinear_arith)
            requires
                gain * t == a * t,
                t > 0 as real,
        ;
    }
}

/// A cell with no lower neighbour has no weights.
proof fn lemma_bottom_has_no_weights(filled: Seq<i32>, grid: Grid, m: AreaMath, c: int, k: int)
    requires
        is_bottom(filled, grid, c),
        0 <= k <= DIRECTIONS,
    ensures
        total_of(filled, grid, m, c, k) == 0,
    decreases k,
{
    if k > 0 {
        lemma_bottom_has_no_weights(filled, grid, m, c, k - 1);
        assert(!descends(filled, grid, c, k - 1));
    }
}

/// A turn keeps the sum of what is held, up to `e`.
proof fn lemma_turn_keeps(
    filled: Seq<i32>,
    grid: Grid,
    m: AreaMath,
    v: spec_fn(u32) -> real,
    e: real,
    areas: Seq<u32>,
    order: Seq<usize>,
    i: int,
)
    requires
        grid.wf(),
        areas.len() == grid.cells(),
        sorted_range(filled, 0, grid.cells() as int, order),
        0 <= i < grid.cells(),
        e >= 0 as real,
        hands_on_within(filled, grid, m, v, e, areas, order[i] as int),
    ensures
        near(
            total(
                |b: int|
                    held(
                        filled,
                        grid,
                        v,
                        passed_down(filled, grid, m, areas, order[i] as int),
                        order.take(i + 1),
                        b,
                    ),
                0,
                grid.cells() as int,
            ),
            total(|b: int| held(filled, grid, v, areas, order.take(i), b), 0, grid.cells() as int),
            e,
        ),
{
    let n = grid.cells() as int;
    let c = order[i] as int;
    assert(order.contains(order[i]));
    let (old_done, done) = (order.take(i), order.take(i + 1));
    let after = passed_down(filled, grid, m, areas, c);
    let f = |b: int| held(filled, grid, v, areas, old_done, b);
    let g = |b: int| held(filled, grid, v, areas, done, b);
    let h = |b: int| held(filled, grid, v, after, done, b);
    assert(done =~= old_done.push(order[i]));
    assert forall|x: usize| x != order[i] implies (#[trigger] done.contains(x)
        == old_done.contains(x)) by {
        if old_done.contains(x) {
            let j = choose|j: int| 0 <= j < old_done.len() && old_done[j] == x;
            assert(done[j] == x);
        }
        if done.contains(x) {
            let j = choose|j: int| 0 <= j < done.len() && done[j] == x;
            assert(old_done[j] == x);
        }
    }
    assert(done[i] == order[i]);
    assert(done.contains(order[i]));
    assert(!old_done.contains(order[i])) by {
        if old_done.contains(order[i]) {
            let j = choose|j: int| 0 <= j < old_done.len() && old_done[j] == order[i];
            assert(ahead(filled, order[j], order[i]));
        }
    }
    if is_bottom(filled, grid, c) {
        lemma_bottom_has_no_weights(filled, grid, m, c, DIRECTIONS as int);
        assert(after == areas);
        assert forall|b: int| 0 <= b < n implies #[trigger] f(b) == h(b) by {
            if b != c {
                assert(done.contains(b as usize) == old_done.contains(b as usize));
            }
        }
        lemma_total_equal(f, h, 0, n);
    } else {
        assert forall|b: int| 0 <= b < n && b != c implies #[trigger] f(b) == g(b) by {
            assert(done.contains(b as usize) == old_done.contains(b as usize));
        }
        lemma_total_changed(f, g, c, 0, n);
        assert(f(c) == v(areas[c]) && g(c) == 0 as real);
        let was = |b: int| v(areas[b]);
        let now = |b: int| v(after[b]);
        let either = |b: int| h(b) + was(b);
        assert forall|b: int| 0 <= b < n implies #[trigger] either(b) == g(b) + now(b) by {
            law_area_runs_downhill(filled, grid, m, areas, c, b);
            if done.contains(b as usize) {
                let j = choose|j: int| 0 <= j < done.len() && done[j] == b as usize;
                if j < i {
                    assert(ahead(filled, order[j], order[i]));
                }
                assert(after[b] == areas[b]);
            }
        }
        lemma_total_sum(h, was, either, 0, n);
        lemma_total_sum(g, now, either, 0, n);
        assert(area_sum(grid, v, areas) == total(was, 0, n));
        assert(area_sum(grid, v, after) == total(now, 0, n));
    }
}

/// What is held keeps its sum over the first `i` turns, up to `e` for each.
proof fn lemma_held_sum(
    filled: Seq<i32>,
    grid: Grid,
    m: AreaMath,
    v: spec_fn(u32) -> real,
    e: real,
    cell: u32,
    order: Seq<usize>,
    i: int,
)
    requires
        grid.wf(),
        sorted_range(filled, 0, grid.cells() as int, order),
        accumulates_within(filled, grid, m, v, e, cell, order),
        0 <= i <= grid.cells(),
    ensures
        near(
            total(
                |b: int|
                    held(
                        filled,
                        grid,
                        v,
                        accumulated(filled, grid, m, cell, order, i),
                        order.take(i),
                        b,
                    ),
                0,
                grid.cells() as int,
            ),
            v(cell) * (grid.cells() as real),
            e * (i as real),
        ),
    decreases i,
{
    let n = grid.cells() as int;
    let areas = accumulated(filled, grid, m, cell, order, i);
    let f = |b: int| held(filled, grid, v, areas, order.take(i), b);
    if i > 0 {
        lemma_held_sum(filled, grid, m, v, e, cell, order, i - 1);
        let before = accumulated(filled, grid, m, cell, order, i - 1);
        lemma_accumulated_len(filled, grid, m, cell, order, i - 1);
        lemma_turn_keeps(filled, grid, m, v, e, before, order, i - 1);
        assert(areas == passed_down(filled, grid, m, before, order[i - 1] as int));
        let (a, b) = ((i - 1) as real, i as real);
        assert(e * b == e * a + e) by (nonlinear_arith)
            requires
                b == a + 1 as real,
        ;
    } else {
        let g = |b: int| v(cell);
        assert forall|b: int| 0 <= b < n implies #[trigger] f(b) == g(b) by {
            assert(areas[b] == cell);
        }
        lemma_total_equal(f, g, 0, n);
        lemma_total_constant(v(cell), n);
        assert(e * (0 as real) == 0 as real) by (nonlinear_arith);
    }
}

/// No area is lost on the way down but by rounding: where every cell hands its area on up to `e`,
/// the areas at the cells with no lower neighbour come to the areas of all the cells, up to `e` for
/// each cell.
pub proof fn law_bottoms_hold_all_area_up_to_rounding(
    filled: Seq<i32>,
    grid: Grid,
    m: AreaMath,
    v: spec_fn(u32) -> real,
    e: real,
    cell: u32,
    order: Seq<usize>,
)
    requires
        grid.wf(),
        sorted_range(filled, 0, grid.cells() as int, order),
        accumulates_within(filled, grid, m, v, e, cell, order),
    ensures
        near(
            bottom_sum(
                filled,
                grid,
                v,
                accumulated(filled, grid, m, cell, order, grid.cells() as int),
            ),
            v(cell) * (grid.cells() as real),
            e * (grid.cells() as real),
        ),
{
    let n = grid.cells() as int;
    let areas = accumulated(filled, grid, m, cell, order, n);
    lemma_held_sum(filled, grid, m, v, e, cell, order, n);
    assert(order.take(n) =~= order);
    let f = |b: int| held(filled, grid, v, areas, order.take(n), b);
    let g = |c: int|
        if is_bottom(filled, grid, c) {
            v(areas[c])
        } else {
            0 as real
        };
    assert forall|b: int| 0 <= b < n implies #[trigger] f(b) == g(b) by {
        assert(order.contains(b as usize));
    }
    lemma_total_equal(f, g, 0, n);
}

/// No area is lost on the way down: where the arithmetic is exact, the areas at the cells with no
/// lower neighbour come to the areas of all the cells.
pub proof fn law_bottoms_hold_all_area(
    filled: Seq<i32>,
    grid: Grid,
    m: AreaMath,
    v: spec_fn(u32) -> real,
    cell: u32,
    order: Seq<usize>,
)
    requires
        grid.wf(),
        sorted_range(filled, 0, grid.cells() as int, order),
        accumulates_exactly(filled, grid, m, v, cell, order),
    ensures
        bottom_sum(
            filled,
            grid,
            v,
            accumulated(filled, grid, m, cell, order, grid.cells() as int),
        ) == v(cell) * (grid.cells() as real),
{
    let none = 0 as real;
    assert forall|i: int| 0 <= i < grid.cells() implies hands_on_within(
        filled,
        grid,
        m,
        v,
        none,
        #[trigger] accumulated(filled, grid, m, cell, order, i),
        order[i] as int,
    ) by {
        let areas = accumulated(filled, grid, m, cell, order, i);
        assert(order.contains(order[i]));
        lemma_accumulated_len(filled, grid, m, cell, order, i);
        assert(hands_on_exactly(filled, grid, m, v, areas, order[i] as int));
        lemma_exact_hands_on_all(filled, grid, m, v, areas, order[i] as int);
    }
    law_bottoms_hold_all_area_up_to_rounding(filled, grid, m, v, none, cell, order);
    let cells = grid.cells() as real;
    assert(none * cells == none) by (nonlinear_arith)
        requires
            none == 0 as real,
    ;
}

} // verus!
