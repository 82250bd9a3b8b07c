//! Totals of real numbers over ranges of integers, and over the cells of a grid.
use crate::grid::{
    law_neighbors_are_mutual, lemma_cell, lemma_neighbor_in_range, opposite, step_x, step_y, Grid,
    DIRECTIONS,
};
use vstd::prelude::*;

verus! {

/// `x`, or zero where it is less.
pub open spec fn not_below_zero(x: real) -> real {
    if x > 0 as real {
        x
    } else {
        0 as real
    }
}

/// `x` and `y` differ by no more than `e`.
pub open spec fn near(x: real, y: real, e: real) -> bool {
    -e <= x - y <= e
}

/// The total of `f` from `lo` up to, but not including, `hi`.
pub open spec fn total(f: spec_fn(int) -> real, lo: int, hi: int) -> real
    decreases hi - lo,
{
    if lo >= hi {
        0 as real
    } else {
        total(f, lo, hi - 1) + f(hi - 1)
    }
}

/// Equal terms have equal totals.
pub proof fn lemma_total_equal(f: spec_fn(int) -> real, g: spec_fn(int) -> real, lo: int, hi: int)
    requires
        forall|c: int| lo <= c < hi ==> #[trigger] f(c) == g(c),
    ensures
        total(f, lo, hi) == total(g, lo, hi),
    decreases hi - lo,
{
    if lo < hi {
        lemma_total_equal(f, g, lo, hi - 1);
    }
}

/// The total of sums is the sum of totals.
pub proof fn lemma_total_sum(
    f: spec_fn(int) -> real,
    g: spec_fn(int) -> real,
    h: spec_fn(int) -> real,
    lo: int,
    hi: int,
)
    requires
        forall|c: int| lo <= c < hi ==> #[trigger] h(c) == f(c) + g(c),
    ensures
        total(h, lo, hi) == total(f, lo, hi) + total(g, lo, hi),
    decreases hi - lo,
{
    if lo < hi {
        lemma_total_sum(f, g, h, lo, hi - 1);
    }
}

/// The total of multiples is the multiple of the total.
pub proof fn lemma_total_multiple(
    f: spec_fn(int) -> real,
    g: spec_fn(int) -> real,
    by: real,
    lo: int,
    hi: int,
)
    requires
        forall|c: int| lo <= c < hi ==> #[trigger] g(c) == by * f(c),
    ensures
        total(g, lo, hi) == by * total(f, lo, hi),
    decreases hi - lo,
{
    if lo < hi {
        lemma_total_multiple(f, g, by, lo, hi - 1);
        let (t, x) = (total(f, lo, hi - 1), f(hi - 1));
        assert(by * (t + x) == by * t + by * x) by (nonlinear_arith);
    } else {
        assert(by * (0 as real) == 0 as real) by (nonlinear_arith);
    }
}

/// Terms that are all zero come to zero.
pub proof fn lemma_total_zero(f: spec_fn(int) -> real, lo: int, hi: int)
    requires
        forall|c: int| lo <= c < hi ==> #[trigger] f(c) == 0 as real,
    ensures
        total(f, lo, hi) == 0 as real,
    decreases hi - lo,
{
    if lo < hi {
        lemma_total_zero(f, lo, hi - 1);
    }
}

/// Equal terms come to one of them times their number.
pub proof fn lemma_total_constant(x: real, n: int)
    requires
        0 <= n,
    ensures
        total(|c: int| x, 0, n) == x * (n as real),
    decreases n,
{
    if n > 0 {
        lemma_total_constant(x, n - 1);
        let (a, b) = ((n - 1) as real, n as real);
        assert(x * b == x * a + x) by (nonlinear_arith)
            requires
                b == a + 1 as real,
        ;
    } else {
        assert(x * (0 as real) == 0 as real) by (nonlinear_arith);
    }
}

/// Totals of terms that differ by no more than `e` differ by no more than `e` for each term.
pub proof fn lemma_totals_near(f: spec_fn(int) -> real, g: spec_fn(int) -> real, e: real, n: int)
    requires
        0 <= n,
        forall|c: int| 0 <= c < n ==> near(#[trigger] f(c), g(c), e),
    ensures
        near(total(f, 0, n), total(g, 0, n), e * (n as real)),
    decreases n,
{
    if n > 0 {
        lemma_totals_near(f, g, e, n - 1);
        let (a, b) = ((n - 1) as real, n as real);
        assert(near(f(n - 1), g(n - 1), e));
        assert(e * b == e * a + e) by (nonlinear_arith)
            requires
                b == a + 1 as real,
        ;
    } else {
        assert(e * (0 as real) == 0 as real) by (nonlinear_arith);
    }
}

/// Changing one term changes the total by as much.
pub proof fn lemma_total_changed(
    f: spec_fn(int) -> real,
    g: spec_fn(int) -> real,
    at: int,
    lo: int,
    hi: int,
)
    requires
        lo <= at < hi,
        forall|c: int| lo <= c < hi && c != at ==> #[trigger] f(c) == g(c),
    ensures
        total(g, lo, hi) == total(f, lo, hi) + g(at) - f(at),
    decreases hi - lo,
{
    if at == hi - 1 {
        lemma_total_equal(f, g, lo, hi - 1);
    } else {
        lemma_total_changed(f, g, at, lo, hi - 1);
        assert(f(hi - 1) == g(hi - 1));
    }
}

/// A total splits at any place between its ends.
pub proof fn lemma_total_split(f: spec_fn(int) -> real, lo: int, mid: int, hi: int)
    requires
        lo <= mid <= hi,
    ensures
        total(f, lo, hi) == total(f, lo, mid) + total(f, mid, hi),
    decreases hi - mid,
{
    if mid < hi {
        lemma_total_split(f, lo, mid, hi - 1);
    }
}

/// A total keeps when its terms and its ends move together.
proof fn lemma_total_moved(
    f: spec_fn(int) -> real,
    g: spec_fn(int) -> real,
    by: int,
    lo: int,
    hi: int,
)
    requires
        forall|c: int| #[trigger] f(c) == g(c + by),
    ensures
        total(f, lo, hi) == total(g, lo + by, hi + by),
    decreases hi - lo,
{
    if lo < hi {
        lemma_total_moved(f, g, by, lo, hi - 1);
        assert(f(hi - 1) == g(hi - 1 + by));
    }
}

/// Widening the ends over zeros keeps the total.
proof fn lemma_total_widened(f: spec_fn(int) -> real, n: int, lo: int, hi: int)
    requires
        lo <= 0 <= n <= hi,
        forall|c: int| !(0 <= c < n) ==> #[trigger] f(c) == 0 as real,
    ensures
        total(f, lo, hi) == total(f, 0, n),
{
    lemma_total_split(f, lo, 0, hi);
    lemma_total_split(f, 0, n, hi);
    lemma_total_zero(f, lo, 0);
    lemma_total_zero(f, n, hi);
}

/// A total keeps when its terms move along, where both stay within the ends and are zero outside.
pub proof fn lemma_total_shifted(f: spec_fn(int) -> real, g: spec_fn(int) -> real, by: int, n: int)
    requires
        0 <= n,
        forall|c: int| #[trigger] f(c) == g(c + by),
        forall|c: int| !(0 <= c < n) ==> #[trigger] f(c) == 0 as real,
        forall|c: int| !(0 <= c < n) ==> #[trigger] g(c) == 0 as real,
    ensures
        total(f, 0, n) == total(g, 0, n),
{
    let far: int = if by < 0 {
        n - by
    } else {
        n + by
    };
    lemma_total_widened(f, n, -far, far);
    lemma_total_widened(g, n, -far + by, far + by);
    lemma_total_moved(f, g, by, -far, far);
}

/// Totals of totals exchange.
pub proof fn lemma_totals_exchange(f: spec_fn(int, int) -> real, n: int, k: int)
    requires
        0 <= n,
        0 <= k,
    ensures
        total(|c: int| total(|j: int| f(c, j), 0, k), 0, n) == total(
            |j: int| total(|c: int| f(c, j), 0, n),
            0,
            k,
        ),
    decreases k,
{
    let rows = |c: int| total(|j: int| f(c, j), 0, k);
    let columns = |j: int| total(|c: int| f(c, j), 0, n);
    if k == 0 {
        lemma_total_zero(rows, 0, n);
    } else {
        lemma_totals_exchange(f, n, k - 1);
        let shorter = |c: int| total(|j: int| f(c, j), 0, k - 1);
        let last = |c: int| f(c, k - 1);
        assert forall|c: int| 0 <= c < n implies #[trigger] rows(c) == shorter(c) + last(c) by {}
        lemma_total_sum(shorter, last, rows, 0, n);
        assert(columns(k - 1) == total(last, 0, n)) by {
            lemma_total_equal(|c: int| f(c, k - 1), last, 0, n);
        }
    }
}

/// The total over the first `k` directions of every cell.
pub open spec fn crossings(f: spec_fn(int, int) -> real, n: int, k: int) -> real {
    total(|c: int| total(|j: int| f(c, j), 0, k), 0, n)
}

/// What leaves in a direction arrives from the opposite one.
pub open spec fn passes_on(
    grid: Grid,
    sent: spec_fn(int, int) -> real,
    received: spec_fn(int, int) -> real,
    k: int,
) -> bool {
    forall|c: int|
        0 <= c < grid.cells() ==> match #[trigger] grid.neighbor(c, k) {
            Some(n) => sent(c, k) == received(n, opposite(k)),
            None => sent(c, k) == 0 as real,
        }
}

/// A neighbour lies at the same distance along the rows from every cell.
proof fn lemma_neighbor_offset(grid: Grid, c: int, k: int)
    requires
        0 <= c < grid.cells(),
        grid.neighbor(c, k) is Some,
    ensures
        grid.neighbor(c, k)->0 == c + step_y(k) * grid.width + step_x(k),
{
    lemma_cell(grid, c);
    let (y, d, w) = (grid.row(c), step_y(k), grid.width as int);
    assert((y + d) * w == y * w + d * w) by (nonlinear_arith);
}

/// All that leaves in one direction arrives.
proof fn lemma_direction_arrives(
    grid: Grid,
    sent: spec_fn(int, int) -> real,
    received: spec_fn(int, int) -> real,
    k: int,
)
    requires
        0 <= k < DIRECTIONS,
        passes_on(grid, sent, received, k),
        forall|c: int|
            0 <= c < grid.cells() && (#[trigger] grid.neighbor(c, opposite(k))) is None
                ==> received(c, opposite(k)) == 0 as real,
    ensures
        total(|c: int| sent(c, k), 0, grid.cells() as int) == total(
            |c: int| received(c, opposite(k)),
            0,
            grid.cells() as int,
        ),
{
    let n = grid.cells() as int;
    let by = step_y(k) * grid.width + step_x(k);
    let back = opposite(k);
    assert(opposite(back) == k && 0 <= back < DIRECTIONS);
    assert(step_x(back) == -step_x(k) && step_y(back) == -step_y(k));
    assert(step_y(back) * grid.width == -(step_y(k) * grid.width)) by (nonlinear_arith)
        requires
            step_y(back) == -step_y(k),
    ;
    let f = |c: int| if 0 <= c < n { sent(c, k) } else { 0 as real };
    let g = |c: int| if 0 <= c < n { received(c, back) } else { 0 as real };
    assert forall|c: int| #[trigger] f(c) == g(c + by) by {
        if 0 <= c < n && grid.neighbor(c, k) is Some {
            lemma_neighbor_offset(grid, c, k);
            lemma_neighbor_in_range(grid, c, k);
        } else {
            if 0 <= c < n {
                assert(grid.neighbor(c, k) is None);
            }
            assert(f(c) == 0 as real);
            let d = c + by;
            if 0 <= d < n && grid.neighbor(d, back) is Some {
                lemma_neighbor_offset(grid, d, back);
                lemma_neighbor_in_range(grid, d, back);
                law_neighbors_are_mutual(grid, d, back);
            }
        }
    }
    lemma_total_shifted(f, g, by, n);
    lemma_total_equal(|c: int| sent(c, k), f, 0, n);
    lemma_total_equal(|c: int| received(c, back), g, 0, n);
}

/// Nothing is lost between cells: all that leaves over the axis directions, or over all of them,
/// arrives.
pub proof fn lemma_crossings_arrive(
    grid: Grid,
    sent: spec_fn(int, int) -> real,
    received: spec_fn(int, int) -> real,
    k: int,
)
    requires
        k == 4 || k == DIRECTIONS,
        forall|j: int| 0 <= j < k ==> #[trigger] passes_on(grid, sent, received, j),
        forall|c: int, j: int|
            0 <= c < grid.cells() && 0 <= j < k && (#[trigger] grid.neighbor(c, j)) is None
                ==> received(c, j) == 0 as real,
    ensures
        crossings(sent, grid.cells() as int, k) == crossings(received, grid.cells() as int, k),
{
    let n = grid.cells() as int;
    lemma_totals_exchange(sent, n, k);
    lemma_totals_exchange(received, n, k);
    let away = |j: int| total(|c: int| sent(c, j), 0, n);
    let here = |j: int| total(|c: int| received(c, j), 0, n);
    assert forall|j: int| 0 <= j < k implies #[trigger] away(j) == here(opposite(j)) by {
        assert(0 <= opposite(j) < k);
        assert(passes_on(grid, sent, received, j));
        lemma_direction_arrives(grid, sent, received, j);
        lemma_total_equal(
            |c: int| received(c, opposite(j)),
            |c: int| received(c, opposite(j)),
            0,
            n,
        );
    }
    assert(away(0) == here(1) && away(1) == here(0) && away(2) == here(3) && away(3) == here(2));
    reveal_with_fuel(total, 9);
    if k == DIRECTIONS {
        assert(away(4) == here(7) && away(5) == here(6) && away(6) == here(5) && away(7) == here(
            4,
        ));
        assert(total(away, 0, 8) == away(0) + away(1) + away(2) + away(3) + away(4) + away(5)
            + away(6) + away(7));
        assert(total(here, 0, 8) == here(0) + here(1) + here(2) + here(3) + here(4) + here(5)
            + here(6) + here(7));
    } else {
        assert(total(away, 0, 4) == away(0) + away(1) + away(2) + away(3));
        assert(total(here, 0, 4) == here(0) + here(1) + here(2) + here(3));
    }
}

} // verus!
