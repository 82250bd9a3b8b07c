//! What a box blur gives: the mean over the square around each cell.
use crate::blur::{
    blur_pass, blurred, column_sum, row_mean, row_sum, window_end, window_start,
    BlurMath,
};
use crate::grid::{lemma_index, Grid};
use crate::totals::{
    lemma_total_equal, lemma_total_multiple, lemma_total_split, lemma_total_zero,
    lemma_totals_exchange, total,
};
use vstd::prelude::*;

verus! {

/// The arithmetic `m` is exact, where a quantity has the value that `v` gives: sums add up, and a
/// sum divided by a number of cells is that part of it.
pub open spec fn exact_blur<V>(m: BlurMath<V>, v: spec_fn(V) -> real) -> bool {
    &&& v(m.zero) == 0 as real
    &&& forall|a: V, b: V| v(#[trigger] (m.plus)(a, b)) == v(a) + v(b)
    &&& forall|a: V, n: usize|
        n > 0 ==> v(#[trigger] (m.over)(a, n)) * (n as int as real) == v(a)
}

/// `j` is at most `radius` away from `y`.
pub open spec fn within(y: int, j: int, radius: int) -> bool {
    -radius <= j - y <= radius
}

/// The sum over the cells of a field at most `radius` columns and `radius` rows away from `(x, y)`.
pub open spec fn square_sum<V>(
    v: spec_fn(V) -> real,
    buf: Seq<V>,
    grid: Grid,
    radius: int,
    x: int,
    y: int,
) -> real {
    total(
        |j: int|
            total(
                |i: int|
                    if within(x, i, radius) && within(y, j, radius) {
                        v(buf[j * grid.width + i])
                    } else {
                        0 as real
                    },
                0,
                grid.width as int,
            ),
        0,
        grid.height as int,
    )
}

/// The number of those cells.
pub open spec fn square_count(grid: Grid, radius: int, x: int, y: int) -> real {
    total(
        |j: int|
            total(
                |i: int|
                    if within(x, i, radius) && within(y, j, radius) {
                        1 as real
                    } else {
                        0 as real
                    },
                0,
                grid.width as int,
            ),
        0,
        grid.height as int,
    )
}

/// A total over a window is the total over everything of what lies in the window.
proof fn lemma_window(
    f: spec_fn(int) -> real,
    g: spec_fn(int) -> real,
    x: int,
    radius: int,
    len: int,
)
    requires
        0 <= x < len,
        radius >= 0,
        forall|i: int|
            0 <= i < len ==> #[trigger] g(i) == if within(x, i, radius) {
                f(i)
            } else {
                0 as real
            },
    ensures
        0 <= window_start(x, radius) <= x <= window_end(x, radius, len) < len,
        total(g, 0, len) == total(f, window_start(x, radius), window_end(x, radius, len) + 1),
{
    let lo = window_start(x, radius);
    let hi = window_end(x, radius, len) + 1;
    lemma_total_split(g, 0, lo, len);
    lemma_total_split(g, lo, hi, len);
    lemma_total_zero(g, 0, lo);
    lemma_total_zero(g, hi, len);
    lemma_total_equal(g, f, lo, hi);
}

/// Ones come to their number.
proof fn lemma_ones(lo: int, hi: int)
    requires
        lo <= hi,
    ensures
        total(|i: int| 1 as real, lo, hi) == (hi - lo) as real,
    decreases hi - lo,
{
    if lo < hi {
        lemma_ones(lo, hi - 1);
    }
}

/// The value of a row sum.
proof fn lemma_row_sum<V>(
    m: BlurMath<V>,
    v: spec_fn(V) -> real,
    buf: Seq<V>,
    grid: Grid,
    y: int,
    lo: int,
    hi: int,
)
    requires
        exact_blur(m, v),
        lo <= hi,
    ensures
        v(row_sum(m, buf, grid, y, lo, hi)) == total(|i: int| v(buf[y * grid.width + i]), lo, hi),
    decreases hi - lo,
{
    if lo < hi {
        lemma_row_sum(m, v, buf, grid, y, lo, hi - 1);
    }
}

/// The value of a column sum.
proof fn lemma_column_sum<V>(
    m: BlurMath<V>,
    v: spec_fn(V) -> real,
    buf: Seq<V>,
    grid: Grid,
    x: int,
    lo: int,
    hi: int,
)
    requires
        exact_blur(m, v),
        lo <= hi,
    ensures
        v(column_sum(m, buf, grid, x, lo, hi)) == total(
            |j: int| v(buf[j * grid.width + x]),
            lo,
            hi,
        ),
    decreases hi - lo,
{
    if lo < hi {
        lemma_column_sum(m, v, buf, grid, x, lo, hi - 1);
    }
}

/// One blur pass gives every cell the mean of the square around it: times the number of cells in
/// the square, as far as it lies on the field, the blurred value is the sum over them. Rows and
/// columns count alike.
pub proof fn law_blur_is_the_mean_of_the_square<V>(
    m: BlurMath<V>,
    v: spec_fn(V) -> real,
    buf: Seq<V>,
    grid: Grid,
    radius: int,
    x: int,
    y: int,
)
    requires
        grid.wf(),
        exact_blur(m, v),
        radius >= 0,
        0 <= x < grid.width,
        0 <= y < grid.height,
    ensures
        blurred(m, buf, grid, radius, 1).len() == grid.cells(),
        square_count(grid, radius, x, y) >= 1 as real,
        v(blurred(m, buf, grid, radius, 1)[y * grid.width + x]) * square_count(grid, radius, x, y)
            == square_sum(v, buf, grid, radius, x, y),
{
    let (w, h) = (grid.width as int, grid.height as int);
    let rows = Seq::new(grid.cells(), |c: int| row_mean(m, buf, grid, radius, c));
    reveal_with_fuel(blurred, 2);
    let out = blurred(m, buf, grid, radius, 1);
    assert(out == blur_pass(m, buf, grid, radius));
    let (xa, xb) = (window_start(x, radius), window_end(x, radius, w) + 1);
    let (ya, yb) = (window_start(y, radius), window_end(y, radius, h) + 1);
    let (na, nb) = ((xb - xa) as real, (yb - ya) as real);
    lemma_index(grid, x, y);
    lemma_column_sum(m, v, rows, grid, x, ya, yb);
    let down = |j: int| v(rows[j * grid.width + x]);
    let line = |j: int| total(|i: int| v(buf[j * grid.width + i]), xa, xb);
    let all = |j: int|
        total(
            |i: int|
                if within(x, i, radius) && within(y, j, radius) {
                    v(buf[j * grid.width + i])
                } else {
                    0 as real
                },
            0,
            w,
        );
    let ones = |j: int|
        total(
            |i: int|
                if within(x, i, radius) && within(y, j, radius) {
                    1 as real
                } else {
                    0 as real
                },
            0,
            w,
        );
    let none = |i: int| 0 as real;
    lemma_window(none, none, x, radius, w);
    lemma_window(none, none, y, radius, h);
    assert(na >= 1 as real && nb >= 1 as real);
    // Each row mean in the window, times its width, is the sum of its row.
    assert forall|j: int| ya <= j < yb implies #[trigger] line(j) == na * down(j) by {
        lemma_index(grid, x, j);
        lemma_row_sum(m, v, buf, grid, j, xa, xb);
        let n = (xb - xa) as usize;
        assert(n as int == xb - xa);
        let sum = row_sum(m, buf, grid, j, xa, xb);
        assert(rows[j * grid.width + x] == (m.over)(sum, n));
        let a = v((m.over)(sum, n));
        assert(a * na == na * a) by (nonlinear_arith);
    }
    lemma_total_multiple(down, line, na, ya, yb);
    // Over the whole field the same, with nothing outside the window.
    let count = |j: int| na;
    assert forall|j: int| 0 <= j < h implies #[trigger] all(j) == if within(y, j, radius) {
        line(j)
    } else {
        0 as real
    } by {
        let f = |i: int| v(buf[j * grid.width + i]);
        let g = |i: int|
            if within(x, i, radius) && within(y, j, radius) {
                v(buf[j * grid.width + i])
            } else {
                0 as real
            };
        if within(y, j, radius) {
            lemma_window(f, g, x, radius, w);
        } else {
            lemma_total_zero(g, 0, w);
        }
    }
    assert forall|j: int| 0 <= j < h implies #[trigger] ones(j) == if within(y, j, radius) {
        count(j)
    } else {
        0 as real
    } by {
        let f = |i: int| 1 as real;
        let g = |i: int|
            if within(x, i, radius) && within(y, j, radius) {
                1 as real
            } else {
                0 as real
            };
        if within(y, j, radius) {
            lemma_window(f, g, x, radius, w);
            lemma_ones(xa, xb);
        } else {
            lemma_total_zero(g, 0, w);
        }
    }
    lemma_window(line, all, y, radius, h);
    lemma_window(count, ones, y, radius, h);
    let one = |j: int| 1 as real;
    assert forall|j: int| ya <= j < yb implies #[trigger] count(j) == na * one(j) by {
        assert(na * (1 as real) == na) by (nonlinear_arith);
    }
    lemma_total_multiple(one, count, na, ya, yb);
    lemma_ones(ya, yb);
    assert(square_count(grid, radius, x, y) == na * nb);
    assert(square_sum(v, buf, grid, radius, x, y) == na * total(down, ya, yb));
    let n = (yb - ya) as usize;
    assert(n as int == yb - ya);
    let sum = column_sum(m, rows, grid, x, ya, yb);
    assert(out[y * grid.width + x] == (m.over)(sum, n));
    let a = v((m.over)(sum, n));
    let t = total(down, ya, yb);
    assert(a * nb == t);
    assert(a * (na * nb) == na * t) by (nonlinear_arith)
        requires
            a * nb == t,
    ;
    assert(na * nb >= 1 as real) by (nonlinear_arith)
        requires
            na >= 1 as real,
            nb >= 1 as real,
    ;
}

/// Passes follow one another: `a + b` passes are `b` passes over what `a` passes leave, and no pass
/// leaves the field as it is.
pub proof fn law_blur_passes_follow_one_another<V>(
    m: BlurMath<V>,
    buf: Seq<V>,
    grid: Grid,
    radius: int,
    a: nat,
    b: nat,
)
    ensures
        blurred(m, buf, grid, radius, 0) == buf,
        blurred(m, buf, grid, radius, a + b) == blurred(
            m,
            blurred(m, buf, grid, radius, a),
            grid,
            radius,
            b,
        ),
    decreases b,
{
    if b > 0 {
        law_blur_passes_follow_one_another(m, buf, grid, radius, a, (b - 1) as nat);
        assert((a + b - 1) as nat == a + (b - 1) as nat);
    }
}

/// The field with its rows for columns.
pub open spec fn turned<V>(buf: Seq<V>, grid: Grid) -> Seq<V> {
    Seq::new(
        grid.cells(),
        |c: int| buf[(c % (grid.height as int)) * grid.width + c / (grid.height as int)],
    )
}

/// Rows and columns are treated alike: a pass over the field with its rows for columns gives the
/// blurred field with its rows for columns.
pub proof fn law_blur_turns_with_the_field<V>(
    m: BlurMath<V>,
    v: spec_fn(V) -> real,
    buf: Seq<V>,
    grid: Grid,
    radius: int,
    x: int,
    y: int,
)
    requires
        grid.wf(),
        exact_blur(m, v),
        radius >= 0,
        0 <= x < grid.width,
        0 <= y < grid.height,
    ensures
        ({
            let other = Grid { width: grid.height, height: grid.width };
            v(blurred(m, turned(buf, grid), other, radius, 1)[x * grid.height + y]) == v(
                blurred(m, buf, grid, radius, 1)[y * grid.width + x],
            )
        }),
{
    let other = Grid { width: grid.height, height: grid.width };
    let t = turned(buf, grid);
    let (w, h) = (grid.width as int, grid.height as int);
    assert(w * h == h * w) by (nonlinear_arith);
    law_blur_is_the_mean_of_the_square(m, v, buf, grid, radius, x, y);
    law_blur_is_the_mean_of_the_square(m, v, t, other, radius, y, x);
    let f = |i: int, j: int|
        if within(x, i, radius) && within(y, j, radius) {
            v(buf[j * grid.width + i])
        } else {
            0 as real
        };
    let one = |i: int, j: int|
        if within(x, i, radius) && within(y, j, radius) {
            1 as real
        } else {
            0 as real
        };
    lemma_totals_exchange(f, w, h);
    lemma_totals_exchange(one, w, h);
    let a = |j: int|
        total(
            |i: int|
                if within(x, i, radius) && within(y, j, radius) {
                    v(buf[j * grid.width + i])
                } else {
                    0 as real
                },
            0,
            w,
        );
    let a2 = |j: int| total(|i: int| f(i, j), 0, w);
    assert forall|j: int| 0 <= j < h implies #[trigger] a(j) == a2(j) by {
        lemma_total_equal(
            |i: int|
                if within(x, i, radius) && within(y, j, radius) {
                    v(buf[j * grid.width + i])
                } else {
                    0 as real
                },
            |i: int| f(i, j),
            0,
            w,
        );
    }
    lemma_total_equal(a, a2, 0, h);
    let b = |i: int|
        total(
            |j: int|
                if within(y, j, radius) && within(x, i, radius) {
                    v(t[i * other.width + j])
                } else {
                    0 as real
                },
            0,
            h,
        );
    let b2 = |i: int| total(|j: int| f(i, j), 0, h);
    assert forall|i: int| 0 <= i < w implies #[trigger] b(i) == b2(i) by {
        let p = |j: int|
            if within(y, j, radius) && within(x, i, radius) {
                v(t[i * other.width + j])
            } else {
                0 as real
            };
        let q = |j: int| f(i, j);
        assert forall|j: int| 0 <= j < h implies #[trigger] p(j) == q(j) by {
            lemma_index(other, j, i);
            assert(t[i * other.width + j] == buf[j * grid.width + i]);
        }
        lemma_total_equal(p, q, 0, h);
    }
    lemma_total_equal(b, b2, 0, w);
    let c = |j: int|
        total(
            |i: int|
                if within(x, i, radius) && within(y, j, radius) {
                    1 as real
                } else {
                    0 as real
                },
            0,
            w,
        );
    let c2 = |j: int| total(|i: int| one(i, j), 0, w);
    assert forall|j: int| 0 <= j < h implies #[trigger] c(j) == c2(j) by {
        lemma_total_equal(
            |i: int|
                if within(x, i, radius) && within(y, j, radius) {
                    1 as real
                } else {
                    0 as real
                },
            |i: int| one(i, j),
            0,
            w,
        );
    }
    lemma_total_equal(c, c2, 0, h);
    let d = |i: int|
        total(
            |j: int|
                if within(y, j, radius) && within(x, i, radius) {
                    1 as real
                } else {
                    0 as real
                },
            0,
            h,
        );
    let d2 = |i: int| total(|j: int| one(i, j), 0, h);
    assert forall|i: int| 0 <= i < w implies #[trigger] d(i) == d2(i) by {
        lemma_total_equal(
            |j: int|
                if within(y, j, radius) && within(x, i, radius) {
                    1 as real
                } else {
                    0 as real
                },
            |j: int| one(i, j),
            0,
            h,
        );
    }
    lemma_total_equal(d, d2, 0, w);
    let n = square_count(grid, radius, x, y);
    assert(square_sum(v, buf, grid, radius, x, y) == square_sum(v, t, other, radius, y, x));
    assert(n == square_count(other, radius, y, x));
    let p = v(blurred(m, buf, grid, radius, 1)[y * grid.width + x]);
    let q = v(blurred(m, t, other, radius, 1)[x * grid.height + y]);
    assert(p == q) by (nonlinear_arith)
        requires
            p * n == q * n,
            n >= 1 as real,
    ;
}

} // verus!
