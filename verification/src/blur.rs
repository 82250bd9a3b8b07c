//! A separable box blur.
use crate::functions::{computes2, total2};
use crate::grid::{lemma_cell, lemma_index, Grid};
use vstd::prelude::*;

verus! {

/// The arithmetic of a blur: the sum of two values, and a sum divided by a number of cells.
#[verifier::reject_recursive_types(V)]
pub ghost struct BlurMath<V> {
    pub zero: V,
    pub plus: spec_fn(V, V) -> V,
    pub over: spec_fn(V, usize) -> V,
}

/// The first position of the window of `radius` around `x`.
pub open spec fn window_start(x: int, radius: int) -> int {
    if x >= radius {
        x - radius
    } else {
        0
    }
}

/// The last position of the window of `radius` around `x`, among `len` positions.
pub open spec fn window_end(x: int, radius: int, len: int) -> int {
    if x + radius < len {
        x + radius
    } else {
        len - 1
    }
}

/// The window of `radius` around `x`, shrunk to the `len` positions there are.
pub fn window(x: usize, radius: usize, len: usize) -> (r: (usize, usize))
    requires
        x < len,
    ensures
        r.0 == window_start(x as int, radius as int),
        r.1 == window_end(x as int, radius as int, len as int),
        r.0 <= x <= r.1 < len,
{
    let lo: usize = if x >= radius {
        x - radius
    } else {
        0
    };
    let hi: usize = if radius < len - x {
        x + radius
    } else {
        len - 1
    };
    (lo, hi)
}

/// The sum of the cells of row `y` from column `lo` up to before `hi`.
pub open spec fn row_sum<V>(m: BlurMath<V>, buf: Seq<V>, grid: Grid, y: int, lo: int, hi: int) -> V
    decreases hi - lo,
{
    if hi <= lo {
        m.zero
    } else {
        (m.plus)(row_sum(m, buf, grid, y, lo, hi - 1), buf[grid.index(hi - 1, y)])
    }
}

/// The sum of the cells of column `x` from row `lo` up to before `hi`.
pub open spec fn column_sum<V>(
    m: BlurMath<V>,
    buf: Seq<V>,
    grid: Grid,
    x: int,
    lo: int,
    hi: int,
) -> V
    decreases hi - lo,
{
    if hi <= lo {
        m.zero
    } else {
        (m.plus)(column_sum(m, buf, grid, x, lo, hi - 1), buf[grid.index(x, hi - 1)])
    }
}

/// The mean over the horizontal window of cell `c`.
pub open spec fn row_mean<V>(m: BlurMath<V>, buf: Seq<V>, grid: Grid, radius: int, c: int) -> V {
    let lo = window_start(grid.col(c), radius);
    let hi = window_end(grid.col(c), radius, grid.width as int);
    (m.over)(row_sum(m, buf, grid, grid.row(c), lo, hi + 1), (hi - lo + 1) as usize)
}

/// The mean over the vertical window of cell `c`.
pub open spec fn column_mean<V>(m: BlurMath<V>, buf: Seq<V>, grid: Grid, radius: int, c: int) -> V {
    let lo = window_start(grid.row(c), radius);
    let hi = window_end(grid.row(c), radius, grid.height as int);
    (m.over)(column_sum(m, buf, grid, grid.col(c), lo, hi + 1), (hi - lo + 1) as usize)
}

/// The field after one pass: a horizontal mean, then a vertical one, each of the whole field before.
pub open spec fn blur_pass<V>(m: BlurMath<V>, buf: Seq<V>, grid: Grid, radius: int) -> Seq<V> {
    let rows = Seq::new(grid.cells(), |c: int| row_mean(m, buf, grid, radius, c));
    Seq::new(grid.cells(), |c: int| column_mean(m, rows, grid, radius, c))
}

/// The field after `passes` passes.
pub open spec fn blurred<V>(
    m: BlurMath<V>,
    buf: Seq<V>,
    grid: Grid,
    radius: int,
    passes: nat,
) -> Seq<V>
    decreases passes,
{
    if passes == 0 {
        buf
    } else {
        blur_pass(m, blurred(m, buf, grid, radius, (passes - 1) as nat), grid, radius)
    }
}

/// The executable functions compute the arithmetic `m`.
pub open spec fn blur_math<V, P: Fn(V, V) -> V, D: Fn(V, usize) -> V>(
    m: BlurMath<V>,
    zero: V,
    plus: P,
    over: D,
) -> bool {
    m.zero == zero && computes2(plus, m.plus) && computes2(over, m.over)
}

/// The means over the windows of every cell, along the rows or along the columns.
fn means<V: Copy, P: Fn(V, V) -> V, D: Fn(V, usize) -> V>(
    buf: &Vec<V>,
    grid: &Grid,
    radius: usize,
    along_rows: bool,
    zero: V,
    plus: &P,
    over: &D,
) -> (r: Vec<V>)
    requires
        grid.wf(),
        buf@.len() == grid.cells(),
        total2(*plus),
        total2(*over),
    ensures
        r@.len() == grid.cells(),
        forall|m: BlurMath<V>| #[trigger]
            blur_math(m, zero, *plus, *over) ==> forall|c: int|
                0 <= c < grid.cells() ==> #[trigger] r@[c] == if along_rows {
                    row_mean(m, buf@, *grid, radius as int, c)
                } else {
                    column_mean(m, buf@, *grid, radius as int, c)
                },
{
    let n: usize = grid.len();
    let mut out: Vec<V> = Vec::with_capacity(n);
    let mut c: usize = 0;
    while c < n
        invariant
            grid.wf(),
            n == grid.cells(),
            buf@.len() == n,
            total2(*plus),
            total2(*over),
            c <= n,
            out@.len() == c,
            forall|m: BlurMath<V>| #[trigger]
                blur_math(m, zero, *plus, *over) ==> forall|b: int|
                    0 <= b < c ==> #[trigger] out@[b] == if along_rows {
                        row_mean(m, buf@, *grid, radius as int, b)
                    } else {
                        column_mean(m, buf@, *grid, radius as int, b)
                    },
        decreases n - c,
    {
        proof {
            lemma_cell(*grid, c as int);
        }
        let x: usize = c % grid.width;
        let y: usize = c / grid.width;
        let (lo, hi): (usize, usize) = if along_rows {
            window(x, radius, grid.width)
        } else {
            window(y, radius, grid.height)
        };
        let mut sum: V = zero;
        let mut i: usize = lo;
        while i <= hi
            invariant
                grid.wf(),
                n == grid.cells(),
                buf@.len() == n,
                total2(*plus),
                x < grid.width,
                y < grid.height,
                lo <= i <= hi + 1,
                along_rows ==> hi < grid.width,
                !along_rows ==> hi < grid.height,
                forall|m: BlurMath<V>| #[trigger]
                    blur_math(m, zero, *plus, *over) ==> sum == if along_rows {
                        row_sum(m, buf@, *grid, y as int, lo as int, i as int)
                    } else {
                        column_sum(m, buf@, *grid, x as int, lo as int, i as int)
                    },
            decreases hi + 1 - i,
        {
            let (cx, cy): (usize, usize) = if along_rows {
                (i, y)
            } else {
                (x, i)
            };
            proof {
                lemma_index(*grid, cx as int, cy as int);
            }
            let at: usize = cy * grid.width + cx;
            let ghost was = sum;
            sum = plus(sum, buf[at]);
            proof {
                assert forall|m: BlurMath<V>| #[trigger]
                    blur_math(m, zero, *plus, *over) implies sum == (m.plus)(
                    was,
                    buf@[at as int],
                ) by {
                    assert(call_ensures(*plus, (was, buf@[at as int]), sum));
                }
            }
            i += 1;
        }
        let mean: V = over(sum, hi - lo + 1);
        proof {
            let count = (hi - lo + 1) as usize;
            assert forall|m: BlurMath<V>| #[trigger]
                blur_math(m, zero, *plus, *over) implies mean == (m.over)(sum, count) by {
                assert(call_ensures(*over, (sum, count), mean));
            }
        }
        out.push(mean);
        c += 1;
    }
    out
}

/// A separable box blur of `passes` passes. Edge windows shrink to the cells there are. Each pass
/// reads a snapshot and computes every cell independently.
pub fn box_blur<V: Copy, P: Fn(V, V) -> V, D: Fn(V, usize) -> V>(
    src: &Vec<V>,
    grid: &Grid,
    radius: usize,
    passes: usize,
    zero: V,
    plus: &P,
    over: &D,
) -> (r: Vec<V>)
    requires
        grid.wf(),
        src@.len() == grid.cells(),
        total2(*plus),
        total2(*over),
    ensures
        r@.len() == grid.cells(),
        forall|m: BlurMath<V>| #[trigger]
            blur_math(m, zero, *plus, *over) ==> r@ == if radius == 0 {
                src@
            } else {
                blurred(m, src@, *grid, radius as int, passes as nat)
            },
{
    let mut buf: Vec<V> = Vec::with_capacity(src.len());
    let mut c: usize = 0;
    while c < src.len()
        invariant
            c <= src.len(),
            buf@ == src@.take(c as int),
        decreases src.len() - c,
    {
        buf.push(src[c]);
        assert(src@.take(c + 1) =~= src@.take(c as int).push(src@[c as int]));
        c += 1;
    }
    assert(src@.take(c as int) =~= src@);
    if radius == 0 {
        return buf;
    }
    let mut pass: usize = 0;
    while pass < passes
        invariant
            grid.wf(),
            buf@.len() == grid.cells(),
            total2(*plus),
            total2(*over),
            pass <= passes,
            forall|m: BlurMath<V>| #[trigger]
                blur_math(m, zero, *plus, *over) ==> buf@ == blurred(
                    m,
                    src@,
                    *grid,
                    radius as int,
                    pass as nat,
                ),
        decreases passes - pass,
    {
        let rows: Vec<V> = means(&buf, grid, radius, true, zero, plus, over);
        let next: Vec<V> = means(&rows, grid, radius, false, zero, plus, over);
        proof {
            assert forall|m: BlurMath<V>| #[trigger]
                blur_math(m, zero, *plus, *over) implies next@ == blurred(
                m,
                src@,
                *grid,
                radius as int,
                (pass + 1) as nat,
            ) by {
                assert(rows@ =~= Seq::new(
                    grid.cells(),
                    |b: int| row_mean(m, buf@, *grid, radius as int, b),
                ));
                assert(next@ =~= blur_pass(m, buf@, *grid, radius as int));
            }
        }
        buf = next;
        pass += 1;
    }
    buf
}

} // verus!
