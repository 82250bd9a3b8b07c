//! What a brush covers and how its shares come out.
use crate::brush::{brush_offsets, covers, disc, in_disc, square, weight_sum, BrushCell, RADIUS_MAX};
use crate::totals::{lemma_total_equal, lemma_total_multiple, total};
use vstd::prelude::*;

verus! {

/// An offset of the disc comes from a place of the square.
proof fn lemma_disc_place(r: int, n: int, i: int) -> (k: int)
    requires
        0 <= i < disc(r, n).len(),
    ensures
        0 <= k < n,
        disc(r, n)[i] == square(r, k),
    decreases n,
{
    if n > 0 {
        if i < disc(r, n - 1).len() {
            lemma_disc_place(r, n - 1, i)
        } else {
            n - 1
        }
    } else {
        0
    }
}

/// Places of the square are different offsets.
proof fn lemma_square_apart(r: int, i: int, j: int)
    requires
        r >= 0,
        square(r, i) == square(r, j),
    ensures
        i == j,
{
    let s = 2 * r + 1;
    vstd::arithmetic::div_mod::lemma_fundamental_div_mod(i, s);
    vstd::arithmetic::div_mod::lemma_fundamental_div_mod(j, s);
}

/// The offsets of the disc are different.
proof fn lemma_disc_apart(r: int, n: int)
    requires
        r >= 0,
    ensures
        disc(r, n).no_duplicates(),
    decreases n,
{
    if n > 0 {
        lemma_disc_apart(r, n - 1);
        let (d, o) = (disc(r, n - 1), square(r, n - 1));
        if in_disc(r, o) {
            assert forall|i: int| 0 <= i < d.len() implies d[i] != o by {
                let k = lemma_disc_place(r, n - 1, i);
                if d[i] == o {
                    lemma_square_apart(r, k, n - 1);
                }
            }
            let e = d.push(o);
            assert forall|i: int, j: int| 0 <= i < e.len() && 0 <= j < e.len() && i != j implies e[i]
                != e[j] by {
                if i < d.len() && j < d.len() {
                    assert(d[i] != d[j]);
                }
            }
        }
    }
}

/// A brush has every offset once: no two of its cells lie at the same offset.
pub proof fn law_brush_cells_lie_apart<W>(cells: Seq<BrushCell<W>>, r: int, i: int, j: int)
    requires
        1 <= r <= RADIUS_MAX,
        covers(cells, brush_offsets(r)),
        0 <= i < j < cells.len(),
    ensures
        cells[i].dx != cells[j].dx || cells[i].dy != cells[j].dy,
{
    lemma_disc_apart(r, (2 * r + 1) * (2 * r + 1));
    let d = brush_offsets(r);
    assert(d[i] != d[j]);
    assert(cells[i].dx == d[i].0 && cells[j].dx == d[j].0);
}

/// The value of a sum of weights.
proof fn lemma_weight_sum<W>(
    v: spec_fn(W) -> real,
    zero: W,
    weight: spec_fn(i32, i32) -> W,
    plus: spec_fn(W, W) -> W,
    offsets: Seq<(int, int)>,
    n: int,
)
    requires
        v(zero) == 0 as real,
        forall|a: W, b: W| v(#[trigger] plus(a, b)) == v(a) + v(b),
        0 <= n,
    ensures
        v(weight_sum(zero, weight, plus, offsets, n)) == total(
            |i: int| v(weight(offsets[i].0 as i32, offsets[i].1 as i32)),
            0,
            n,
        ),
    decreases n,
{
    if n > 0 {
        lemma_weight_sum(v, zero, weight, plus, offsets, n - 1);
    }
}

/// The shares of a brush are in the proportion of its weights and come to one: where sums are exact
/// and a share of a sum is that part of it, the shares of all cells add up to one, whatever the
/// weights, as long as these come to something.
pub proof fn law_brush_shares_come_to_one<W>(
    v: spec_fn(W) -> real,
    zero: W,
    weight: spec_fn(i32, i32) -> W,
    plus: spec_fn(W, W) -> W,
    share: spec_fn(W, W) -> W,
    cells: Seq<BrushCell<W>>,
    r: int,
)
    requires
        v(zero) == 0 as real,
        forall|a: W, b: W| v(#[trigger] plus(a, b)) == v(a) + v(b),
        forall|a: W, b: W|
            v(b) != 0 as real ==> v(#[trigger] share(a, b)) * v(b) == v(a),
        covers(cells, brush_offsets(r)),
        forall|i: int|
            0 <= i < cells.len() ==> (#[trigger] cells[i]).share == share(
                weight(cells[i].dx, cells[i].dy),
                weight_sum(zero, weight, plus, brush_offsets(r), cells.len() as int),
            ),
        total(|i: int| v(weight(cells[i].dx, cells[i].dy)), 0, cells.len() as int) != 0 as real,
    ensures
        total(|i: int| v(cells[i].share), 0, cells.len() as int) == 1 as real,
        forall|i: int, j: int|
            0 <= i < cells.len() && 0 <= j < cells.len() ==> v((#[trigger] cells[i]).share) * v(
                weight(cells[j].dx, cells[j].dy),
            ) == v((#[trigger] cells[j]).share) * v(weight(cells[i].dx, cells[i].dy)),
{
    let n = cells.len() as int;
    let offsets = brush_offsets(r);
    let sum = weight_sum(zero, weight, plus, offsets, n);
    let s = v(sum);
    lemma_weight_sum(v, zero, weight, plus, offsets, n);
    let w = |i: int| v(weight(cells[i].dx, cells[i].dy));
    let u = |i: int| v(weight(offsets[i].0 as i32, offsets[i].1 as i32));
    assert forall|i: int| 0 <= i < n implies #[trigger] u(i) == w(i) by {
        assert(cells[i].dx == offsets[i].0 && cells[i].dy == offsets[i].1);
    }
    lemma_total_equal(u, w, 0, n);
    assert(s == total(w, 0, n));
    let f = |i: int| v(cells[i].share);
    assert forall|i: int| 0 <= i < n implies #[trigger] w(i) == s * f(i) by {
        let c = cells[i];
        let a = v(share(weight(c.dx, c.dy), sum));
        assert(a * s == s * a) by (nonlinear_arith);
    }
    lemma_total_multiple(f, w, s, 0, n);
    let t = total(f, 0, n);
    assert(t == 1 as real) by (nonlinear_arith)
        requires
            s == s * t,
            s != 0 as real,
    ;
    assert forall|i: int, j: int| 0 <= i < n && 0 <= j < n implies v((#[trigger] cells[i]).share) * v(
        weight(cells[j].dx, cells[j].dy),
    ) == v((#[trigger] cells[j]).share) * v(weight(cells[i].dx, cells[i].dy)) by {
        let (a, b, p, q) = (f(i), f(j), w(i), w(j));
        assert(p == s * a && q == s * b);
        assert(a * q == b * p) by (nonlinear_arith)
            requires
                p == s * a,
                q == s * b,
        ;
    }
}

} // verus!
