//! The erosion brush: the cells within a radius, each with its share.
use crate::functions::{computes2, total2};
use crate::grid::Grid;
use vstd::prelude::*;

verus! {

/// The largest radius, in cells.
pub const RADIUS_MAX: i32 = 64;

/// The radius asked for, within bounds.
pub open spec fn radius_of(requested: int) -> int {
    if requested < 1 {
        1
    } else if requested > RADIUS_MAX {
        RADIUS_MAX as int
    } else {
        requested
    }
}

/// The radius asked for, within bounds.
pub fn radius(requested: i64) -> (r: i32)
    ensures
        r == radius_of(requested as int),
{
    if requested < 1 {
        1
    } else if requested > 64 {
        RADIUS_MAX
    } else {
        requested as i32
    }
}

/// Offset `i` of the square around a cell, row by row.
pub open spec fn square(r: int, i: int) -> (int, int) {
    (i % (2 * r + 1) - r, i / (2 * r + 1) - r)
}

/// Whether an offset lies within the radius.
pub open spec fn in_disc(r: int, o: (int, int)) -> bool {
    o.0 * o.0 + o.1 * o.1 <= r * r
}

/// Those of the first `n` offsets of the square that lie within the radius, row by row.
pub open spec fn disc(r: int, n: int) -> Seq<(int, int)>
    decreases n,
{
    if n <= 0 {
        Seq::empty()
    } else {
        let o = square(r, n - 1);
        if in_disc(r, o) {
            disc(r, n - 1).push(o)
        } else {
            disc(r, n - 1)
        }
    }
}

/// The offsets within the radius, row by row.
pub open spec fn brush_offsets(r: int) -> Seq<(int, int)> {
    disc(r, (2 * r + 1) * (2 * r + 1))
}

/// The sum of the first `n` weights.
pub open spec fn weight_sum<W>(
    zero: W,
    weight: spec_fn(i32, i32) -> W,
    plus: spec_fn(W, W) -> W,
    offsets: Seq<(int, int)>,
    n: int,
) -> W
    decreases n,
{
    if n <= 0 {
        zero
    } else {
        plus(
            weight_sum(zero, weight, plus, offsets, n - 1),
            weight(offsets[n - 1].0 as i32, offsets[n - 1].1 as i32),
        )
    }
}

/// One cell of the brush: its offset and its share.
#[derive(Debug)]
pub struct BrushCell<W> {
    pub dx: i32,
    pub dy: i32,
    pub share: W,
}

/// The brush.
#[derive(Debug)]
pub struct Brush<W> {
    pub radius: i32,
    pub cells: Vec<BrushCell<W>>,
}

/// The cells are those within the radius, each once.
pub open spec fn covers<W>(cells: Seq<BrushCell<W>>, offsets: Seq<(int, int)>) -> bool {
    &&& cells.len() == offsets.len()
    &&& forall|i: int|
        0 <= i < cells.len() ==> (#[trigger] cells[i]).dx == offsets[i].0 && cells[i].dy
            == offsets[i].1
}

impl<W> Brush<W> {
    /// The brush covers the cells within its radius.
    pub open spec fn wf(self) -> bool {
        &&& 1 <= self.radius <= RADIUS_MAX
        &&& covers(self.cells@, brush_offsets(self.radius as int))
    }
}

impl<W: Copy> Brush<W> {
    /// The brush of a radius. Its shares are `share` of each weight in the sum of all of them.
    pub fn new<G: Fn(i32, i32) -> W, P: Fn(W, W) -> W, S: Fn(W, W) -> W>(
        radius: i32,
        zero: W,
        weight: &G,
        plus: &P,
        share: &S,
    ) -> (r: Self)
        requires
            1 <= radius <= RADIUS_MAX,
            total2(*weight),
            total2(*plus),
            total2(*share),
        ensures
            r.wf(),
            r.radius == radius,
            forall|mw: spec_fn(i32, i32) -> W, mp: spec_fn(W, W) -> W, ms: spec_fn(W, W) -> W|
                #![trigger computes2(*weight, mw), computes2(*plus, mp), computes2(*share, ms)]
                computes2(*weight, mw) && computes2(*plus, mp) && computes2(*share, ms)
                    ==> forall|i: int|
                    0 <= i < r.cells@.len() ==> (#[trigger] r.cells@[i]).share == ms(
                        mw(r.cells@[i].dx, r.cells@[i].dy),
                        weight_sum(
                            zero,
                            mw,
                            mp,
                            brush_offsets(radius as int),
                            r.cells@.len() as int,
                        ),
                    ),
    {
        let (raw, sum): (Vec<BrushCell<W>>, W) = weigh(radius, zero, weight, plus);
        let mut cells: Vec<BrushCell<W>> = Vec::with_capacity(raw.len());
        let ghost offsets = brush_offsets(radius as int);
        let mut i: usize = 0;
        while i < raw.len()
            invariant
                total2(*share),
                i <= raw@.len(),
                cells@.len() == i,
                forall|j: int|
                    0 <= j < i ==> (#[trigger] cells@[j]).dx == raw@[j].dx && cells@[j].dy
                        == raw@[j].dy && call_ensures(
                        *share,
                        (raw@[j].share, sum),
                        cells@[j].share,
                    ),
            decreases raw.len() - i,
        {
            let s: W = share(raw[i].share, sum);
            cells.push(BrushCell { dx: raw[i].dx, dy: raw[i].dy, share: s });
            i += 1;
        }
        proof {
            assert forall|
                mw: spec_fn(i32, i32) -> W,
                mp: spec_fn(W, W) -> W,
                ms: spec_fn(W, W) -> W,
                j: int,
            |
                computes2(*weight, mw) && computes2(*plus, mp) && computes2(*share, ms) && 0 <= j
                    < cells@.len() implies (#[trigger] cells@[j]).share == #[trigger] ms(
                mw(cells@[j].dx, cells@[j].dy),
                weight_sum(zero, mw, mp, offsets, cells@.len() as int),
            ) by {
                assert(raw@[j].share == mw(raw@[j].dx, raw@[j].dy));
            }
        }
        Brush { radius, cells }
    }
}

/// The cells of the brush with their weights, and the sum of the weights.
fn weigh<W: Copy, G: Fn(i32, i32) -> W, P: Fn(W, W) -> W>(
    radius: i32,
    zero: W,
    weight: &G,
    plus: &P,
) -> (r: (Vec<BrushCell<W>>, W))
    requires
        1 <= radius <= RADIUS_MAX,
        total2(*weight),
        total2(*plus),
    ensures
        covers(r.0@, brush_offsets(radius as int)),
        forall|mw: spec_fn(i32, i32) -> W| #[trigger]
            computes2(*weight, mw) ==> forall|i: int|
                0 <= i < r.0@.len() ==> (#[trigger] r.0@[i]).share == mw(
                    r.0@[i].dx,
                    r.0@[i].dy,
                ),
        forall|mw: spec_fn(i32, i32) -> W, mp: spec_fn(W, W) -> W|
            #![trigger computes2(*weight, mw), computes2(*plus, mp)]
            computes2(*weight, mw) && computes2(*plus, mp) ==> r.1 == weight_sum(
                zero,
                mw,
                mp,
                brush_offsets(radius as int),
                r.0@.len() as int,
            ),
{
    let mut cells: Vec<BrushCell<W>> = Vec::new();
    let mut sum: W = zero;
    let side: i32 = 2 * radius + 1;
    assert(0 <= side * side <= 16641) by (nonlinear_arith)
        requires
            3 <= side <= 129,
    ;
    let count: i32 = side * side;
    let ghost all = brush_offsets(radius as int);
    let mut i: i32 = 0;
    while i < count
        invariant
            1 <= radius <= RADIUS_MAX,
            side == 2 * radius + 1,
            count == side * side,
            0 <= i <= count,
            total2(*weight),
            total2(*plus),
            covers(cells@, disc(radius as int, i as int)),
            forall|mw: spec_fn(i32, i32) -> W| #[trigger]
                computes2(*weight, mw) ==> forall|j: int|
                    0 <= j < cells@.len() ==> (#[trigger] cells@[j]).share == mw(
                        cells@[j].dx,
                        cells@[j].dy,
                    ),
            forall|mw: spec_fn(i32, i32) -> W, mp: spec_fn(W, W) -> W|
                #![trigger computes2(*weight, mw), computes2(*plus, mp)]
                computes2(*weight, mw) && computes2(*plus, mp) ==> sum == weight_sum(
                    zero,
                    mw,
                    mp,
                    disc(radius as int, i as int),
                    cells@.len() as int,
                ),
        decreases count - i,
    {
        proof {
            lemma_square(radius as int, i as int);
        }
        let dx: i32 = i % side - radius;
        let dy: i32 = i / side - radius;
        assert((dx as int, dy as int) == square(radius as int, i as int));
        let ghost before = disc(radius as int, i as int);
        let ghost after = disc(radius as int, i + 1);
        let ghost n = cells@.len() as int;
        if dx * dx + dy * dy <= radius * radius {
            let w: W = weight(dx, dy);
            let ghost was = sum;
            cells.push(BrushCell { dx, dy, share: w });
            sum = plus(sum, w);
            proof {
                assert forall|mw: spec_fn(i32, i32) -> W, mp: spec_fn(W, W) -> W|
                    #![trigger computes2(*weight, mw), computes2(*plus, mp)]
                    computes2(*weight, mw) && computes2(*plus, mp) implies sum == weight_sum(
                    zero,
                    mw,
                    mp,
                    after,
                    n + 1,
                ) by {
                    assert(call_ensures(*weight, (dx, dy), w));
                    assert(call_ensures(*plus, (was, w), sum));
                    lemma_sum_prefix(zero, mw, mp, before, after, n);
                }
            }
        }
        i += 1;
    }
    (cells, sum)
}

/// Offsets of the square stay within the radius on each axis.
proof fn lemma_square(r: int, i: int)
    requires
        1 <= r <= RADIUS_MAX,
        0 <= i < (2 * r + 1) * (2 * r + 1),
    ensures
        -r <= square(r, i).0 <= r,
        -r <= square(r, i).1 <= r,
        0 <= square(r, i).0 * square(r, i).0 <= r * r,
        0 <= square(r, i).1 * square(r, i).1 <= r * r,
        0 <= r * r <= 4096,
{
    let s = 2 * r + 1;
    assert(0 <= i / s < s) by (nonlinear_arith)
        requires
            0 <= i < s * s,
            s > 0,
    ;
    let a = square(r, i).0;
    let b = square(r, i).1;
    assert(0 <= a * a <= r * r) by (nonlinear_arith)
        requires
            -r <= a <= r,
    ;
    assert(0 <= b * b <= r * r) by (nonlinear_arith)
        requires
            -r <= b <= r,
    ;
    assert(0 <= r * r <= 4096) by (nonlinear_arith)
        requires
            1 <= r <= 64,
    ;
}

proof fn lemma_sum_prefix<W>(
    zero: W,
    weight: spec_fn(i32, i32) -> W,
    plus: spec_fn(W, W) -> W,
    a: Seq<(int, int)>,
    b: Seq<(int, int)>,
    n: int,
)
    requires
        n <= a.len(),
        n <= b.len(),
        forall|i: int| 0 <= i < n ==> a[i] == #[trigger] b[i],
    ensures
        weight_sum(zero, weight, plus, a, n) == weight_sum(zero, weight, plus, b, n),
    decreases n,
{
    if n > 0 {
        lemma_sum_prefix(zero, weight, plus, a, b, n - 1);
        assert(a[n - 1] == b[n - 1]);
    }
}

/// Every offset within the radius is in the brush, and nothing else is.
pub proof fn law_brush_is_a_disc(r: int, o: (int, int))
    requires
        1 <= r <= RADIUS_MAX,
    ensures
        brush_offsets(r).contains(o) <==> in_disc(r, o),
{
    let s = 2 * r + 1;
    let n = s * s;
    if in_disc(r, o) {
        let (x, y) = o;
        assert(-r <= x <= r && -r <= y <= r) by (nonlinear_arith)
            requires
                x * x + y * y <= r * r,
                r >= 1,
        ;
        let i = (y + r) * s + (x + r);
        assert(0 <= i < n) by (nonlinear_arith)
            requires
                i == (y + r) * s + (x + r),
                0 <= y + r < s,
                0 <= x + r < s,
                n == s * s,
        ;
        vstd::arithmetic::div_mod::lemma_fundamental_div_mod_converse(i, s, y + r, x + r);
        assert(square(r, i) == o);
        lemma_disc_holds(r, n, i);
    }
    if brush_offsets(r).contains(o) {
        lemma_disc_only(r, n, o);
    }
}

proof fn lemma_disc_holds(r: int, n: int, i: int)
    requires
        0 <= i < n,
        in_disc(r, square(r, i)),
    ensures
        disc(r, n).contains(square(r, i)),
    decreases n,
{
    let o = square(r, i);
    if i == n - 1 {
        let d = disc(r, n);
        assert(d[d.len() - 1] == o);
    } else {
        lemma_disc_holds(r, n - 1, i);
        let d = disc(r, n - 1);
        let k = choose|k: int| 0 <= k < d.len() && d[k] == o;
        assert(disc(r, n)[k] == o);
    }
}

proof fn lemma_disc_only(r: int, n: int, o: (int, int))
    requires
        disc(r, n).contains(o),
    ensures
        in_disc(r, o),
    decreases n,
{
    if n > 0 {
        let d = disc(r, n);
        let k = choose|k: int| 0 <= k < d.len() && d[k] == o;
        if k < disc(r, n - 1).len() {
            assert(disc(r, n - 1)[k] == o);
            lemma_disc_only(r, n - 1, o);
        }
    }
}

/// The cell an offset from `(x, y)` leads to, or nothing off the grid.
pub open spec fn brush_cell(grid: Grid, x: int, y: int, dx: int, dy: int) -> Option<int> {
    if grid.holds(x + dx, y + dy) {
        Some(grid.index(x + dx, y + dy))
    } else {
        None
    }
}

} // verus!
