//! What relaxation keeps, exactly and up to rounding.
use crate::grid::{lemma_neighbor_in_range, opposite, Grid, DIRECTIONS};
use crate::talus::{
    excess_from, excess_to, law_shed_is_gathered, net_movement, relaxed, relaxed_once, shed_by,
    tallied, total_excess, TalusMath,
};
use crate::totals::{
    crossings, lemma_crossings_arrive, lemma_total_equal, lemma_total_multiple, lemma_total_sum,
    lemma_total_zero, lemma_totals_near, near, not_below_zero, passes_on, total,
};
use vstd::prelude::*;

verus! {

/// The arithmetic `m` is exact, where a height and an amount have the values that `h` and `v` give:
/// amounts add up and are shared out without rounding, an excess is positive, and a cell with no
/// excess sheds nothing.
pub open spec fn exact_talus<H, A>(
    m: TalusMath<H, A>,
    h: spec_fn(H) -> real,
    v: spec_fn(A) -> real,
) -> bool {
    &&& v(m.zero) == 0 as real
    &&& v((m.shed)(m.zero)) == 0 as real
    &&& forall|a: H, b: H, d: bool| (#[trigger] (m.excess)(a, b, d)) matches Some(e) ==> v(e)
        > 0 as real
    &&& forall|t: (A, A), e: A| v((#[trigger] (m.tally)(t, e)).0) == v(t.0) + v(e)
    &&& forall|s: A| v(#[trigger] (m.lose)(s)) == -v(s)
    &&& forall|n: A, s: A, e: A, t: A|
        v(t) > 0 as real ==> v(#[trigger] (m.gain)(n, (s, e, t))) == v(n) + v(s) * (v(e) / v(t))
    &&& forall|x: H, n: A| h(#[trigger] (m.settle)(x, n)) == h(x) + v(n)
}

/// The sum of the heights.
pub open spec fn height_sum<H>(h: spec_fn(H) -> real, heights: Seq<H>) -> real {
    total(|c: int| h(heights[c]), 0, heights.len() as int)
}

/// What cell `c` sends in direction `k`: the proportion of its shed that its excess there has of its
/// total excess.
pub open spec fn sent<H, A>(
    m: TalusMath<H, A>,
    v: spec_fn(A) -> real,
    heights: Seq<H>,
    grid: Grid,
    c: int,
    k: int,
) -> real {
    match excess_to(m, heights, grid, c, k) {
        Some(e) => v(shed_by(m, heights, grid, c)) * (v(e) / v(total_excess(m, heights, grid, c))),
        None => 0 as real,
    }
}

/// What cell `c` receives from direction `k`: what the neighbour there sends this way.
pub open spec fn received<H, A>(
    m: TalusMath<H, A>,
    v: spec_fn(A) -> real,
    heights: Seq<H>,
    grid: Grid,
    c: int,
    k: int,
) -> real {
    match excess_from(m, heights, grid, c, k) {
        Some(e) => {
            let n = grid.neighbor(c, k)->0;
            v(shed_by(m, heights, grid, n)) * (v(e) / v(total_excess(m, heights, grid, n)))
        },
        None => 0 as real,
    }
}

/// The total excess adds up, is positive from the first excess on, and is nothing before it.
proof fn lemma_tallied<H, A>(
    m: TalusMath<H, A>,
    h: spec_fn(H) -> real,
    v: spec_fn(A) -> real,
    heights: Seq<H>,
    grid: Grid,
    c: int,
    k: int,
)
    requires
        exact_talus(m, h, v),
        0 <= k,
    ensures
        v(tallied(m, heights, grid, c, k).0) >= 0 as real,
        forall|j: int|
            0 <= j < k && (#[trigger] excess_to(m, heights, grid, c, j)) is Some ==> v(
                tallied(m, heights, grid, c, k).0,
            ) > 0 as real,
        (forall|j: int|
            0 <= j < k ==> (#[trigger] excess_to(m, heights, grid, c, j)) is None) ==> tallied(
            m,
            heights,
            grid,
            c,
            k,
        ) == (m.zero, m.zero),
    decreases k,
{
    if k > 0 {
        lemma_tallied(m, h, v, heights, grid, c, k - 1);
        assert(excess_to(m, heights, grid, c, k - 1) matches Some(e) ==> v(e) > 0 as real);
    }
}

/// The shares of a shed are in the proportion of the excesses.
proof fn lemma_shares<H, A>(
    m: TalusMath<H, A>,
    h: spec_fn(H) -> real,
    v: spec_fn(A) -> real,
    heights: Seq<H>,
    grid: Grid,
    c: int,
    k: int,
)
    requires
        exact_talus(m, h, v),
        0 <= k,
        v(total_excess(m, heights, grid, c)) > 0 as real,
    ensures
        total(|j: int| sent(m, v, heights, grid, c, j), 0, k) * v(
            total_excess(m, heights, grid, c),
        ) == v(shed_by(m, heights, grid, c)) * v(tallied(m, heights, grid, c, k).0),
    decreases k,
{
    let s = v(shed_by(m, heights, grid, c));
    let t = v(total_excess(m, heights, grid, c));
    let f = |j: int| sent(m, v, heights, grid, c, j);
    if k > 0 {
        lemma_shares(m, h, v, heights, grid, c, k - 1);
        let before = total(f, 0, k - 1);
        let was = v(tallied(m, heights, grid, c, k - 1).0);
        match excess_to(m, heights, grid, c, k - 1) {
            Some(e) => {
                let x = v(e);
                assert(f(k - 1) == s * (x / t));
                assert((s * (x / t)) * t == s * x) by (nonlinear_arith)
                    requires
                        t > 0 as real,
                ;
                let part = s * (x / t);
                assert((before + part) * t == s * (was + x)) by (nonlinear_arith)
                    requires
                        before * t == s * was,
                        part * t == s * x,
                ;
            },
            None => {
                assert(f(k - 1) == 0 as real);
            },
        }
    } else {
        assert((0 as real) * t == s * (0 as real)) by (nonlinear_arith);
    }
}

/// A cell sends all that it sheds.
proof fn lemma_shed_is_sent<H, A>(
    m: TalusMath<H, A>,
    h: spec_fn(H) -> real,
    v: spec_fn(A) -> real,
    heights: Seq<H>,
    grid: Grid,
    c: int,
)
    requires
        exact_talus(m, h, v),
    ensures
        total(|j: int| sent(m, v, heights, grid, c, j), 0, DIRECTIONS as int) == v(
            shed_by(m, heights, grid, c),
        ),
{
    let k = DIRECTIONS as int;
    let f = |j: int| sent(m, v, heights, grid, c, j);
    let s = v(shed_by(m, heights, grid, c));
    lemma_tallied(m, h, v, heights, grid, c, k);
    if forall|j: int| 0 <= j < k ==> (#[trigger] excess_to(m, heights, grid, c, j)) is None {
        assert forall|j: int| 0 <= j < k implies #[trigger] f(j) == 0 as real by {
            assert(excess_to(m, heights, grid, c, j) is None);
        }
        lemma_total_zero(f, 0, k);
    } else {
        let t = v(total_excess(m, heights, grid, c));
        lemma_shares(m, h, v, heights, grid, c, k);
        let all = total(f, 0, k);
        assert(all == s) by (nonlinear_arith)
            requires
                all * t == s * t,
                t > 0 as real,
        ;
    }
}

/// A net movement is what is received without what is shed.
pub proof fn lemma_net<H, A>(
    m: TalusMath<H, A>,
    h: spec_fn(H) -> real,
    v: spec_fn(A) -> real,
    heights: Seq<H>,
    grid: Grid,
    c: int,
    k: int,
)
    requires
        exact_talus(m, h, v),
        0 <= c < grid.cells(),
        0 <= k <= DIRECTIONS,
    ensures
        v(net_movement(m, heights, grid, c, k)) == total(
            |j: int| received(m, v, heights, grid, c, j),
            0,
            k,
        ) - v(shed_by(m, heights, grid, c)),
    decreases k,
{
    if k > 0 {
        lemma_net(m, h, v, heights, grid, c, k - 1);
        let f = |j: int| received(m, v, heights, grid, c, j);
        assert(total(f, 0, k) == total(f, 0, k - 1) + f(k - 1));
        match excess_from(m, heights, grid, c, k - 1) {
            Some(e) => {
                let n = grid.neighbor(c, k - 1)->0;
                law_shed_is_gathered(m, heights, grid, c, k - 1);
                lemma_neighbor_in_range(grid, c, k - 1);
                let back = opposite(k - 1);
                law_shed_is_gathered(m, heights, grid, n, back);
                assert(opposite(back) == k - 1);
                assert(excess_to(m, heights, grid, n, back) == Some(e));
                lemma_tallied(m, h, v, heights, grid, n, DIRECTIONS as int);
                assert(v(total_excess(m, heights, grid, n)) > 0 as real);
            },
            None => {},
        }
    }
}

/// One pass rounds no cell by more than `e`: the height of every cell changes by what it receives
/// and what it sends, up to as much.
pub open spec fn rounds_talus<H, A>(
    m: TalusMath<H, A>,
    h: spec_fn(H) -> real,
    v: spec_fn(A) -> real,
    e: real,
    heights: Seq<H>,
    grid: Grid,
) -> bool {
    forall|c: int|
        0 <= c < grid.cells() ==> near(
            h(#[trigger] relaxed_once(m, heights, grid)[c]),
            h(heights[c]) + (total(
                |j: int| received(m, v, heights, grid, c, j),
                0,
                DIRECTIONS as int,
            ) - total(|j: int| sent(m, v, heights, grid, c, j), 0, DIRECTIONS as int)),
            e,
        )
}

/// Relaxation moves material and makes none but by rounding: a pass that rounds no cell by more
/// than `e` changes the sum of the heights by no more than `e` for each cell.
pub proof fn law_pass_keeps_the_sum_up_to_rounding<H, A>(
    m: TalusMath<H, A>,
    h: spec_fn(H) -> real,
    v: spec_fn(A) -> real,
    e: real,
    heights: Seq<H>,
    grid: Grid,
)
    requires
        rounds_talus(m, h, v, e, heights, grid),
        heights.len() == grid.cells(),
    ensures
        near(
            height_sum(h, relaxed_once(m, heights, grid)),
            height_sum(h, heights),
            e * grid.cells() as real,
        ),
{
    let n = grid.cells() as int;
    let k = DIRECTIONS as int;
    let after = relaxed_once(m, heights, grid);
    let goes = |c: int, j: int| sent(m, v, heights, grid, c, j);
    let comes = |c: int, j: int| received(m, v, heights, grid, c, j);
    assert forall|j: int| 0 <= j < k implies #[trigger] passes_on(grid, goes, comes, j) by {
        assert forall|c: int| 0 <= c < n implies match #[trigger] grid.neighbor(c, j) {
            Some(b) => goes(c, j) == comes(b, opposite(j)),
            None => goes(c, j) == 0 as real,
        } by {
            if grid.neighbor(c, j) is Some {
                law_shed_is_gathered(m, heights, grid, c, j);
            }
        }
    }
    lemma_crossings_arrive(grid, goes, comes, k);
    let was = |c: int| h(heights[c]);
    let now = |c: int| h(after[c]);
    let away = |c: int| total(|j: int| goes(c, j), 0, k);
    let here = |c: int| total(|j: int| comes(c, j), 0, k);
    let less = |c: int| (-1 as real) * away(c);
    let moved = |c: int| here(c) + less(c);
    let want = |c: int| was(c) + moved(c);
    assert forall|c: int| 0 <= c < n implies near(#[trigger] now(c), want(c), e) by {
        lemma_total_equal(|j: int| goes(c, j), |j: int| sent(m, v, heights, grid, c, j), 0, k);
        lemma_total_equal(|j: int| comes(c, j), |j: int| received(m, v, heights, grid, c, j), 0, k);
        assert(after[c] == relaxed_once(m, heights, grid)[c]);
    }
    lemma_totals_near(now, want, e, n);
    lemma_total_sum(was, moved, want, 0, n);
    lemma_total_sum(here, less, moved, 0, n);
    lemma_total_multiple(away, less, -1 as real, 0, n);
    let (gone, come) = (total(away, 0, n), total(here, 0, n));
    assert(gone == crossings(goes, n, k));
    assert(come == crossings(comes, n, k));
    assert((-1 as real) * gone == -gone) by (nonlinear_arith);
    assert(total(moved, 0, n) == 0 as real);
    assert(height_sum(h, heights) == total(was, 0, n));
    assert(height_sum(h, after) == total(now, 0, n));
}

/// Any number of passes, each of which rounds no cell by more than `e`, changes the sum of the
/// heights by no more than `e` for each cell and pass.
pub proof fn law_relaxation_keeps_the_sum_up_to_rounding<H, A>(
    m: TalusMath<H, A>,
    h: spec_fn(H) -> real,
    v: spec_fn(A) -> real,
    e: real,
    heights: Seq<H>,
    grid: Grid,
    passes: nat,
)
    requires
        heights.len() == grid.cells(),
        forall|i: nat|
            i < passes ==> rounds_talus(m, h, v, e, #[trigger] relaxed(m, heights, grid, i), grid),
    ensures
        relaxed(m, heights, grid, passes).len() == grid.cells(),
        near(
            height_sum(h, relaxed(m, heights, grid, passes)),
            height_sum(h, heights),
            e * grid.cells() as real * passes as real,
        ),
    decreases passes,
{
    let each = e * grid.cells() as real;
    if passes > 0 {
        let before = (passes - 1) as nat;
        law_relaxation_keeps_the_sum_up_to_rounding(m, h, v, e, heights, grid, before);
        assert(rounds_talus(m, h, v, e, relaxed(m, heights, grid, before), grid));
        law_pass_keeps_the_sum_up_to_rounding(
            m,
            h,
            v,
            e,
            relaxed(m, heights, grid, before),
            grid,
        );
        let (a, b) = (before as real, passes as real);
        assert(each * b == each * a + each) by (nonlinear_arith)
            requires
                b == a + 1 as real,
        ;
    } else {
        assert(each * (0 as real) == 0 as real) by (nonlinear_arith);
    }
}

/// Relaxation moves material and makes none: where the arithmetic is exact, a pass keeps the sum of
/// the heights.
pub proof fn law_pass_keeps_the_sum<H, A>(
    m: TalusMath<H, A>,
    h: spec_fn(H) -> real,
    v: spec_fn(A) -> real,
    heights: Seq<H>,
    grid: Grid,
)
    requires
        exact_talus(m, h, v),
        heights.len() == grid.cells(),
    ensures
        height_sum(h, relaxed_once(m, heights, grid)) == height_sum(h, heights),
{
    let k = DIRECTIONS as int;
    let none = 0 as real;
    let after = relaxed_once(m, heights, grid);
    assert forall|c: int| 0 <= c < grid.cells() implies near(
        h(#[trigger] relaxed_once(m, heights, grid)[c]),
        h(heights[c]) + (total(|j: int| received(m, v, heights, grid, c, j), 0, k) - total(
            |j: int| sent(m, v, heights, grid, c, j),
            0,
            k,
        )),
        none,
    ) by {
        lemma_net(m, h, v, heights, grid, c, k);
        lemma_shed_is_sent(m, h, v, heights, grid, c);
        assert(after[c] == (m.settle)(heights[c], net_movement(m, heights, grid, c, k)));
    }
    assert(rounds_talus(m, h, v, none, heights, grid));
    law_pass_keeps_the_sum_up_to_rounding(m, h, v, none, heights, grid);
    let cells = grid.cells() as real;
    assert(none * cells == none) by (nonlinear_arith)
        requires
            none == 0 as real,
    ;
}

/// Any number of passes keeps the sum of the heights, where the arithmetic is exact.
pub proof fn law_relaxation_keeps_the_sum<H, A>(
    m: TalusMath<H, A>,
    h: spec_fn(H) -> real,
    v: spec_fn(A) -> real,
    heights: Seq<H>,
    grid: Grid,
    passes: nat,
)
    requires
        exact_talus(m, h, v),
        heights.len() == grid.cells(),
    ensures
        relaxed(m, heights, grid, passes).len() == grid.cells(),
        height_sum(h, relaxed(m, heights, grid, passes)) == height_sum(h, heights),
    decreases passes,
{
    if passes > 0 {
        law_relaxation_keeps_the_sum(m, h, v, heights, grid, (passes - 1) as nat);
        law_pass_keeps_the_sum(m, h, v, relaxed(m, heights, grid, (passes - 1) as nat), grid);
    }
}

/// What wears off settles: where the arithmetic is exact, the material that cells lost comes to the
/// material that cells gained.
pub proof fn law_wear_balances_debris<H, A>(
    m: TalusMath<H, A>,
    h: spec_fn(H) -> real,
    v: spec_fn(A) -> real,
    heights: Seq<H>,
    grid: Grid,
    passes: nat,
    wear: Seq<H>,
    debris: Seq<H>,
)
    requires
        exact_talus(m, h, v),
        heights.len() == grid.cells(),
        wear.len() == grid.cells(),
        debris.len() == grid.cells(),
        forall|c: int|
            0 <= c < grid.cells() ==> h(#[trigger] wear[c]) == not_below_zero(
                h(heights[c]) - h(relaxed(m, heights, grid, passes)[c]),
            ),
        forall|c: int|
            0 <= c < grid.cells() ==> h(#[trigger] debris[c]) == not_below_zero(
                h(relaxed(m, heights, grid, passes)[c]) - h(heights[c]),
            ),
    ensures
        height_sum(h, wear) == height_sum(h, debris),
{
    let n = grid.cells() as int;
    let after = relaxed(m, heights, grid, passes);
    law_relaxation_keeps_the_sum(m, h, v, heights, grid, passes);
    let was = |c: int| h(heights[c]);
    let now = |c: int| h(after[c]);
    let lost = |c: int| h(wear[c]);
    let gained = |c: int| h(debris[c]);
    let both = |c: int| was(c) + gained(c);
    assert forall|c: int| 0 <= c < n implies #[trigger] both(c) == now(c) + lost(c) by {
        assert(h(wear[c]) == not_below_zero(h(heights[c]) - h(after[c])));
        assert(h(debris[c]) == not_below_zero(h(after[c]) - h(heights[c])));
    }
    lemma_total_sum(now, lost, both, 0, n);
    lemma_total_sum(was, gained, both, 0, n);
    assert(height_sum(h, heights) == total(was, 0, n));
    assert(height_sum(h, after) == total(now, 0, n));
    assert(height_sum(h, wear) == total(lost, 0, n));
    assert(height_sum(h, debris) == total(gained, 0, n));
}

/// Relaxation over the real numbers: an excess over repose is the drop beyond `straight`, or beyond
/// `across` on a diagonal, and a cell sheds `part` of its largest excess.
pub open spec fn real_talus(straight: real, across: real, part: real) -> TalusMath<real, real> {
    TalusMath {
        zero: 0 as real,
        excess: |a: real, b: real, diagonal: bool|
            {
                let over = a - b - (if diagonal {
                    across
                } else {
                    straight
                });
                if over > 0 as real {
                    Some(over)
                } else {
                    None
                }
            },
        tally: |t: (real, real), e: real|
            (t.0 + e, if e > t.1 {
                e
            } else {
                t.1
            }),
        shed: |most: real| part * most,
        lose: |shed: real| -shed,
        gain: |net: real, s: (real, real, real)|
            if s.2 > 0 as real {
                net + s.0 * (s.1 / s.2)
            } else {
                net
            },
        settle: |height: real, net: real| height + net,
    }
}

/// Over the real numbers the arithmetic of relaxation is exact.
pub proof fn law_real_talus_is_exact(straight: real, across: real, part: real)
    ensures
        exact_talus(real_talus(straight, across, part), |x: real| x, |x: real| x),
{
    assert(part * (0 as real) == 0 as real) by (nonlinear_arith);
}

} // verus!
