//! What one relaxation pass does to each cell.
use crate::grid::{is_diagonal, Grid, DIRECTIONS};
use crate::talus::{
    excess_from, excess_to, net_movement, relaxed, relaxed_once, shed_by, tallied, total_excess,
    TalusMath,
};
use crate::talus_laws::{exact_talus, lemma_net};
use crate::totals::total;
use vstd::prelude::*;

verus! {

/// A tally keeps the larger excess, and a cell sheds `part` of its largest.
pub open spec fn sheds_by_the_largest<H, A>(
    m: TalusMath<H, A>,
    v: spec_fn(A) -> real,
    part: real,
) -> bool {
    &&& forall|t: (A, A), e: A|
        v((#[trigger] (m.tally)(t, e)).1) == if v(e) > v(t.1) {
            v(e)
        } else {
            v(t.1)
        }
    &&& forall|a: A| v(#[trigger] (m.shed)(a)) == part * v(a)
}

/// By how much cell `a` exceeds repose over its neighbour `b`; nothing where it does not, or where
/// there is no such neighbour.
pub open spec fn over_repose<H, A>(
    m: TalusMath<H, A>,
    v: spec_fn(A) -> real,
    heights: Seq<H>,
    a: int,
    b: Option<int>,
    diagonal: bool,
) -> real {
    match b {
        Some(n) => match (m.excess)(heights[a], heights[n], diagonal) {
            Some(e) => v(e),
            None => 0 as real,
        },
        None => 0 as real,
    }
}

/// `most` is the largest of the excesses of cell `c` over its neighbours, and nothing where it
/// exceeds none.
pub open spec fn largest_excess<H, A>(
    m: TalusMath<H, A>,
    v: spec_fn(A) -> real,
    heights: Seq<H>,
    grid: Grid,
    c: int,
    most: real,
) -> bool {
    &&& forall|k: int|
        0 <= k < DIRECTIONS ==> over_repose(
            m,
            v,
            heights,
            c,
            #[trigger] grid.neighbor(c, k),
            is_diagonal(k),
        ) <= most
    &&& most == 0 as real || exists|k: int|
        0 <= k < DIRECTIONS && over_repose(
            m,
            v,
            heights,
            c,
            #[trigger] grid.neighbor(c, k),
            is_diagonal(k),
        ) == most
    &&& most >= 0 as real
}

/// The excesses of cell `c` over all its neighbours together.
pub open spec fn all_excess<H, A>(
    m: TalusMath<H, A>,
    v: spec_fn(A) -> real,
    heights: Seq<H>,
    grid: Grid,
    c: int,
) -> real {
    total(
        |k: int| over_repose(m, v, heights, c, grid.neighbor(c, k), is_diagonal(k)),
        0,
        DIRECTIONS as int,
    )
}

/// The tally over the first `k` directions.
proof fn lemma_tally_values<H, A>(
    m: TalusMath<H, A>,
    h: spec_fn(H) -> real,
    v: spec_fn(A) -> real,
    part: real,
    heights: Seq<H>,
    grid: Grid,
    c: int,
    k: int,
)
    requires
        exact_talus(m, h, v),
        sheds_by_the_largest(m, v, part),
        0 <= k <= DIRECTIONS,
    ensures
        ({
            let t = tallied(m, heights, grid, c, k);
            &&& v(t.0) == total(
                |j: int| over_repose(m, v, heights, c, grid.neighbor(c, j), is_diagonal(j)),
                0,
                k,
            )
            &&& v(t.1) >= 0 as real
            &&& forall|j: int|
                0 <= j < k ==> over_repose(
                    m,
                    v,
                    heights,
                    c,
                    #[trigger] grid.neighbor(c, j),
                    is_diagonal(j),
                ) <= v(t.1)
            &&& v(t.1) == 0 as real || exists|j: int|
                0 <= j < k && over_repose(
                    m,
                    v,
                    heights,
                    c,
                    #[trigger] grid.neighbor(c, j),
                    is_diagonal(j),
                ) == v(t.1)
        }),
    decreases k,
{
    if k > 0 {
        lemma_tally_values(m, h, v, part, heights, grid, c, k - 1);
        let t = tallied(m, heights, grid, c, k);
        let was = tallied(m, heights, grid, c, k - 1);
        let last = over_repose(m, v, heights, c, grid.neighbor(c, k - 1), is_diagonal(k - 1));
        match excess_to(m, heights, grid, c, k - 1) {
            Some(e) => {
                assert(t == (m.tally)(was, e));
                assert(last == v(e));
            },
            None => {
                assert(last == 0 as real);
            },
        }
        if v(t.1) != 0 as real && v(t.1) == v(was.1) {
            let j = choose|j: int|
                0 <= j < k - 1 && over_repose(
                    m,
                    v,
                    heights,
                    c,
                    #[trigger] grid.neighbor(c, j),
                    is_diagonal(j),
                ) == v(was.1);
            assert(over_repose(m, v, heights, c, grid.neighbor(c, j), is_diagonal(j)) == v(t.1));
        }
    }
}

/// One pass moves each cell by its excesses, where the arithmetic is exact: the cell loses `part` of
/// its own largest excess over a neighbour, and gains of every neighbour's loss the share that the
/// neighbour's excess over it has of all the neighbour's excesses. `most` gives the largest excess
/// of each cell.
pub proof fn law_pass_moves_by_the_excesses<H, A>(
    m: TalusMath<H, A>,
    h: spec_fn(H) -> real,
    v: spec_fn(A) -> real,
    part: real,
    heights: Seq<H>,
    grid: Grid,
    most: spec_fn(int) -> real,
    c: int,
)
    requires
        exact_talus(m, h, v),
        sheds_by_the_largest(m, v, part),
        heights.len() == grid.cells(),
        forall|b: int|
            0 <= b < grid.cells() ==> largest_excess(
                m,
                v,
                heights,
                grid,
                b,
                #[trigger] most(b),
            ),
        0 <= c < grid.cells(),
    ensures
        relaxed(m, heights, grid, 1).len() == grid.cells(),
        h(relaxed(m, heights, grid, 1)[c]) == h(heights[c]) - part * most(c) + total(
            |k: int|
                match grid.neighbor(c, k) {
                    Some(n) => {
                        let e = over_repose(m, v, heights, n, Some(c), is_diagonal(k));
                        if e == 0 as real {
                            0 as real
                        } else {
                            (part * most(n)) * (e / all_excess(m, v, heights, grid, n))
                        }
                    },
                    None => 0 as real,
                },
            0,
            DIRECTIONS as int,
        ),
{
    let d = DIRECTIONS as int;
    reveal_with_fuel(relaxed, 2);
    assert(relaxed(m, heights, grid, 1) == relaxed_once(m, heights, grid));
    lemma_net(m, h, v, heights, grid, c, d);
    lemma_tally_values(m, h, v, part, heights, grid, c, d);
    lemma_most(m, h, v, part, heights, grid, most, c);
    let f = |j: int| crate::talus_laws::received(m, v, heights, grid, c, j);
    let g = |k: int|
        match grid.neighbor(c, k) {
            Some(n) => {
                let e = over_repose(m, v, heights, n, Some(c), is_diagonal(k));
                if e == 0 as real {
                    0 as real
                } else {
                    (part * most(n)) * (e / all_excess(m, v, heights, grid, n))
                }
            },
            None => 0 as real,
        };
    assert forall|k: int| 0 <= k < d implies #[trigger] f(k) == g(k) by {
        match grid.neighbor(c, k) {
            Some(n) => {
                crate::grid::lemma_neighbor_in_range(grid, c, k);
                lemma_tally_values(m, h, v, part, heights, grid, n, d);
                lemma_most(m, h, v, part, heights, grid, most, n);
                match excess_from(m, heights, grid, c, k) {
                    Some(e) => {
                        assert(v(e) > 0 as real);
                        assert(v(total_excess(m, heights, grid, n)) == all_excess(
                            m,
                            v,
                            heights,
                            grid,
                            n,
                        ));
                    },
                    None => {},
                }
            },
            None => {},
        }
    }
    crate::totals::lemma_total_equal(f, g, 0, d);
    assert(relaxed_once(m, heights, grid)[c] == (m.settle)(
        heights[c],
        net_movement(m, heights, grid, c, d),
    ));
}

/// What a cell sheds is the part of its largest excess.
proof fn lemma_most<H, A>(
    m: TalusMath<H, A>,
    h: spec_fn(H) -> real,
    v: spec_fn(A) -> real,
    part: real,
    heights: Seq<H>,
    grid: Grid,
    most: spec_fn(int) -> real,
    c: int,
)
    requires
        exact_talus(m, h, v),
        sheds_by_the_largest(m, v, part),
        largest_excess(m, v, heights, grid, c, most(c)),
    ensures
        v(shed_by(m, heights, grid, c)) == part * most(c),
{
    let d = DIRECTIONS as int;
    lemma_tally_values(m, h, v, part, heights, grid, c, d);
    let t = v(tallied(m, heights, grid, c, d).1);
    if most(c) != 0 as real {
        let k = choose|k: int|
            0 <= k < DIRECTIONS && over_repose(
                m,
                v,
                heights,
                c,
                #[trigger] grid.neighbor(c, k),
                is_diagonal(k),
            ) == most(c);
        assert(over_repose(m, v, heights, c, grid.neighbor(c, k), is_diagonal(k)) <= t);
    }
    if t != 0 as real {
        let k = choose|k: int|
            0 <= k < d && over_repose(
                m,
                v,
                heights,
                c,
                #[trigger] grid.neighbor(c, k),
                is_diagonal(k),
            ) == t;
        assert(over_repose(m, v, heights, c, grid.neighbor(c, k), is_diagonal(k)) <= most(c));
    }
    assert(t == most(c));
}

/// Passes follow one another: `a + b` passes are `b` passes over what `a` passes leave, and no pass
/// leaves the heights as they are.
pub proof fn law_relaxation_passes_follow_one_another<H, A>(
    m: TalusMath<H, A>,
    heights: Seq<H>,
    grid: Grid,
    a: nat,
    b: nat,
)
    ensures
        relaxed(m, heights, grid, 0) == heights,
        relaxed(m, heights, grid, a + b) == relaxed(m, relaxed(m, heights, grid, a), grid, b),
    decreases b,
{
    if b > 0 {
        law_relaxation_passes_follow_one_another(m, heights, grid, a, (b - 1) as nat);
        assert((a + b - 1) as nat == a + (b - 1) as nat);
    }
}

} // verus!
