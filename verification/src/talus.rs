//! Talus (thermal) relaxation: material on any slope steeper than the angle of repose slides to
//! its lower neighbours; gentler ground is left untouched.
//!
//! One pass is two gather phases over the whole field: first every cell's shed amount and the
//! excess that splits it among its lower neighbours, then every cell's net movement, read from the
//! receiving side. Cells past the edge take no part, so material is held at the boundary.
use crate::functions::{computes1, computes2, computes3, total1, total2, total3};
use crate::grid::{is_diagonal, law_neighbors_are_mutual, opposite, Grid, DIRECTIONS};
use vstd::prelude::*;

verus! {

/// The arithmetic of relaxation, as executable functions over heights and amounts.
pub struct TalusFns<A, E, T, S, N, R, M> {
    /// No material.
    pub zero: A,
    /// By how much one height exceeds repose over another, straight or across a diagonal.
    pub excess: E,
    /// The total and the largest excess, with one excess more.
    pub tally: T,
    /// The material shed for a largest excess.
    pub shed: S,
    /// The net movement of a cell that only sheds.
    pub lose: N,
    /// A net movement, with a share of a neighbour's shed: what the neighbour sheds, its excess to
    /// this cell, and its total excess.
    pub gain: R,
    /// A height after a net movement.
    pub settle: M,
}

/// The arithmetic of relaxation.
#[verifier::reject_recursive_types(H)]
#[verifier::reject_recursive_types(A)]
pub ghost struct TalusMath<H, A> {
    pub zero: A,
    pub excess: spec_fn(H, H, bool) -> Option<A>,
    pub tally: spec_fn((A, A), A) -> (A, A),
    pub shed: spec_fn(A) -> A,
    pub lose: spec_fn(A) -> A,
    pub gain: spec_fn(A, (A, A, A)) -> A,
    pub settle: spec_fn(H, A) -> H,
}

/// The executable functions accept every argument.
pub open spec fn talus_total<
    H,
    A,
    E: Fn(H, H, bool) -> Option<A>,
    T: Fn((A, A), A) -> (A, A),
    S: Fn(A) -> A,
    N: Fn(A) -> A,
    R: Fn(A, (A, A, A)) -> A,
    M: Fn(H, A) -> H,
>(f: TalusFns<A, E, T, S, N, R, M>) -> bool {
    &&& total3(f.excess)
    &&& total2(f.tally)
    &&& total1(f.shed)
    &&& total1(f.lose)
    &&& total2(f.gain)
    &&& total2(f.settle)
}

/// The executable functions compute the arithmetic `m`.
pub open spec fn talus_math<
    H,
    A,
    E: Fn(H, H, bool) -> Option<A>,
    T: Fn((A, A), A) -> (A, A),
    S: Fn(A) -> A,
    N: Fn(A) -> A,
    R: Fn(A, (A, A, A)) -> A,
    M: Fn(H, A) -> H,
>(m: TalusMath<H, A>, f: TalusFns<A, E, T, S, N, R, M>) -> bool {
    &&& m.zero == f.zero
    &&& computes3(f.excess, m.excess)
    &&& computes2(f.tally, m.tally)
    &&& computes1(f.shed, m.shed)
    &&& computes1(f.lose, m.lose)
    &&& computes2(f.gain, m.gain)
    &&& computes2(f.settle, m.settle)
}

/// By how much cell `c` exceeds repose over its neighbour in direction `k`.
pub open spec fn excess_to<H, A>(
    m: TalusMath<H, A>,
    heights: Seq<H>,
    grid: Grid,
    c: int,
    k: int,
) -> Option<A> {
    match grid.neighbor(c, k) {
        Some(n) => (m.excess)(heights[c], heights[n], is_diagonal(k)),
        None => None,
    }
}

/// By how much the neighbour of `c` in direction `k` exceeds repose over `c`.
pub open spec fn excess_from<H, A>(
    m: TalusMath<H, A>,
    heights: Seq<H>,
    grid: Grid,
    c: int,
    k: int,
) -> Option<A> {
    match grid.neighbor(c, k) {
        Some(n) => (m.excess)(heights[n], heights[c], is_diagonal(k)),
        None => None,
    }
}

/// The total and the largest excess of `c` over the first `k` directions.
pub open spec fn tallied<H, A>(
    m: TalusMath<H, A>,
    heights: Seq<H>,
    grid: Grid,
    c: int,
    k: int,
) -> (A, A)
    decreases k,
{
    if k <= 0 {
        (m.zero, m.zero)
    } else {
        let before = tallied(m, heights, grid, c, k - 1);
        match excess_to(m, heights, grid, c, k - 1) {
            Some(e) => (m.tally)(before, e),
            None => before,
        }
    }
}

/// What cell `c` sheds.
pub open spec fn shed_by<H, A>(m: TalusMath<H, A>, heights: Seq<H>, grid: Grid, c: int) -> A {
    (m.shed)(tallied(m, heights, grid, c, DIRECTIONS as int).1)
}

/// The total excess of cell `c`.
pub open spec fn total_excess<H, A>(m: TalusMath<H, A>, heights: Seq<H>, grid: Grid, c: int) -> A {
    tallied(m, heights, grid, c, DIRECTIONS as int).0
}

/// The net movement of `c` over the first `k` directions.
pub open spec fn net_movement<H, A>(
    m: TalusMath<H, A>,
    heights: Seq<H>,
    grid: Grid,
    c: int,
    k: int,
) -> A
    decreases k,
{
    if k <= 0 {
        (m.lose)(shed_by(m, heights, grid, c))
    } else {
        let before = net_movement(m, heights, grid, c, k - 1);
        match excess_from(m, heights, grid, c, k - 1) {
            Some(e) => {
                let n = grid.neighbor(c, k - 1)->0;
                (m.gain)(
                    before,
                    (shed_by(m, heights, grid, n), e, total_excess(m, heights, grid, n)),
                )
            },
            None => before,
        }
    }
}

/// The heights after one pass.
pub open spec fn relaxed_once<H, A>(m: TalusMath<H, A>, heights: Seq<H>, grid: Grid) -> Seq<H> {
    Seq::new(
        grid.cells(),
        |c: int| (m.settle)(heights[c], net_movement(m, heights, grid, c, DIRECTIONS as int)),
    )
}

/// The heights after `passes` passes.
pub open spec fn relaxed<H, A>(m: TalusMath<H, A>, heights: Seq<H>, grid: Grid, passes: nat) -> Seq<
    H,
>
    decreases passes,
{
    if passes == 0 {
        heights
    } else {
        relaxed_once(m, relaxed(m, heights, grid, (passes - 1) as nat), grid)
    }
}

/// One relaxation pass over the whole field.
pub fn relax_pass<
    H: Copy,
    A: Copy,
    E: Fn(H, H, bool) -> Option<A>,
    T: Fn((A, A), A) -> (A, A),
    S: Fn(A) -> A,
    N: Fn(A) -> A,
    R: Fn(A, (A, A, A)) -> A,
    M: Fn(H, A) -> H,
>(heights: &Vec<H>, grid: &Grid, f: &TalusFns<A, E, T, S, N, R, M>) -> (r: Vec<H>)
    requires
        grid.wf(),
        heights@.len() == grid.cells(),
        talus_total(*f),
    ensures
        r@.len() == grid.cells(),
        forall|m: TalusMath<H, A>| #[trigger]
            talus_math(m, *f) ==> r@ == relaxed_once(m, heights@, *grid),
{
    let n: usize = grid.len();
    let mut shed: Vec<A> = Vec::with_capacity(n);
    let mut total: Vec<A> = Vec::with_capacity(n);
    let mut c: usize = 0;
    while c < n
        invariant
            grid.wf(),
            n == grid.cells(),
            heights@.len() == n,
            talus_total(*f),
            c <= n,
            shed@.len() == c,
            total@.len() == c,
            forall|m: TalusMath<H, A>| #[trigger]
                talus_math(m, *f) ==> forall|b: int|
                    0 <= b < c ==> #[trigger] shed@[b] == shed_by(m, heights@, *grid, b)
                        && total@[b] == total_excess(m, heights@, *grid, b),
        decreases n - c,
    {
        let mut sums: (A, A) = (f.zero, f.zero);
        let mut k: usize = 0;
        while k < DIRECTIONS
            invariant
                grid.wf(),
                n == grid.cells(),
                heights@.len() == n,
                talus_total(*f),
                c < n,
                k <= DIRECTIONS,
                forall|m: TalusMath<H, A>| #[trigger]
                    talus_math(m, *f) ==> sums == tallied(
                        m,
                        heights@,
                        *grid,
                        c as int,
                        k as int,
                    ),
            decreases DIRECTIONS - k,
        {
            let ghost was = sums;
            match grid.neighbour(c, k) {
                Some(nc) => {
                    let e: Option<A> = (f.excess)(heights[c], heights[nc], k >= 4);
                    proof {
                        assert forall|m: TalusMath<H, A>| #[trigger] talus_math(m, *f) implies e
                            == excess_to(m, heights@, *grid, c as int, k as int) by {
                            assert(call_ensures(
                                f.excess,
                                (heights@[c as int], heights@[nc as int], k >= 4),
                                e,
                            ));
                        }
                    }
                    if let Some(e) = e {
                        sums = (f.tally)(sums, e);
                        proof {
                            assert forall|m: TalusMath<H, A>| #[trigger]
                                talus_math(m, *f) implies sums == (m.tally)(was, e) by {
                                assert(call_ensures(f.tally, (was, e), sums));
                            }
                        }
                    }
                },
                None => {},
            }
            k += 1;
        }
        let amount: A = (f.shed)(sums.1);
        proof {
            assert forall|m: TalusMath<H, A>| #[trigger] talus_math(m, *f) implies amount
                == shed_by(m, heights@, *grid, c as int) by {
                assert(call_ensures(f.shed, (sums.1,), amount));
            }
        }
        shed.push(amount);
        total.push(sums.0);
        c += 1;
    }
    let mut out: Vec<H> = Vec::with_capacity(n);
    let mut c: usize = 0;
    while c < n
        invariant
            grid.wf(),
            n == grid.cells(),
            heights@.len() == n,
            talus_total(*f),
            shed@.len() == n,
            total@.len() == n,
            forall|m: TalusMath<H, A>| #[trigger]
                talus_math(m, *f) ==> forall|b: int|
                    0 <= b < n ==> #[trigger] shed@[b] == shed_by(m, heights@, *grid, b)
                        && total@[b] == total_excess(m, heights@, *grid, b),
            c <= n,
            out@.len() == c,
            forall|m: TalusMath<H, A>| #[trigger]
                talus_math(m, *f) ==> forall|b: int|
                    0 <= b < c ==> #[trigger] out@[b] == (m.settle)(
                        heights@[b],
                        net_movement(m, heights@, *grid, b, DIRECTIONS as int),
                    ),
        decreases n - c,
    {
        let mut net: A = (f.lose)(shed[c]);
        proof {
            assert forall|m: TalusMath<H, A>| #[trigger] talus_math(m, *f) implies net
                == net_movement(m, heights@, *grid, c as int, 0) by {
                assert(call_ensures(f.lose, (shed@[c as int],), net));
                assert(shed@[c as int] == shed_by(m, heights@, *grid, c as int));
            }
        }
        let mut k: usize = 0;
        while k < DIRECTIONS
            invariant
                grid.wf(),
                n == grid.cells(),
                heights@.len() == n,
                talus_total(*f),
                shed@.len() == n,
                total@.len() == n,
                forall|m: TalusMath<H, A>| #[trigger]
                    talus_math(m, *f) ==> forall|b: int|
                        0 <= b < n ==> #[trigger] shed@[b] == shed_by(m, heights@, *grid, b)
                            && total@[b] == total_excess(m, heights@, *grid, b),
                c < n,
                k <= DIRECTIONS,
                forall|m: TalusMath<H, A>| #[trigger]
                    talus_math(m, *f) ==> net == net_movement(
                        m,
                        heights@,
                        *grid,
                        c as int,
                        k as int,
                    ),
            decreases DIRECTIONS - k,
        {
            let ghost was = net;
            match grid.neighbour(c, k) {
                Some(nc) => {
                    let e: Option<A> = (f.excess)(heights[nc], heights[c], k >= 4);
                    proof {
                        assert forall|m: TalusMath<H, A>| #[trigger] talus_math(m, *f) implies e
                            == excess_from(m, heights@, *grid, c as int, k as int) by {
                            assert(call_ensures(
                                f.excess,
                                (heights@[nc as int], heights@[c as int], k >= 4),
                                e,
                            ));
                        }
                    }
                    if let Some(e) = e {
                        let share: (A, A, A) = (shed[nc], e, total[nc]);
                        net = (f.gain)(net, share);
                        proof {
                            assert forall|m: TalusMath<H, A>| #[trigger]
                                talus_math(m, *f) implies net == (m.gain)(
                                was,
                                (
                                    shed_by(m, heights@, *grid, nc as int),
                                    e,
                                    total_excess(m, heights@, *grid, nc as int),
                                ),
                            ) by {
                                assert(call_ensures(f.gain, (was, share), net));
                                assert(shed@[nc as int] == shed_by(
                                    m,
                                    heights@,
                                    *grid,
                                    nc as int,
                                ));
                            }
                        }
                    }
                },
                None => {},
            }
            k += 1;
        }
        let h: H = (f.settle)(heights[c], net);
        proof {
            assert forall|m: TalusMath<H, A>| #[trigger] talus_math(m, *f) implies h
                == (m.settle)(
                heights@[c as int],
                net_movement(m, heights@, *grid, c as int, DIRECTIONS as int),
            ) by {
                assert(call_ensures(f.settle, (heights@[c as int], net), h));
            }
        }
        out.push(h);
        c += 1;
    }
    proof {
        assert forall|m: TalusMath<H, A>| #[trigger] talus_math(m, *f) implies out@
            == relaxed_once(m, heights@, *grid) by {
            assert(out@ =~= relaxed_once(m, heights@, *grid));
        }
    }
    out
}

/// What a cell sheds to a neighbour is what that neighbour gathers from it: the excess the cell
/// counts toward direction `k` is the excess the neighbour reads looking back.
pub proof fn law_shed_is_gathered<H, A>(
    m: TalusMath<H, A>,
    heights: Seq<H>,
    grid: Grid,
    c: int,
    k: int,
)
    requires
        0 <= c < grid.cells(),
        0 <= k < DIRECTIONS,
        grid.neighbor(c, k) is Some,
    ensures
        grid.neighbor(grid.neighbor(c, k)->0, opposite(k)) == Some(c),
        excess_from(m, heights, grid, grid.neighbor(c, k)->0, opposite(k)) == excess_to(
            m,
            heights,
            grid,
            c,
            k,
        ),
{
    law_neighbors_are_mutual(grid, c, k);
}

/// Ground no steeper than repose is left as it is: a cell that exceeds repose over no neighbour,
/// and over which none does, moves only by what a shed of nothing is.
pub proof fn law_gentle_ground_sheds_nothing<H, A>(
    m: TalusMath<H, A>,
    heights: Seq<H>,
    grid: Grid,
    c: int,
)
    requires
        forall|k: int|
            0 <= k < DIRECTIONS ==> #[trigger] excess_to(m, heights, grid, c, k) is None,
        forall|k: int|
            0 <= k < DIRECTIONS ==> #[trigger] excess_from(m, heights, grid, c, k) is None,
    ensures
        net_movement(m, heights, grid, c, DIRECTIONS as int) == (m.lose)((m.shed)(m.zero)),
{
    lemma_gentle_tally(m, heights, grid, c, DIRECTIONS as int);
    lemma_gentle_net(m, heights, grid, c, DIRECTIONS as int);
}

proof fn lemma_gentle_tally<H, A>(
    m: TalusMath<H, A>,
    heights: Seq<H>,
    grid: Grid,
    c: int,
    k: int,
)
    requires
        forall|j: int|
            0 <= j < DIRECTIONS ==> #[trigger] excess_to(m, heights, grid, c, j) is None,
        0 <= k <= DIRECTIONS,
    ensures
        tallied(m, heights, grid, c, k) == (m.zero, m.zero),
    decreases k,
{
    if k > 0 {
        lemma_gentle_tally(m, heights, grid, c, k - 1);
        assert(excess_to(m, heights, grid, c, k - 1) is None);
    }
}

proof fn lemma_gentle_net<H, A>(m: TalusMath<H, A>, heights: Seq<H>, grid: Grid, c: int, k: int)
    requires
        forall|j: int|
            0 <= j < DIRECTIONS ==> #[trigger] excess_from(m, heights, grid, c, j) is None,
        0 <= k <= DIRECTIONS,
    ensures
        net_movement(m, heights, grid, c, k) == (m.lose)(shed_by(m, heights, grid, c)),
    decreases k,
{
    if k > 0 {
        lemma_gentle_net(m, heights, grid, c, k - 1);
        assert(excess_from(m, heights, grid, c, k - 1) is None);
    }
}

} // verus!
