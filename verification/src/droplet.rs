//! One droplet's run over the ground: where it reads, what it digs and where it drops its load.
//!
//! A droplet sits at a fractional position; the cell to its upper left is its node, and the four
//! cells from there are what it reads. Each step it counts a visit, moves, and either drops part of
//! its load onto the four cells it left or digs over the brush around its node.
use crate::brush::{brush_cell, Brush, BrushCell};
use crate::functions::{
    computes1, computes2, computes3, computes4, total1, total2, total3, total4,
};
use crate::grid::{lemma_index, Grid};
use crate::water_sim::Sided;
use vstd::prelude::*;

verus! {

/// What a droplet does with the ground after a move.
#[derive(Debug)]
pub enum Act<V> {
    /// Drop this much of its load.
    Deposit(V),
    /// Dig this much.
    Erode(V),
}

/// The arithmetic of a droplet, as executable functions.
pub struct DropletFns<V, N, H, M, W, A, P, Q, S, T, E> {
    /// No material.
    pub zero: V,
    /// The column and row a droplet's position falls in.
    pub node: N,
    /// The height at a droplet's position, from its node and the four heights read there.
    pub height: H,
    /// The droplet after its move, from its node and the four heights read there; `None` where it
    /// stops or leaves the ground.
    pub advance: M,
    /// The shares of the four cells at a droplet's position.
    pub weights: W,
    /// What the moved droplet does, from the heights before and after the move.
    pub act: A,
    /// What part of an amount a cell takes, from its share and its mask.
    pub part: P,
    /// The sum of two amounts.
    pub plus: Q,
    /// The difference of two amounts.
    pub minus: S,
    /// A visit count with one visit more.
    pub visit: T,
    /// The droplet after it dug or dropped: from the heights, whether it dug, and how much in all.
    pub settle: E,
}

/// The arithmetic of a droplet.
#[verifier::reject_recursive_types(D)]
#[verifier::reject_recursive_types(V)]
pub ghost struct DropletMath<D, V> {
    pub zero: V,
    pub node: spec_fn(D) -> (usize, usize),
    pub height: spec_fn(D, (usize, usize), Sided<V>) -> V,
    pub advance: spec_fn(D, (usize, usize), Sided<V>) -> Option<D>,
    pub weights: spec_fn(D, (usize, usize)) -> Sided<V>,
    pub act: spec_fn(D, V, V) -> Act<V>,
    pub part: spec_fn(V, V, V) -> V,
    pub plus: spec_fn(V, V) -> V,
    pub minus: spec_fn(V, V) -> V,
    pub visit: spec_fn(V) -> V,
    pub settle: spec_fn(D, (V, V), bool, V) -> D,
}

/// The executable functions accept every argument.
pub open spec fn droplet_total<
    D,
    V,
    N: Fn(D) -> (usize, usize),
    H: Fn(D, (usize, usize), Sided<V>) -> V,
    M: Fn(D, (usize, usize), Sided<V>) -> Option<D>,
    W: Fn(D, (usize, usize)) -> Sided<V>,
    A: Fn(D, V, V) -> Act<V>,
    P: Fn(V, V, V) -> V,
    Q: Fn(V, V) -> V,
    S: Fn(V, V) -> V,
    T: Fn(V) -> V,
    E: Fn(D, (V, V), bool, V) -> D,
>(f: DropletFns<V, N, H, M, W, A, P, Q, S, T, E>) -> bool {
    &&& total1(f.node)
    &&& total3(f.height)
    &&& total3(f.advance)
    &&& total2(f.weights)
    &&& total3(f.act)
    &&& total3(f.part)
    &&& total2(f.plus)
    &&& total2(f.minus)
    &&& total1(f.visit)
    &&& total4(f.settle)
}

/// The executable functions compute the arithmetic `m`.
pub open spec fn droplet_math<
    D,
    V,
    N: Fn(D) -> (usize, usize),
    H: Fn(D, (usize, usize), Sided<V>) -> V,
    M: Fn(D, (usize, usize), Sided<V>) -> Option<D>,
    W: Fn(D, (usize, usize)) -> Sided<V>,
    A: Fn(D, V, V) -> Act<V>,
    P: Fn(V, V, V) -> V,
    Q: Fn(V, V) -> V,
    S: Fn(V, V) -> V,
    T: Fn(V) -> V,
    E: Fn(D, (V, V), bool, V) -> D,
>(m: DropletMath<D, V>, f: DropletFns<V, N, H, M, W, A, P, Q, S, T, E>) -> bool {
    &&& m.zero == f.zero
    &&& computes1(f.node, m.node)
    &&& computes3(f.height, m.height)
    &&& computes3(f.advance, m.advance)
    &&& computes2(f.weights, m.weights)
    &&& computes3(f.act, m.act)
    &&& computes3(f.part, m.part)
    &&& computes2(f.plus, m.plus)
    &&& computes2(f.minus, m.minus)
    &&& computes1(f.visit, m.visit)
    &&& computes4(f.settle, m.settle)
}

/// The ground the droplets work: its heights, what wore, what settled, and the visits.
#[derive(Debug)]
pub struct Ground<V> {
    pub map: Vec<V>,
    pub wear: Vec<V>,
    pub deposition: Vec<V>,
    pub flow: Vec<V>,
}

/// What a [`Ground`] holds.
#[verifier::reject_recursive_types(V)]
#[verifier::ext_equal]
pub ghost struct Land<V> {
    pub map: Seq<V>,
    pub wear: Seq<V>,
    pub deposition: Seq<V>,
    pub flow: Seq<V>,
}

impl<V> View for Ground<V> {
    type V = Land<V>;

    open spec fn view(&self) -> Land<V> {
        Land {
            map: self.map@,
            wear: self.wear@,
            deposition: self.deposition@,
            flow: self.flow@,
        }
    }
}

impl<V> Land<V> {
    /// Every cell has a height, its wear, its deposition and its visits.
    pub open spec fn wf(self, grid: Grid) -> bool {
        &&& self.map.len() == grid.cells()
        &&& self.wear.len() == grid.cells()
        &&& self.deposition.len() == grid.cells()
        &&& self.flow.len() == grid.cells()
    }
}

/// A coordinate, at most the last from which a two-cell stencil fits.
pub open spec fn stencil(v: usize, size: usize) -> usize {
    if v + 2 <= size {
        v
    } else {
        (size - 2) as usize
    }
}

/// The node of a droplet: the upper left of the four cells it reads.
pub open spec fn node_of<D, V>(m: DropletMath<D, V>, grid: Grid, d: D) -> (usize, usize) {
    let p = (m.node)(d);
    (stencil(p.0, grid.width), stencil(p.1, grid.height))
}

/// The four values from a node: here, right, below, and below right.
pub open spec fn read_at<V>(values: Seq<V>, grid: Grid, node: (usize, usize)) -> Sided<V> {
    (
        values[grid.index(node.0 as int, node.1 as int)],
        values[grid.index(node.0 + 1, node.1 as int)],
        values[grid.index(node.0 as int, node.1 + 1)],
        values[grid.index(node.0 + 1, node.1 + 1)],
    )
}

/// Heights being worked, with the tally of what moved at each cell and in all.
#[verifier::reject_recursive_types(V)]
#[verifier::ext_equal]
pub ghost struct Pile<V> {
    pub map: Seq<V>,
    pub tally: Seq<V>,
    pub total: V,
}

/// A pile after cell `c` took its part of an amount: dug out of it, or dropped on it.
pub open spec fn worked<D, V>(
    m: DropletMath<D, V>,
    mask: Seq<V>,
    p: Pile<V>,
    c: int,
    amount: V,
    share: V,
    digging: bool,
) -> Pile<V> {
    let moved = (m.part)(amount, share, mask[c]);
    let height = if digging {
        (m.minus)(p.map[c], moved)
    } else {
        (m.plus)(p.map[c], moved)
    };
    Pile {
        map: p.map.update(c, height),
        tally: p.tally.update(c, (m.plus)(p.tally[c], moved)),
        total: (m.plus)(p.total, moved),
    }
}

/// A pile after digging over the first `n` cells of the brush around a node. Cells off the grid
/// are skipped.
pub open spec fn dug<D, V>(
    m: DropletMath<D, V>,
    mask: Seq<V>,
    grid: Grid,
    cells: Seq<BrushCell<V>>,
    node: (usize, usize),
    amount: V,
    p: Pile<V>,
    n: int,
) -> Pile<V>
    decreases n,
{
    if n <= 0 {
        p
    } else {
        let before = dug(m, mask, grid, cells, node, amount, p, n - 1);
        let b = cells[n - 1];
        match brush_cell(grid, node.0 as int, node.1 as int, b.dx as int, b.dy as int) {
            Some(c) => worked(m, mask, before, c, amount, b.share, true),
            None => before,
        }
    }
}

/// A pile after dropping an amount on the four cells from a node, by their shares.
pub open spec fn dropped<D, V>(
    m: DropletMath<D, V>,
    mask: Seq<V>,
    grid: Grid,
    node: (usize, usize),
    shares: Sided<V>,
    amount: V,
    p: Pile<V>,
) -> Pile<V> {
    let (x, y) = (node.0 as int, node.1 as int);
    let a = worked(m, mask, p, grid.index(x, y), amount, shares.0, false);
    let b = worked(m, mask, a, grid.index(x + 1, y), amount, shares.1, false);
    let c = worked(m, mask, b, grid.index(x, y + 1), amount, shares.2, false);
    worked(m, mask, c, grid.index(x + 1, y + 1), amount, shares.3, false)
}

/// One step of a droplet: the ground after it, and the droplet where it goes on.
pub open spec fn droplet_step<D, V>(
    m: DropletMath<D, V>,
    cells: Seq<BrushCell<V>>,
    grid: Grid,
    mask: Seq<V>,
    land: Land<V>,
    d: D,
) -> (Land<V>, Option<D>) {
    let node = node_of(m, grid, d);
    let c = grid.index(node.0 as int, node.1 as int);
    let seen = Land { flow: land.flow.update(c, (m.visit)(land.flow[c])), ..land };
    let read = read_at(land.map, grid, node);
    let before = (m.height)(d, node, read);
    match (m.advance)(d, node, read) {
        None => (seen, None),
        Some(e) => {
            let there = node_of(m, grid, e);
            let after = (m.height)(e, there, read_at(land.map, grid, there));
            match (m.act)(e, before, after) {
                Act::Deposit(amount) => {
                    let p = dropped(
                        m,
                        mask,
                        grid,
                        node,
                        (m.weights)(d, node),
                        amount,
                        Pile { map: land.map, tally: land.deposition, total: m.zero },
                    );
                    (
                        Land { map: p.map, deposition: p.tally, ..seen },
                        Some((m.settle)(e, (before, after), false, p.total)),
                    )
                },
                Act::Erode(amount) => {
                    let p = dug(
                        m,
                        mask,
                        grid,
                        cells,
                        node,
                        amount,
                        Pile { map: land.map, tally: land.wear, total: m.zero },
                        cells.len() as int,
                    );
                    (
                        Land { map: p.map, wear: p.tally, ..seen },
                        Some((m.settle)(e, (before, after), true, p.total)),
                    )
                },
            }
        },
    }
}

/// The ground after a droplet of at most `lifetime` steps.
pub open spec fn droplet_run<D, V>(
    m: DropletMath<D, V>,
    cells: Seq<BrushCell<V>>,
    grid: Grid,
    mask: Seq<V>,
    land: Land<V>,
    d: D,
    lifetime: nat,
) -> Land<V>
    decreases lifetime,
{
    if lifetime == 0 {
        land
    } else {
        let (next, goes_on) = droplet_step(m, cells, grid, mask, land, d);
        match goes_on {
            Some(e) => droplet_run(m, cells, grid, mask, next, e, (lifetime - 1) as nat),
            None => next,
        }
    }
}

/// The cells a stencil covers lie on the grid.
pub proof fn lemma_stencil(grid: Grid, p: (usize, usize))
    requires
        grid.width >= 2,
        grid.height >= 2,
    ensures
        ({
            let (x, y) = (
                stencil(p.0, grid.width) as int,
                stencil(p.1, grid.height) as int,
            );
            &&& x + 1 < grid.width && y + 1 < grid.height
            &&& 0 <= y * grid.width
            &&& 0 <= grid.index(x, y) < grid.cells()
            &&& grid.index(x + 1, y) == grid.index(x, y) + 1
            &&& grid.index(x, y + 1) == grid.index(x, y) + grid.width
            &&& grid.index(x + 1, y + 1) == grid.index(x, y) + grid.width + 1
            &&& grid.index(x + 1, y + 1) < grid.cells()
        }),
{
    let x = stencil(p.0, grid.width) as int;
    let y = stencil(p.1, grid.height) as int;
    lemma_index(grid, x, y);
    lemma_index(grid, x + 1, y + 1);
    assert((y + 1) * grid.width == y * grid.width + grid.width) by (nonlinear_arith);
}

/// A coordinate, at most the last from which a two-cell stencil fits.
pub fn clamp_to_stencil(v: usize, size: usize) -> (r: usize)
    requires
        size >= 2,
    ensures
        r == stencil(v, size),
        r + 2 <= size,
{
    if v <= size - 2 {
        v
    } else {
        size - 2
    }
}

/// One cell takes its part of an amount.
fn work<
    D,
    V: Copy,
    N: Fn(D) -> (usize, usize),
    H: Fn(D, (usize, usize), Sided<V>) -> V,
    M: Fn(D, (usize, usize), Sided<V>) -> Option<D>,
    W: Fn(D, (usize, usize)) -> Sided<V>,
    A: Fn(D, V, V) -> Act<V>,
    P: Fn(V, V, V) -> V,
    Q: Fn(V, V) -> V,
    S: Fn(V, V) -> V,
    T: Fn(V) -> V,
    E: Fn(D, (V, V), bool, V) -> D,
>(
    f: &DropletFns<V, N, H, M, W, A, P, Q, S, T, E>,
    mask: &Vec<V>,
    map: &mut Vec<V>,
    tally: &mut Vec<V>,
    total: V,
    c: usize,
    amount: V,
    share: V,
    digging: bool,
) -> (r: V)
    requires
        droplet_total::<D, V, N, H, M, W, A, P, Q, S, T, E>(*f),
        c < mask@.len(),
        c < old(map)@.len(),
        c < old(tally)@.len(),
    ensures
        final(map)@.len() == old(map)@.len(),
        final(tally)@.len() == old(tally)@.len(),
        forall|m: DropletMath<D, V>| #[trigger]
            droplet_math(m, *f) ==> (Pile {
                map: final(map)@,
                tally: final(tally)@,
                total: r,
            }) == worked(
                m,
                mask@,
                Pile { map: old(map)@, tally: old(tally)@, total },
                c as int,
                amount,
                share,
                digging,
            ),
{
    let moved: V = (f.part)(amount, share, mask[c]);
    let height: V = if digging {
        (f.minus)(map[c], moved)
    } else {
        (f.plus)(map[c], moved)
    };
    let t: V = (f.plus)(tally[c], moved);
    let r: V = (f.plus)(total, moved);
    proof {
        assert forall|m: DropletMath<D, V>| #[trigger] droplet_math(m, *f) implies {
            &&& moved == (m.part)(amount, share, mask@[c as int])
            &&& digging ==> height == (m.minus)(old(map)@[c as int], moved)
            &&& !digging ==> height == (m.plus)(old(map)@[c as int], moved)
            &&& t == (m.plus)(old(tally)@[c as int], moved)
            &&& r == (m.plus)(total, moved)
        } by {
            assert(call_ensures(f.part, (amount, share, mask@[c as int]), moved));
            assert(call_ensures(f.plus, (old(tally)@[c as int], moved), t));
            assert(call_ensures(f.plus, (total, moved), r));
            if digging {
                assert(call_ensures(f.minus, (old(map)@[c as int], moved), height));
            } else {
                assert(call_ensures(f.plus, (old(map)@[c as int], moved), height));
            }
        }
    }
    map.set(c, height);
    tally.set(c, t);
    r
}

/// Digs an amount over the brush around a node; gives what came out in all.
fn dig<
    D,
    V: Copy,
    N: Fn(D) -> (usize, usize),
    H: Fn(D, (usize, usize), Sided<V>) -> V,
    M: Fn(D, (usize, usize), Sided<V>) -> Option<D>,
    W: Fn(D, (usize, usize)) -> Sided<V>,
    A: Fn(D, V, V) -> Act<V>,
    P: Fn(V, V, V) -> V,
    Q: Fn(V, V) -> V,
    S: Fn(V, V) -> V,
    T: Fn(V) -> V,
    E: Fn(D, (V, V), bool, V) -> D,
>(
    f: &DropletFns<V, N, H, M, W, A, P, Q, S, T, E>,
    mask: &Vec<V>,
    grid: &Grid,
    brush: &Brush<V>,
    map: &mut Vec<V>,
    tally: &mut Vec<V>,
    node: (usize, usize),
    amount: V,
) -> (r: V)
    requires
        grid.wf(),
        droplet_total::<D, V, N, H, M, W, A, P, Q, S, T, E>(*f),
        brush.wf(),
        node.0 < grid.width,
        node.1 < grid.height,
        mask@.len() >= grid.cells(),
        old(map)@.len() == grid.cells(),
        old(tally)@.len() == grid.cells(),
    ensures
        final(map)@.len() == grid.cells(),
        final(tally)@.len() == grid.cells(),
        forall|m: DropletMath<D, V>| #[trigger]
            droplet_math(m, *f) ==> (Pile {
                map: final(map)@,
                tally: final(tally)@,
                total: r,
            }) == dug(
                m,
                mask@,
                *grid,
                brush.cells@,
                node,
                amount,
                Pile { map: old(map)@, tally: old(tally)@, total: m.zero },
                brush.cells@.len() as int,
            ),
{
    let mut total: V = f.zero;
    let mut i: usize = 0;
    while i < brush.cells.len()
        invariant
            grid.wf(),
            droplet_total::<D, V, N, H, M, W, A, P, Q, S, T, E>(*f),
            node.0 < grid.width,
            node.1 < grid.height,
            mask@.len() >= grid.cells(),
            i <= brush.cells@.len(),
            map@.len() == grid.cells(),
            tally@.len() == grid.cells(),
            forall|m: DropletMath<D, V>| #[trigger]
                droplet_math(m, *f) ==> (Pile { map: map@, tally: tally@, total }) == dug(
                    m,
                    mask@,
                    *grid,
                    brush.cells@,
                    node,
                    amount,
                    Pile { map: old(map)@, tally: old(tally)@, total: m.zero },
                    i as int,
                ),
        decreases brush.cells.len() - i,
    {
        let b: &BrushCell<V> = &brush.cells[i];
        match offset_cell(grid, node, b.dx, b.dy) {
            Some(c) => {
                total = work(f, mask, map, tally, total, c, amount, b.share, true);
            },
            None => {},
        }
        i += 1;
    }
    total
}

/// The cell an offset from a node leads to, or `None` off the grid.
fn offset_cell(grid: &Grid, node: (usize, usize), dx: i32, dy: i32) -> (r: Option<usize>)
    requires
        grid.wf(),
        node.0 < grid.width,
        node.1 < grid.height,
    ensures
        match r {
            Some(c) => brush_cell(
                *grid,
                node.0 as int,
                node.1 as int,
                dx as int,
                dy as int,
            ) == Some(c as int) && c < grid.cells(),
            None => brush_cell(
                *grid,
                node.0 as int,
                node.1 as int,
                dx as int,
                dy as int,
            ) is None,
        },
{
    let x: i128 = node.0 as i128 + dx as i128;
    let y: i128 = node.1 as i128 + dy as i128;
    if x < 0 || y < 0 || x >= grid.width as i128 || y >= grid.height as i128 {
        return None;
    }
    let (cx, cy): (usize, usize) = (x as usize, y as usize);
    proof {
        lemma_index(*grid, cx as int, cy as int);
    }
    Some(cy * grid.width + cx)
}

/// Drops an amount on the four cells from a node; gives what stayed in all.
fn drop_load<
    D,
    V: Copy,
    N: Fn(D) -> (usize, usize),
    H: Fn(D, (usize, usize), Sided<V>) -> V,
    M: Fn(D, (usize, usize), Sided<V>) -> Option<D>,
    W: Fn(D, (usize, usize)) -> Sided<V>,
    A: Fn(D, V, V) -> Act<V>,
    P: Fn(V, V, V) -> V,
    Q: Fn(V, V) -> V,
    S: Fn(V, V) -> V,
    T: Fn(V) -> V,
    E: Fn(D, (V, V), bool, V) -> D,
>(
    f: &DropletFns<V, N, H, M, W, A, P, Q, S, T, E>,
    mask: &Vec<V>,
    grid: &Grid,
    map: &mut Vec<V>,
    tally: &mut Vec<V>,
    node: (usize, usize),
    shares: Sided<V>,
    amount: V,
) -> (r: V)
    requires
        grid.wf(),
        droplet_total::<D, V, N, H, M, W, A, P, Q, S, T, E>(*f),
        node.0 + 2 <= grid.width,
        node.1 + 2 <= grid.height,
        mask@.len() >= grid.cells(),
        old(map)@.len() == grid.cells(),
        old(tally)@.len() == grid.cells(),
    ensures
        final(map)@.len() == grid.cells(),
        final(tally)@.len() == grid.cells(),
        forall|m: DropletMath<D, V>| #[trigger]
            droplet_math(m, *f) ==> (Pile {
                map: final(map)@,
                tally: final(tally)@,
                total: r,
            }) == dropped(
                m,
                mask@,
                *grid,
                node,
                shares,
                amount,
                Pile { map: old(map)@, tally: old(tally)@, total: m.zero },
            ),
{
    proof {
        lemma_stencil(*grid, node);
    }
    let c: usize = node.1 * grid.width + node.0;
    let a: V = work(f, mask, map, tally, f.zero, c, amount, shares.0, false);
    let b: V = work(f, mask, map, tally, a, c + 1, amount, shares.1, false);
    let d: V = work(f, mask, map, tally, b, c + grid.width, amount, shares.2, false);
    work(f, mask, map, tally, d, c + grid.width + 1, amount, shares.3, false)
}

/// The four values from a node.
pub fn read_corners<V: Copy>(values: &Vec<V>, grid: &Grid, node: (usize, usize)) -> (r: Sided<V>)
    requires
        grid.wf(),
        node.0 + 2 <= grid.width,
        node.1 + 2 <= grid.height,
        values@.len() == grid.cells(),
    ensures
        r == read_at(values@, *grid, node),
{
    proof {
        lemma_stencil(*grid, node);
    }
    let c: usize = node.1 * grid.width + node.0;
    (values[c], values[c + 1], values[c + grid.width], values[c + grid.width + 1])
}

/// One step of a droplet.
fn step_droplet<
    D: Copy,
    V: Copy,
    N: Fn(D) -> (usize, usize),
    H: Fn(D, (usize, usize), Sided<V>) -> V,
    M: Fn(D, (usize, usize), Sided<V>) -> Option<D>,
    W: Fn(D, (usize, usize)) -> Sided<V>,
    A: Fn(D, V, V) -> Act<V>,
    P: Fn(V, V, V) -> V,
    Q: Fn(V, V) -> V,
    S: Fn(V, V) -> V,
    T: Fn(V) -> V,
    E: Fn(D, (V, V), bool, V) -> D,
>(
    ground: &mut Ground<V>,
    f: &DropletFns<V, N, H, M, W, A, P, Q, S, T, E>,
    brush: &Brush<V>,
    grid: &Grid,
    mask: &Vec<V>,
    d: D,
) -> (r: Option<D>)
    requires
        grid.wf(),
        grid.width >= 2,
        grid.height >= 2,
        brush.wf(),
        mask@.len() >= grid.cells(),
        old(ground)@.wf(*grid),
        droplet_total(*f),
    ensures
        final(ground)@.wf(*grid),
        forall|m: DropletMath<D, V>| #[trigger]
            droplet_math(m, *f) ==> (final(ground)@, r) == droplet_step(
                m,
                brush.cells@,
                *grid,
                mask@,
                old(ground)@,
                d,
            ),
{
    let ghost land = ground@;
    let p: (usize, usize) = (f.node)(d);
    let node: (usize, usize) = (
        clamp_to_stencil(p.0, grid.width),
        clamp_to_stencil(p.1, grid.height),
    );
    proof {
        lemma_stencil(*grid, node);
    }
    let c: usize = node.1 * grid.width + node.0;
    let v: V = (f.visit)(ground.flow[c]);
    ground.flow.set(c, v);
    let ghost seen = ground@;
    let read: Sided<V> = read_corners(&ground.map, grid, node);
    let before: V = (f.height)(d, node, read);
    let moved: Option<D> = (f.advance)(d, node, read);
    proof {
        assert forall|m: DropletMath<D, V>| #[trigger] droplet_math(m, *f) implies {
            &&& node == node_of(m, *grid, d)
            &&& v == (m.visit)(land.flow[c as int])
            &&& before == (m.height)(d, node, read)
            &&& moved == (m.advance)(d, node, read)
        } by {
            assert(call_ensures(f.node, (d,), p));
            assert(call_ensures(f.visit, (land.flow[c as int],), v));
            assert(call_ensures(f.height, (d, node, read), before));
            assert(call_ensures(f.advance, (d, node, read), moved));
        }
        assert(seen == (Land { flow: land.flow.update(c as int, v), ..land }));
    }
    let e: D = match moved {
        Some(e) => e,
        None => {
            return None;
        },
    };
    let q: (usize, usize) = (f.node)(e);
    let there: (usize, usize) = (
        clamp_to_stencil(q.0, grid.width),
        clamp_to_stencil(q.1, grid.height),
    );
    let read_there: Sided<V> = read_corners(&ground.map, grid, there);
    let after: V = (f.height)(e, there, read_there);
    let act: Act<V> = (f.act)(e, before, after);
    proof {
        assert forall|m: DropletMath<D, V>| #[trigger] droplet_math(m, *f) implies {
            &&& there == node_of(m, *grid, e)
            &&& after == (m.height)(e, there, read_there)
            &&& act == (m.act)(e, before, after)
        } by {
            assert(call_ensures(f.node, (e,), q));
            assert(call_ensures(f.height, (e, there, read_there), after));
            assert(call_ensures(f.act, (e, before, after), act));
        }
    }
    match act {
        Act::Deposit(amount) => {
            let shares: Sided<V> = (f.weights)(d, node);
            let total: V = drop_load(
                f,
                mask,
                grid,
                &mut ground.map,
                &mut ground.deposition,
                node,
                shares,
                amount,
            );
            let next: D = (f.settle)(e, (before, after), false, total);
            proof {
                assert forall|m: DropletMath<D, V>| #[trigger] droplet_math(m, *f) implies (
                ground@,
                Some(next),
                ) == droplet_step(m, brush.cells@, *grid, mask@, land, d) by {
                    assert(call_ensures(f.weights, (d, node), shares));
                    assert(call_ensures(f.settle, (e, (before, after), false, total), next));
                    let pile = dropped(
                        m,
                        mask@,
                        *grid,
                        node,
                        shares,
                        amount,
                        Pile { map: land.map, tally: land.deposition, total: m.zero },
                    );
                    assert(pile.map == ground.map@ && pile.tally == ground.deposition@
                        && pile.total == total);
                    assert(ground@ =~= (Land { map: pile.map, deposition: pile.tally, ..seen }));
                }
            }
            Some(next)
        },
        Act::Erode(amount) => {
            let total: V = dig(
                f,
                mask,
                grid,
                brush,
                &mut ground.map,
                &mut ground.wear,
                node,
                amount,
            );
            let next: D = (f.settle)(e, (before, after), true, total);
            proof {
                assert forall|m: DropletMath<D, V>| #[trigger] droplet_math(m, *f) implies (
                ground@,
                Some(next),
                ) == droplet_step(m, brush.cells@, *grid, mask@, land, d) by {
                    assert(call_ensures(f.settle, (e, (before, after), true, total), next));
                    let pile = dug(
                        m,
                        mask@,
                        *grid,
                        brush.cells@,
                        node,
                        amount,
                        Pile { map: land.map, tally: land.wear, total: m.zero },
                        brush.cells@.len() as int,
                    );
                    assert(pile.map == ground.map@ && pile.tally == ground.wear@ && pile.total
                        == total);
                    assert(ground@ =~= (Land { map: pile.map, wear: pile.tally, ..seen }));
                }
            }
            Some(next)
        },
    }
}

/// Runs one droplet over the ground for at most `lifetime` steps.
pub fn simulate_droplet<
    D: Copy,
    V: Copy,
    N: Fn(D) -> (usize, usize),
    H: Fn(D, (usize, usize), Sided<V>) -> V,
    M: Fn(D, (usize, usize), Sided<V>) -> Option<D>,
    W: Fn(D, (usize, usize)) -> Sided<V>,
    A: Fn(D, V, V) -> Act<V>,
    P: Fn(V, V, V) -> V,
    Q: Fn(V, V) -> V,
    S: Fn(V, V) -> V,
    T: Fn(V) -> V,
    E: Fn(D, (V, V), bool, V) -> D,
>(
    ground: &mut Ground<V>,
    f: &DropletFns<V, N, H, M, W, A, P, Q, S, T, E>,
    brush: &Brush<V>,
    grid: &Grid,
    mask: &Vec<V>,
    start: D,
    lifetime: usize,
)
    requires
        grid.wf(),
        grid.width >= 2,
        grid.height >= 2,
        brush.wf(),
        mask@.len() >= grid.cells(),
        old(ground)@.wf(*grid),
        droplet_total(*f),
    ensures
        final(ground)@.wf(*grid),
        forall|m: DropletMath<D, V>| #[trigger]
            droplet_math(m, *f) ==> final(ground)@ == droplet_run(
                m,
                brush.cells@,
                *grid,
                mask@,
                old(ground)@,
                start,
                lifetime as nat,
            ),
{
    let ghost land = ground@;
    let mut d: D = start;
    let mut left: usize = lifetime;
    while left > 0
        invariant
            grid.wf(),
            grid.width >= 2,
            grid.height >= 2,
            brush.wf(),
            mask@.len() >= grid.cells(),
            ground@.wf(*grid),
            droplet_total(*f),
            land == old(ground)@,
            forall|m: DropletMath<D, V>| #[trigger]
                droplet_math(m, *f) ==> droplet_run(
                    m,
                    brush.cells@,
                    *grid,
                    mask@,
                    land,
                    start,
                    lifetime as nat,
                ) == droplet_run(m, brush.cells@, *grid, mask@, ground@, d, left as nat),
        decreases left,
    {
        let ghost was = ground@;
        match step_droplet(ground, f, brush, grid, mask, d) {
            Some(e) => {
                d = e;
            },
            None => {
                proof {
                    assert forall|m: DropletMath<D, V>| #[trigger]
                        droplet_math(m, *f) implies ground@ == droplet_run(
                        m,
                        brush.cells@,
                        *grid,
                        mask@,
                        was,
                        d,
                        left as nat,
                    ) by {}
                }
                return ;
            },
        }
        left -= 1;
    }
}

/// A fully masked-out cell keeps its height while a droplet digs or drops around it, where a part
/// of nothing is nothing.
pub proof fn law_masked_cell_is_kept<D, V>(
    m: DropletMath<D, V>,
    mask: Seq<V>,
    p: Pile<V>,
    c: int,
    amount: V,
    share: V,
    digging: bool,
)
    requires
        0 <= c < p.map.len(),
        (m.part)(amount, share, mask[c]) == m.zero,
        (m.plus)(p.map[c], m.zero) == p.map[c],
        (m.minus)(p.map[c], m.zero) == p.map[c],
    ensures
        worked(m, mask, p, c, amount, share, digging).map == p.map,
{
    assert(worked(m, mask, p, c, amount, share, digging).map =~= p.map);
}

/// Digging touches only cells of the brush: a cell that no brush offset leads to keeps its height.
pub proof fn law_digging_stays_under_the_brush<D, V>(
    m: DropletMath<D, V>,
    mask: Seq<V>,
    grid: Grid,
    cells: Seq<BrushCell<V>>,
    node: (usize, usize),
    amount: V,
    p: Pile<V>,
    n: int,
    c: int,
)
    requires
        0 <= n <= cells.len(),
        0 <= c < p.map.len(),
        p.tally.len() == p.map.len(),
        p.map.len() == grid.cells(),
        forall|i: int|
            0 <= i < n ==> brush_cell(
                grid,
                node.0 as int,
                node.1 as int,
                (#[trigger] cells[i]).dx as int,
                cells[i].dy as int,
            ) != Some(c),
    ensures
        dug(m, mask, grid, cells, node, amount, p, n).map.len() == p.map.len(),
        dug(m, mask, grid, cells, node, amount, p, n).tally.len() == p.map.len(),
        dug(m, mask, grid, cells, node, amount, p, n).map[c] == p.map[c],
        dug(m, mask, grid, cells, node, amount, p, n).tally[c] == p.tally[c],
    decreases n,
{
    if n > 0 {
        law_digging_stays_under_the_brush(m, mask, grid, cells, node, amount, p, n - 1, c);
        let b = cells[n - 1];
        let (x, y) = (node.0 + b.dx, node.1 + b.dy);
        if grid.holds(x, y) {
            lemma_index(grid, x, y);
        }
    }
}

/// Nothing moves at a masked-out cell: every part of an amount there is nothing, and nothing added
/// to its height or its tallies, or taken from its height, leaves them as they are.
pub open spec fn masked_out<D, V>(m: DropletMath<D, V>, mask: Seq<V>, land: Land<V>, c: int) -> bool {
    &&& forall|amount: V, share: V| #[trigger] (m.part)(amount, share, mask[c]) == m.zero
    &&& (m.plus)(land.map[c], m.zero) == land.map[c]
    &&& (m.minus)(land.map[c], m.zero) == land.map[c]
    &&& (m.plus)(land.wear[c], m.zero) == land.wear[c]
    &&& (m.plus)(land.deposition[c], m.zero) == land.deposition[c]
}

/// `after` is as large as `before`, and the same at cell `c`.
spec fn keeps<V>(before: Pile<V>, after: Pile<V>, c: int) -> bool {
    &&& after.map.len() == before.map.len()
    &&& after.tally.len() == before.tally.len()
    &&& after.map[c] == before.map[c]
    &&& after.tally[c] == before.tally[c]
}

/// Nothing moves at cell `c` of a pile.
spec fn still<D, V>(m: DropletMath<D, V>, mask: Seq<V>, p: Pile<V>, c: int) -> bool {
    &&& p.tally.len() == p.map.len()
    &&& 0 <= c < p.map.len()
    &&& forall|amount: V, share: V| #[trigger] (m.part)(amount, share, mask[c]) == m.zero
    &&& (m.plus)(p.map[c], m.zero) == p.map[c]
    &&& (m.minus)(p.map[c], m.zero) == p.map[c]
    &&& (m.plus)(p.tally[c], m.zero) == p.tally[c]
}

/// Digging keeps a masked-out cell.
proof fn lemma_digging_keeps<D, V>(
    m: DropletMath<D, V>,
    mask: Seq<V>,
    grid: Grid,
    cells: Seq<BrushCell<V>>,
    node: (usize, usize),
    amount: V,
    p: Pile<V>,
    n: int,
    c: int,
)
    requires
        0 <= n <= cells.len(),
        p.map.len() == grid.cells(),
        still(m, mask, p, c),
    ensures
        keeps(p, dug(m, mask, grid, cells, node, amount, p, n), c),
    decreases n,
{
    if n > 0 {
        lemma_digging_keeps(m, mask, grid, cells, node, amount, p, n - 1, c);
        let b = cells[n - 1];
        let (x, y) = (node.0 + b.dx, node.1 + b.dy);
        if grid.holds(x, y) {
            lemma_index(grid, x, y);
            let before = dug(m, mask, grid, cells, node, amount, p, n - 1);
            let at = grid.index(x, y);
            assert((m.part)(amount, b.share, mask[c]) == m.zero);
            assert(keeps(before, worked(m, mask, before, at, amount, b.share, true), c));
        }
    }
}

/// Dropping keeps a masked-out cell.
proof fn lemma_dropping_keeps<D, V>(
    m: DropletMath<D, V>,
    mask: Seq<V>,
    grid: Grid,
    p: (usize, usize),
    shares: Sided<V>,
    amount: V,
    pile: Pile<V>,
    c: int,
)
    requires
        grid.width >= 2,
        grid.height >= 2,
        pile.map.len() == grid.cells(),
        still(m, mask, pile, c),
    ensures
        ({
            let node = (stencil(p.0, grid.width), stencil(p.1, grid.height));
            keeps(pile, dropped(m, mask, grid, node, shares, amount, pile), c)
        }),
{
    lemma_stencil(grid, p);
    let x = stencil(p.0, grid.width) as int;
    let y = stencil(p.1, grid.height) as int;
    assert((m.part)(amount, shares.0, mask[c]) == m.zero);
    assert((m.part)(amount, shares.1, mask[c]) == m.zero);
    assert((m.part)(amount, shares.2, mask[c]) == m.zero);
    assert((m.part)(amount, shares.3, mask[c]) == m.zero);
    let p1 = worked(m, mask, pile, grid.index(x, y), amount, shares.0, false);
    assert(keeps(pile, p1, c));
    let p2 = worked(m, mask, p1, grid.index(x + 1, y), amount, shares.1, false);
    assert(keeps(pile, p2, c));
    let p3 = worked(m, mask, p2, grid.index(x, y + 1), amount, shares.2, false);
    assert(keeps(pile, p3, c));
}

/// `after` fits the grid as `before` does, and holds the same heights and tallies at cell `c`.
pub open spec fn spared<V>(before: Land<V>, after: Land<V>, grid: Grid, c: int) -> bool {
    &&& after.wf(grid)
    &&& after.map[c] == before.map[c]
    &&& after.wear[c] == before.wear[c]
    &&& after.deposition[c] == before.deposition[c]
}

/// A masked-out cell keeps its height, its wear and its deposition however a droplet runs.
pub proof fn law_droplet_spares_a_masked_cell<D, V>(
    m: DropletMath<D, V>,
    cells: Seq<BrushCell<V>>,
    grid: Grid,
    mask: Seq<V>,
    land: Land<V>,
    d: D,
    lifetime: nat,
    c: int,
)
    requires
        grid.width >= 2,
        grid.height >= 2,
        land.wf(grid),
        0 <= c < grid.cells(),
        masked_out(m, mask, land, c),
    ensures
        spared(land, droplet_run(m, cells, grid, mask, land, d, lifetime), grid, c),
    decreases lifetime,
{
    if lifetime > 0 {
        let (next, goes_on) = droplet_step(m, cells, grid, mask, land, d);
        let node = node_of(m, grid, d);
        lemma_stencil(grid, (m.node)(d));
        let read = read_at(land.map, grid, node);
        let before = (m.height)(d, node, read);
        if let Some(e) = (m.advance)(d, node, read) {
            let there = node_of(m, grid, e);
            let after = (m.height)(e, there, read_at(land.map, grid, there));
            match (m.act)(e, before, after) {
                Act::Deposit(amount) => {
                    let p = Pile { map: land.map, tally: land.deposition, total: m.zero };
                    lemma_dropping_keeps(
                        m,
                        mask,
                        grid,
                        (m.node)(d),
                        (m.weights)(d, node),
                        amount,
                        p,
                        c,
                    );
                },
                Act::Erode(amount) => {
                    let p = Pile { map: land.map, tally: land.wear, total: m.zero };
                    lemma_digging_keeps(
                        m,
                        mask,
                        grid,
                        cells,
                        node,
                        amount,
                        p,
                        cells.len() as int,
                        c,
                    );
                },
            }
        }
        assert(spared(land, next, grid, c));
        if let Some(e) = goes_on {
            law_droplet_spares_a_masked_cell(
                m,
                cells,
                grid,
                mask,
                next,
                e,
                (lifetime - 1) as nat,
                c,
            );
        }
    }
}

} // verus!
