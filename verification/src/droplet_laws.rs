//! What a droplet does to the ground, cell by cell.
use crate::brush::{brush_cell, BrushCell};
use crate::droplet::{
    droplet_run, droplet_step, dropped, dug, law_digging_stays_under_the_brush, lemma_stencil,
    node_of, read_at, worked, Act, DropletMath, Land, Pile,
};
use crate::grid::{lemma_index, Grid};
use crate::totals::{lemma_total_changed, total};
use crate::water_sim::Sided;
use vstd::prelude::*;

verus! {

/// Two corners of a stencil are different cells.
proof fn lemma_corners_apart(grid: Grid, node: (usize, usize))
    requires
        node.0 + 2 <= grid.width,
        node.1 + 2 <= grid.height,
    ensures
        ({
            let (x, y) = (node.0 as int, node.1 as int);
            let (a, b) = (grid.index(x, y), grid.index(x + 1, y));
            let (c, d) = (grid.index(x, y + 1), grid.index(x + 1, y + 1));
            &&& 0 <= a < grid.cells() && 0 <= b < grid.cells()
            &&& 0 <= c < grid.cells() && 0 <= d < grid.cells()
            &&& a != b && a != c && a != d && b != c && b != d && c != d
        }),
{
    let (x, y) = (node.0 as int, node.1 as int);
    lemma_index(grid, x, y);
    lemma_index(grid, x + 1, y);
    lemma_index(grid, x, y + 1);
    lemma_index(grid, x + 1, y + 1);
}

/// The four values from a node are those of its own cell, of the cell one column on, of the cell
/// one row on, and of the cell one of both on: reading a field that is given by columns and rows
/// gives it there.
pub proof fn law_corners_are_read_in_order<V>(
    values: Seq<V>,
    grid: Grid,
    node: (usize, usize),
    f: spec_fn(int, int) -> V,
)
    requires
        node.0 + 2 <= grid.width,
        node.1 + 2 <= grid.height,
        forall|c: int|
            0 <= c < grid.cells() ==> #[trigger] values[c] == f(
                c % (grid.width as int),
                c / (grid.width as int),
            ),
    ensures
        ({
            let (x, y) = (node.0 as int, node.1 as int);
            read_at(values, grid, node) == (f(x, y), f(x + 1, y), f(x, y + 1), f(x + 1, y + 1))
        }),
{
    let (x, y) = (node.0 as int, node.1 as int);
    lemma_index(grid, x, y);
    lemma_index(grid, x + 1, y);
    lemma_index(grid, x, y + 1);
    lemma_index(grid, x + 1, y + 1);
}

/// A dropped load lands corner by corner: each of the four cells that a height is read from gains
/// the part that its own share and its own mask draw, in its height and in its tally, and the total
/// counts the four parts. No other cell changes.
pub proof fn law_load_lands_corner_by_corner<D, V>(
    m: DropletMath<D, V>,
    mask: Seq<V>,
    grid: Grid,
    node: (usize, usize),
    shares: Sided<V>,
    amount: V,
    p: Pile<V>,
)
    requires
        node.0 + 2 <= grid.width,
        node.1 + 2 <= grid.height,
        p.map.len() == grid.cells(),
        p.tally.len() == grid.cells(),
    ensures
        ({
            let q = dropped(m, mask, grid, node, shares, amount, p);
            let (h, t, k) = (
                read_at(p.map, grid, node),
                read_at(p.tally, grid, node),
                read_at(mask, grid, node),
            );
            let (a, b) = ((m.part)(amount, shares.0, k.0), (m.part)(amount, shares.1, k.1));
            let (c, d) = ((m.part)(amount, shares.2, k.2), (m.part)(amount, shares.3, k.3));
            &&& q.map.len() == grid.cells()
            &&& q.tally.len() == grid.cells()
            &&& read_at(q.map, grid, node) == (
                (m.plus)(h.0, a),
                (m.plus)(h.1, b),
                (m.plus)(h.2, c),
                (m.plus)(h.3, d),
            )
            &&& read_at(q.tally, grid, node) == (
                (m.plus)(t.0, a),
                (m.plus)(t.1, b),
                (m.plus)(t.2, c),
                (m.plus)(t.3, d),
            )
            &&& q.total == (m.plus)((m.plus)((m.plus)((m.plus)(p.total, a), b), c), d)
            &&& forall|e: int|
                0 <= e < grid.cells() && !(node.0 <= grid.col(e) <= node.0 + 1 && node.1
                    <= grid.row(e) <= node.1 + 1) ==> #[trigger] q.map[e] == p.map[e] && q.tally[e]
                    == p.tally[e]
        }),
{
    let (x, y) = (node.0 as int, node.1 as int);
    lemma_corners_apart(grid, node);
    lemma_index(grid, x, y);
    lemma_index(grid, x + 1, y);
    lemma_index(grid, x, y + 1);
    lemma_index(grid, x + 1, y + 1);
}

/// Where only one corner draws anything, only that corner's cell gains: a load whose shares of the
/// other three corners are worth nothing there lands whole on the one.
pub proof fn law_load_on_one_corner_stays_there<D, V>(
    m: DropletMath<D, V>,
    mask: Seq<V>,
    grid: Grid,
    node: (usize, usize),
    shares: Sided<V>,
    amount: V,
    p: Pile<V>,
    corner: (int, int),
    e: int,
)
    requires
        node.0 + 2 <= grid.width,
        node.1 + 2 <= grid.height,
        p.map.len() == grid.cells(),
        p.tally.len() == grid.cells(),
        0 <= corner.0 <= 1,
        0 <= corner.1 <= 1,
        corner != (0int, 0int) ==> forall|k: V| #[trigger] (m.part)(amount, shares.0, k) == m.zero,
        corner != (1int, 0int) ==> forall|k: V| #[trigger] (m.part)(amount, shares.1, k) == m.zero,
        corner != (0int, 1int) ==> forall|k: V| #[trigger] (m.part)(amount, shares.2, k) == m.zero,
        corner != (1int, 1int) ==> forall|k: V| #[trigger] (m.part)(amount, shares.3, k) == m.zero,
        forall|v: V| #[trigger] (m.plus)(v, m.zero) == v,
        0 <= e < grid.cells(),
        e != (node.1 + corner.1) * grid.width + (node.0 + corner.0),
    ensures
        dropped(m, mask, grid, node, shares, amount, p).map[e] == p.map[e],
        dropped(m, mask, grid, node, shares, amount, p).tally[e] == p.tally[e],
{
    let (x, y) = (node.0 as int, node.1 as int);
    lemma_corners_apart(grid, node);
    assert(grid.index(x + corner.0, y + corner.1) != e);
    assert((m.part)(amount, shares.0, mask[grid.index(x, y)]) == m.zero || corner == (0int, 0int));
    assert((m.part)(amount, shares.1, mask[grid.index(x + 1, y)]) == m.zero || corner == (
        1int,
        0int,
    ));
    assert((m.part)(amount, shares.2, mask[grid.index(x, y + 1)]) == m.zero || corner == (
        0int,
        1int,
    ));
    assert((m.part)(amount, shares.3, mask[grid.index(x + 1, y + 1)]) == m.zero || corner == (
        1int,
        1int,
    ));
}

/// Digging draws each cell under the brush by its own share: the cell that an offset leads to from
/// the node loses the part that the share of this offset and the mask there draw, and its tally
/// gains as much. Offsets are different from one another, as those of a brush are.
pub proof fn law_each_cell_under_the_brush_is_dug_once<D, V>(
    m: DropletMath<D, V>,
    mask: Seq<V>,
    grid: Grid,
    cells: Seq<BrushCell<V>>,
    node: (usize, usize),
    amount: V,
    p: Pile<V>,
    n: int,
    i: int,
)
    requires
        0 <= i < n <= cells.len(),
        p.map.len() == grid.cells(),
        p.tally.len() == grid.cells(),
        0 <= node.0 + cells[i].dx < grid.width,
        0 <= node.1 + cells[i].dy < grid.height,
        forall|a: int, b: int|
            0 <= a < b < cells.len() ==> (#[trigger] cells[a]).dx != (#[trigger] cells[b]).dx
                || cells[a].dy != cells[b].dy,
    ensures
        ({
            let q = dug(m, mask, grid, cells, node, amount, p, n);
            let c = (node.1 + cells[i].dy) * grid.width + (node.0 + cells[i].dx);
            let moved = (m.part)(amount, cells[i].share, mask[c]);
            &&& q.map.len() == grid.cells()
            &&& q.tally.len() == grid.cells()
            &&& q.map[c] == (m.minus)(p.map[c], moved)
            &&& q.tally[c] == (m.plus)(p.tally[c], moved)
        }),
    decreases n,
{
    let c = grid.index(node.0 + cells[i].dx, node.1 + cells[i].dy);
    lemma_index(grid, node.0 + cells[i].dx, node.1 + cells[i].dy);
    let b = cells[n - 1];
    let (x, y) = (node.0 + b.dx, node.1 + b.dy);
    if grid.holds(x, y) {
        lemma_index(grid, x, y);
    }
    if i < n - 1 {
        law_each_cell_under_the_brush_is_dug_once(m, mask, grid, cells, node, amount, p, n - 1, i);
        assert(cells[i].dx != cells[n - 1].dx || cells[i].dy != cells[n - 1].dy);
    } else {
        assert forall|j: int| 0 <= j < n - 1 implies brush_cell(
            grid,
            node.0 as int,
            node.1 as int,
            (#[trigger] cells[j]).dx as int,
            cells[j].dy as int,
        ) != Some(c) by {
            let (u, v) = (node.0 + cells[j].dx, node.1 + cells[j].dy);
            if grid.holds(u, v) {
                lemma_index(grid, u, v);
                assert(cells[j].dx != cells[i].dx || cells[j].dy != cells[i].dy);
            }
        }
        law_digging_stays_under_the_brush(m, mask, grid, cells, node, amount, p, n - 1, c);
    }
}

/// The node of a position: its column and row, at most the last but one of each.
pub proof fn law_node_is_the_cell_of_the_position<D, V>(m: DropletMath<D, V>, grid: Grid, d: D)
    requires
        grid.width >= 2,
        grid.height >= 2,
    ensures
        ({
            let (p, n) = ((m.node)(d), node_of(m, grid, d));
            &&& n.0 + 1 < grid.width && n.1 + 1 < grid.height
            &&& p.0 + 1 < grid.width ==> n.0 == p.0
            &&& p.1 + 1 < grid.height ==> n.1 == p.1
            &&& p.0 + 1 >= grid.width ==> n.0 == grid.width - 2
            &&& p.1 + 1 >= grid.height ==> n.1 == grid.height - 2
        }),
{
}

/// One step of a droplet, by what it reads. It is counted as one visit at its node and nowhere
/// else. Where it does not advance, nothing else changes. Where it does, the heights at its old and
/// at its new position, both read off the ground before the step, decide whether it drops on the
/// four cells it left or digs around its old node; the other tally keeps; and it goes on with what
/// moved in all.
pub proof fn law_step_goes_by_both_positions<D, V>(
    m: DropletMath<D, V>,
    cells: Seq<BrushCell<V>>,
    grid: Grid,
    mask: Seq<V>,
    land: Land<V>,
    d: D,
)
    requires
        grid.width >= 2,
        grid.height >= 2,
        land.wf(grid),
    ensures
        ({
            let (after, next) = droplet_step(m, cells, grid, mask, land, d);
            let node = node_of(m, grid, d);
            let here = node.1 * grid.width + node.0;
            let moved = (m.advance)(d, node, read_at(land.map, grid, node));
            &&& after.wf(grid)
            &&& after.flow[here] == (m.visit)(land.flow[here])
            &&& forall|e: int|
                0 <= e < grid.cells() && e != here ==> #[trigger] after.flow[e] == land.flow[e]
            &&& next is None <==> moved is None
            &&& moved is None ==> after.map == land.map && after.wear == land.wear
                && after.deposition == land.deposition
            &&& moved matches Some(e) ==> {
                let there = node_of(m, grid, e);
                let old_height = (m.height)(d, node, read_at(land.map, grid, node));
                let new_height = (m.height)(e, there, read_at(land.map, grid, there));
                match (m.act)(e, old_height, new_height) {
                    Act::Deposit(amount) => exists|q: Pile<V>|
                        {
                            &&& q == dropped(
                                m,
                                mask,
                                grid,
                                node,
                                (m.weights)(d, node),
                                amount,
                                Pile { map: land.map, tally: land.deposition, total: m.zero },
                            )
                            &&& after.map == q.map
                            &&& after.deposition == q.tally
                            &&& after.wear == land.wear
                            &&& next == Some(
                                #[trigger] (m.settle)(e, (old_height, new_height), false, q.total),
                            )
                        },
                    Act::Erode(amount) => exists|q: Pile<V>|
                        {
                            &&& q == dug(
                                m,
                                mask,
                                grid,
                                cells,
                                node,
                                amount,
                                Pile { map: land.map, tally: land.wear, total: m.zero },
                                cells.len() as int,
                            )
                            &&& after.map == q.map
                            &&& after.wear == q.tally
                            &&& after.deposition == land.deposition
                            &&& next == Some(
                                #[trigger] (m.settle)(e, (old_height, new_height), true, q.total),
                            )
                        },
                }
            }
        }),
{
    let node = node_of(m, grid, d);
    lemma_stencil(grid, (m.node)(d));
    let read = read_at(land.map, grid, node);
    if let Some(e) = (m.advance)(d, node, read) {
        let there = node_of(m, grid, e);
        let (a, b) = ((m.height)(d, node, read), (m.height)(e, there, read_at(land.map, grid, there)));
        match (m.act)(e, a, b) {
            Act::Deposit(amount) => {
                let p = Pile { map: land.map, tally: land.deposition, total: m.zero };
                let q = dropped(m, mask, grid, node, (m.weights)(d, node), amount, p);
                assert((m.settle)(e, (a, b), false, q.total) == (m.settle)(
                    e,
                    (a, b),
                    false,
                    q.total,
                ));
            },
            Act::Erode(amount) => {
                let p = Pile { map: land.map, tally: land.wear, total: m.zero };
                let q = dug(m, mask, grid, cells, node, amount, p, cells.len() as int);
                lemma_dug_len(m, mask, grid, cells, node, amount, p, cells.len() as int);
                assert((m.settle)(e, (a, b), true, q.total) == (m.settle)(e, (a, b), true, q.total));
            },
        }
    }
}

/// Digging keeps the number of cells.
proof fn lemma_dug_len<D, V>(
    m: DropletMath<D, V>,
    mask: Seq<V>,
    grid: Grid,
    cells: Seq<BrushCell<V>>,
    node: (usize, usize),
    amount: V,
    p: Pile<V>,
    n: int,
)
    requires
        p.map.len() == grid.cells(),
        p.tally.len() == grid.cells(),
    ensures
        dug(m, mask, grid, cells, node, amount, p, n).map.len() == p.map.len(),
        dug(m, mask, grid, cells, node, amount, p, n).tally.len() == p.tally.len(),
    decreases n,
{
    if n > 0 {
        lemma_dug_len(m, mask, grid, cells, node, amount, p, n - 1);
        let (x, y) = (node.0 + cells[n - 1].dx, node.1 + cells[n - 1].dy);
        if grid.holds(x, y) {
            lemma_index(grid, x, y);
        }
    }
}

/// Amounts add and subtract exactly, where an amount has the value that `v` gives.
pub open spec fn exact_amounts<D, V>(m: DropletMath<D, V>, v: spec_fn(V) -> real) -> bool {
    &&& v(m.zero) == 0 as real
    &&& forall|a: V, b: V| v(#[trigger] (m.plus)(a, b)) == v(a) + v(b)
    &&& forall|a: V, b: V| v(#[trigger] (m.minus)(a, b)) == v(a) - v(b)
}

/// What a pile's heights come to.
spec fn heap<V>(v: spec_fn(V) -> real, map: Seq<V>) -> real {
    total(|c: int| v(map[c]), 0, map.len() as int)
}

/// One cell takes its part: its height and its tally change by what the total counts.
proof fn lemma_worked_counts<D, V>(
    m: DropletMath<D, V>,
    v: spec_fn(V) -> real,
    mask: Seq<V>,
    p: Pile<V>,
    c: int,
    amount: V,
    share: V,
    digging: bool,
)
    requires
        exact_amounts(m, v),
        p.map.len() == p.tally.len(),
        0 <= c < p.map.len(),
    ensures
        ({
            let q = worked(m, mask, p, c, amount, share, digging);
            let more = v(q.total) - v(p.total);
            &&& q.map.len() == p.map.len()
            &&& q.tally.len() == p.map.len()
            &&& heap(v, q.map) == heap(v, p.map) + (if digging {
                -more
            } else {
                more
            })
            &&& forall|e: int|
                0 <= e < p.map.len() ==> (if digging {
                    v(#[trigger] q.map[e]) + v(q.tally[e]) == v(p.map[e]) + v(p.tally[e])
                } else {
                    v(q.map[e]) - v(q.tally[e]) == v(p.map[e]) - v(p.tally[e])
                })
        }),
{
    let q = worked(m, mask, p, c, amount, share, digging);
    let n = p.map.len() as int;
    let f = |e: int| v(p.map[e]);
    let g = |e: int| v(q.map[e]);
    lemma_total_changed(f, g, c, 0, n);
    assert(heap(v, p.map) == total(f, 0, n));
    assert(heap(v, q.map) == total(g, 0, n));
}

/// The same of a dropped load.
proof fn lemma_dropped_counts<D, V>(
    m: DropletMath<D, V>,
    v: spec_fn(V) -> real,
    mask: Seq<V>,
    grid: Grid,
    node: (usize, usize),
    shares: Sided<V>,
    amount: V,
    p: Pile<V>,
)
    requires
        exact_amounts(m, v),
        node.0 + 2 <= grid.width,
        node.1 + 2 <= grid.height,
        p.map.len() == grid.cells(),
        p.tally.len() == grid.cells(),
    ensures
        ({
            let q = dropped(m, mask, grid, node, shares, amount, p);
            &&& q.map.len() == p.map.len()
            &&& q.tally.len() == p.map.len()
            &&& heap(v, q.map) == heap(v, p.map) + v(q.total) - v(p.total)
            &&& forall|e: int|
                0 <= e < p.map.len() ==> v(#[trigger] q.map[e]) - v(q.tally[e]) == v(p.map[e]) - v(
                    p.tally[e],
                )
        }),
{
    lemma_corners_apart(grid, node);
    let (x, y) = (node.0 as int, node.1 as int);
    let a = worked(m, mask, p, grid.index(x, y), amount, shares.0, false);
    lemma_worked_counts(m, v, mask, p, grid.index(x, y), amount, shares.0, false);
    let b = worked(m, mask, a, grid.index(x + 1, y), amount, shares.1, false);
    lemma_worked_counts(m, v, mask, a, grid.index(x + 1, y), amount, shares.1, false);
    let c = worked(m, mask, b, grid.index(x, y + 1), amount, shares.2, false);
    lemma_worked_counts(m, v, mask, b, grid.index(x, y + 1), amount, shares.2, false);
    lemma_worked_counts(m, v, mask, c, grid.index(x + 1, y + 1), amount, shares.3, false);
    let q = dropped(m, mask, grid, node, shares, amount, p);
    assert forall|e: int| 0 <= e < p.map.len() implies v(#[trigger] q.map[e]) - v(q.tally[e]) == v(
        p.map[e],
    ) - v(p.tally[e]) by {
        assert(v(a.map[e]) - v(a.tally[e]) == v(p.map[e]) - v(p.tally[e]));
        assert(v(b.map[e]) - v(b.tally[e]) == v(a.map[e]) - v(a.tally[e]));
        assert(v(c.map[e]) - v(c.tally[e]) == v(b.map[e]) - v(b.tally[e]));
    }
}

/// The same of digging.
proof fn lemma_dug_counts<D, V>(
    m: DropletMath<D, V>,
    v: spec_fn(V) -> real,
    mask: Seq<V>,
    grid: Grid,
    cells: Seq<BrushCell<V>>,
    node: (usize, usize),
    amount: V,
    p: Pile<V>,
    n: int,
)
    requires
        exact_amounts(m, v),
        0 <= n <= cells.len(),
        p.map.len() == grid.cells(),
        p.tally.len() == grid.cells(),
    ensures
        ({
            let q = dug(m, mask, grid, cells, node, amount, p, n);
            &&& q.map.len() == p.map.len()
            &&& q.tally.len() == p.map.len()
            &&& heap(v, q.map) == heap(v, p.map) - (v(q.total) - v(p.total))
            &&& forall|e: int|
                0 <= e < p.map.len() ==> v(#[trigger] q.map[e]) + v(q.tally[e]) == v(p.map[e]) + v(
                    p.tally[e],
                )
        }),
    decreases n,
{
    if n > 0 {
        lemma_dug_counts(m, v, mask, grid, cells, node, amount, p, n - 1);
        let before = dug(m, mask, grid, cells, node, amount, p, n - 1);
        let b = cells[n - 1];
        let (x, y) = (node.0 + b.dx, node.1 + b.dy);
        if grid.holds(x, y) {
            lemma_index(grid, x, y);
            lemma_worked_counts(
                m,
                v,
                mask,
                before,
                grid.index(x, y),
                amount,
                b.share,
                true,
            );
        }
    }
}

/// A droplet makes and loses no material: where amounts are exact, and the droplet's load changes
/// only by what it dug and what it dropped, the ground and the load of a droplet that goes on come
/// to what they were. At every cell the height changes by what settled there without what wore.
pub proof fn law_droplet_carries_what_it_digs<D, V>(
    m: DropletMath<D, V>,
    v: spec_fn(V) -> real,
    load: spec_fn(D) -> real,
    cells: Seq<BrushCell<V>>,
    grid: Grid,
    mask: Seq<V>,
    land: Land<V>,
    d: D,
)
    requires
        exact_amounts(m, v),
        forall|d: D, n: (usize, usize), h: Sided<V>|
            (#[trigger] (m.advance)(d, n, h)) matches Some(e) ==> load(e) == load(d),
        forall|d: D, h: (V, V), digging: bool, t: V|
            load(#[trigger] (m.settle)(d, h, digging, t)) == if digging {
                load(d) + v(t)
            } else {
                load(d) - v(t)
            },
        grid.width >= 2,
        grid.height >= 2,
        land.wf(grid),
    ensures
        ({
            let (after, next) = droplet_step(m, cells, grid, mask, land, d);
            &&& after.wf(grid)
            &&& next matches Some(e) ==> total(
                |c: int| v(after.map[c]),
                0,
                grid.cells() as int,
            ) + load(e) == total(|c: int| v(land.map[c]), 0, grid.cells() as int) + load(d)
            &&& forall|c: int|
                0 <= c < grid.cells() ==> v(#[trigger] after.map[c]) - v(land.map[c]) == (v(
                    after.deposition[c],
                ) - v(land.deposition[c])) - (v(after.wear[c]) - v(land.wear[c]))
        }),
{
    let node = node_of(m, grid, d);
    lemma_stencil(grid, (m.node)(d));
    let read = read_at(land.map, grid, node);
    let (after, next) = droplet_step(m, cells, grid, mask, land, d);
    if let Some(e) = (m.advance)(d, node, read) {
        let there = node_of(m, grid, e);
        let (a, b) = ((m.height)(d, node, read), (m.height)(e, there, read_at(land.map, grid, there)));
        match (m.act)(e, a, b) {
            Act::Deposit(amount) => {
                let p = Pile { map: land.map, tally: land.deposition, total: m.zero };
                lemma_dropped_counts(m, v, mask, grid, node, (m.weights)(d, node), amount, p);
                let q = dropped(m, mask, grid, node, (m.weights)(d, node), amount, p);
                assert(load((m.settle)(e, (a, b), false, q.total)) == load(e) - v(q.total));
                assert forall|c: int| 0 <= c < grid.cells() implies v(#[trigger] after.map[c]) - v(
                    land.map[c],
                ) == (v(after.deposition[c]) - v(land.deposition[c])) - (v(after.wear[c]) - v(
                    land.wear[c],
                )) by {
                    assert(after.map[c] == q.map[c]);
                }
                assert(heap(v, q.map) == total(|c: int| v(after.map[c]), 0, grid.cells() as int));
            },
            Act::Erode(amount) => {
                let p = Pile { map: land.map, tally: land.wear, total: m.zero };
                let n = cells.len() as int;
                lemma_dug_counts(m, v, mask, grid, cells, node, amount, p, n);
                let q = dug(m, mask, grid, cells, node, amount, p, n);
                assert(load((m.settle)(e, (a, b), true, q.total)) == load(e) + v(q.total));
                assert forall|c: int| 0 <= c < grid.cells() implies v(#[trigger] after.map[c]) - v(
                    land.map[c],
                ) == (v(after.deposition[c]) - v(land.deposition[c])) - (v(after.wear[c]) - v(
                    land.wear[c],
                )) by {
                    assert(after.map[c] == q.map[c]);
                }
                assert(heap(v, q.map) == total(|c: int| v(after.map[c]), 0, grid.cells() as int));
            },
        }
        assert(heap(v, land.map) == total(|c: int| v(land.map[c]), 0, grid.cells() as int));
    }
}

/// Over a whole run too, the height of every cell changes by what settled there without what wore.
pub proof fn law_run_accounts_for_every_cell<D, V>(
    m: DropletMath<D, V>,
    v: spec_fn(V) -> real,
    cells: Seq<BrushCell<V>>,
    grid: Grid,
    mask: Seq<V>,
    land: Land<V>,
    d: D,
    lifetime: nat,
    c: int,
)
    requires
        exact_amounts(m, v),
        grid.width >= 2,
        grid.height >= 2,
        land.wf(grid),
        0 <= c < grid.cells(),
    ensures
        ({
            let after = droplet_run(m, cells, grid, mask, land, d, lifetime);
            &&& after.wf(grid)
            &&& v(after.map[c]) - v(land.map[c]) == (v(after.deposition[c]) - v(
                land.deposition[c],
            )) - (v(after.wear[c]) - v(land.wear[c]))
        }),
    decreases lifetime,
{
    if lifetime > 0 {
        lemma_step_accounts(m, v, cells, grid, mask, land, d);
        let (next, goes_on) = droplet_step(m, cells, grid, mask, land, d);
        assert(v(next.map[c]) - v(land.map[c]) == (v(next.deposition[c]) - v(land.deposition[c]))
            - (v(next.wear[c]) - v(land.wear[c])));
        if let Some(e) = goes_on {
            law_run_accounts_for_every_cell(
                m,
                v,
                cells,
                grid,
                mask,
                next,
                e,
                (lifetime - 1) as nat,
                c,
            );
        }
    }
}

/// The same of one step, whatever the droplet's load.
proof fn lemma_step_accounts<D, V>(
    m: DropletMath<D, V>,
    v: spec_fn(V) -> real,
    cells: Seq<BrushCell<V>>,
    grid: Grid,
    mask: Seq<V>,
    land: Land<V>,
    d: D,
)
    requires
        exact_amounts(m, v),
        grid.width >= 2,
        grid.height >= 2,
        land.wf(grid),
    ensures
        ({
            let after = droplet_step(m, cells, grid, mask, land, d).0;
            &&& after.wf(grid)
            &&& forall|c: int|
                0 <= c < grid.cells() ==> v(#[trigger] after.map[c]) - v(land.map[c]) == (v(
                    after.deposition[c],
                ) - v(land.deposition[c])) - (v(after.wear[c]) - v(land.wear[c]))
        }),
{
    let node = node_of(m, grid, d);
    lemma_stencil(grid, (m.node)(d));
    let read = read_at(land.map, grid, node);
    let after = droplet_step(m, cells, grid, mask, land, d).0;
    if let Some(e) = (m.advance)(d, node, read) {
        let there = node_of(m, grid, e);
        let (a, b) = ((m.height)(d, node, read), (m.height)(e, there, read_at(land.map, grid, there)));
        match (m.act)(e, a, b) {
            Act::Deposit(amount) => {
                let p = Pile { map: land.map, tally: land.deposition, total: m.zero };
                lemma_dropped_counts(m, v, mask, grid, node, (m.weights)(d, node), amount, p);
                let q = dropped(m, mask, grid, node, (m.weights)(d, node), amount, p);
                assert(after.map == q.map && after.deposition == q.tally);
            },
            Act::Erode(amount) => {
                let p = Pile { map: land.map, tally: land.wear, total: m.zero };
                let n = cells.len() as int;
                lemma_dug_counts(m, v, mask, grid, cells, node, amount, p, n);
                let q = dug(m, mask, grid, cells, node, amount, p, n);
                assert(after.map == q.map && after.wear == q.tally);
            },
        }
    }
}

/// A droplet that never stops takes as many steps as it lives: where a visit counts one, the visits
/// on the ground grow by its lifetime. One that stops is counted where it stopped, too.
pub proof fn law_visits_count_the_steps<D, V>(
    m: DropletMath<D, V>,
    v: spec_fn(V) -> real,
    cells: Seq<BrushCell<V>>,
    grid: Grid,
    mask: Seq<V>,
    land: Land<V>,
    d: D,
    lifetime: nat,
)
    requires
        forall|x: V| v(#[trigger] (m.visit)(x)) == v(x) + 1 as real,
        grid.width >= 2,
        grid.height >= 2,
        land.wf(grid),
    ensures
        ({
            let after = droplet_run(m, cells, grid, mask, land, d, lifetime);
            let before = total(|c: int| v(land.flow[c]), 0, grid.cells() as int);
            let now = total(|c: int| v(after.flow[c]), 0, grid.cells() as int);
            &&& after.wf(grid)
            &&& now <= before + lifetime as real
            &&& lifetime > 0 ==> now >= before + 1 as real
            &&& (forall|e: D, n: (usize, usize), h: Sided<V>|
                (#[trigger] (m.advance)(e, n, h)) is Some) ==> now == before + lifetime as real
        }),
    decreases lifetime,
{
    let n = grid.cells() as int;
    if lifetime > 0 {
        law_step_goes_by_both_positions(m, cells, grid, mask, land, d);
        let (next, goes_on) = droplet_step(m, cells, grid, mask, land, d);
        let node = node_of(m, grid, d);
        lemma_stencil(grid, (m.node)(d));
        let here = node.1 * grid.width + node.0;
        let f = |c: int| v(land.flow[c]);
        let g = |c: int| v(next.flow[c]);
        lemma_total_changed(f, g, here, 0, n);
        assert(g(here) == f(here) + 1 as real);
        if let Some(e) = goes_on {
            law_visits_count_the_steps(m, v, cells, grid, mask, next, e, (lifetime - 1) as nat);
        }
    }
}

} // verus!
