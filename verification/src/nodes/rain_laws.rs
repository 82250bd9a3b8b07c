//! What the rain of droplets is: which droplets fall, in what order, and where they leave their
//! mark.
use crate::brush::BrushCell;
use crate::droplet::{droplet_run, droplet_step, read_at, DropletMath, Land};
use crate::grid::{lemma_index, Grid};
use crate::nodes::flow_droplet::{showered, splat, walk_node, walked, WalkMath};
use crate::nodes::hydraulic::rained_on;
use crate::rng::{drawn_unit, law_droplets_share_a_stream, state_after};
use crate::totals::{lemma_total_changed, total};
use crate::water_sim::Sided;
use vstd::prelude::*;

verus! {

/// A droplet's run is its steps, one after the other: along any list of grounds and droplets in
/// which each follows from the one before by a step, a droplet that lives as long as the list leaves
/// the last ground.
pub proof fn law_run_takes_its_steps<D, V>(
    m: DropletMath<D, V>,
    cells: Seq<BrushCell<V>>,
    grid: Grid,
    mask: Seq<V>,
    lands: Seq<Land<V>>,
    drops: Seq<D>,
)
    requires
        lands.len() > 0,
        drops.len() == lands.len(),
        forall|k: int|
            0 <= k < lands.len() - 1 ==> droplet_step(m, cells, grid, mask, lands[k], drops[k]) == (
                #[trigger] lands[k + 1],
                Some(drops[k + 1]),
            ),
    ensures
        droplet_run(m, cells, grid, mask, lands[0], drops[0], (lands.len() - 1) as nat)
            == lands.last(),
    decreases lands.len(),
{
    if lands.len() > 1 {
        let (rest, others) = (lands.skip(1), drops.skip(1));
        assert forall|k: int| 0 <= k < rest.len() - 1 implies droplet_step(
            m,
            cells,
            grid,
            mask,
            rest[k],
            others[k],
        ) == (#[trigger] rest[k + 1], Some(others[k + 1])) by {
            assert(lands[(k + 1) + 1] == rest[k + 1]);
        }
        law_run_takes_its_steps(m, cells, grid, mask, rest, others);
        assert(lands[0int + 1] == rest[0]);
    }
}

/// A droplet that stops has run: however long it might have lived, the ground is as its last step
/// leaves it.
pub proof fn law_run_ends_where_the_droplet_stops<D, V>(
    m: DropletMath<D, V>,
    cells: Seq<BrushCell<V>>,
    grid: Grid,
    mask: Seq<V>,
    land: Land<V>,
    d: D,
    lifetime: nat,
)
    requires
        lifetime > 0,
        droplet_step(m, cells, grid, mask, land, d).1 is None,
    ensures
        droplet_run(m, cells, grid, mask, land, d, lifetime) == droplet_step(
            m,
            cells,
            grid,
            mask,
            land,
            d,
        ).0,
{
}

/// The rain is its droplets, one after the other: along any list of grounds in which each is what a
/// droplet leaves of the one before, where droplet `i` starts from two draws of one stream that has
/// been drawn from `i` times, the ground after `n` droplets is the last of the list.
pub proof fn law_rain_is_its_droplets<D, V>(
    m: DropletMath<D, V>,
    start: spec_fn(u32, u32) -> D,
    cells: Seq<BrushCell<V>>,
    grid: Grid,
    mask: Seq<V>,
    base: u64,
    lifetime: nat,
    lands: Seq<Land<V>>,
)
    requires
        0 < lands.len() <= u64::MAX,
        forall|i: int|
            0 <= i < lands.len() - 1 ==> #[trigger] lands[i + 1] == droplet_run(
                m,
                cells,
                grid,
                mask,
                lands[i],
                start(
                    drawn_unit(state_after(base, i), 0),
                    drawn_unit(state_after(base, i), 1),
                ),
                lifetime,
            ),
    ensures
        rained_on(m, start, cells, grid, mask, lands[0], base, lifetime, lands.len() - 1)
            == lands.last(),
    decreases lands.len(),
{
    if lands.len() > 1 {
        let rest = lands.drop_last();
        let i = lands.len() - 2;
        assert forall|j: int| 0 <= j < rest.len() - 1 implies #[trigger] rest[j + 1] == droplet_run(
            m,
            cells,
            grid,
            mask,
            rest[j],
            start(
                drawn_unit(state_after(base, j), 0),
                drawn_unit(state_after(base, j), 1),
            ),
            lifetime,
        ) by {
            assert(lands[j + 1] == rest[j + 1]);
        }
        law_rain_is_its_droplets(m, start, cells, grid, mask, base, lifetime, rest);
        law_droplets_share_a_stream(base, i as u64);
        assert(lands[i + 1] == lands.last());
    }
}

/// The node of a walking droplet: the column and row of its position, at most the last but one of
/// each.
pub proof fn law_walk_node_is_the_cell_of_the_position<D, V>(m: WalkMath<D, V>, grid: Grid, d: D)
    requires
        grid.width >= 2,
        grid.height >= 2,
    ensures
        ({
            let (p, n) = ((m.node)(d), walk_node(m, grid, d));
            &&& n.0 + 1 < grid.width && n.1 + 1 < grid.height
            &&& p.0 + 1 < grid.width ==> n.0 == p.0
            &&& p.1 + 1 < grid.height ==> n.1 == p.1
            &&& p.0 + 1 >= grid.width ==> n.0 == grid.width - 2
            &&& p.1 + 1 >= grid.height ==> n.1 == grid.height - 2
        }),
{
}

/// A unit of flow lands corner by corner: each of the four cells from the node gains its own share,
/// and no other cell changes.
pub proof fn law_flow_lands_corner_by_corner<D, V>(
    m: WalkMath<D, V>,
    grid: Grid,
    acc: Seq<V>,
    node: (usize, usize),
    shares: Sided<V>,
)
    requires
        node.0 + 2 <= grid.width,
        node.1 + 2 <= grid.height,
        acc.len() == grid.cells(),
    ensures
        ({
            let after = splat(m, grid, acc, node, shares);
            let (x, y, w) = (node.0 as int, node.1 as int, grid.width as int);
            &&& after.len() == grid.cells()
            &&& after[y * w + x] == (m.plus)(acc[y * w + x], shares.0)
            &&& after[y * w + x + 1] == (m.plus)(acc[y * w + x + 1], shares.1)
            &&& after[(y + 1) * w + x] == (m.plus)(acc[(y + 1) * w + x], shares.2)
            &&& after[(y + 1) * w + x + 1] == (m.plus)(acc[(y + 1) * w + x + 1], shares.3)
            &&& forall|e: int|
                0 <= e < grid.cells() && !(x <= e % w <= x + 1 && y <= e / w <= y + 1)
                    ==> #[trigger] after[e] == acc[e]
        }),
{
    let (x, y) = (node.0 as int, node.1 as int);
    lemma_index(grid, x, y);
    lemma_index(grid, x + 1, y);
    lemma_index(grid, x, y + 1);
    lemma_index(grid, x + 1, y + 1);
}

/// The next droplet is this one moved on from its node over the bed, and the next flow has a unit
/// more at its new position.
pub open spec fn walks_on<D, V>(
    m: WalkMath<D, V>,
    bed: Seq<V>,
    grid: Grid,
    d: D,
    flow: Seq<V>,
    next: D,
    after: Seq<V>,
) -> bool {
    let node = walk_node(m, grid, d);
    let there = walk_node(m, grid, next);
    &&& (m.advance)(d, node, read_at(bed, grid, node)) == Some(next)
    &&& after == splat(m, grid, flow, there, (m.weights)(next, there))
}

/// A walk leaves its mark at every position it comes to, and not where it started: along any list
/// of droplets in which each is the one before moved on, and of flows in which each has a unit more
/// at the droplet's new position, the walk of as many steps leaves the last flow. A droplet that
/// cannot move on leaves the flow as it is, however many steps are left.
pub proof fn law_walk_marks_its_positions<D, V>(
    m: WalkMath<D, V>,
    bed: Seq<V>,
    grid: Grid,
    drops: Seq<D>,
    flows: Seq<Seq<V>>,
    more: nat,
)
    requires
        flows.len() > 0,
        drops.len() == flows.len(),
        forall|k: int|
            0 <= k < flows.len() - 1 ==> walks_on(
                m,
                bed,
                grid,
                drops[k],
                flows[k],
                drops[k + 1],
                #[trigger] flows[k + 1],
            ),
        ({
            let node = walk_node(m, grid, drops.last());
            more == 0 || (m.advance)(drops.last(), node, read_at(bed, grid, node)) is None
        }),
    ensures
        walked(m, bed, grid, flows[0], drops[0], (flows.len() - 1 + more) as nat) == flows.last(),
    decreases flows.len(),
{
    if flows.len() > 1 {
        let (rest, others) = (flows.skip(1), drops.skip(1));
        assert forall|k: int| 0 <= k < rest.len() - 1 implies walks_on(
            m,
            bed,
            grid,
            others[k],
            rest[k],
            others[k + 1],
            #[trigger] rest[k + 1],
        ) by {
            assert(flows[(k + 1) + 1] == rest[k + 1]);
        }
        assert(others.last() == drops.last());
        law_walk_marks_its_positions(m, bed, grid, others, rest, more);
        assert(walks_on(m, bed, grid, drops[0], flows[0], drops[0int + 1], flows[0int + 1]));
        assert((flows.len() - 1 + more - 1) as nat == (rest.len() - 1 + more) as nat);
    }
}

/// The shower is its droplets, one after the other: along any list of flows, from none, in which
/// each is what a droplet's walk leaves of the one before, where the droplets start from the draws
/// of one stream two by two and may cross the field once, the flow after `n` droplets is the last.
pub proof fn law_shower_is_its_droplets<D, V>(
    m: WalkMath<D, V>,
    start: spec_fn(u32, u32) -> D,
    bed: Seq<V>,
    grid: Grid,
    zero: V,
    seed: u64,
    flows: Seq<Seq<V>>,
)
    requires
        flows.len() > 0,
        flows[0] == Seq::new(grid.cells(), |c: int| zero),
        forall|i: int|
            0 <= i < flows.len() - 1 ==> #[trigger] flows[i + 1] == walked(
                m,
                bed,
                grid,
                flows[i],
                start(drawn_unit(seed, i + i), drawn_unit(seed, i + i + 1)),
                (grid.width + grid.height) as nat,
            ),
    ensures
        showered(m, start, bed, grid, zero, seed, flows.len() - 1) == flows.last(),
    decreases flows.len(),
{
    if flows.len() > 1 {
        let rest = flows.drop_last();
        let i = flows.len() - 2;
        assert forall|j: int| 0 <= j < rest.len() - 1 implies #[trigger] rest[j + 1] == walked(
            m,
            bed,
            grid,
            rest[j],
            start(drawn_unit(seed, j + j), drawn_unit(seed, j + j + 1)),
            (grid.width + grid.height) as nat,
        ) by {
            assert(flows[j + 1] == rest[j + 1]);
        }
        law_shower_is_its_droplets(m, start, bed, grid, zero, seed, rest);
        assert(flows[i + 1] == flows.last());
        assert(2 * i == i + i);
    }
}

/// The shares of a position come to one.
pub open spec fn shares_one<D, V>(m: WalkMath<D, V>, v: spec_fn(V) -> real) -> bool {
    &&& forall|a: V, b: V| v(#[trigger] (m.plus)(a, b)) == v(a) + v(b)
    &&& forall|d: D, n: (usize, usize)|
        {
            let s = #[trigger] (m.weights)(d, n);
            v(s.0) + v(s.1) + v(s.2) + v(s.3) == 1 as real
        }
}

/// A walk of droplets that always move on marks one unit for each step: where shares come to one,
/// the flow grows by the number of steps.
pub proof fn law_walk_counts_its_steps<D, V>(
    m: WalkMath<D, V>,
    v: spec_fn(V) -> real,
    bed: Seq<V>,
    grid: Grid,
    acc: Seq<V>,
    d: D,
    steps: nat,
)
    requires
        shares_one(m, v),
        grid.width >= 2,
        grid.height >= 2,
        acc.len() == grid.cells(),
        forall|e: D, n: (usize, usize), h: Sided<V>| (#[trigger] (m.advance)(e, n, h)) is Some,
    ensures
        walked(m, bed, grid, acc, d, steps).len() == grid.cells(),
        total(
            |c: int| v(walked(m, bed, grid, acc, d, steps)[c]),
            0,
            grid.cells() as int,
        ) == total(|c: int| v(acc[c]), 0, grid.cells() as int) + steps as real,
    decreases steps,
{
    let n = grid.cells() as int;
    if steps > 0 {
        let node = walk_node(m, grid, d);
        let e = (m.advance)(d, node, read_at(bed, grid, node))->0;
        let there = walk_node(m, grid, e);
        let shares = (m.weights)(e, there);
        let next = splat(m, grid, acc, there, shares);
        let (x, y) = (there.0 as int, there.1 as int);
        lemma_index(grid, x, y);
        lemma_index(grid, x + 1, y);
        lemma_index(grid, x, y + 1);
        lemma_index(grid, x + 1, y + 1);
        let (p, q) = (grid.index(x, y), grid.index(x + 1, y));
        let (r, o) = (grid.index(x, y + 1), grid.index(x + 1, y + 1));
        let s1 = acc.update(p, (m.plus)(acc[p], shares.0));
        let s2 = s1.update(q, (m.plus)(s1[q], shares.1));
        let s3 = s2.update(r, (m.plus)(s2[r], shares.2));
        lemma_total_changed(|c: int| v(acc[c]), |c: int| v(s1[c]), p, 0, n);
        lemma_total_changed(|c: int| v(s1[c]), |c: int| v(s2[c]), q, 0, n);
        lemma_total_changed(|c: int| v(s2[c]), |c: int| v(s3[c]), r, 0, n);
        lemma_total_changed(|c: int| v(s3[c]), |c: int| v(next[c]), o, 0, n);
        law_walk_counts_its_steps(m, v, bed, grid, next, e, (steps - 1) as nat);
    }
}

} // verus!
