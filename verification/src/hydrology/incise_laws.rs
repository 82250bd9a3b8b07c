//! What an incised bed satisfies, cell by cell.
use crate::grid::Grid;
use crate::hydrology::drainage::Drainage;
use crate::hydrology::incise::{incised, law_incision_spares_closed_basins};
use crate::hydrology::routing::drains_off;
use crate::hydrology::stack::downstream;
use vstd::prelude::*;

verus! {

/// Cell `c` stands after a pass where its own catchment puts it: a sink and a cell whose drainage
/// does not run off the grid at its old bed; any other at the level drawn from its old bed, its
/// receiver's new bed, its own area beside the largest and its own step, unless that is higher.
pub open spec fn settled_by_its_own_area(
    d: Drainage,
    grid: Grid,
    top: u32,
    lowered: spec_fn((i32, i32), (u32, u32), bool) -> i32,
    z: Seq<i32>,
    after: Seq<i32>,
    c: int,
) -> bool {
    let r = d.receivers.to@[c] as int;
    let level = lowered((z[c], after[r]), (d.area@[c], top), d.receivers.diagonal@[c]);
    if r == c || !drains_off(d.receivers.to@, grid, c) {
        after[c] == z[c]
    } else {
        &&& after[c] <= z[c]
        &&& after[c] <= level
        &&& after[c] == z[c] || after[c] == level
    }
}

/// What holds after the first `i` cells of the stack.
proof fn lemma_settled(
    d: Drainage,
    grid: Grid,
    top: u32,
    lowered: spec_fn((i32, i32), (u32, u32), bool) -> i32,
    z: Seq<i32>,
    i: int,
)
    requires
        d.wf(grid),
        z.len() == grid.cells(),
        0 <= i <= d.stack@.len(),
    ensures
        incised(d, grid, top, lowered, z, i).len() == grid.cells(),
        forall|j: int|
            0 <= j < i ==> settled_by_its_own_area(
                d,
                grid,
                top,
                lowered,
                z,
                incised(d, grid, top, lowered, z, i),
                #[trigger] d.stack@[j] as int,
            ),
        forall|c: int|
            0 <= c < grid.cells() && (forall|j: int| 0 <= j < i ==> d.stack@[j] != c)
                ==> #[trigger] incised(d, grid, top, lowered, z, i)[c] == z[c],
    decreases i,
{
    if i > 0 {
        lemma_settled(d, grid, top, lowered, z, i - 1);
        let before = incised(d, grid, top, lowered, z, i - 1);
        let after = incised(d, grid, top, lowered, z, i);
        let to = d.receivers.to@;
        let k = d.stack@[i - 1] as int;
        assert(before[k] == z[k]);
        assert forall|j: int| 0 <= j < i implies settled_by_its_own_area(
            d,
            grid,
            top,
            lowered,
            z,
            after,
            #[trigger] d.stack@[j] as int,
        ) by {
            let c = d.stack@[j] as int;
            if to[c] != c {
                let q = choose|q: int| 0 <= q < j && #[trigger] d.stack@[q] == to[c];
                assert(d.stack@[q] != d.stack@[i - 1]);
                assert(after[to[c] as int] == before[to[c] as int]);
            }
            if j < i - 1 {
                assert(d.stack@[j] != d.stack@[i - 1]);
                assert(after[c] == before[c]);
                assert(settled_by_its_own_area(d, grid, top, lowered, z, before, c));
            }
        }
        assert forall|c: int|
            0 <= c < grid.cells() && (forall|j: int| 0 <= j < i ==> d.stack@[j] != c) implies
            #[trigger] after[c] == z[c] by {
            assert(d.stack@[i - 1] != c);
            assert(before[c] == z[c]);
        }
    }
}

/// Each cell is drawn by its own catchment toward the new bed of the cell it drains into: after a
/// pass every cell that drains off the grid stands at the lower of its old bed and the level drawn
/// from its old bed, its receiver's new bed, its own area beside the largest, and its own step. Every
/// other cell keeps its bed.
pub proof fn law_each_cell_is_drawn_by_its_own_area(
    d: Drainage,
    grid: Grid,
    top: u32,
    lowered: spec_fn((i32, i32), (u32, u32), bool) -> i32,
    z: Seq<i32>,
    c: int,
)
    requires
        grid.wf(),
        d.wf(grid),
        z.len() == grid.cells(),
        0 <= c < grid.cells(),
    ensures
        ({
            let after = incised(d, grid, top, lowered, z, d.stack@.len() as int);
            let r = d.receivers.to@[c] as int;
            let level = lowered((z[c], after[r]), (d.area@[c], top), d.receivers.diagonal@[c]);
            &&& after.len() == grid.cells()
            &&& r == c || !drains_off(d.receivers.to@, grid, c) ==> after[c] == z[c]
            &&& r != c && drains_off(d.receivers.to@, grid, c) ==> after[c] == if level < z[c] {
                level
            } else {
                z[c]
            }
        }),
{
    let n = d.stack@.len() as int;
    let to = d.receivers.to@;
    lemma_settled(d, grid, top, lowered, z, n);
    law_incision_spares_closed_basins(d, grid, top, lowered, z, n, c);
    if drains_off(to, grid, c) {
        let steps = choose|steps: nat|
            {
                let s = #[trigger] downstream(to, c, steps);
                to[s] == s && grid.on_boundary(s)
            };
        assert(to[downstream(to, c, steps)] == downstream(to, c, steps));
        assert(d.stack@.contains(c as usize));
        let j = choose|j: int| 0 <= j < n && d.stack@[j] == c as usize;
        let after = incised(d, grid, top, lowered, z, n);
        assert(settled_by_its_own_area(d, grid, top, lowered, z, after, d.stack@[j] as int));
    }
}

/// The areas `a` and `b` are the same at `c` and everywhere downstream of it.
pub open spec fn same_area_downstream(to: Seq<usize>, a: Seq<u32>, b: Seq<u32>, c: int) -> bool {
    forall|steps: nat|
        a[#[trigger] downstream(to, c, steps)] == b[downstream(to, c, steps)]
}

/// A catchment that no water from a cell passes through does not matter to the cell: two drainages
/// with the same receivers and steps, and with the same areas at `c` and downstream of it, leave
/// `c` at the same bed, whatever their areas elsewhere.
pub proof fn law_areas_elsewhere_do_not_matter(
    d: Drainage,
    e: Drainage,
    grid: Grid,
    top: u32,
    lowered: spec_fn((i32, i32), (u32, u32), bool) -> i32,
    z: Seq<i32>,
    c: int,
    steps: nat,
)
    requires
        grid.wf(),
        d.wf(grid),
        e.wf(grid),
        d.receivers.to@ == e.receivers.to@,
        d.receivers.diagonal@ == e.receivers.diagonal@,
        z.len() == grid.cells(),
        0 <= c < grid.cells(),
        same_area_downstream(d.receivers.to@, d.area@, e.area@, c),
        d.receivers.to@[downstream(d.receivers.to@, c, steps)] == downstream(
            d.receivers.to@,
            c,
            steps,
        ),
    ensures
        incised(d, grid, top, lowered, z, d.stack@.len() as int)[c] == incised(
            e,
            grid,
            top,
            lowered,
            z,
            e.stack@.len() as int,
        )[c],
    decreases steps,
{
    let to = d.receivers.to@;
    law_each_cell_is_drawn_by_its_own_area(d, grid, top, lowered, z, c);
    law_each_cell_is_drawn_by_its_own_area(e, grid, top, lowered, z, c);
    let r = to[c] as int;
    if r != c {
        assert(steps > 0);
        assert(downstream(to, c, 0) == c);
        assert(d.area@[c] == e.area@[c]);
        assert forall|s: nat| d.area@[#[trigger] downstream(to, r, s)] == e.area@[downstream(
            to,
            r,
            s,
        )] by {
            assert(downstream(to, c, (s + 1) as nat) == downstream(to, r, s));
        }
        law_areas_elsewhere_do_not_matter(d, e, grid, top, lowered, z, r, (steps - 1) as nat);
    }
}

} // verus!
