//! Implicit stream-power incision along a solved drainage.
use crate::functions::{computes3, total3};
use crate::grid::Grid;
use crate::hydrology::drainage::Drainage;
use crate::hydrology::routing::drains_off;
use vstd::prelude::*;

verus! {

/// The largest of the first `k` areas, and of `floor`.
pub open spec fn largest(area: Seq<u32>, floor: u32, k: int) -> u32
    decreases k,
{
    if k <= 0 {
        floor
    } else {
        let best = largest(area, floor, k - 1);
        if area[k - 1] > best {
            area[k - 1]
        } else {
            best
        }
    }
}

/// The largest area, and at least `floor`.
pub fn largest_area(area: &[u32], floor: u32) -> (r: u32)
    ensures
        r == largest(area@, floor, area@.len() as int),
{
    let mut best: u32 = floor;
    let mut i: usize = 0;
    while i < area.len()
        invariant
            i <= area@.len(),
            best == largest(area@, floor, i as int),
        decreases area.len() - i,
    {
        if area[i] > best {
            best = area[i];
        }
        i += 1;
    }
    best
}

/// No area is larger than the largest, which is one of them or the floor.
pub proof fn law_largest_area(area: Seq<u32>, floor: u32, k: int)
    requires
        0 <= k <= area.len(),
    ensures
        floor <= largest(area, floor, k),
        forall|i: int| 0 <= i < k ==> #[trigger] area[i] <= largest(area, floor, k),
        largest(area, floor, k) == floor || exists|i: int|
            0 <= i < k && #[trigger] area[i] == largest(area, floor, k),
    decreases k,
{
    if k > 0 {
        law_largest_area(area, floor, k - 1);
        if area[k - 1] <= largest(area, floor, k - 1) && largest(area, floor, k - 1) != floor {
            let i = choose|i: int|
                0 <= i < k - 1 && #[trigger] area[i] == largest(area, floor, k - 1);
            assert(area[i] == largest(area, floor, k));
        }
    }
}

/// The bed of `c` drawn toward its receiver, but never raised.
pub open spec fn drawn(
    d: Drainage,
    top: u32,
    lowered: spec_fn((i32, i32), (u32, u32), bool) -> i32,
    z: Seq<i32>,
    c: int,
) -> i32 {
    let r = d.receivers.to@[c] as int;
    let level = lowered((z[c], z[r]), (d.area@[c], top), d.receivers.diagonal@[c]);
    if level < z[c] {
        level
    } else {
        z[c]
    }
}

/// The bed after the first `i` cells of the stack: sinks stay, and so does every cell whose
/// drainage does not run off the grid; any other is drawn toward its receiver.
pub open spec fn incised(
    d: Drainage,
    grid: Grid,
    top: u32,
    lowered: spec_fn((i32, i32), (u32, u32), bool) -> i32,
    z: Seq<i32>,
    i: int,
) -> Seq<i32>
    decreases i,
{
    if i <= 0 {
        z
    } else {
        let before = incised(d, grid, top, lowered, z, i - 1);
        let c = d.stack@[i - 1] as int;
        if d.receivers.to@[c] == c || !drains_off(d.receivers.to@, grid, c) {
            before
        } else {
            before.update(c, drawn(d, top, lowered, before, c))
        }
    }
}

/// One incision pass over the stack, downstream first: each cell is drawn toward its receiver,
/// which is already updated. `lowered` gives the drawn level from the beds of the cell and its
/// receiver, the cell's area and the largest area, and whether the step is a diagonal one; `floor`
/// is the least that counts as the largest area.
pub fn incise<L: Fn((i32, i32), (u32, u32), bool) -> i32>(
    z: &mut Vec<i32>,
    d: &Drainage,
    grid: &Grid,
    floor: u32,
    lowered: &L,
)
    requires
        grid.wf(),
        old(z)@.len() == grid.cells(),
        d.wf(*grid),
        total3(*lowered),
    ensures
        final(z)@.len() == grid.cells(),
        forall|f: spec_fn((i32, i32), (u32, u32), bool) -> i32| #[trigger]
            computes3(*lowered, f) ==> final(z)@ == incised(
                *d,
                *grid,
                largest(d.area@, floor, d.area@.len() as int),
                f,
                old(z)@,
                d.stack@.len() as int,
            ),
{
    let top: u32 = largest_area(d.area.as_slice(), floor);
    let ghost first = z@;
    let mut i: usize = 0;
    while i < d.stack.len()
        invariant
            grid.wf(),
            d.wf(*grid),
            total3(*lowered),
            z@.len() == grid.cells(),
            top == largest(d.area@, floor, d.area@.len() as int),
            i <= d.stack@.len(),
            forall|f: spec_fn((i32, i32), (u32, u32), bool) -> i32| #[trigger]
                computes3(*lowered, f) ==> z@ == incised(*d, *grid, top, f, first, i as int),
        decreases d.stack.len() - i,
    {
        let c: usize = d.stack[i];
        let r: usize = d.receivers.to[c];
        let ghost was = z@;
        if r != c && d.drains[c] {
            let level: i32 = lowered((z[c], z[r]), (d.area[c], top), d.receivers.diagonal[c]);
            proof {
                assert forall|f: spec_fn((i32, i32), (u32, u32), bool) -> i32| #[trigger]
                    computes3(*lowered, f) implies level == f(
                    (was[c as int], was[r as int]),
                    (d.area@[c as int], top),
                    d.receivers.diagonal@[c as int],
                ) by {
                    assert(call_ensures(
                        *lowered,
                        (
                            (was[c as int], was[r as int]),
                            (d.area@[c as int], top),
                            d.receivers.diagonal@[c as int],
                        ),
                        level,
                    ));
                }
            }
            if level < z[c] {
                z.set(c, level);
            }
        }
        proof {
            assert forall|f: spec_fn((i32, i32), (u32, u32), bool) -> i32| #[trigger]
                computes3(*lowered, f) implies z@ == incised(
                *d,
                *grid,
                top,
                f,
                first,
                i + 1,
            ) by {
                assert(was == incised(*d, *grid, top, f, first, i as int));
                assert(z@ =~= incised(*d, *grid, top, f, first, i + 1));
            }
        }
        i += 1;
    }
}

/// Incision only ever lowers the bed, and leaves sinks and closed basins, whose drainage does not
/// reach the boundary, exactly as they are.
pub proof fn law_incision_spares_closed_basins(
    d: Drainage,
    grid: Grid,
    top: u32,
    lowered: spec_fn((i32, i32), (u32, u32), bool) -> i32,
    z: Seq<i32>,
    i: int,
    c: int,
)
    requires
        d.wf(grid),
        z.len() == grid.cells(),
        0 <= i <= d.stack@.len(),
        0 <= c < grid.cells(),
    ensures
        incised(d, grid, top, lowered, z, i).len() == grid.cells(),
        incised(d, grid, top, lowered, z, i)[c] <= z[c],
        d.receivers.to@[c] == c || !drains_off(d.receivers.to@, grid, c) ==> incised(
            d,
            grid,
            top,
            lowered,
            z,
            i,
        )[c] == z[c],
    decreases i,
{
    if i > 0 {
        law_incision_spares_closed_basins(d, grid, top, lowered, z, i - 1, c);
    }
}

/// The step draws no cell below both its own bed and that of its receiver.
pub open spec fn stops_at_the_receiver(
    lowered: spec_fn((i32, i32), (u32, u32), bool) -> i32,
) -> bool {
    forall|here: i32, below: i32, area: (u32, u32), diagonal: bool|
        (#[trigger] lowered((here, below), area, diagonal)) >= here || lowered(
            (here, below),
            area,
            diagonal,
        ) >= below
}

/// What holds after the first `i` cells of the stack: those cells are unchanged or no lower than
/// their receivers, and all others are unchanged.
proof fn lemma_incision_stops(
    d: Drainage,
    grid: Grid,
    top: u32,
    lowered: spec_fn((i32, i32), (u32, u32), bool) -> i32,
    z: Seq<i32>,
    i: int,
)
    requires
        d.wf(grid),
        z.len() == grid.cells(),
        0 <= i <= d.stack@.len(),
        stops_at_the_receiver(lowered),
    ensures
        incised(d, grid, top, lowered, z, i).len() == grid.cells(),
        forall|j: int|
            0 <= j < i ==> {
                let t = incised(d, grid, top, lowered, z, i);
                let c = #[trigger] d.stack@[j] as int;
                t[c] == z[c] || t[c] >= t[d.receivers.to@[c] as int]
            },
        forall|c: int|
            0 <= c < grid.cells() && (forall|j: int| 0 <= j < i ==> d.stack@[j] != c)
                ==> #[trigger] incised(d, grid, top, lowered, z, i)[c] == z[c],
    decreases i,
{
    if i > 0 {
        lemma_incision_stops(d, grid, top, lowered, z, i - 1);
        let before = incised(d, grid, top, lowered, z, i - 1);
        let after = incised(d, grid, top, lowered, z, i);
        let to = d.receivers.to@;
        let k = d.stack@[i - 1] as int;
        assert(before[k] == z[k]);
        assert forall|j: int| 0 <= j < i implies {
            let c = #[trigger] d.stack@[j] as int;
            after[c] == z[c] || after[c] >= after[to[c] as int]
        } by {
            let c = d.stack@[j] as int;
            if to[c] != c {
                let q = choose|q: int| 0 <= q < j && #[trigger] d.stack@[q] == to[c];
                assert(d.stack@[q] != d.stack@[i - 1]);
                assert(after[to[c] as int] == before[to[c] as int]);
            }
            if j < i - 1 {
                assert(d.stack@[j] != d.stack@[i - 1]);
                assert(after[c] == before[c]);
            } else {
                let level = lowered(
                    (before[c], before[to[c] as int]),
                    (d.area@[c], top),
                    d.receivers.diagonal@[c],
                );
                assert(level >= before[c] || level >= before[to[c] as int]);
            }
        }
        assert forall|c: int|
            0 <= c < grid.cells() && (forall|j: int| 0 <= j < i ==> d.stack@[j] != c) implies
            #[trigger] after[c] == z[c] by {
            assert(d.stack@[i - 1] != c);
            assert(before[c] == z[c]);
        }
    }
}

/// Incision never cuts a cell below its receiver, where the step it is handed does not: after the
/// pass a cell is as high as before, or no lower than the cell it drains into.
pub proof fn law_incision_stops_at_the_receiver(
    d: Drainage,
    grid: Grid,
    top: u32,
    lowered: spec_fn((i32, i32), (u32, u32), bool) -> i32,
    z: Seq<i32>,
    c: int,
)
    requires
        d.wf(grid),
        z.len() == grid.cells(),
        0 <= c < grid.cells(),
        stops_at_the_receiver(lowered),
    ensures
        ({
            let after = incised(d, grid, top, lowered, z, d.stack@.len() as int);
            after[c] == z[c] || after[c] >= after[d.receivers.to@[c] as int]
        }),
{
    let n = d.stack@.len() as int;
    lemma_incision_stops(d, grid, top, lowered, z, n);
    if exists|j: int| 0 <= j < n && d.stack@[j] == c {
        let j = choose|j: int| 0 <= j < n && d.stack@[j] == c;
        assert(d.stack@[j] == c);
    }
}

/// Incision never cuts below the lowest bed, where the step it is handed stops at the receiver.
pub proof fn law_incision_keeps_the_floor(
    d: Drainage,
    grid: Grid,
    top: u32,
    lowered: spec_fn((i32, i32), (u32, u32), bool) -> i32,
    z: Seq<i32>,
    i: int,
    floor: i32,
)
    requires
        d.wf(grid),
        z.len() == grid.cells(),
        0 <= i <= d.stack@.len(),
        stops_at_the_receiver(lowered),
        forall|c: int| 0 <= c < grid.cells() ==> floor <= #[trigger] z[c],
    ensures
        incised(d, grid, top, lowered, z, i).len() == grid.cells(),
        forall|c: int|
            0 <= c < grid.cells() ==> floor <= #[trigger] incised(d, grid, top, lowered, z, i)[c],
    decreases i,
{
    if i > 0 {
        law_incision_keeps_the_floor(d, grid, top, lowered, z, i - 1, floor);
        let before = incised(d, grid, top, lowered, z, i - 1);
        let k = d.stack@[i - 1] as int;
        let r = d.receivers.to@[k] as int;
        let level = lowered((before[k], before[r]), (d.area@[k], top), d.receivers.diagonal@[k]);
        assert(level >= before[k] || level >= before[r]);
        assert(floor <= before[k] && floor <= before[r]);
    }
}

} // verus!
