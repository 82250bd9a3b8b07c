//! What one update of a distance reads.
use crate::grid::DIRECTIONS;
use crate::hydrology::eikonal::Eikonal;
use crate::keys::INFINITY_BITS;
use vstd::prelude::*;

verus! {

/// The distance of the neighbour in direction `k`, where there is one in the domain and in the same
/// flat.
pub open spec fn distance_toward(p: Eikonal, t: Seq<u32>, c: int, k: int) -> Option<u32> {
    match p.grid.neighbor(c, k) {
        Some(n) => if p.domain[n] && p.label[n] == p.label[c] {
            Some(t[n])
        } else {
            None
        },
        None => None,
    }
}

/// `least` is the least distance of the cells of the same flat in the directions `from..to`, and
/// infinite where there is none.
pub open spec fn least_toward(
    p: Eikonal,
    t: Seq<u32>,
    c: int,
    from: int,
    to: int,
    least: u32,
) -> bool {
    &&& least <= INFINITY_BITS
    &&& forall|k: int|
        from <= k < to ==> match #[trigger] distance_toward(p, t, c, k) {
            Some(d) => least <= d,
            None => true,
        }
    &&& least == INFINITY_BITS || exists|k: int|
        from <= k < to && #[trigger] distance_toward(p, t, c, k) == Some(least)
}

/// The nearest distance is the least.
proof fn lemma_nearest_is_least(p: Eikonal, t: Seq<u32>, c: int, from: int, to: int)
    requires
        from <= to,
    ensures
        least_toward(p, t, c, from, to, p.nearest(t, c, from, to)),
    decreases to - from,
{
    if from < to {
        lemma_nearest_is_least(p, t, c, from, to - 1);
        let was = p.nearest(t, c, from, to - 1);
        let now = p.nearest(t, c, from, to);
        if now != was {
            assert(distance_toward(p, t, c, to - 1) == Some(now));
        } else if now != INFINITY_BITS {
            let k = choose|k: int|
                from <= k < to - 1 && #[trigger] distance_toward(p, t, c, k) == Some(was);
            assert(distance_toward(p, t, c, k) == Some(now));
        }
    }
}

/// There is one least distance.
proof fn lemma_least_is_one(
    p: Eikonal,
    t: Seq<u32>,
    c: int,
    from: int,
    to: int,
    a: u32,
    b: u32,
)
    requires
        least_toward(p, t, c, from, to, a),
        least_toward(p, t, c, from, to, b),
    ensures
        a == b,
{
    if a != INFINITY_BITS {
        let k = choose|k: int|
            from <= k < to && #[trigger] distance_toward(p, t, c, k) == Some(a);
        assert(distance_toward(p, t, c, k) == Some(a));
    }
    if b != INFINITY_BITS {
        let k = choose|k: int|
            from <= k < to && #[trigger] distance_toward(p, t, c, k) == Some(b);
        assert(distance_toward(p, t, c, k) == Some(b));
    }
}

/// An update reads both axes: it takes the least distance left and right of a cell and the least
/// above and below it, each within the cell's own flat, and shortens the cell's distance to what the
/// upwind rule makes of the two, where that is shorter. Sources, and cells outside the domain, keep
/// theirs, and so does every other cell.
pub proof fn law_update_reads_both_axes(
    p: Eikonal,
    t: Seq<u32>,
    c: int,
    across: u32,
    along: u32,
)
    requires
        t.len() == p.grid.cells(),
        0 <= c < p.grid.cells(),
        least_toward(p, t, c, 0, 2, across),
        least_toward(p, t, c, 2, 4, along),
    ensures
        ({
            let after = p.relaxed(t, None, c);
            let offer = (p.upwind)(across, along);
            &&& after.len() == t.len()
            &&& after[c] == if p.domain[c] && !p.source[c] && offer < t[c] {
                offer
            } else {
                t[c]
            }
            &&& forall|b: int| 0 <= b < t.len() && b != c ==> #[trigger] after[b] == t[b]
        }),
{
    lemma_nearest_is_least(p, t, c, 0, 2);
    lemma_nearest_is_least(p, t, c, 2, 4);
    lemma_least_is_one(p, t, c, 0, 2, across, p.nearest(t, c, 0, 2));
    lemma_least_is_one(p, t, c, 2, 4, along, p.nearest(t, c, 2, 4));
}

/// A bridging update reads the corners too: of the upwind offer and of the bridge from the least
/// distance across a corner, where there is one, it takes the shorter. Cells that are not marked
/// keep theirs.
pub proof fn law_bridging_update_reads_the_corners(
    p: Eikonal,
    t: Seq<u32>,
    marked: Seq<bool>,
    c: int,
    across: u32,
    along: u32,
    corner: u32,
)
    requires
        t.len() == p.grid.cells(),
        marked.len() == p.grid.cells(),
        0 <= c < p.grid.cells(),
        least_toward(p, t, c, 0, 2, across),
        least_toward(p, t, c, 2, 4, along),
        least_toward(p, t, c, 4, DIRECTIONS as int, corner),
    ensures
        ({
            let after = p.relaxed(t, Some(marked), c);
            let (direct, bridged) = ((p.upwind)(across, along), (p.bridge)(corner));
            let offer = if corner < INFINITY_BITS && bridged < direct {
                bridged
            } else {
                direct
            };
            &&& after.len() == t.len()
            &&& after[c] == if marked[c] && offer < t[c] {
                offer
            } else {
                t[c]
            }
            &&& forall|b: int| 0 <= b < t.len() && b != c ==> #[trigger] after[b] == t[b]
        }),
{
    lemma_nearest_is_least(p, t, c, 0, 2);
    lemma_nearest_is_least(p, t, c, 2, 4);
    lemma_nearest_is_least(p, t, c, 4, 8);
    lemma_least_is_one(p, t, c, 0, 2, across, p.nearest(t, c, 0, 2));
    lemma_least_is_one(p, t, c, 2, 4, along, p.nearest(t, c, 2, 4));
    lemma_least_is_one(p, t, c, 4, 8, corner, p.nearest(t, c, 4, 8));
}

/// Bridging marks exactly the cells that the upwind sweeps left without a distance: those of the
/// domain that are no source.
pub proof fn law_bridging_marks_what_is_left(p: Eikonal, t: Seq<u32>, c: int)
    requires
        0 <= c < p.grid.cells(),
    ensures
        p.pinched(t)[c] <==> p.domain[c] && !p.source[c] && t[c] >= INFINITY_BITS,
{
}

} // verus!
