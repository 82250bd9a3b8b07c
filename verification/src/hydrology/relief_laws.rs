//! What the relief of a resolved flat is made of.
use crate::grid::{Grid, DIRECTIONS};
use crate::hydrology::eikonal::Eikonal;
use crate::hydrology::flats::{
    above, below, borders_higher, is_defined, is_flat, labelling, level_with, NO_LABEL,
};
use crate::hydrology::resolve::{away, greatest, resolved, toward, ReliefMath};
use crate::keys::INFINITY_BITS;
use vstd::prelude::*;

verus! {

/// A neighbour of `c` is exactly as high.
pub open spec fn has_equal(filled: Seq<i32>, grid: Grid, c: int) -> bool {
    exists|n: int| #[trigger] grid.adjacent(c, n) && filled[n] == filled[c]
}

/// A neighbour of `c` is lower.
pub open spec fn has_lower(filled: Seq<i32>, grid: Grid, c: int) -> bool {
    exists|n: int| #[trigger] grid.adjacent(c, n) && filled[n] < filled[c]
}

/// A neighbour of `c` is higher.
pub open spec fn has_higher(filled: Seq<i32>, grid: Grid, c: int) -> bool {
    exists|n: int| #[trigger] grid.adjacent(c, n) && filled[n] > filled[c]
}

/// Cell `c` lies on the outermost ring of the grid.
pub open spec fn on_ring(grid: Grid, c: int) -> bool {
    let (x, y) = (c % (grid.width as int), c / (grid.width as int));
    x == 0 || y == 0 || x == grid.width - 1 || y == grid.height - 1
}

/// The classes by neighbours.
pub proof fn lemma_classes(filled: Seq<i32>, grid: Grid, c: int)
    ensures
        is_flat(filled, grid, c) == has_equal(filled, grid, c),
        is_defined(filled, grid, c) == (on_ring(grid, c) || has_lower(filled, grid, c)),
        borders_higher(filled, grid, c) == has_higher(filled, grid, c),
{
    if is_flat(filled, grid, c) {
        let k = choose|k: int| 0 <= k < DIRECTIONS && #[trigger] level_with(filled, grid, c, k);
        assert(grid.adjacent(c, grid.neighbor(c, k)->0));
    }
    if has_equal(filled, grid, c) {
        let n = choose|n: int| #[trigger] grid.adjacent(c, n) && filled[n] == filled[c];
        let k = choose|k: int| 0 <= k < DIRECTIONS && #[trigger] grid.neighbor(c, k) == Some(n);
        assert(level_with(filled, grid, c, k));
    }
    if exists|k: int| 0 <= k < DIRECTIONS && #[trigger] above(filled, grid, c, k) {
        let k = choose|k: int| 0 <= k < DIRECTIONS && #[trigger] above(filled, grid, c, k);
        assert(grid.adjacent(c, grid.neighbor(c, k)->0));
    }
    if has_lower(filled, grid, c) {
        let n = choose|n: int| #[trigger] grid.adjacent(c, n) && filled[n] < filled[c];
        let k = choose|k: int| 0 <= k < DIRECTIONS && #[trigger] grid.neighbor(c, k) == Some(n);
        assert(above(filled, grid, c, k));
    }
    if borders_higher(filled, grid, c) {
        let k = choose|k: int| 0 <= k < DIRECTIONS && #[trigger] below(filled, grid, c, k);
        assert(grid.adjacent(c, grid.neighbor(c, k)->0));
    }
    if has_higher(filled, grid, c) {
        let n = choose|n: int| #[trigger] grid.adjacent(c, n) && filled[n] > filled[c];
        let k = choose|k: int| 0 <= k < DIRECTIONS && #[trigger] grid.neighbor(c, k) == Some(n);
        assert(below(filled, grid, c, k));
    }
}

/// `p` asks for the distances from the outlets: from the flat cells on the ring or beside lower
/// ground, over all flat cells.
pub open spec fn from_outlets(p: Eikonal, filled: Seq<i32>, grid: Grid) -> bool {
    &&& p.source.len() == grid.cells()
    &&& p.domain.len() == grid.cells()
    &&& forall|c: int|
        0 <= c < grid.cells() ==> #[trigger] p.domain[c] == has_equal(filled, grid, c)
    &&& forall|c: int|
        0 <= c < grid.cells() ==> #[trigger] p.source[c] == (has_equal(filled, grid, c) && (on_ring(
            grid,
            c,
        ) || has_lower(filled, grid, c)))
}

/// `p` asks for the distances from the walls: from the cells beside higher ground, over the flat
/// cells that neither lie on the ring nor beside lower ground.
pub open spec fn from_walls(p: Eikonal, filled: Seq<i32>, grid: Grid) -> bool {
    &&& p.source.len() == grid.cells()
    &&& p.domain.len() == grid.cells()
    &&& forall|c: int|
        0 <= c < grid.cells() ==> #[trigger] p.domain[c] == (has_equal(filled, grid, c) && !on_ring(
            grid,
            c,
        ) && !has_lower(filled, grid, c))
    &&& forall|c: int|
        0 <= c < grid.cells() ==> #[trigger] p.source[c] == (has_equal(filled, grid, c) && !on_ring(
            grid,
            c,
        ) && !has_lower(filled, grid, c) && has_higher(filled, grid, c))
}

/// The two problems share the grid, the flats and the updates.
pub open spec fn on_flats(p: Eikonal, grid: Grid, label: Seq<usize>, m: ReliefMath) -> bool {
    p.grid == grid && p.label == label && p.upwind == m.upwind && p.bridge == m.bridge
}

/// The greatest finite distance of a label is one of its distances, or nothing where it has none.
pub proof fn law_greatest_distance_is_the_greatest(t: Seq<u32>, label: Seq<usize>, l: usize, n: int)
    requires
        0 <= n <= t.len(),
    ensures
        forall|c: int|
            0 <= c < n && label[c] == l && #[trigger] t[c] < INFINITY_BITS ==> t[c] <= greatest(
                t,
                label,
                l,
                n,
            ),
        greatest(t, label, l, n) == 0 || exists|c: int|
            0 <= c < n && label[c] == l && #[trigger] t[c] == greatest(t, label, l, n),
        greatest(t, label, l, n) < INFINITY_BITS,
    decreases n,
{
    if n > 0 {
        law_greatest_distance_is_the_greatest(t, label, l, n - 1);
        let was = greatest(t, label, l, n - 1);
        if greatest(t, label, l, n) == was && was != 0 {
            let c = choose|c: int| 0 <= c < n - 1 && label[c] == l && #[trigger] t[c] == was;
            assert(t[c] == greatest(t, label, l, n));
        } else if greatest(t, label, l, n) != was {
            assert(t[n - 1] == greatest(t, label, l, n));
        }
    }
}

/// A flat cell that an outlet reaches is lifted by its distance from the outlets and by how much
/// nearer it is to the walls than the farthest cell of its flat; cells of no flat, and those that no
/// outlet reaches, are not lifted.
pub proof fn law_flat_cells_rise_by_two_distances(
    filled: Seq<i32>,
    grid: Grid,
    label: Seq<usize>,
    count: usize,
    m: ReliefMath,
    outlets: Eikonal,
    walls: Eikonal,
    c: int,
)
    requires
        labelling(filled, grid, label, count),
        on_flats(outlets, grid, label, m),
        on_flats(walls, grid, label, m),
        from_outlets(outlets, filled, grid),
        from_walls(walls, filled, grid),
        0 <= c < grid.cells(),
    ensures
        ({
            let (t, a) = (outlets.distances(), walls.distances());
            let r = resolved(filled, grid, label, m);
            &&& r.len() == grid.cells()
            &&& !has_equal(filled, grid, c) || t[c] >= INFINITY_BITS ==> r[c] == filled[c]
            &&& has_equal(filled, grid, c) && t[c] < INFINITY_BITS && count <= NO_LABEL ==> r[c] == (
            m.relief)(
                filled[c],
                if a[c] < INFINITY_BITS {
                    Some((greatest(a, label, label[c], grid.cells() as int), a[c]))
                } else {
                    None
                },
                t[c],
            )
        }),
{
    let (tp, ap) = (toward(filled, grid, label, m), away(filled, grid, label, m));
    assert forall|b: int| 0 <= b < grid.cells() implies tp.source[b] == outlets.source[b]
        && tp.domain[b] == outlets.domain[b] && ap.source[b] == walls.source[b] && ap.domain[b]
        == walls.domain[b] by {
        lemma_classes(filled, grid, b);
    }
    assert(tp.source =~= outlets.source);
    assert(tp.domain =~= outlets.domain);
    assert(ap.source =~= walls.source);
    assert(ap.domain =~= walls.domain);
    assert(tp == outlets);
    assert(ap == walls);
    lemma_classes(filled, grid, c);
}

} // verus!
