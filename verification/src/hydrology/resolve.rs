//! Resolving flats: a micro-relief that makes filled basins drain across their true geometry.
use crate::functions::{computes1, computes2, computes3, total1, total2, total3};
use crate::grid::Grid;
use crate::hydrology::eikonal::{eikonal_flats, poses, Eikonal};
use crate::hydrology::eikonal_laws::{law_distances_respect_walls, way_to_source};
use crate::hydrology::flats::{
    borders_higher, classify, is_defined, is_flat, label_flats, labelling, same_flat, Classes,
    NO_LABEL,
};
use crate::keys::INFINITY_BITS;
use vstd::prelude::*;

verus! {

/// The arithmetic of flat resolution: the two distance updates, and the relief added to an
/// elevation, given the flat's greatest wall distance with the cell's own, where it has one, and
/// the cell's outlet distance.
pub ghost struct ReliefMath {
    pub upwind: spec_fn(u32, u32) -> u32,
    pub bridge: spec_fn(u32) -> u32,
    pub relief: spec_fn(i32, Option<(u32, u32)>, u32) -> i32,
}

/// The executable functions compute the arithmetic `m`.
pub open spec fn relief_math<
    U: Fn(u32, u32) -> u32,
    B: Fn(u32) -> u32,
    R: Fn(i32, Option<(u32, u32)>, u32) -> i32,
>(m: ReliefMath, upwind: U, bridge: B, relief: R) -> bool {
    computes2(upwind, m.upwind) && computes1(bridge, m.bridge) && computes3(relief, m.relief)
}

/// Distance away from higher terrain, over the flat cells that do not drain yet.
pub open spec fn away(filled: Seq<i32>, grid: Grid, label: Seq<usize>, m: ReliefMath) -> Eikonal {
    Eikonal {
        source: Seq::new(
            grid.cells(),
            |c: int|
                is_flat(filled, grid, c) && !is_defined(filled, grid, c) && borders_higher(
                    filled,
                    grid,
                    c,
                ),
        ),
        domain: Seq::new(
            grid.cells(),
            |c: int| is_flat(filled, grid, c) && !is_defined(filled, grid, c),
        ),
        label,
        grid,
        upwind: m.upwind,
        bridge: m.bridge,
    }
}

/// Distance from the outlets, over the whole flat.
pub open spec fn toward(filled: Seq<i32>, grid: Grid, label: Seq<usize>, m: ReliefMath) -> Eikonal {
    Eikonal {
        source: Seq::new(
            grid.cells(),
            |c: int| is_flat(filled, grid, c) && is_defined(filled, grid, c),
        ),
        domain: Seq::new(grid.cells(), |c: int| is_flat(filled, grid, c)),
        label,
        grid,
        upwind: m.upwind,
        bridge: m.bridge,
    }
}

/// The greatest finite distance among the cells below `k` with label `l`.
pub open spec fn greatest(t: Seq<u32>, label: Seq<usize>, l: usize, k: int) -> u32
    decreases k,
{
    if k <= 0 {
        0
    } else {
        let best = greatest(t, label, l, k - 1);
        if label[k - 1] == l && t[k - 1] < INFINITY_BITS && t[k - 1] > best {
            t[k - 1]
        } else {
            best
        }
    }
}

/// The resolved elevation of `c`: cells of no flat, and of flats no outlet reaches, keep theirs.
pub open spec fn resolved_at(
    filled: Seq<i32>,
    grid: Grid,
    label: Seq<usize>,
    m: ReliefMath,
    c: int,
) -> i32 {
    let a = away(filled, grid, label, m).distances();
    let t = toward(filled, grid, label, m).distances();
    if label[c] == NO_LABEL || t[c] >= INFINITY_BITS {
        filled[c]
    } else {
        let walls = if a[c] < INFINITY_BITS {
            Some((greatest(a, label, label[c], grid.cells() as int), a[c]))
        } else {
            None
        };
        (m.relief)(filled[c], walls, t[c])
    }
}

/// The resolved elevations.
pub open spec fn resolved(
    filled: Seq<i32>,
    grid: Grid,
    label: Seq<usize>,
    m: ReliefMath,
) -> Seq<i32> {
    Seq::new(grid.cells(), |c: int| resolved_at(filled, grid, label, m, c))
}

/// Superimposes over each flat a gradient away from higher terrain and one toward its outlets.
/// Flats without an outlet are left untouched.
pub fn resolve_flats<
    U: Fn(u32, u32) -> u32,
    B: Fn(u32) -> u32,
    R: Fn(i32, Option<(u32, u32)>, u32) -> i32,
>(filled: &[i32], grid: &Grid, upwind: &U, bridge: &B, relief: &R) -> (r: Vec<i32>)
    requires
        grid.wf(),
        filled@.len() == grid.cells(),
        total2(*upwind),
        total1(*bridge),
        total3(*relief),
    ensures
        r@.len() == grid.cells(),
        exists|label: Seq<usize>, count: usize| #[trigger]
            labelling(filled@, *grid, label, count) && forall|m: ReliefMath| #[trigger]
                relief_math(m, *upwind, *bridge, *relief) ==> r@ == resolved(
                    filled@,
                    *grid,
                    label,
                    m,
                ),
{
    let n: usize = grid.len();
    let classes: Classes = classify(filled, grid);
    let (label, count): (Vec<usize>, usize) = label_flats(filled, &classes.flat, grid);
    if count == 0 {
        let r: Vec<i32> = vstd::slice::slice_to_vec(filled);
        proof {
            assert forall|m: ReliefMath| #[trigger]
                relief_math(m, *upwind, *bridge, *relief) implies r@ == resolved(
                filled@,
                *grid,
                label@,
                m,
            ) by {
                assert forall|c: int| 0 <= c < n implies #[trigger] label@[c] == NO_LABEL by {}
                assert(r@ =~= resolved(filled@, *grid, label@, m));
            }
        }
        return r;
    }
    let mut away_source: Vec<bool> = Vec::with_capacity(n);
    let mut away_domain: Vec<bool> = Vec::with_capacity(n);
    let mut toward_source: Vec<bool> = Vec::with_capacity(n);
    let mut c: usize = 0;
    while c < n
        invariant
            n == grid.cells(),
            classes.classify(filled@, *grid),
            c <= n,
            away_source@.len() == c,
            away_domain@.len() == c,
            toward_source@.len() == c,
            forall|b: int|
                0 <= b < c ==> #[trigger] away_source@[b] == (is_flat(filled@, *grid, b)
                    && !is_defined(filled@, *grid, b) && borders_higher(filled@, *grid, b)),
            forall|b: int|
                0 <= b < c ==> #[trigger] away_domain@[b] == (is_flat(filled@, *grid, b)
                    && !is_defined(filled@, *grid, b)),
            forall|b: int|
                0 <= b < c ==> #[trigger] toward_source@[b] == (is_flat(filled@, *grid, b)
                    && is_defined(filled@, *grid, b)),
        decreases n - c,
    {
        let open: bool = classes.flat[c] && !classes.defined[c];
        away_domain.push(open);
        away_source.push(open && classes.higher[c]);
        toward_source.push(classes.flat[c] && classes.defined[c]);
        c += 1;
    }
    let away_t: Vec<u32> = eikonal_flats(
        away_source.as_slice(),
        away_domain.as_slice(),
        label.as_slice(),
        grid,
        upwind,
        bridge,
    );
    let toward_t: Vec<u32> = eikonal_flats(
        toward_source.as_slice(),
        classes.flat.as_slice(),
        label.as_slice(),
        grid,
        upwind,
        bridge,
    );
    proof {
        assert forall|m: ReliefMath| #[trigger]
            relief_math(m, *upwind, *bridge, *relief) implies away_t@ == away(
            filled@,
            *grid,
            label@,
            m,
        ).distances() && toward_t@ == toward(filled@, *grid, label@, m).distances() by {
            let a = away(filled@, *grid, label@, m);
            let t = toward(filled@, *grid, label@, m);
            assert(a.source =~= away_source@);
            assert(a.domain =~= away_domain@);
            assert(t.source =~= toward_source@);
            assert(t.domain =~= classes.flat@);
            assert(poses(a, away_source@, away_domain@, label@, *grid, *upwind, *bridge));
            assert(poses(t, toward_source@, classes.flat@, label@, *grid, *upwind, *bridge));
        }
    }
    let mut peaks: Vec<u32> = vec![0; count];
    let mut c: usize = 0;
    while c < n
        invariant
            n == grid.cells(),
            labelling(filled@, *grid, label@, count),
            away_t@.len() == n,
            peaks@.len() == count,
            c <= n,
            forall|l: usize|
                l < count ==> #[trigger] peaks@[l as int] == greatest(
                    away_t@,
                    label@,
                    l,
                    c as int,
                ),
        decreases n - c,
    {
        let l: usize = label[c];
        let ghost was = peaks@;
        if l < count && away_t[c] < INFINITY_BITS && away_t[c] > peaks[l] {
            peaks.set(l, away_t[c]);
        }
        proof {
            assert forall|b: usize| b < count implies #[trigger] peaks@[b as int] == greatest(
                away_t@,
                label@,
                b,
                c + 1,
            ) by {
                assert(was[b as int] == greatest(away_t@, label@, b, c as int));
                if l < count {
                    assert(was[l as int] == greatest(away_t@, label@, l, c as int));
                }
            }
        }
        c += 1;
    }
    let mut out: Vec<i32> = Vec::with_capacity(n);
    let mut c: usize = 0;
    while c < n
        invariant
            n == grid.cells(),
            filled@.len() == n,
            total3(*relief),
            labelling(filled@, *grid, label@, count),
            away_t@.len() == n,
            toward_t@.len() == n,
            peaks@.len() == count,
            forall|l: usize|
                l < count ==> #[trigger] peaks@[l as int] == greatest(
                    away_t@,
                    label@,
                    l,
                    n as int,
                ),
            forall|m: ReliefMath| #[trigger]
                relief_math(m, *upwind, *bridge, *relief) ==> away_t@ == away(
                    filled@,
                    *grid,
                    label@,
                    m,
                ).distances() && toward_t@ == toward(filled@, *grid, label@, m).distances(),
            c <= n,
            out@.len() == c,
            forall|m: ReliefMath| #[trigger]
                relief_math(m, *upwind, *bridge, *relief) ==> forall|b: int|
                    0 <= b < c ==> #[trigger] out@[b] == resolved_at(
                        filled@,
                        *grid,
                        label@,
                        m,
                        b,
                    ),
        decreases n - c,
    {
        let l: usize = label[c];
        let value: i32 = if l == NO_LABEL || toward_t[c] >= INFINITY_BITS {
            filled[c]
        } else {
            assert(label@[c as int] < count);
            let walls: Option<(u32, u32)> = if away_t[c] < INFINITY_BITS {
                Some((peaks[l], away_t[c]))
            } else {
                None
            };
            let v: i32 = relief(filled[c], walls, toward_t[c]);
            proof {
                assert forall|m: ReliefMath| #[trigger]
                    relief_math(m, *upwind, *bridge, *relief) implies v == (m.relief)(
                    filled@[c as int],
                    walls,
                    toward_t@[c as int],
                ) by {
                    assert(call_ensures(
                        *relief,
                        (filled@[c as int], walls, toward_t@[c as int]),
                        v,
                    ));
                }
            }
            v
        };
        out.push(value);
        c += 1;
    }
    proof {
        assert forall|m: ReliefMath| #[trigger]
            relief_math(m, *upwind, *bridge, *relief) implies out@ == resolved(
            filled@,
            *grid,
            label@,
            m,
        ) by {
            assert(out@ =~= resolved(filled@, *grid, label@, m));
        }
    }
    out
}

/// A genuine sink, a flat none of whose cells drains, is left exactly as it is.
pub proof fn law_flat_without_outlet_is_untouched(
    filled: Seq<i32>,
    grid: Grid,
    label: Seq<usize>,
    count: usize,
    m: ReliefMath,
    c: int,
)
    requires
        grid.wf(),
        filled.len() == grid.cells(),
        labelling(filled, grid, label, count),
        (m.upwind)(INFINITY_BITS, INFINITY_BITS) >= INFINITY_BITS,
        0 <= c < grid.cells(),
        forall|b: int|
            0 <= b < grid.cells() && #[trigger] same_flat(filled, grid, c, b) ==> !is_defined(
                filled,
                grid,
                b,
            ),
    ensures
        resolved(filled, grid, label, m)[c] == filled[c],
{
    let t = toward(filled, grid, label, m);
    law_distances_respect_walls(t, c);
    if t.distances()[c] < INFINITY_BITS {
        let path = choose|path: Seq<int>| #[trigger] way_to_source(t, path, c);
        let s = path.last();
        assert(path[0] == c);
        assert(s == path[path.len() - 1]);
        assert(label[s] == label[c]);
        assert(same_flat(filled, grid, c, s));
    }
}

/// Ground that is part of no flat is left exactly as it is.
pub proof fn law_sloping_ground_is_untouched(
    filled: Seq<i32>,
    grid: Grid,
    label: Seq<usize>,
    count: usize,
    m: ReliefMath,
    c: int,
)
    requires
        labelling(filled, grid, label, count),
        0 <= c < grid.cells(),
        !is_flat(filled, grid, c),
    ensures
        resolved(filled, grid, label, m)[c] == filled[c],
{
    assert(label[c] == NO_LABEL);
}

} // verus!
