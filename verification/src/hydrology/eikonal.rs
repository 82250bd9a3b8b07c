//! Geodesic distance over flats, by fast sweeping.
//!
//! Distances are non-negative and travel as bit patterns, whose integer order is their order (see
//! [`crate::keys`]). The caller supplies the two updates: the upwind update from the nearest
//! horizontal and vertical distance, and the step across a diagonal.
use crate::functions::{computes1, computes2, total1, total2};
use crate::grid::{lemma_index, Grid, DIRECTIONS};
use crate::keys::INFINITY_BITS;
use vstd::prelude::*;

verus! {

/// Fast-sweeping passes, each in the four alternating sweep directions. A cap, not a target: one
/// pass is exact on a convex flat, while flats whose geodesics bend around walls need a few.
pub const EIKONAL_PASSES: usize = 4;

/// The problem: where distances start, where they spread, which flat each cell belongs to, and how
/// they update.
pub ghost struct Eikonal {
    pub source: Seq<bool>,
    pub domain: Seq<bool>,
    pub label: Seq<usize>,
    pub grid: Grid,
    pub upwind: spec_fn(u32, u32) -> u32,
    pub bridge: spec_fn(u32) -> u32,
}

impl Eikonal {
    /// The parts have the size of the grid.
    pub open spec fn wf(self) -> bool {
        &&& self.grid.wf()
        &&& self.source.len() == self.grid.cells()
        &&& self.domain.len() == self.grid.cells()
        &&& self.label.len() == self.grid.cells()
    }

    /// Whether the neighbour of `c` in direction `k` is in the domain and in the same flat.
    pub open spec fn joined(self, c: int, k: int) -> bool {
        self.grid.neighbor(c, k) matches Some(n) && self.domain[n] && self.label[n]
            == self.label[c]
    }

    /// The smallest distance among the joined neighbours of `c` in the directions `from..to`.
    pub open spec fn nearest(self, t: Seq<u32>, c: int, from: int, to: int) -> u32
        decreases to - from,
    {
        if from >= to {
            INFINITY_BITS
        } else {
            let best = self.nearest(t, c, from, to - 1);
            if self.joined(c, to - 1) && t[self.grid.neighbor(c, to - 1)->0] < best {
                t[self.grid.neighbor(c, to - 1)->0]
            } else {
                best
            }
        }
    }

    /// The upwind update of `c` from its horizontal and vertical neighbours.
    pub open spec fn upwind_at(self, t: Seq<u32>, c: int) -> u32 {
        (self.upwind)(self.nearest(t, c, 0, 2), self.nearest(t, c, 2, 4))
    }

    /// The upwind update of `c`, or the step from its nearest diagonal neighbour where that is
    /// shorter.
    pub open spec fn bridged_at(self, t: Seq<u32>, c: int) -> u32 {
        let d = self.nearest(t, c, 4, 8);
        let direct = self.upwind_at(t, c);
        if d < INFINITY_BITS && (self.bridge)(d) < direct {
            (self.bridge)(d)
        } else {
            direct
        }
    }

    /// The distances after a shorter one was offered to `c`.
    pub open spec fn offered(self, t: Seq<u32>, c: int, cand: u32) -> Seq<u32> {
        if cand < t[c] {
            t.update(c, cand)
        } else {
            t
        }
    }

    /// The distances after the update of `c`: by the upwind rule for the cells of the domain that
    /// are no source, or, where `pinch` is given, with diagonal steps for the cells it marks.
    pub open spec fn relaxed(self, t: Seq<u32>, pinch: Option<Seq<bool>>, c: int) -> Seq<u32> {
        match pinch {
            None => if self.domain[c] && !self.source[c] {
                self.offered(t, c, self.upwind_at(t, c))
            } else {
                t
            },
            Some(marked) => if marked[c] {
                self.offered(t, c, self.bridged_at(t, c))
            } else {
                t
            },
        }
    }

    /// The distances after the first `i` cells of sweep `o`.
    pub open spec fn swept(self, t: Seq<u32>, pinch: Option<Seq<bool>>, o: int, i: int) -> Seq<u32>
        decreases i,
    {
        if i <= 0 {
            t
        } else {
            self.relaxed(self.swept(t, pinch, o, i - 1), pinch, sweep_cell(self.grid, o, i - 1))
        }
    }

    /// The distances after the first `o` sweeps.
    pub open spec fn sweeps(self, t: Seq<u32>, pinch: Option<Seq<bool>>, o: int) -> Seq<u32>
        decreases o,
    {
        if o <= 0 {
            t
        } else {
            self.swept(self.sweeps(t, pinch, o - 1), pinch, o - 1, self.grid.cells() as int)
        }
    }

    /// The distances after `passes` passes of the four sweeps.
    pub open spec fn passes(self, t: Seq<u32>, pinch: Option<Seq<bool>>, passes: nat) -> Seq<u32>
        decreases passes,
    {
        if passes == 0 {
            t
        } else {
            self.passes(self.sweeps(t, pinch, 4), pinch, (passes - 1) as nat)
        }
    }

    /// Zero at the sources, infinite elsewhere.
    pub open spec fn initial(self) -> Seq<u32> {
        Seq::new(
            self.grid.cells(),
            |c: int|
                if self.domain[c] && self.source[c] {
                    0
                } else {
                    INFINITY_BITS
                },
        )
    }

    /// The cells of the domain that the upwind sweeps have not reached.
    pub open spec fn pinched(self, t: Seq<u32>) -> Seq<bool> {
        Seq::new(
            self.grid.cells(),
            |c: int| t[c] >= INFINITY_BITS && self.domain[c] && !self.source[c],
        )
    }

    /// The distances of the upwind sweeps.
    pub open spec fn isotropic(self) -> Seq<u32> {
        self.passes(self.initial(), None, EIKONAL_PASSES as nat)
    }

    /// The distances: by upwind sweeps, and, for the cells these did not reach because the flat is
    /// joined there only across a corner, by further sweeps with diagonal steps.
    pub open spec fn distances(self) -> Seq<u32> {
        let t = self.isotropic();
        self.passes(t, Some(self.pinched(t)), EIKONAL_PASSES as nat)
    }
}

/// The `i`th cell of sweep `o`: rows and columns each forward or backward.
pub open spec fn sweep_cell(grid: Grid, o: int, i: int) -> int {
    let x = if o >= 2 {
        grid.width - 1 - grid.col(i)
    } else {
        grid.col(i)
    };
    let y = if o == 1 || o == 3 {
        grid.height - 1 - grid.row(i)
    } else {
        grid.row(i)
    };
    grid.index(x, y)
}

/// The `i`th cell of sweep `o`.
fn sweep_at(grid: &Grid, o: usize, i: usize) -> (c: usize)
    requires
        grid.wf(),
        i < grid.cells(),
        o < 4,
    ensures
        c == sweep_cell(*grid, o as int, i as int),
        c < grid.cells(),
{
    proof {
        crate::grid::lemma_cell(*grid, i as int);
    }
    let x: usize = i % grid.width;
    let y: usize = i / grid.width;
    let sx: usize = if o >= 2 {
        grid.width - 1 - x
    } else {
        x
    };
    let sy: usize = if o == 1 || o == 3 {
        grid.height - 1 - y
    } else {
        y
    };
    proof {
        lemma_index(*grid, sx as int, sy as int);
    }
    sy * grid.width + sx
}

/// The smallest distance among the neighbours of `c`, in the directions `from..to`, that are in
/// the domain and in the same flat.
fn nearest(
    t: &Vec<u32>,
    domain: &[bool],
    label: &[usize],
    grid: &Grid,
    c: usize,
    from: usize,
    to: usize,
) -> (r: u32)
    requires
        grid.wf(),
        t@.len() == grid.cells(),
        domain@.len() == grid.cells(),
        label@.len() == grid.cells(),
        c < grid.cells(),
        from <= to <= DIRECTIONS,
    ensures
        forall|p: Eikonal|
            p.domain == domain@ && p.label == label@ && p.grid == *grid ==> r
                == #[trigger] p.nearest(t@, c as int, from as int, to as int),
{
    let mut best: u32 = INFINITY_BITS;
    let mut k: usize = from;
    while k < to
        invariant
            grid.wf(),
            t@.len() == grid.cells(),
            domain@.len() == grid.cells(),
            label@.len() == grid.cells(),
            c < grid.cells(),
            from <= k <= to <= DIRECTIONS,
            forall|p: Eikonal|
                p.domain == domain@ && p.label == label@ && p.grid == *grid ==> best
                    == #[trigger] p.nearest(t@, c as int, from as int, k as int),
        decreases to - k,
    {
        let ghost was = best;
        match grid.neighbour(c, k) {
            Some(n) => {
                if domain[n] && label[n] == label[c] && t[n] < best {
                    best = t[n];
                }
            },
            None => {},
        }
        proof {
            assert forall|p: Eikonal|
                p.domain == domain@ && p.label == label@ && p.grid == *grid implies best
                == #[trigger] p.nearest(t@, c as int, from as int, k + 1) by {
                assert(was == p.nearest(t@, c as int, from as int, k as int));
            }
        }
        k += 1;
    }
    best
}

/// The problem `p` is the one these arguments pose.
pub open spec fn poses<U: Fn(u32, u32) -> u32, B: Fn(u32) -> u32>(
    p: Eikonal,
    source: Seq<bool>,
    domain: Seq<bool>,
    label: Seq<usize>,
    grid: Grid,
    upwind: U,
    bridge: B,
) -> bool {
    &&& p.source == source
    &&& p.domain == domain
    &&& p.label == label
    &&& p.grid == grid
    &&& computes2(upwind, p.upwind)
    &&& computes1(bridge, p.bridge)
}

/// Which cells a pass updates, and how.
pub open spec fn marks(pinch: Option<&Vec<bool>>) -> Option<Seq<bool>> {
    match pinch {
        Some(marked) => Some(marked@),
        None => None,
    }
}

/// One pass of the four sweeps; the result says whether any distance changed.
fn sweep_pass<U: Fn(u32, u32) -> u32, B: Fn(u32) -> u32>(
    t: &mut Vec<u32>,
    pinch: Option<&Vec<bool>>,
    source: &[bool],
    domain: &[bool],
    label: &[usize],
    grid: &Grid,
    upwind: &U,
    bridge: &B,
) -> (changed: bool)
    requires
        grid.wf(),
        old(t)@.len() == grid.cells(),
        source@.len() == grid.cells(),
        domain@.len() == grid.cells(),
        label@.len() == grid.cells(),
        pinch matches Some(marked) ==> marked@.len() == grid.cells(),
        total2(*upwind),
        total1(*bridge),
    ensures
        final(t)@.len() == grid.cells(),
        !changed ==> final(t)@ == old(t)@,
        forall|p: Eikonal| #[trigger]
            poses(p, source@, domain@, label@, *grid, *upwind, *bridge) ==> final(t)@ == p.sweeps(
                old(t)@,
                marks(pinch),
                4,
            ),
{
    let n: usize = grid.len();
    let mut changed: bool = false;
    let ghost first = t@;
    let mut o: usize = 0;
    while o < 4
        invariant
            grid.wf(),
            n == grid.cells(),
            first == old(t)@,
            t@.len() == n,
            source@.len() == n,
            domain@.len() == n,
            label@.len() == n,
            pinch matches Some(marked) ==> marked@.len() == n,
            total2(*upwind),
            total1(*bridge),
            o <= 4,
            !changed ==> t@ == first,
            forall|p: Eikonal| #[trigger]
                poses(p, source@, domain@, label@, *grid, *upwind, *bridge) ==> t@ == p.sweeps(
                    first,
                    marks(pinch),
                    o as int,
                ),
        decreases 4 - o,
    {
        let ghost start = t@;
        let mut i: usize = 0;
        while i < n
            invariant
                grid.wf(),
                n == grid.cells(),
                t@.len() == n,
                source@.len() == n,
                domain@.len() == n,
                label@.len() == n,
                pinch matches Some(marked) ==> marked@.len() == n,
                total2(*upwind),
                total1(*bridge),
                o < 4,
                i <= n,
                !changed ==> t@ == first,
                forall|p: Eikonal| #[trigger]
                    poses(p, source@, domain@, label@, *grid, *upwind, *bridge) ==> t@ == p.swept(
                        start,
                        marks(pinch),
                        o as int,
                        i as int,
                    ),
            decreases n - i,
        {
            let c: usize = sweep_at(grid, o, i);
            let ghost was = t@;
            let active: bool = match pinch {
                Some(marked) => marked[c],
                None => domain[c] && !source[c],
            };
            if active {
                let h: u32 = nearest(t, domain, label, grid, c, 0, 2);
                let v: u32 = nearest(t, domain, label, grid, c, 2, 4);
                let direct: u32 = upwind(h, v);
                let mut cand: u32 = direct;
                proof {
                    assert forall|p: Eikonal| #[trigger]
                        poses(
                            p,
                            source@,
                            domain@,
                            label@,
                            *grid,
                            *upwind,
                            *bridge,
                        ) implies direct == p.upwind_at(was, c as int) by {
                        assert(call_ensures(*upwind, (h, v), direct));
                        assert(h == p.nearest(was, c as int, 0, 2));
                        assert(v == p.nearest(was, c as int, 2, 4));
                    }
                }
                if pinch.is_some() {
                    let d: u32 = nearest(t, domain, label, grid, c, 4, 8);
                    if d < INFINITY_BITS {
                        let b: u32 = bridge(d);
                        proof {
                            assert forall|p: Eikonal| #[trigger]
                                poses(
                                    p,
                                    source@,
                                    domain@,
                                    label@,
                                    *grid,
                                    *upwind,
                                    *bridge,
                                ) implies b == (p.bridge)(d) by {
                                assert(call_ensures(*bridge, (d,), b));
                            }
                        }
                        if b < cand {
                            cand = b;
                        }
                    }
                    proof {
                        assert forall|p: Eikonal| #[trigger]
                            poses(
                                p,
                                source@,
                                domain@,
                                label@,
                                *grid,
                                *upwind,
                                *bridge,
                            ) implies cand == p.bridged_at(was, c as int) by {
                            assert(d == p.nearest(was, c as int, 4, 8));
                        }
                    }
                }
                if cand < t[c] {
                    t.set(c, cand);
                    changed = true;
                }
            }
            proof {
                assert forall|p: Eikonal| #[trigger]
                    poses(p, source@, domain@, label@, *grid, *upwind, *bridge) implies t@
                    == p.swept(start, marks(pinch), o as int, i + 1) by {
                    assert(was == p.swept(start, marks(pinch), o as int, i as int));
                    assert(t@ =~= p.relaxed(was, marks(pinch), c as int));
                }
            }
            i += 1;
        }
        proof {
            assert forall|p: Eikonal| #[trigger]
                poses(p, source@, domain@, label@, *grid, *upwind, *bridge) implies t@ == p.sweeps(
                first,
                marks(pinch),
                o + 1,
            ) by {
                assert(start == p.sweeps(first, marks(pinch), o as int));
            }
        }
        o += 1;
    }
    changed
}

/// Distances that a pass leaves alone stay as they are.
proof fn lemma_settled(p: Eikonal, t: Seq<u32>, pinch: Option<Seq<bool>>, passes: nat)
    requires
        p.sweeps(t, pinch, 4) == t,
    ensures
        p.passes(t, pinch, passes) == t,
    decreases passes,
{
    if passes > 0 {
        lemma_settled(p, t, pinch, (passes - 1) as nat);
    }
}

/// Passes until nothing changes, at most [`EIKONAL_PASSES`].
fn settle<U: Fn(u32, u32) -> u32, B: Fn(u32) -> u32>(
    t: &mut Vec<u32>,
    pinch: Option<&Vec<bool>>,
    source: &[bool],
    domain: &[bool],
    label: &[usize],
    grid: &Grid,
    upwind: &U,
    bridge: &B,
)
    requires
        grid.wf(),
        old(t)@.len() == grid.cells(),
        source@.len() == grid.cells(),
        domain@.len() == grid.cells(),
        label@.len() == grid.cells(),
        pinch matches Some(marked) ==> marked@.len() == grid.cells(),
        total2(*upwind),
        total1(*bridge),
    ensures
        final(t)@.len() == grid.cells(),
        forall|p: Eikonal| #[trigger]
            poses(p, source@, domain@, label@, *grid, *upwind, *bridge) ==> final(t)@ == p.passes(
                old(t)@,
                marks(pinch),
                EIKONAL_PASSES as nat,
            ),
{
    let ghost first = t@;
    let mut left: usize = EIKONAL_PASSES;
    while left > 0
        invariant
            grid.wf(),
            first == old(t)@,
            t@.len() == grid.cells(),
            source@.len() == grid.cells(),
            domain@.len() == grid.cells(),
            label@.len() == grid.cells(),
            pinch matches Some(marked) ==> marked@.len() == grid.cells(),
            total2(*upwind),
            total1(*bridge),
            left <= EIKONAL_PASSES,
            forall|p: Eikonal| #[trigger]
                poses(p, source@, domain@, label@, *grid, *upwind, *bridge) ==> p.passes(
                    first,
                    marks(pinch),
                    EIKONAL_PASSES as nat,
                ) == p.passes(t@, marks(pinch), left as nat),
        decreases left,
    {
        let ghost was = t@;
        let changed: bool = sweep_pass(t, pinch, source, domain, label, grid, upwind, bridge);
        if !changed {
            proof {
                assert forall|p: Eikonal| #[trigger]
                    poses(
                        p,
                        source@,
                        domain@,
                        label@,
                        *grid,
                        *upwind,
                        *bridge,
                    ) implies t@ == p.passes(first, marks(pinch), EIKONAL_PASSES as nat) by {
                    lemma_settled(p, was, marks(pinch), left as nat);
                }
            }
            return;
        }
        left -= 1;
    }
}

/// Geodesic distance from the `source` cells, restricted to `domain` cells of the same flat.
/// Propagation never crosses into another label or out of the domain. Cells outside the domain,
/// and flats no source reaches, stay infinite.
pub fn eikonal_flats<U: Fn(u32, u32) -> u32, B: Fn(u32) -> u32>(
    source: &[bool],
    domain: &[bool],
    label: &[usize],
    grid: &Grid,
    upwind: &U,
    bridge: &B,
) -> (t: Vec<u32>)
    requires
        grid.wf(),
        source@.len() == grid.cells(),
        domain@.len() == grid.cells(),
        label@.len() == grid.cells(),
        total2(*upwind),
        total1(*bridge),
    ensures
        t@.len() == grid.cells(),
        forall|p: Eikonal| #[trigger]
            poses(p, source@, domain@, label@, *grid, *upwind, *bridge) ==> t@ == p.distances(),
{
    let n: usize = grid.len();
    let mut t: Vec<u32> = Vec::with_capacity(n);
    let mut c: usize = 0;
    while c < n
        invariant
            n == grid.cells(),
            source@.len() == n,
            domain@.len() == n,
            c <= n,
            t@.len() == c,
            forall|b: int|
                0 <= b < c ==> #[trigger] t@[b] == if domain@[b] && source@[b] {
                    0
                } else {
                    INFINITY_BITS
                },
        decreases n - c,
    {
        t.push(
            if domain[c] && source[c] {
                0
            } else {
                INFINITY_BITS
            },
        );
        c += 1;
    }
    proof {
        assert forall|p: Eikonal| #[trigger]
            poses(p, source@, domain@, label@, *grid, *upwind, *bridge) implies t@
            == p.initial() by {
            assert(t@ =~= p.initial());
        }
    }
    settle(&mut t, None, source, domain, label, grid, upwind, bridge);
    let ghost isotropic = t@;
    let mut pinch: Vec<bool> = Vec::with_capacity(n);
    let mut any: bool = false;
    let mut c: usize = 0;
    while c < n
        invariant
            n == grid.cells(),
            t@.len() == n,
            source@.len() == n,
            domain@.len() == n,
            c <= n,
            pinch@.len() == c,
            forall|b: int|
                0 <= b < c ==> #[trigger] pinch@[b] == (t@[b] >= INFINITY_BITS && domain@[b]
                    && !source@[b]),
            !any ==> forall|b: int| 0 <= b < c ==> !#[trigger] pinch@[b],
        decreases n - c,
    {
        let p: bool = t[c] >= INFINITY_BITS && domain[c] && !source[c];
        if p {
            any = true;
        }
        pinch.push(p);
        c += 1;
    }
    proof {
        assert forall|p: Eikonal| #[trigger]
            poses(p, source@, domain@, label@, *grid, *upwind, *bridge) implies pinch@
            == p.pinched(isotropic) && isotropic == p.isotropic() by {
            assert(pinch@ =~= p.pinched(isotropic));
        }
    }
    if any {
        settle(&mut t, Some(&pinch), source, domain, label, grid, upwind, bridge);
    } else {
        proof {
            assert forall|p: Eikonal| #[trigger]
                poses(p, source@, domain@, label@, *grid, *upwind, *bridge) implies t@
                == p.distances() by {
                lemma_nothing_pinched(p, isotropic, pinch@, 4);
                lemma_settled(p, isotropic, Some(pinch@), EIKONAL_PASSES as nat);
            }
        }
    }
    t
}

/// Sweeps that update no cell change nothing.
proof fn lemma_nothing_pinched(p: Eikonal, t: Seq<u32>, pinch: Seq<bool>, o: int)
    requires
        p.grid.wf(),
        pinch.len() == p.grid.cells(),
        forall|c: int| 0 <= c < pinch.len() ==> !#[trigger] pinch[c],
        0 <= o <= 4,
    ensures
        p.sweeps(t, Some(pinch), o) == t,
    decreases o,
{
    if o > 0 {
        lemma_nothing_pinched(p, t, pinch, o - 1);
        lemma_nothing_swept(p, t, pinch, o - 1, p.grid.cells() as int);
    }
}

/// A sweep that updates no cell changes nothing.
proof fn lemma_nothing_swept(p: Eikonal, t: Seq<u32>, pinch: Seq<bool>, o: int, i: int)
    requires
        p.grid.wf(),
        pinch.len() == p.grid.cells(),
        forall|c: int| 0 <= c < pinch.len() ==> !#[trigger] pinch[c],
        0 <= o < 4,
        0 <= i <= p.grid.cells(),
    ensures
        p.swept(t, Some(pinch), o, i) == t,
    decreases i,
{
    if i > 0 {
        lemma_nothing_swept(p, t, pinch, o, i - 1);
        lemma_sweep_cell(p.grid, o, i - 1);
        assert(!pinch[sweep_cell(p.grid, o, i - 1)]);
    }
}

/// A sweep visits cells of the grid.
pub proof fn lemma_sweep_cell(grid: Grid, o: int, i: int)
    requires
        0 <= i < grid.cells(),
    ensures
        0 <= sweep_cell(grid, o, i) < grid.cells(),
{
    crate::grid::lemma_cell(grid, i);
    let x = if o >= 2 {
        grid.width - 1 - grid.col(i)
    } else {
        grid.col(i)
    };
    let y = if o == 1 || o == 3 {
        grid.height - 1 - grid.row(i)
    } else {
        grid.row(i)
    };
    lemma_index(grid, x, y);
}

} // verus!
