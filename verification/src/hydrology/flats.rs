//! Flats: regions of equal elevation, which have no downhill direction of their own.
use crate::grid::{law_neighbors_are_mutual, lemma_neighbor_in_range, Grid, DIRECTIONS};
use crate::hydrology::stack::lemma_distinct_bound;
use vstd::prelude::*;

verus! {

/// The mark of a cell that is part of no flat.
pub const NO_LABEL: usize = usize::MAX;

/// Cell `c` shares its elevation with the neighbour in direction `k`.
pub open spec fn level_with(filled: Seq<i32>, grid: Grid, c: int, k: int) -> bool {
    grid.neighbor(c, k) matches Some(n) && filled[n] == filled[c]
}

/// Cell `c` is part of a flat: it shares its elevation with a neighbour.
pub open spec fn is_flat(filled: Seq<i32>, grid: Grid, c: int) -> bool {
    exists|k: int| 0 <= k < DIRECTIONS && #[trigger] level_with(filled, grid, c, k)
}

/// Cell `c` lies above the neighbour in direction `k`.
pub open spec fn above(filled: Seq<i32>, grid: Grid, c: int, k: int) -> bool {
    grid.neighbor(c, k) matches Some(n) && filled[n] < filled[c]
}

/// Cell `c` already drains: off the grid, or into a strictly lower neighbour.
pub open spec fn is_defined(filled: Seq<i32>, grid: Grid, c: int) -> bool {
    grid.on_boundary(c) || exists|k: int|
        0 <= k < DIRECTIONS && #[trigger] above(filled, grid, c, k)
}

/// Cell `c` lies below the neighbour in direction `k`.
pub open spec fn below(filled: Seq<i32>, grid: Grid, c: int, k: int) -> bool {
    grid.neighbor(c, k) matches Some(n) && filled[n] > filled[c]
}

/// Cell `c` borders strictly higher terrain.
pub open spec fn borders_higher(filled: Seq<i32>, grid: Grid, c: int) -> bool {
    exists|k: int| 0 <= k < DIRECTIONS && #[trigger] below(filled, grid, c, k)
}

/// The classification of the cells against their neighbours.
pub struct Classes {
    pub flat: Vec<bool>,
    pub defined: Vec<bool>,
    pub higher: Vec<bool>,
}

impl Classes {
    /// The classes are those of the terrain.
    pub open spec fn classify(self, filled: Seq<i32>, grid: Grid) -> bool {
        &&& self.flat@.len() == grid.cells()
        &&& self.defined@.len() == grid.cells()
        &&& self.higher@.len() == grid.cells()
        &&& forall|c: int| 0 <= c < grid.cells() ==> #[trigger] self.flat@[c] == is_flat(filled, grid, c)
        &&& forall|c: int|
            0 <= c < grid.cells() ==> #[trigger] self.defined@[c] == is_defined(filled, grid, c)
        &&& forall|c: int|
            0 <= c < grid.cells() ==> #[trigger] self.higher@[c] == borders_higher(filled, grid, c)
    }
}

/// Classifies every cell against its eight neighbours.
pub fn classify(filled: &[i32], grid: &Grid) -> (r: Classes)
    requires
        grid.wf(),
        filled@.len() == grid.cells(),
    ensures
        r.classify(filled@, *grid),
{
    let n: usize = grid.len();
    let mut flat: Vec<bool> = Vec::with_capacity(n);
    let mut defined: Vec<bool> = Vec::with_capacity(n);
    let mut higher: Vec<bool> = Vec::with_capacity(n);
    let mut c: usize = 0;
    while c < n
        invariant
            grid.wf(),
            n == grid.cells(),
            filled@.len() == n,
            c <= n,
            flat@.len() == c,
            defined@.len() == c,
            higher@.len() == c,
            forall|b: int| 0 <= b < c ==> #[trigger] flat@[b] == is_flat(filled@, *grid, b),
            forall|b: int| 0 <= b < c ==> #[trigger] defined@[b] == is_defined(filled@, *grid, b),
            forall|b: int| 0 <= b < c ==> #[trigger] higher@[b] == borders_higher(filled@, *grid, b),
        decreases n - c,
    {
        let e: i32 = filled[c];
        let mut eq: bool = false;
        let edge: bool = grid.is_boundary(c);
        let mut low: bool = edge;
        let mut hi: bool = false;
        let mut k: usize = 0;
        while k < DIRECTIONS
            invariant
                grid.wf(),
                n == grid.cells(),
                filled@.len() == n,
                c < n,
                e == filled@[c as int],
                edge == grid.on_boundary(c as int),
                k <= DIRECTIONS,
                eq == exists|j: int| 0 <= j < k && #[trigger] level_with(filled@, *grid, c as int, j),
                low == (edge || exists|j: int|
                    0 <= j < k && #[trigger] above(filled@, *grid, c as int, j)),
                hi == exists|j: int| 0 <= j < k && #[trigger] below(filled@, *grid, c as int, j),
            decreases DIRECTIONS - k,
        {
            match grid.neighbour(c, k) {
                Some(nc) => {
                    let ne: i32 = filled[nc];
                    if ne == e {
                        assert(level_with(filled@, *grid, c as int, k as int));
                        eq = true;
                    } else if ne < e {
                        assert(above(filled@, *grid, c as int, k as int));
                        low = true;
                    } else {
                        assert(below(filled@, *grid, c as int, k as int));
                        hi = true;
                    }
                },
                None => {},
            }
            k += 1;
        }
        flat.push(eq);
        defined.push(low);
        higher.push(hi);
        c += 1;
    }
    Classes { flat, defined, higher }
}

/// Neighbouring cells at one elevation.
pub open spec fn level_step(filled: Seq<i32>, grid: Grid, a: int, b: int) -> bool {
    grid.adjacent(a, b) && filled[a] == filled[b]
}

/// A way from `a` to `b` over neighbouring cells at one elevation.
pub open spec fn level_way(filled: Seq<i32>, grid: Grid, path: Seq<int>, a: int, b: int) -> bool {
    &&& path.len() > 0
    &&& path[0] == a
    &&& path.last() == b
    &&& forall|i: int| 0 <= i < path.len() ==> 0 <= #[trigger] path[i] < grid.cells()
    &&& forall|i: int|
        0 <= i < path.len() - 1 ==> level_step(filled, grid, path[i], #[trigger] path[i + 1])
}

/// Cells `a` and `b` lie in one flat.
pub open spec fn same_flat(filled: Seq<i32>, grid: Grid, a: int, b: int) -> bool {
    exists|path: Seq<int>| #[trigger] level_way(filled, grid, path, a, b)
}

/// A labelling of the flats: the cells of a flat share a label that no other flat has, cells of no
/// flat have none, and flats are numbered in the order of their first cells.
pub open spec fn labelling(filled: Seq<i32>, grid: Grid, label: Seq<usize>, count: usize) -> bool {
    &&& label.len() == grid.cells()
    &&& forall|c: int|
        0 <= c < grid.cells() ==> if is_flat(filled, grid, c) {
            #[trigger] label[c] < count
        } else {
            label[c] == NO_LABEL
        }
    &&& forall|a: int, b: int|
        0 <= a < grid.cells() && 0 <= b < grid.cells() && is_flat(filled, grid, a) && is_flat(
            filled,
            grid,
            b,
        ) ==> (#[trigger] label[a] == #[trigger] label[b] <==> same_flat(filled, grid, a, b))
    &&& forall|c: int, l: usize|
        0 <= c < grid.cells() && is_flat(filled, grid, c) && l < label[c]
            ==> #[trigger] occurs_below(label, c, l)
    &&& forall|l: usize| l < count ==> #[trigger] occurs_below(label, grid.cells() as int, l)
}

/// Label `l` occurs below cell `c`.
pub open spec fn occurs_below(label: Seq<usize>, c: int, l: usize) -> bool {
    exists|b: int| 0 <= b < c && #[trigger] label[b] == l
}

/// A cell is in its own flat.
proof fn lemma_same_flat_self(filled: Seq<i32>, grid: Grid, a: int)
    requires
        0 <= a < grid.cells(),
    ensures
        same_flat(filled, grid, a, a),
{
    assert(level_way(filled, grid, seq![a], a, a));
}

/// A flat extends to level neighbours.
proof fn lemma_same_flat_step(filled: Seq<i32>, grid: Grid, a: int, b: int, c: int)
    requires
        same_flat(filled, grid, a, b),
        level_step(filled, grid, b, c),
        0 <= c < grid.cells(),
    ensures
        same_flat(filled, grid, a, c),
{
    let p = choose|p: Seq<int>| #[trigger] level_way(filled, grid, p, a, b);
    let q = p.push(c);
    assert forall|i: int| 0 <= i < q.len() - 1 implies level_step(
        filled,
        grid,
        q[i],
        #[trigger] q[i + 1],
    ) by {
        if i < p.len() - 1 {
            assert(level_step(filled, grid, p[i], p[i + 1]));
        }
    }
    assert(level_way(filled, grid, q, a, c));
}

/// Being in one flat works both ways.
proof fn lemma_same_flat_back(filled: Seq<i32>, grid: Grid, a: int, b: int)
    requires
        same_flat(filled, grid, a, b),
    ensures
        same_flat(filled, grid, b, a),
{
    let p = choose|p: Seq<int>| #[trigger] level_way(filled, grid, p, a, b);
    let q = p.reverse();
    assert forall|i: int| 0 <= i < q.len() - 1 implies level_step(
        filled,
        grid,
        q[i],
        #[trigger] q[i + 1],
    ) by {
        let j = p.len() - 2 - i;
        assert(level_step(filled, grid, p[j], p[j + 1]));
        lemma_adjacent_back(grid, p[j], p[j + 1]);
    }
    assert(level_way(filled, grid, q, b, a));
}

/// Adjacency works both ways.
proof fn lemma_adjacent_back(grid: Grid, a: int, b: int)
    requires
        grid.adjacent(a, b),
        0 <= a < grid.cells(),
    ensures
        grid.adjacent(b, a),
{
    let k = choose|k: int| 0 <= k < DIRECTIONS && #[trigger] grid.neighbor(a, k) == Some(b);
    law_neighbors_are_mutual(grid, a, k);
}

/// A cell with a level neighbour is flat, and so is that neighbour.
proof fn lemma_level_step_flat(filled: Seq<i32>, grid: Grid, a: int, b: int)
    requires
        level_step(filled, grid, a, b),
        0 <= a < grid.cells(),
    ensures
        is_flat(filled, grid, a),
        is_flat(filled, grid, b),
        0 <= b < grid.cells(),
{
    let k = choose|k: int| 0 <= k < DIRECTIONS && #[trigger] grid.neighbor(a, k) == Some(b);
    lemma_neighbor_in_range(grid, a, k);
    lemma_adjacent_back(grid, a, b);
    let j = choose|j: int| 0 <= j < DIRECTIONS && #[trigger] grid.neighbor(b, j) == Some(a);
    assert(level_with(filled, grid, a, k));
    assert(level_with(filled, grid, b, j));
}

/// A partial labelling: labels only on flat cells, shared only within a flat, and complete for
/// every flat but the one numbered `open`, whose labelled cells next to unlabelled level cells all
/// wait in `work`.
spec fn partial(
    filled: Seq<i32>,
    grid: Grid,
    label: Seq<usize>,
    count: usize,
    open: usize,
    work: Seq<usize>,
) -> bool {
    &&& label.len() == grid.cells()
    &&& forall|c: int|
        0 <= c < grid.cells() && #[trigger] label[c] != NO_LABEL ==> label[c] < count && is_flat(
            filled,
            grid,
            c,
        )
    &&& forall|a: int, b: int|
        0 <= a < grid.cells() && 0 <= b < grid.cells() && label[a] != NO_LABEL
            && #[trigger] label[a] == #[trigger] label[b] ==> same_flat(filled, grid, a, b)
    &&& forall|a: int, b: int|
        0 <= a < grid.cells() && label[a] != NO_LABEL && #[trigger] level_step(filled, grid, a, b)
            ==> label[b] == label[a] || (label[a] == open && work.contains(a as usize) && label[b]
            == NO_LABEL)
    &&& forall|i: int|
        0 <= i < work.len() ==> #[trigger] work[i] < grid.cells() && label[work[i] as int] == open
}

/// In a labelling without an open flat, labels are constant along level ways.
proof fn lemma_way_keeps_label(
    filled: Seq<i32>,
    grid: Grid,
    label: Seq<usize>,
    count: usize,
    open: usize,
    path: Seq<int>,
    a: int,
    b: int,
)
    requires
        partial(filled, grid, label, count, open, Seq::empty()),
        level_way(filled, grid, path, a, b),
        label[a] != NO_LABEL,
    ensures
        label[b] == label[a],
    decreases path.len(),
{
    if path.len() > 1 {
        let front = path.drop_last();
        let m = front.last();
        assert forall|i: int| 0 <= i < front.len() - 1 implies level_step(
            filled,
            grid,
            front[i],
            #[trigger] front[i + 1],
        ) by {
            assert(level_step(filled, grid, path[i], path[i + 1]));
        }
        assert forall|i: int| 0 <= i < front.len() implies 0 <= #[trigger] front[i]
            < grid.cells() by {
            assert(front[i] == path[i]);
        }
        assert(level_way(filled, grid, front, a, m));
        lemma_way_keeps_label(filled, grid, label, count, open, front, a, m);
        let i = path.len() - 2;
        assert(level_step(filled, grid, path[i], path[i + 1]));
        assert(!Seq::<usize>::empty().contains(m as usize));
    }
}

/// A new flat opens at a flat cell that no label has reached.
proof fn lemma_open_flat(
    filled: Seq<i32>,
    grid: Grid,
    label: Seq<usize>,
    count: usize,
    start: usize,
)
    requires
        grid.wf(),
        partial(filled, grid, label, count, count, Seq::empty()),
        start < grid.cells(),
        is_flat(filled, grid, start as int),
        label[start as int] == NO_LABEL,
        count < NO_LABEL,
    ensures
        partial(
            filled,
            grid,
            label.update(start as int, count),
            (count + 1) as usize,
            count,
            seq![start],
        ),
{
    let next = label.update(start as int, count);
    lemma_same_flat_self(filled, grid, start as int);
    assert(seq![start][0] == start);
    assert forall|a: int, b: int|
        0 <= a < grid.cells() && next[a] != NO_LABEL && #[trigger] level_step(
            filled,
            grid,
            a,
            b,
        ) implies next[b] == next[a] || (next[a] == count && seq![start].contains(a as usize)
        && next[b] == NO_LABEL) by {
        lemma_level_step_flat(filled, grid, a, b);
        lemma_adjacent_back(grid, a, b);
        assert(level_step(filled, grid, b, a));
        assert(!Seq::<usize>::empty().contains(a as usize));
        assert(!Seq::<usize>::empty().contains(b as usize));
        if a == start {
            assert(seq![start].contains(start));
        }
    }
}

/// The open flat takes in a level neighbour of one of its waiting cells.
proof fn lemma_extend_flat(
    filled: Seq<i32>,
    grid: Grid,
    label: Seq<usize>,
    count: usize,
    open: usize,
    work: Seq<usize>,
    more: Seq<usize>,
    c: usize,
    nc: usize,
)
    requires
        grid.wf(),
        partial(filled, grid, label, count, open, work),
        open < count,
        count <= NO_LABEL,
        c < grid.cells(),
        nc < grid.cells(),
        label[c as int] == open,
        label[nc as int] == NO_LABEL,
        level_step(filled, grid, c as int, nc as int),
        forall|x: usize| work.contains(x) ==> #[trigger] more.contains(x),
        forall|i: int|
            0 <= i < more.len() ==> #[trigger] more[i] == nc || work.contains(more[i]),
        more.contains(nc),
    ensures
        partial(filled, grid, label.update(nc as int, open), count, open, more),
{
    let next = label.update(nc as int, open);
    lemma_level_step_flat(filled, grid, c as int, nc as int);
    lemma_same_flat_self(filled, grid, nc as int);
    assert forall|a: int, b: int|
        0 <= a < grid.cells() && 0 <= b < grid.cells() && next[a] != NO_LABEL
            && #[trigger] next[a] == #[trigger] next[b] implies same_flat(filled, grid, a, b) by {
        if a == nc && b != nc {
            assert(label[b] == label[c as int]);
            lemma_same_flat_step(filled, grid, b, c as int, nc as int);
            lemma_same_flat_back(filled, grid, b, nc as int);
        } else if b == nc && a != nc {
            assert(label[a] == label[c as int]);
            lemma_same_flat_step(filled, grid, a, c as int, nc as int);
        } else if a != nc && b != nc {
            assert(label[a] == label[b]);
        }
    }
    assert forall|a: int, b: int|
        0 <= a < grid.cells() && next[a] != NO_LABEL && #[trigger] level_step(
            filled,
            grid,
            a,
            b,
        ) implies next[b] == next[a] || (next[a] == open && more.contains(a as usize) && next[b]
        == NO_LABEL) by {
        lemma_level_step_flat(filled, grid, a, b);
        lemma_adjacent_back(grid, a, b);
        assert(level_step(filled, grid, b, a));
    }
    assert forall|i: int| 0 <= i < more.len() implies #[trigger] more[i] < grid.cells()
        && next[more[i] as int] == open by {
        if more[i] != nc {
            let j = choose|j: int| 0 <= j < work.len() && work[j] == more[i];
            assert(work[j] < grid.cells());
        }
    }
}

/// A cell all of whose level neighbours are labelled stops waiting.
proof fn lemma_close_cell(
    filled: Seq<i32>,
    grid: Grid,
    label: Seq<usize>,
    count: usize,
    open: usize,
    work: Seq<usize>,
    c: usize,
)
    requires
        grid.wf(),
        partial(filled, grid, label, count, open, work.push(c)),
        open < NO_LABEL,
        forall|k: int|
            0 <= k < DIRECTIONS && #[trigger] level_with(filled, grid, c as int, k)
                ==> label[grid.neighbor(c as int, k)->0] == open,
    ensures
        partial(filled, grid, label, count, open, work),
{
    assert(work.push(c)[work.len() as int] == c);
    assert forall|a: int, b: int|
        0 <= a < grid.cells() && label[a] != NO_LABEL && #[trigger] level_step(
            filled,
            grid,
            a,
            b,
        ) implies label[b] == label[a] || (label[a] == open && work.contains(a as usize) && label[b]
        == NO_LABEL) by {
        if a == c {
            let k = choose|k: int| 0 <= k < DIRECTIONS && #[trigger] grid.neighbor(a, k) == Some(b);
            assert(level_with(filled, grid, c as int, k));
        } else if work.push(c).contains(a as usize) {
            let j = choose|j: int| 0 <= j < work.push(c).len() && work.push(c)[j] == a as usize;
            assert(work[j] == a as usize);
        }
    }
    assert forall|i: int| 0 <= i < work.len() implies #[trigger] work[i] < grid.cells()
        && label[work[i] as int] == open by {
        assert(work.push(c)[i] == work[i]);
    }
}

/// The labelled cells, each once.
spec fn labelled(label: Seq<usize>, done: Seq<usize>) -> bool {
    &&& done.no_duplicates()
    &&& forall|i: int| 0 <= i < done.len() ==> #[trigger] done[i] < label.len()
    &&& forall|c: int|
        0 <= c < label.len() ==> (#[trigger] label[c] != NO_LABEL <==> done.contains(c as usize))
}

/// One cell more is labelled.
proof fn lemma_labelled_push(label: Seq<usize>, done: Seq<usize>, c: usize, l: usize)
    requires
        labelled(label, done),
        label.len() <= usize::MAX,
        c < label.len(),
        label[c as int] == NO_LABEL,
        l != NO_LABEL,
    ensures
        labelled(label.update(c as int, l), done.push(c)),
        done.len() < label.len(),
{
    let next = label.update(c as int, l);
    let more = done.push(c);
    assert(!done.contains(c));
    assert forall|i: int, j: int| 0 <= i < j < more.len() implies #[trigger] more[i]
        != #[trigger] more[j] by {
        if j == done.len() {
            assert(done.contains(done[i]));
        }
    }
    assert forall|b: int| 0 <= b < next.len() implies (#[trigger] next[b] != NO_LABEL
        <==> more.contains(b as usize)) by {
        assert(label[b] != NO_LABEL <==> done.contains(b as usize));
        if done.contains(b as usize) {
            let i = choose|i: int| 0 <= i < done.len() && done[i] == b as usize;
            assert(more[i] == b as usize);
        }
        if b == c {
            assert(more[done.len() as int] == c);
        } else if more.contains(b as usize) {
            let i = choose|i: int| 0 <= i < more.len() && more[i] == b as usize;
            assert(done[i] == b as usize);
        }
    }
    lemma_distinct_bound(more, label.len());
}

/// Labels the flats with a deterministic row-major flood fill, and counts them.
pub fn label_flats(filled: &[i32], flat: &Vec<bool>, grid: &Grid) -> (r: (Vec<usize>, usize))
    requires
        grid.wf(),
        filled@.len() == grid.cells(),
        flat@.len() == grid.cells(),
        forall|c: int| 0 <= c < grid.cells() ==> #[trigger] flat@[c] == is_flat(filled@, *grid, c),
    ensures
        labelling(filled@, *grid, r.0@, r.1),
{
    let n: usize = grid.len();
    let mut label: Vec<usize> = vec![NO_LABEL; n];
    let mut count: usize = 0;
    let mut work: Vec<usize> = Vec::new();
    let ghost mut done: Seq<usize> = Seq::empty();
    let mut start: usize = 0;
    assert(work@ =~= Seq::empty());
    while start < n
        invariant
            grid.wf(),
            n == grid.cells(),
            filled@.len() == n,
            flat@.len() == n,
            forall|c: int|
                0 <= c < grid.cells() ==> #[trigger] flat@[c] == is_flat(filled@, *grid, c),
            start <= n,
            count <= start,
            work@ == Seq::<usize>::empty(),
            partial(filled@, *grid, label@, count, count, Seq::empty()),
            forall|c: int|
                0 <= c < start && is_flat(filled@, *grid, c) ==> #[trigger] label@[c] != NO_LABEL,
            forall|l: usize| l < count ==> #[trigger] occurs_below(label@, start as int, l),
            forall|c: int, l: usize|
                0 <= c < n && label@[c] != NO_LABEL && l < label@[c] ==> #[trigger] occurs_below(
                    label@,
                    c,
                    l,
                ),
            labelled(label@, done),
        decreases n - start,
    {
        if flat[start] && label[start] == NO_LABEL {
            let e: i32 = filled[start];
            let lab: usize = count;
            count += 1;
            let ghost before = label@;
            proof {
                lemma_open_flat(filled@, *grid, before, lab, start);
                lemma_labelled_push(before, done, start, lab);
                done = done.push(start);
            }
            label.set(start, lab);
            work.push(start);
            assert(work@ =~= seq![start]);
            while work.len() > 0
                invariant
                    grid.wf(),
                    n == grid.cells(),
                    filled@.len() == n,
                    flat@.len() == n,
                    forall|c: int|
                        0 <= c < grid.cells() ==> #[trigger] flat@[c] == is_flat(
                            filled@,
                            *grid,
                            c,
                        ),
                    start < n,
                    lab < n,
                    count == lab + 1,
                    partial(filled@, *grid, label@, count, lab, work@),
                    label@[start as int] == lab,
                    before.len() == n,
                    forall|c: int|
                        0 <= c < n && before[c] != NO_LABEL ==> #[trigger] label@[c] == before[c],
                    forall|c: int|
                        0 <= c < n && before[c] == NO_LABEL && #[trigger] label@[c] != NO_LABEL
                            ==> label@[c] == lab && c >= start,
                    forall|i: int|
                        0 <= i < work@.len() ==> filled@[#[trigger] work@[i] as int] == e,
                    forall|c: int|
                        0 <= c < start && is_flat(filled@, *grid, c) ==> #[trigger] before[c]
                            != NO_LABEL,
                    labelled(label@, done),
                    done.len() <= n,
                decreases n - done.len() + work.len(),
            {
                let ghost waiting = work@;
                let ghost total: int = n - done.len() + work@.len();
                let c: usize = work.pop().unwrap();
                proof {
                    assert(waiting[waiting.len() - 1] == c);
                    assert(work@.push(c) =~= waiting);
                    assert forall|i: int| 0 <= i < work@.len() implies filled@[#[trigger] work@[i] as int]
                        == e by {
                        assert(waiting[i] == work@[i]);
                    }
                }
                let mut k: usize = 0;
                while k < DIRECTIONS
                    invariant
                        grid.wf(),
                        n == grid.cells(),
                        filled@.len() == n,
                        flat@.len() == n,
                        forall|b: int|
                            0 <= b < grid.cells() ==> #[trigger] flat@[b] == is_flat(
                                filled@,
                                *grid,
                                b,
                            ),
                        start < n,
                        c < n,
                        e == filled@[c as int],
                        lab < n,
                        count == lab + 1,
                        k <= DIRECTIONS,
                        label@[start as int] == lab,
                        label@[c as int] == lab,
                        partial(filled@, *grid, label@, count, lab, work@.push(c)),
                        forall|j: int|
                            0 <= j < k && #[trigger] level_with(filled@, *grid, c as int, j)
                                ==> label@[grid.neighbor(c as int, j)->0] == lab,
                        before.len() == n,
                        forall|b: int|
                            0 <= b < n && before[b] != NO_LABEL ==> #[trigger] label@[b]
                                == before[b],
                        forall|b: int|
                            0 <= b < n && before[b] == NO_LABEL && #[trigger] label@[b] != NO_LABEL
                                ==> label@[b] == lab && b >= start,
                        forall|i: int|
                            0 <= i < work@.len() ==> filled@[#[trigger] work@[i] as int] == e,
                        forall|b: int|
                            0 <= b < start && is_flat(filled@, *grid, b) ==> #[trigger] before[b]
                                != NO_LABEL,
                        labelled(label@, done),
                        done.len() <= n,
                        n - done.len() + work@.len() == total - 1,
                    decreases DIRECTIONS - k,
                {
                    match grid.neighbour(c, k) {
                        Some(nc) => {
                            proof {
                                if filled@[nc as int] == e {
                                    assert(grid.adjacent(c as int, nc as int));
                                    assert(level_step(filled@, *grid, c as int, nc as int));
                                    lemma_level_step_flat(filled@, *grid, c as int, nc as int);
                                    assert(work@.push(c)[work@.len() as int] == c);
                                }
                            }
                            if flat[nc] && label[nc] == NO_LABEL && filled[nc] == e {
                                let ghost held = work@;
                                let ghost labels = label@;
                                proof {
                                    lemma_labelled_push(labels, done, nc, lab);
                                    done = done.push(nc);
                                }
                                label.set(nc, lab);
                                work.push(nc);
                                proof {
                                    let more = work@.push(c);
                                    assert forall|x: usize| held.push(c).contains(
                                        x,
                                    ) implies #[trigger] more.contains(x) by {
                                        let j = choose|j: int|
                                            0 <= j < held.push(c).len() && held.push(c)[j] == x;
                                        if j < held.len() {
                                            assert(more[j] == x);
                                        } else {
                                            assert(more[held.len() as int + 1] == x);
                                        }
                                    }
                                    assert(more[held.len() as int] == nc);
                                    assert forall|i: int| 0 <= i < more.len() implies #[trigger] more[i]
                                        == nc || held.push(c).contains(more[i]) by {
                                        if i < held.len() {
                                            assert(held.push(c)[i] == more[i]);
                                        } else if i > held.len() {
                                            assert(held.push(c)[held.len() as int] == more[i]);
                                        }
                                    }
                                    lemma_extend_flat(
                                        filled@,
                                        *grid,
                                        labels,
                                        count,
                                        lab,
                                        held.push(c),
                                        more,
                                        c,
                                        nc,
                                    );
                                    if nc < start {
                                        assert(before[nc as int] != NO_LABEL);
                                    }
                                }
                            }
                        },
                        None => {},
                    }
                    proof {
                        assert forall|j: int|
                            0 <= j < k + 1 && #[trigger] level_with(
                                filled@,
                                *grid,
                                c as int,
                                j,
                            ) implies label@[grid.neighbor(c as int, j)->0] == lab by {
                            lemma_neighbor_in_range(*grid, c as int, j);
                            let nb = grid.neighbor(c as int, j)->0;
                            assert(grid.adjacent(c as int, nb));
                            assert(level_step(filled@, *grid, c as int, nb));
                            lemma_level_step_flat(filled@, *grid, c as int, nb);
                        }
                    }
                    k += 1;
                }
                proof {
                    lemma_close_cell(filled@, *grid, label@, count, lab, work@, c);
                }
            }
            proof {
                assert(work@ =~= Seq::empty());
                lemma_numbering(before, label@, start as int, lab);
                assert(partial(filled@, *grid, label@, count, count, Seq::empty()));
            }
        } else {
            proof {
                assert forall|l: usize| l < count implies #[trigger] occurs_below(
                    label@,
                    start + 1,
                    l,
                ) by {
                    assert(occurs_below(label@, start as int, l));
                }
            }
        }
        start += 1;
    }
    proof {
        assert forall|a: int, b: int|
            0 <= a < grid.cells() && 0 <= b < grid.cells() && is_flat(filled@, *grid, a)
                && is_flat(filled@, *grid, b) implies (#[trigger] label@[a] == #[trigger] label@[b]
            <==> same_flat(filled@, *grid, a, b)) by {
            if same_flat(filled@, *grid, a, b) {
                let path = choose|path: Seq<int>| #[trigger]
                    level_way(filled@, *grid, path, a, b);
                lemma_way_keeps_label(filled@, *grid, label@, count, count, path, a, b);
            }
        }
    }
    (label, count)
}

/// The numbers of the flats after one more flat, opened at `start`, is complete.
proof fn lemma_numbering(before: Seq<usize>, label: Seq<usize>, start: int, lab: usize)
    requires
        0 <= start < label.len(),
        before.len() == label.len(),
        lab < NO_LABEL,
        label[start] == lab,
        forall|c: int|
            0 <= c < label.len() && before[c] != NO_LABEL ==> #[trigger] label[c] == before[c],
        forall|c: int|
            0 <= c < label.len() && before[c] == NO_LABEL && #[trigger] label[c] != NO_LABEL
                ==> label[c] == lab && c >= start,
        forall|l: usize| l < lab ==> #[trigger] occurs_below(before, start, l),
        forall|c: int, l: usize|
            0 <= c < label.len() && before[c] != NO_LABEL && l < before[c]
                ==> #[trigger] occurs_below(before, c, l),
        forall|c: int| 0 <= c < label.len() && #[trigger] before[c] != NO_LABEL ==> before[c] < lab,
    ensures
        forall|l: usize| l <= lab ==> #[trigger] occurs_below(label, start + 1, l),
        forall|c: int, l: usize|
            0 <= c < label.len() && label[c] != NO_LABEL && l < label[c] ==> #[trigger] occurs_below(
                label,
                c,
                l,
            ),
{
    assert forall|l: usize| l <= lab implies #[trigger] occurs_below(label, start + 1, l) by {
        if l == lab {
            assert(label[start] == l);
        } else {
            assert(occurs_below(before, start, l));
            let b = choose|b: int| 0 <= b < start && #[trigger] before[b] == l;
            assert(label[b] == l);
        }
    }
    assert forall|c: int, l: usize|
        0 <= c < label.len() && label[c] != NO_LABEL && l < label[c] implies #[trigger] occurs_below(
        label,
        c,
        l,
    ) by {
        if before[c] != NO_LABEL {
            assert(occurs_below(before, c, l));
            let b = choose|b: int| 0 <= b < c && #[trigger] before[b] == l;
            assert(label[b] == l);
        } else {
            assert(occurs_below(before, start, l));
            let b = choose|b: int| 0 <= b < start && #[trigger] before[b] == l;
            assert(label[b] == l);
        }
    }
}

} // verus!
