//! The cell grid and its eight-neighbourhood.
use vstd::arithmetic::div_mod::{lemma_fundamental_div_mod, lemma_fundamental_div_mod_converse};
use vstd::prelude::*;

verus! {

/// The grid dimensions, in cells. Cell `(x, y)` has the row-major index `y * width + x`.
#[derive(Clone, Copy, Debug, PartialEq, Eq, Structural)]
pub struct Grid {
    pub width: usize,
    pub height: usize,
}

/// The number of neighbour directions.
pub const DIRECTIONS: usize = 8;

/// The column offset of direction `k`: the four axis steps first, then the four diagonals.
pub open spec fn step_x(k: int) -> int {
    if k == 0 || k == 4 || k == 6 {
        -1
    } else if k == 1 || k == 5 || k == 7 {
        1
    } else {
        0
    }
}

/// The row offset of direction `k`.
pub open spec fn step_y(k: int) -> int {
    if k == 2 || k == 4 || k == 5 {
        -1
    } else if k == 3 || k == 6 || k == 7 {
        1
    } else {
        0
    }
}

/// Whether direction `k` is a diagonal.
pub open spec fn is_diagonal(k: int) -> bool {
    k >= 4
}

/// The direction that undoes direction `k`.
pub open spec fn opposite(k: int) -> int {
    if k == 0 {
        1
    } else if k == 1 {
        0
    } else if k == 2 {
        3
    } else if k == 3 {
        2
    } else {
        11 - k
    }
}

impl Grid {
    /// The number of cells.
    pub open spec fn cells(self) -> nat {
        (self.width * self.height) as nat
    }

    /// The cells can be indexed.
    pub open spec fn wf(self) -> bool {
        self.width * self.height <= usize::MAX
    }

    /// The column of a cell.
    pub open spec fn col(self, c: int) -> int {
        c % (self.width as int)
    }

    /// The row of a cell.
    pub open spec fn row(self, c: int) -> int {
        c / (self.width as int)
    }

    /// Whether `(x, y)` lies on the grid.
    pub open spec fn holds(self, x: int, y: int) -> bool {
        0 <= x < self.width && 0 <= y < self.height
    }

    /// The index of the cell at `(x, y)`.
    pub open spec fn index(self, x: int, y: int) -> int {
        y * self.width + x
    }

    /// The neighbour of cell `c` in direction `k`, or nothing past the edge.
    pub open spec fn neighbor(self, c: int, k: int) -> Option<int> {
        let x = self.col(c) + step_x(k);
        let y = self.row(c) + step_y(k);
        if self.holds(x, y) {
            Some(self.index(x, y))
        } else {
            None
        }
    }

    /// Whether cell `c` lies on the outermost ring.
    pub open spec fn on_boundary(self, c: int) -> bool {
        let (x, y) = (self.col(c), self.row(c));
        x == 0 || y == 0 || x == self.width - 1 || y == self.height - 1
    }

    /// Whether `a` and `b` are neighbouring cells.
    pub open spec fn adjacent(self, a: int, b: int) -> bool {
        exists|k: int| 0 <= k < DIRECTIONS && #[trigger] self.neighbor(a, k) == Some(b)
    }

    /// The number of cells.
    pub fn len(&self) -> (n: usize)
        requires
            self.wf(),
        ensures
            n == self.cells(),
    {
        self.width * self.height
    }

    /// The neighbour of cell `c` in direction `k`, or `None` past the edge.
    pub fn neighbour(&self, c: usize, k: usize) -> (r: Option<usize>)
        requires
            self.wf(),
            c < self.cells(),
            k < DIRECTIONS,
        ensures
            match r {
                Some(n) => self.neighbor(c as int, k as int) == Some(n as int) && n < self.cells(),
                None => self.neighbor(c as int, k as int) is None,
            },
    {
        proof {
            lemma_cell(*self, c as int);
        }
        let x: usize = c % self.width;
        let y: usize = c / self.width;
        let left: bool = k == 0 || k == 4 || k == 6;
        let right: bool = k == 1 || k == 5 || k == 7;
        let up: bool = k == 2 || k == 4 || k == 5;
        let down: bool = k == 3 || k == 6 || k == 7;
        if (left && x == 0) || (right && x + 1 == self.width) || (up && y == 0) || (down && y + 1
            == self.height) {
            return None;
        }
        let nx: usize = if left {
            x - 1
        } else if right {
            x + 1
        } else {
            x
        };
        let ny: usize = if up {
            y - 1
        } else if down {
            y + 1
        } else {
            y
        };
        proof {
            lemma_index(*self, nx as int, ny as int);
        }
        Some(ny * self.width + nx)
    }

    /// Whether cell `c` lies on the outermost ring.
    pub fn is_boundary(&self, c: usize) -> (r: bool)
        requires
            self.wf(),
            c < self.cells(),
        ensures
            r == self.on_boundary(c as int),
    {
        proof {
            lemma_cell(*self, c as int);
        }
        let x: usize = c % self.width;
        let y: usize = c / self.width;
        x == 0 || y == 0 || x == self.width - 1 || y == self.height - 1
    }
}

/// A cell's column and row lie on the grid and give back its index.
pub proof fn lemma_cell(g: Grid, c: int)
    requires
        0 <= c < g.cells(),
    ensures
        g.width > 0,
        g.holds(g.col(c), g.row(c)),
        g.index(g.col(c), g.row(c)) == c,
{
    let w = g.width as int;
    let h = g.height as int;
    assert(w > 0 && h > 0) by (nonlinear_arith)
        requires
            0 <= c < w * h,
            w >= 0,
            h >= 0,
    ;
    lemma_fundamental_div_mod(c, w);
    let x = c % w;
    let y = c / w;
    assert(0 <= y < h) by (nonlinear_arith)
        requires
            0 <= c < w * h,
            w > 0,
            c == w * y + x,
            0 <= x < w,
    ;
    assert(w * y == y * w) by (nonlinear_arith);
}

/// Coordinates on the grid have an index whose column and row they are.
pub proof fn lemma_index(g: Grid, x: int, y: int)
    requires
        g.holds(x, y),
    ensures
        0 <= g.index(x, y) < g.cells(),
        0 <= y * g.width <= g.index(x, y),
        g.col(g.index(x, y)) == x,
        g.row(g.index(x, y)) == y,
{
    let w = g.width as int;
    let h = g.height as int;
    assert(0 <= y * w && y * w + x < w * h) by (nonlinear_arith)
        requires
            0 <= x < w,
            0 <= y < h,
    ;
    lemma_fundamental_div_mod_converse(y * w + x, w, y, x);
}

/// A neighbour is a cell.
pub proof fn lemma_neighbor_in_range(g: Grid, c: int, k: int)
    requires
        0 <= c < g.cells(),
        g.neighbor(c, k) is Some,
    ensures
        0 <= g.neighbor(c, k)->0 < g.cells(),
{
    lemma_index(g, g.col(c) + step_x(k), g.row(c) + step_y(k));
}

/// Neighbourhood is mutual: stepping in a direction and back returns to the cell.
pub proof fn law_neighbors_are_mutual(g: Grid, c: int, k: int)
    requires
        0 <= c < g.cells(),
        0 <= k < DIRECTIONS,
        g.neighbor(c, k) is Some,
    ensures
        g.neighbor(g.neighbor(c, k)->0, opposite(k)) == Some(c),
        g.neighbor(c, k)->0 != c,
        g.adjacent(c, g.neighbor(c, k)->0),
        g.adjacent(g.neighbor(c, k)->0, c),
{
    lemma_cell(g, c);
    let x = g.col(c) + step_x(k);
    let y = g.row(c) + step_y(k);
    lemma_index(g, x, y);
    let n = g.neighbor(c, k)->0;
    assert(g.neighbor(n, opposite(k)) == Some(c));
    assert(0 <= opposite(k) < DIRECTIONS);
}

/// Only the outermost ring has fewer than eight neighbours.
pub proof fn law_interior_has_all_neighbors(g: Grid, c: int)
    requires
        0 <= c < g.cells(),
    ensures
        !g.on_boundary(c) <==> forall|k: int|
            0 <= k < DIRECTIONS ==> #[trigger] g.neighbor(c, k) is Some,
{
    lemma_cell(g, c);
    assert(step_x(0) == -1 && step_y(0) == 0);
    assert(step_x(1) == 1 && step_y(1) == 0);
    assert(step_x(2) == 0 && step_y(2) == -1);
    assert(step_x(3) == 0 && step_y(3) == 1);
    if g.on_boundary(c) {
        assert(g.neighbor(c, 0) is None || g.neighbor(c, 1) is None || g.neighbor(c, 2) is None
            || g.neighbor(c, 3) is None);
    }
}

} // verus!
