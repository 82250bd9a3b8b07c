//! What the eight directions of a grid are.
use crate::grid::{is_diagonal, lemma_cell, lemma_index, opposite, step_x, step_y, Grid, DIRECTIONS};
use vstd::prelude::*;

verus! {

/// The neighbours of a cell are the cells at most one column and at most one row away, but for the
/// cell itself: every direction leads to such a cell or off the grid, and every such cell lies in
/// exactly one direction, a diagonal one where it is a column and a row away.
pub proof fn law_neighbors_are_the_cells_around(g: Grid, c: int, x: int, y: int)
    requires
        0 <= c < g.cells(),
        0 <= x < g.width,
        0 <= y < g.height,
        -1 <= x - c % (g.width as int) <= 1,
        -1 <= y - c / (g.width as int) <= 1,
        y * g.width + x != c,
    ensures
        exists|k: int|
            {
                &&& 0 <= k < DIRECTIONS
                &&& #[trigger] g.neighbor(c, k) == Some(y * g.width + x)
                &&& is_diagonal(k) <==> x != c % (g.width as int) && y != c / (g.width as int)
            },
        forall|j: int, k: int|
            0 <= j < DIRECTIONS && 0 <= k < DIRECTIONS && #[trigger] g.neighbor(c, j) == Some(
                y * g.width + x,
            ) && #[trigger] g.neighbor(c, k) == Some(y * g.width + x) ==> j == k,
{
    lemma_cell(g, c);
    lemma_index(g, x, y);
    let (dx, dy) = (x - g.col(c), y - g.row(c));
    let k: int = if dy == 0 {
        if dx < 0 {
            0
        } else {
            1
        }
    } else if dx == 0 {
        if dy < 0 {
            2
        } else {
            3
        }
    } else if dy < 0 {
        if dx < 0 {
            4
        } else {
            5
        }
    } else if dx < 0 {
        6
    } else {
        7
    };
    assert(dx != 0 || dy != 0);
    assert(step_x(k) == dx && step_y(k) == dy);
    assert(g.neighbor(c, k) == Some(y * g.width + x));
    assert forall|j: int|
        0 <= j < DIRECTIONS && #[trigger] g.neighbor(c, j) == Some(y * g.width + x) implies j == k by {
        let (u, v) = (g.col(c) + step_x(j), g.row(c) + step_y(j));
        lemma_index(g, u, v);
        assert(u == x && v == y);
    }
}

/// Every direction that stays on the grid leads to a cell that is at most one column and one row
/// away and is not the cell itself; one that does not leads past an edge the cell lies at.
pub proof fn law_directions_lead_one_cell_on(g: Grid, c: int, k: int)
    requires
        0 <= c < g.cells(),
        0 <= k < DIRECTIONS,
    ensures
        match g.neighbor(c, k) {
            Some(n) => {
                &&& 0 <= n < g.cells()
                &&& n != c
                &&& -1 <= n % (g.width as int) - c % (g.width as int) <= 1
                &&& -1 <= n / (g.width as int) - c / (g.width as int) <= 1
            },
            None => {
                let (x, y) = (c % (g.width as int), c / (g.width as int));
                x == 0 || y == 0 || x == g.width - 1 || y == g.height - 1
            },
        },
{
    lemma_cell(g, c);
    if g.neighbor(c, k) is Some {
        lemma_index(g, g.col(c) + step_x(k), g.row(c) + step_y(k));
    }
}

/// The first four directions lead left, right, up and down.
pub proof fn law_axis_directions(g: Grid, c: int)
    requires
        0 <= c < g.cells(),
    ensures
        g.neighbor(c, 0) == if c % (g.width as int) > 0 {
            Some(c - 1)
        } else {
            None
        },
        g.neighbor(c, 1) == if c % (g.width as int) + 1 < g.width {
            Some(c + 1)
        } else {
            None
        },
        g.neighbor(c, 2) == if c / (g.width as int) > 0 {
            Some(c - g.width)
        } else {
            None
        },
        g.neighbor(c, 3) == if c / (g.width as int) + 1 < g.height {
            Some(c + g.width)
        } else {
            None
        },
        opposite(0) == 1,
        opposite(1) == 0,
        opposite(2) == 3,
        opposite(3) == 2,
{
    lemma_cell(g, c);
    let (y, w) = (g.row(c), g.width as int);
    assert((y + 1) * w == y * w + w) by (nonlinear_arith);
    assert((y - 1) * w == y * w - w) by (nonlinear_arith);
    assert((y + 0) * w == y * w);
}

} // verus!
