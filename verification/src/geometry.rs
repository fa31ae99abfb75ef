use vstd::prelude::*;

verus! {

/// One of the four directions a winning chain can run along, in the fixed
/// order the victory scan visits them.
#[derive(Debug, Clone, Copy, PartialEq, Eq, Hash, Structural)]
pub enum Direction {
    Horizontal,
    Vertical,
    DiagonalDownRight,
    DiagonalUpRight,
}

impl Direction {
    /// Position of this direction in the fixed scan order.
    pub open spec fn rank(self) -> int {
        match self {
            Direction::Horizontal => 0,
            Direction::Vertical => 1,
            Direction::DiagonalDownRight => 2,
            Direction::DiagonalUpRight => 3,
        }
    }
}

/// Row of the `i`-th cell of a chain that starts in row `r` and steps along `d`.
pub open spec fn chain_row(r: int, d: Direction, i: int) -> int {
    match d {
        Direction::Horizontal => r,
        Direction::Vertical => r + i,
        Direction::DiagonalDownRight => r + i,
        Direction::DiagonalUpRight => r + i,
    }
}

/// Column of the `i`-th cell of a chain that starts in column `c` and steps along `d`.
pub open spec fn chain_col(c: int, d: Direction, i: int) -> int {
    match d {
        Direction::Horizontal => c + i,
        Direction::Vertical => c,
        Direction::DiagonalDownRight => c + i,
        Direction::DiagonalUpRight => c - i,
    }
}

/// Whether a chain of `chain_size` cells starting at `(r, c)` along `d` ends
/// inside a `board_size` × `board_size` grid.
pub open spec fn chain_fits(board_size: int, chain_size: int, r: int, c: int, d: Direction) -> bool {
    &&& 0 <= chain_row(r, d, chain_size - 1) < board_size
    &&& 0 <= chain_col(c, d, chain_size - 1) < board_size
}

/// Row-major index of the cell `(r, c)` on a board of side `board_size`.
pub open spec fn row_major(board_size: int, r: int, c: int) -> int {
    r * board_size + c
}

/// A cell inside the grid has its row-major index inside the grid's area.
pub proof fn lemma_row_major_bound(board_size: int, r: int, c: int)
    requires
        0 <= r < board_size,
        0 <= c < board_size,
    ensures
        0 <= row_major(board_size, r, c) < board_size * board_size,
{
    assert(0 <= r * board_size + c < board_size * board_size) by (nonlinear_arith)
        requires
            0 <= r < board_size,
            0 <= c < board_size,
    ;
}

/// Distinct cells inside the grid have distinct row-major indices.
pub proof fn lemma_row_major_injective(board_size: int, r1: int, c1: int, r2: int, c2: int)
    requires
        0 <= r1,
        0 <= c1 < board_size,
        0 <= r2,
        0 <= c2 < board_size,
        row_major(board_size, r1, c1) == row_major(board_size, r2, c2),
    ensures
        r1 == r2,
        c1 == c2,
{
    assert(r1 == r2 && c1 == c2) by (nonlinear_arith)
        requires
            0 <= r1,
            0 <= c1 < board_size,
            0 <= r2,
            0 <= c2 < board_size,
            r1 * board_size + c1 == r2 * board_size + c2,
    ;
}

/// Row-major indices order cells exactly as the row-then-column order does.
pub proof fn lemma_row_major_order(board_size: int, r1: int, c1: int, r2: int, c2: int)
    requires
        0 <= r1,
        0 <= c1 < board_size,
        0 <= r2,
        0 <= c2 < board_size,
        r1 < r2 || (r1 == r2 && c1 < c2),
    ensures
        row_major(board_size, r1, c1) < row_major(board_size, r2, c2),
{
    assert(r1 * board_size + c1 < r2 * board_size + c2) by (nonlinear_arith)
        requires
            0 <= r1,
            0 <= c1 < board_size,
            0 <= r2,
            0 <= c2 < board_size,
            r1 < r2 || (r1 == r2 && c1 < c2),
    ;
}

/// On a non-empty board the sum of two coordinates stays below the grid's area.
pub proof fn lemma_grid_bounds(board_size: int)
    requires
        1 <= board_size,
    ensures
        2 * board_size - 1 <= board_size * board_size,
{
    assert(2 * board_size - 1 <= board_size * board_size) by (nonlinear_arith)
        requires
            1 <= board_size,
    ;
}

} // verus!
