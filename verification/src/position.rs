//! Board coordinates and the in-bounds predicate.

use vstd::prelude::*;

verus! {

/// Side length of the (square) board.
pub const BOARD_DIMENSION: usize = 8;

/// Number of cells of the board.
pub const BOARD_CELLS: usize = 64;

/// Whether (r, c) is a cell of the board.
pub open spec fn in_bounds(r: int, c: int) -> bool {
    0 <= r < BOARD_DIMENSION && 0 <= c < BOARD_DIMENSION
}

/// Index of the cell (r, c) in the flattened board.
pub open spec fn idx(r: int, c: int) -> int {
    r * BOARD_DIMENSION + c
}

/// A (row, column) coordinate, zero-based.
#[derive(Clone, Copy, PartialEq, Eq, Structural, Debug)]
pub struct Position {
    pub m_row: i8,
    pub m_col: i8,
}

impl Position {
    pub fn new(row: i8, col: i8) -> (p: Position)
        ensures
            p.m_row == row,
            p.m_col == col,
    {
        Position { m_row: row, m_col: col }
    }

    /// The coordinate as spec-level integers.
    pub open spec fn spec_row(&self) -> int {
        self.m_row as int
    }

    pub open spec fn spec_col(&self) -> int {
        self.m_col as int
    }

    /// Whether the coordinate names a cell of the board.
    pub open spec fn spec_in_bound(&self) -> bool {
        in_bounds(self.spec_row(), self.spec_col())
    }

    pub fn is_in_bound(&self) -> (r: bool)
        ensures
            r == self.spec_in_bound(),
    {
        self.m_row >= 0 && self.m_row < BOARD_DIMENSION as i8 && self.m_col >= 0 && self.m_col
            < BOARD_DIMENSION as i8
    }

    pub fn out_of_bounds(&self) -> (r: bool)
        ensures
            r == !self.spec_in_bound(),
    {
        false == self.is_in_bound()
    }
}

} // verus!
