//! The board: a fixed 8x8 grid of cells, with directional capture checks,
//! move application with piece-flipping, and legal-move scanning.

use vstd::prelude::*;
use crate::cell::{Cell, color_pair};
use crate::counting::{count, lemma_count_prefix_step};
use crate::position::{BOARD_DIMENSION, BOARD_CELLS, Position, in_bounds, idx};
use crate::capture::{
    valid_delta, walk_measure, run_stop, is_capturing, flip_walk, delta, apply_dirs, apply_move,
    is_available, lemma_delta_valid, lemma_flip_walk_capturing, lemma_apply_dirs,
};
use crate::cache::BoardLUT;

verus! {

/// The canonical starting position: the four centre cells occupied in two
/// diagonal pairs, all other cells empty.
pub open spec fn start_board() -> Seq<Cell> {
    Seq::new(
        64,
        |i: int|
            if i == idx(3, 3) || i == idx(4, 4) {
                Cell::White
            } else if i == idx(3, 4) || i == idx(4, 3) {
                Cell::Black
            } else {
                Cell::Empty
            },
    )
}

/// Counts over a prefix of the starting position.
proof fn lemma_start_board_prefix(n: int)
    requires
        0 <= n <= 64,
    ensures
        count(start_board().subrange(0, n), Cell::White) == (if n > 27 {
            1nat
        } else {
            0nat
        }) + (if n > 36 {
            1nat
        } else {
            0nat
        }),
        count(start_board().subrange(0, n), Cell::Black) == (if n > 28 {
            1nat
        } else {
            0nat
        }) + (if n > 35 {
            1nat
        } else {
            0nat
        }),
        count(start_board().subrange(0, n), Cell::Empty) + count(
            start_board().subrange(0, n),
            Cell::White,
        ) + count(start_board().subrange(0, n), Cell::Black) == n,
    decreases n,
{
    if n > 0 {
        lemma_start_board_prefix(n - 1);
        lemma_count_prefix_step(start_board(), n - 1, Cell::White);
        lemma_count_prefix_step(start_board(), n - 1, Cell::Black);
        lemma_count_prefix_step(start_board(), n - 1, Cell::Empty);
    } else {
        assert(start_board().subrange(0, 0).len() == 0);
    }
}

/// The starting position holds exactly two white and two black pieces —
/// four occupied cells in all — and sixty empty cells.
pub proof fn lemma_start_board_counts()
    ensures
        count(start_board(), Cell::White) == 2,
        count(start_board(), Cell::Black) == 2,
        count(start_board(), Cell::Empty) == 60,
{
    lemma_start_board_prefix(64);
    assert(start_board().subrange(0, 64) =~= start_board());
}

/// The board, stored row-major in a flat vector of 64 cells.
pub struct GameBoard {
    pub m_board: Vec<Cell>,
}

impl View for GameBoard {
    type V = Seq<Cell>;

    open spec fn view(&self) -> Seq<Cell> {
        self.m_board@
    }
}

impl GameBoard {
    /// The board holds exactly one cell per coordinate.
    pub open spec fn wf(&self) -> bool {
        self@.len() == 64
    }

    /// A board in the canonical starting position.
    pub fn new() -> (b: GameBoard)
        ensures
            b.wf(),
            b@ == start_board(),
    {
        let mut cells: Vec<Cell> = Vec::new();
        let mut i: usize = 0;
        while i < BOARD_CELLS
            invariant
                i <= 64,
                cells@.len() == i,
                forall|j: int| 0 <= j < i ==> cells@[j] == Cell::Empty,
            decreases 64 - i,
        {
            cells.push(Cell::Empty);
            i = i + 1;
        }
        let mut board = GameBoard { m_board: cells };
        board.m_board[27] = Cell::White;
        board.m_board[36] = Cell::White;
        board.m_board[28] = Cell::Black;
        board.m_board[35] = Cell::Black;
        proof {
            assert(board@ =~= start_board());
        }
        board
    }

    /// The cell at an in-bounds coordinate.
    pub fn at(&self, position: &Position) -> (c: Cell)
        requires
            self.wf(),
            position.spec_in_bound(),
        ensures
            c == self@[idx(position.spec_row(), position.spec_col())],
    {
        let row = position.m_row as usize;
        let col = position.m_col as usize;
        self.m_board[row * BOARD_DIMENSION + col]
    }

    /// Overwrite the cell at an in-bounds coordinate.
    pub fn set_cell(&mut self, position: &Position, cell: Cell)
        requires
            old(self).wf(),
            position.spec_in_bound(),
        ensures
            final(self).wf(),
            final(self)@ == old(self)@.update(idx(position.spec_row(), position.spec_col()), cell),
    {
        let row = position.m_row as usize;
        let col = position.m_col as usize;
        self.m_board[row * BOARD_DIMENSION + col] = cell;
    }

    /// How many cells hold the given state.
    pub fn count_cells(&self, cell: Cell) -> (n: usize)
        requires
            self.wf(),
        ensures
            n == count(self@, cell),
    {
        let mut n: usize = 0;
        let mut i: usize = 0;
        while i < BOARD_CELLS
            invariant
                self.wf(),
                i <= 64,
                n == count(self@.subrange(0, i as int), cell),
                n <= i,
            decreases 64 - i,
        {
            proof {
                lemma_count_prefix_step(self@, i as int, cell);
            }
            if self.m_board[i] == cell {
                n = n + 1;
            }
            i = i + 1;
        }
        proof {
            assert(self@.subrange(0, 64) =~= self@);
        }
        n
    }

    /// Whether walking from `curr_pos` in the given direction first crosses
    /// a non-empty run of opponent pieces and then reaches a cell of one's
    /// own colour, with no empty cell and no board edge in between.
    pub fn is_valid_direction(
        &self,
        curr_pos: &Position,
        row_delta: i8,
        col_delta: i8,
        color_self: Cell,
        color_opponent: Cell,
    ) -> (r: bool)
        requires
            self.wf(),
            curr_pos.spec_in_bound(),
            valid_delta(row_delta as int, col_delta as int),
            color_pair(color_self, color_opponent),
        ensures
            r == is_capturing(
                self@,
                curr_pos.spec_row(),
                curr_pos.spec_col(),
                row_delta as int,
                col_delta as int,
                color_self,
                color_opponent,
            ),
    {
        let first = Position::new(curr_pos.m_row + row_delta, curr_pos.m_col + col_delta);
        if first.out_of_bounds() || color_opponent != self.at(&first) {
            return false;
        }
        let mut next_pos = Position::new(first.m_row + row_delta, first.m_col + col_delta);
        loop
            invariant
                self.wf(),
                valid_delta(row_delta as int, col_delta as int),
                color_pair(color_self, color_opponent),
                -1 <= next_pos.m_row as int <= 8,
                -1 <= next_pos.m_col as int <= 8,
                is_capturing(
                    self@,
                    curr_pos.spec_row(),
                    curr_pos.spec_col(),
                    row_delta as int,
                    col_delta as int,
                    color_self,
                    color_opponent,
                ) == ({
                    let stop = run_stop(
                        self@,
                        next_pos.spec_row(),
                        next_pos.spec_col(),
                        row_delta as int,
                        col_delta as int,
                        color_opponent,
                    );
                    in_bounds(stop.0, stop.1) && self@[idx(stop.0, stop.1)] == color_self
                }),
            decreases walk_measure(
                next_pos.spec_row(),
                next_pos.spec_col(),
                row_delta as int,
                col_delta as int,
            ),
        {
            if next_pos.out_of_bounds() {
                return false;
            }
            let curr_piece = self.at(&next_pos);
            if color_self == curr_piece {
                return true;
            }
            if curr_piece == Cell::Empty {
                return false;
            }
            next_pos.m_row = next_pos.m_row + row_delta;
            next_pos.m_col = next_pos.m_col + col_delta;
        }
    }

    /// Whether `pos` is a legal destination for the given colours: an empty
    /// cell with at least one capturing direction.
    pub fn is_available_move(
        &self,
        pos: &Position,
        color_self: Cell,
        color_opponent: Cell,
    ) -> (r: bool)
        requires
            self.wf(),
            pos.spec_in_bound(),
            color_pair(color_self, color_opponent),
        ensures
            r == is_available(self@, pos.spec_row(), pos.spec_col(), color_self, color_opponent),
    {
        if self.at(pos) != Cell::Empty {
            return false;
        }
        let mut i: usize = 0;
        while i < 8
            invariant
                self.wf(),
                pos.spec_in_bound(),
                color_pair(color_self, color_opponent),
                self@[idx(pos.spec_row(), pos.spec_col())] == Cell::Empty,
                i <= 8,
                forall|j: int|
                    0 <= j < i ==> !is_capturing(
                        self@,
                        pos.spec_row(),
                        pos.spec_col(),
                        delta(j).0,
                        delta(j).1,
                        color_self,
                        color_opponent,
                    ),
            decreases 8 - i,
        {
            let (row_delta, col_delta) = delta_of(i);
            proof {
                lemma_delta_valid(i as int);
            }
            if self.is_valid_direction(pos, row_delta, col_delta, color_self, color_opponent) {
                return true;
            }
            i = i + 1;
        }
        false
    }

    /// Play a piece of colour `color_self` at `pos`: recolour every
    /// capturing run next to `pos`, occupy `pos` itself, and return how many
    /// opponent pieces were flipped. The caller must already have verified
    /// that the move is legal.
    pub fn make_move(
        &mut self,
        pos: &Position,
        color_self: Cell,
        color_opponent: Cell,
    ) -> (n: usize)
        requires
            old(self).wf(),
            pos.spec_in_bound(),
            color_pair(color_self, color_opponent),
        ensures
            final(self).wf(),
            final(self)@ == apply_move(
                old(self)@,
                pos.spec_row(),
                pos.spec_col(),
                color_self,
                color_opponent,
            ).0,
            n == apply_move(
                old(self)@,
                pos.spec_row(),
                pos.spec_col(),
                color_self,
                color_opponent,
            ).1,
    {
        let ghost b0 = self@;
        let ghost r0 = pos.spec_row();
        let ghost c0 = pos.spec_col();
        proof {
            lemma_apply_dirs(b0, r0, c0, color_self, color_opponent, 0);
            crate::counting::lemma_count_le_len(b0, color_opponent);
        }
        let mut num_pieces_flipped: usize = 0;
        let mut i: usize = 0;
        while i < 8
            invariant
                self.wf(),
                pos.spec_in_bound(),
                color_pair(color_self, color_opponent),
                r0 == pos.spec_row(),
                c0 == pos.spec_col(),
                b0 == old(self)@,
                b0.len() == 64,
                i <= 8,
                apply_dirs(b0, r0, c0, color_self, color_opponent, 0).1 <= 64,
                apply_dirs(b0, r0, c0, color_self, color_opponent, 0).0 == apply_dirs(
                    self@,
                    r0,
                    c0,
                    color_self,
                    color_opponent,
                    i as int,
                ).0,
                apply_dirs(b0, r0, c0, color_self, color_opponent, 0).1 == num_pieces_flipped
                    + apply_dirs(self@, r0, c0, color_self, color_opponent, i as int).1,
            decreases 8 - i,
        {
            let ghost bi = self@;
            let (row_delta, col_delta) = delta_of(i);
            proof {
                lemma_delta_valid(i as int);
            }
            if self.is_valid_direction(pos, row_delta, col_delta, color_self, color_opponent) {
                let ghost target = flip_walk(
                    bi,
                    r0 + row_delta as int,
                    c0 + col_delta as int,
                    row_delta as int,
                    col_delta as int,
                    color_self,
                );
                proof {
                    // The direction captures, so the recoloured run is a run
                    // of opponent pieces: its length is at most the board's.
                    assert(is_capturing(
                        bi,
                        r0,
                        c0,
                        row_delta as int,
                        col_delta as int,
                        color_self,
                        color_opponent,
                    ));
                    assert(({
                        let stop = run_stop(
                            bi,
                            r0 + row_delta as int,
                            c0 + col_delta as int,
                            row_delta as int,
                            col_delta as int,
                            color_opponent,
                        );
                        in_bounds(stop.0, stop.1) && bi[idx(stop.0, stop.1)] == color_self
                    }));
                    lemma_flip_walk_capturing(
                        bi,
                        r0 + row_delta as int,
                        c0 + col_delta as int,
                        row_delta as int,
                        col_delta as int,
                        color_self,
                        color_opponent,
                    );
                    crate::counting::lemma_count_le_len(bi, color_opponent);
                }
                let mut next_pos = Position::new(pos.m_row + row_delta, pos.m_col + col_delta);
                let mut flipped_here: usize = 0;
                loop
                    invariant
                        self.wf(),
                        valid_delta(row_delta as int, col_delta as int),
                        -1 <= next_pos.m_row as int <= 8,
                        -1 <= next_pos.m_col as int <= 8,
                        target.1 <= 64,
                        flipped_here <= target.1,
                        flip_walk(
                            self@,
                            next_pos.spec_row(),
                            next_pos.spec_col(),
                            row_delta as int,
                            col_delta as int,
                            color_self,
                        ).0 == target.0,
                        flipped_here + flip_walk(
                            self@,
                            next_pos.spec_row(),
                            next_pos.spec_col(),
                            row_delta as int,
                            col_delta as int,
                            color_self,
                        ).1 == target.1,
                    ensures
                        self@ == target.0,
                        flipped_here == target.1,
                    decreases walk_measure(
                        next_pos.spec_row(),
                        next_pos.spec_col(),
                        row_delta as int,
                        col_delta as int,
                    ),
                {
                    if next_pos.out_of_bounds() {
                        break ;
                    }
                    if color_self == self.at(&next_pos) {
                        break ;
                    }
                    self.set_cell(&next_pos, color_self);
                    flipped_here = flipped_here + 1;
                    next_pos.m_row = next_pos.m_row + row_delta;
                    next_pos.m_col = next_pos.m_col + col_delta;
                }
                num_pieces_flipped = num_pieces_flipped + flipped_here;
            }
            proof {
                assert(apply_dirs(bi, r0, c0, color_self, color_opponent, i as int).0 == apply_dirs(
                    self@,
                    r0,
                    c0,
                    color_self,
                    color_opponent,
                    i as int + 1,
                ).0);
                assert(apply_dirs(bi, r0, c0, color_self, color_opponent, i as int).1 == apply_dirs(
                    self@,
                    r0,
                    c0,
                    color_self,
                    color_opponent,
                    i as int + 1,
                ).1 + (if is_capturing(
                    bi,
                    r0,
                    c0,
                    row_delta as int,
                    col_delta as int,
                    color_self,
                    color_opponent,
                ) {
                    flip_walk(
                        bi,
                        r0 + row_delta as int,
                        c0 + col_delta as int,
                        row_delta as int,
                        col_delta as int,
                        color_self,
                    ).1
                } else {
                    0nat
                }));
            }
            i = i + 1;
        }
        let final_pos_row = pos.m_row as usize;
        let final_pos_col = pos.m_col as usize;
        self.m_board[final_pos_row * BOARD_DIMENSION + final_pos_col] = color_self;
        num_pieces_flipped
    }

    /// The set of legal destinations for the given side, one flag per cell.
    pub fn generate_next_available_moves(&self, turn: bool) -> (moves: BoardLUT)
        requires
            self.wf(),
        ensures
            moves.wf(),
            forall|r: int, c: int|
                in_bounds(r, c) ==> moves@[idx(r, c)] == is_available(
                    self@,
                    r,
                    c,
                    crate::cell::color_of(turn),
                    crate::cell::color_of(!turn),
                ),
    {
        let mut next_available_moves = BoardLUT::new();
        let (color_self, color_opponent) = crate::cell::get_color_from_turn(turn);
        let mut row: usize = 0;
        while row < BOARD_DIMENSION
            invariant
                self.wf(),
                color_self == crate::cell::color_of(turn),
                color_opponent == crate::cell::color_of(!turn),
                crate::cell::color_pair(color_self, color_opponent),
                row <= 8,
                next_available_moves.wf(),
                forall|r: int, c: int|
                    in_bounds(r, c) && r < row ==> next_available_moves@[idx(r, c)]
                        == is_available(self@, r, c, color_self, color_opponent),
                forall|r: int, c: int|
                    in_bounds(r, c) && r >= row ==> next_available_moves@[idx(r, c)] == false,
            decreases 8 - row,
        {
            let mut col: usize = 0;
            while col < BOARD_DIMENSION
                invariant
                    self.wf(),
                    color_self == crate::cell::color_of(turn),
                    color_opponent == crate::cell::color_of(!turn),
                    crate::cell::color_pair(color_self, color_opponent),
                    row < 8,
                    col <= 8,
                    next_available_moves.wf(),
                    forall|r: int, c: int|
                        in_bounds(r, c) && (r < row || (r == row && c < col))
                            ==> next_available_moves@[idx(r, c)] == is_available(
                            self@,
                            r,
                            c,
                            color_self,
                            color_opponent,
                        ),
                    forall|r: int, c: int|
                        in_bounds(r, c) && (r > row || (r == row && c >= col))
                            ==> next_available_moves@[idx(r, c)] == false,
                decreases 8 - col,
            {
                let pos = Position::new(row as i8, col as i8);
                if self.is_available_move(&pos, color_self, color_opponent) {
                    next_available_moves.insert(&pos);
                }
                col = col + 1;
            }
            row = row + 1;
        }
        next_available_moves
    }
}

/// The i-th compass direction, in scanning order.
pub fn delta_of(i: usize) -> (d: (i8, i8))
    requires
        i < 8,
    ensures
        d.0 as int == delta(i as int).0,
        d.1 as int == delta(i as int).1,
{
    match i {
        0 => (-1, -1),
        1 => (-1, 0),
        2 => (-1, 1),
        3 => (0, -1),
        4 => (0, 1),
        5 => (1, -1),
        6 => (1, 0),
        _ => (1, 1),
    }
}

} // verus!
