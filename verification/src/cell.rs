//! Cell states and the mapping from the side to move to piece colours.

use vstd::prelude::*;

verus! {

/// One cell of the board: empty, or holding a white or a black piece.
#[derive(Clone, Copy, PartialEq, Eq, Structural, Debug)]
pub enum Cell {
    Empty,
    White,
    Black,
}

/// Turn flag value for the white side.
pub const TURN_WHITE: bool = true;

/// Turn flag value for the black side.
pub const TURN_BLACK: bool = false;

/// The colour that the given side plays.
pub open spec fn color_of(turn: bool) -> Cell {
    if turn == TURN_WHITE {
        Cell::White
    } else {
        Cell::Black
    }
}

/// `me` and `opp` are the two piece colours, assigned to opposite sides.
pub open spec fn color_pair(me: Cell, opp: Cell) -> bool {
    (me == Cell::White && opp == Cell::Black) || (me == Cell::Black && opp == Cell::White)
}

/// The colours of the side to move and of its opponent: (own, opponent's).
pub fn get_color_from_turn(turn: bool) -> (colors: (Cell, Cell))
    ensures
        colors.0 == color_of(turn),
        colors.1 == color_of(!turn),
        color_pair(colors.0, colors.1),
{
    if TURN_WHITE == turn {
        (Cell::White, Cell::Black)
    } else {
        (Cell::Black, Cell::White)
    }
}

} // verus!
