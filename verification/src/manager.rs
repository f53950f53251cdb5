//! The game manager: board, scores, side to move, legal-move cache, and the
//! per-turn protocol with forced passes and stalemate detection.

use vstd::prelude::*;
use vstd::arithmetic::div_mod::lemma_fundamental_div_mod;
use crate::cell::{Cell, color_of, get_color_from_turn, TURN_WHITE, TURN_BLACK};
use crate::counting::{count, lemma_count_le_len};
use crate::position::{Position, in_bounds, idx};
use vstd::string::StrSliceExecFns;
use crate::capture::{apply_move, is_available, has_any_move, lemma_apply_move};
use crate::board::{GameBoard, start_board, lemma_start_board_counts};
use crate::cache::BoardLUT;

verus! {

/// A character is a coordinate character when it lies between 'a' and 'h'.
pub open spec fn valid_pos_char(c: char) -> bool {
    'a' <= c && c <= 'h'
}

pub fn is_valid_pos_char(c: char) -> (r: bool)
    ensures
        r == valid_pos_char(c),
{
    'a' <= c && c <= 'h'
}

/// The whole game state: board, side to move, scores, terminal flag, and
/// the legal-move cache for the side to move.
pub struct GameManager {
    pub m_board: GameBoard,
    pub m_turn: bool,
    pub m_game_over: bool,
    pub m_num_white: usize,
    pub m_num_black: usize,
    pub m_next_available_moves: BoardLUT,
}

impl GameManager {
    /// Internal consistency: the board and the cache have their shape, and
    /// the stored scores are the board's piece counts.
    pub open spec fn wf(&self) -> bool {
        &&& self.m_board.wf()
        &&& self.m_next_available_moves.wf()
        &&& self.m_num_white == count(self.m_board@, Cell::White)
        &&& self.m_num_black == count(self.m_board@, Cell::Black)
    }

    /// The cache lists exactly the legal destinations of the side to move
    /// on the current board.
    pub open spec fn moves_fresh(&self) -> bool {
        forall|r: int, c: int|
            in_bounds(r, c) ==> self.m_next_available_moves@[idx(r, c)] == is_available(
                self.m_board@,
                r,
                c,
                color_of(self.m_turn),
                color_of(!self.m_turn),
            )
    }

    /// Everything observable about the state is the same in `a` and `b`.
    pub open spec fn same_state(a: &GameManager, b: &GameManager) -> bool {
        &&& a.m_board@ == b.m_board@
        &&& a.m_turn == b.m_turn
        &&& a.m_game_over == b.m_game_over
        &&& a.m_num_white == b.m_num_white
        &&& a.m_num_black == b.m_num_black
        &&& a.m_next_available_moves@ == b.m_next_available_moves@
        &&& a.m_next_available_moves.m_num_set == b.m_next_available_moves.m_num_set
    }

    /// A fresh game: canonical starting board, Black to move, scores 2/2,
    /// and the cache filled for Black.
    pub fn new() -> (mgr: GameManager)
        ensures
            mgr.wf(),
            mgr.moves_fresh(),
            mgr.m_board@ == start_board(),
            mgr.m_turn == TURN_BLACK,
            !mgr.m_game_over,
            mgr.m_num_white == 2,
            mgr.m_num_black == 2,
    {
        let game_board = GameBoard::new();
        let next_available_moves = game_board.generate_next_available_moves(TURN_BLACK);
        proof {
            lemma_start_board_counts();
        }
        GameManager {
            m_board: game_board,
            m_turn: TURN_BLACK,
            m_game_over: false,
            m_num_white: 2,
            m_num_black: 2,
            m_next_available_moves: next_available_moves,
        }
    }

    /// A game taken up from an arbitrary board position with the given side
    /// to move: the scores are recomputed by scanning the board, and the
    /// legal-move cache is rebuilt for that side.
    pub fn with_board(board: GameBoard, turn: bool) -> (mgr: GameManager)
        requires
            board.wf(),
        ensures
            mgr.wf(),
            mgr.moves_fresh(),
            mgr.m_board@ == board@,
            mgr.m_turn == turn,
            !mgr.m_game_over,
            mgr.m_num_white == count(board@, Cell::White),
            mgr.m_num_black == count(board@, Cell::Black),
    {
        let num_white = board.count_cells(Cell::White);
        let num_black = board.count_cells(Cell::Black);
        let next_available_moves = board.generate_next_available_moves(turn);
        GameManager {
            m_board: board,
            m_turn: turn,
            m_game_over: false,
            m_num_white: num_white,
            m_num_black: num_black,
            m_next_available_moves: next_available_moves,
        }
    }

    /// Attempt the move `pos` for the side to move. The move is committed —
    /// pieces flipped, scores updated — exactly when `pos` is in the
    /// legal-move cache and is a legal destination on the board; otherwise
    /// nothing changes. The turn is not advanced here. Each committed move
    /// raises the total piece count by exactly one.
    pub fn make_move(&mut self, pos: &Position) -> (r: bool)
        requires
            old(self).wf(),
            pos.spec_in_bound(),
        ensures
            final(self).wf(),
            r == (old(self).m_next_available_moves@[idx(pos.spec_row(), pos.spec_col())]
                && is_available(
                old(self).m_board@,
                pos.spec_row(),
                pos.spec_col(),
                color_of(old(self).m_turn),
                color_of(!old(self).m_turn),
            )),
            !r ==> Self::same_state(final(self), old(self)),
            r ==> final(self).m_board@ == apply_move(
                old(self).m_board@,
                pos.spec_row(),
                pos.spec_col(),
                color_of(old(self).m_turn),
                color_of(!old(self).m_turn),
            ).0,
            r ==> final(self).m_num_white + final(self).m_num_black == old(self).m_num_white
                + old(self).m_num_black + 1,
            r ==> ({
                let flips = apply_move(
                    old(self).m_board@,
                    pos.spec_row(),
                    pos.spec_col(),
                    color_of(old(self).m_turn),
                    color_of(!old(self).m_turn),
                ).1;
                &&& (old(self).m_turn == TURN_WHITE ==> final(self).m_num_white == old(
                    self,
                ).m_num_white + flips + 1 && final(self).m_num_black + flips == old(
                    self,
                ).m_num_black)
                &&& (old(self).m_turn == TURN_BLACK ==> final(self).m_num_black == old(
                    self,
                ).m_num_black + flips + 1 && final(self).m_num_white + flips == old(
                    self,
                ).m_num_white)
            }),
            final(self).m_turn == old(self).m_turn,
            final(self).m_game_over == old(self).m_game_over,
            final(self).m_next_available_moves@ == old(self).m_next_available_moves@,
            final(self).m_next_available_moves.m_num_set == old(
                self,
            ).m_next_available_moves.m_num_set,
    {
        if false == self.m_next_available_moves.contains(pos) {
            return false;
        }
        let (color_self, color_opponent) = get_color_from_turn(self.m_turn);
        // Only a move that actually flips something may mutate the board:
        // the cache is trusted but double-checked, so that a rejected move
        // never leaves a partial change behind.
        if false == self.m_board.is_available_move(pos, color_self, color_opponent) {
            return false;
        }
        proof {
            lemma_apply_move(
                self.m_board@,
                pos.spec_row(),
                pos.spec_col(),
                color_self,
                color_opponent,
            );
            lemma_count_le_len(
                apply_move(
                    self.m_board@,
                    pos.spec_row(),
                    pos.spec_col(),
                    color_self,
                    color_opponent,
                ).0,
                color_self,
            );
        }
        let num_piece_flipped = self.m_board.make_move(pos, color_self, color_opponent);
        proof {
            let b0 = old(self).m_board@;
            let mv = apply_move(b0, pos.spec_row(), pos.spec_col(), color_self, color_opponent);
            assert(self.m_board@ == mv.0);
            assert(num_piece_flipped == mv.1);
            assert(count(mv.0, color_self) == count(b0, color_self) + mv.1 + 1);
            assert(count(mv.0, color_opponent) + mv.1 == count(b0, color_opponent));
        }
        self.update_count(num_piece_flipped);
        proof {
            assert(self.m_num_white == count(self.m_board@, Cell::White));
            assert(self.m_num_black == count(self.m_board@, Cell::Black));
        }
        true
    }

    /// Hand the turn to the other side, rebuilding the legal-move cache; on
    /// a forced pass hand it straight back. Returns whether the game goes
    /// on. The board and the scores are never touched: when neither side
    /// has a legal move the game is declared over instead.
    pub fn advance_to_next_turn(&mut self) -> (r: bool)
        requires
            old(self).wf(),
        ensures
            final(self).wf(),
            final(self).m_board@ == old(self).m_board@,
            final(self).m_num_white == old(self).m_num_white,
            final(self).m_num_black == old(self).m_num_black,
            old(self).m_game_over ==> !r && Self::same_state(final(self), old(self)),
            !old(self).m_game_over ==> {
                let opp_has = has_any_move(
                    old(self).m_board@,
                    color_of(!old(self).m_turn),
                    color_of(old(self).m_turn),
                );
                let own_has = has_any_move(
                    old(self).m_board@,
                    color_of(old(self).m_turn),
                    color_of(!old(self).m_turn),
                );
                &&& final(self).moves_fresh()
                &&& opp_has ==> (r && final(self).m_turn == !old(self).m_turn
                    && !final(self).m_game_over)
                &&& (!opp_has && own_has) ==> (r && final(self).m_turn == old(self).m_turn
                    && !final(self).m_game_over)
                &&& (!opp_has && !own_has) ==> (!r && final(self).m_turn == old(self).m_turn
                    && final(self).m_game_over)
            },
    {
        if self.m_game_over {
            return false;
        }
        self.switch_turn();
        self.m_next_available_moves = self.m_board.generate_next_available_moves(self.m_turn);
        proof {
            lemma_flags_match_moves(
                self.m_next_available_moves@,
                self.m_board@,
                color_of(self.m_turn),
                color_of(!self.m_turn),
            );
        }
        if false == self.m_next_available_moves.is_empty() {
            return true;
        }
        // Forced pass: the new side has no legal move, so the turn goes
        // straight back to the side that just moved.
        self.switch_turn();
        self.m_next_available_moves = self.m_board.generate_next_available_moves(self.m_turn);
        proof {
            lemma_flags_match_moves(
                self.m_next_available_moves@,
                self.m_board@,
                color_of(self.m_turn),
                color_of(!self.m_turn),
            );
        }
        if false == self.m_next_available_moves.is_empty() {
            return true;
        }
        // Neither side can move: the game is over.
        self.m_game_over = true;
        false
    }

    /// Read a move out of a player's input line: exactly two characters,
    /// each between 'a' and 'h', naming (row, column); the coordinate must
    /// moreover be in the legal-move cache. Nothing is mutated; a rejected
    /// input leaves the state exactly as it was.
    pub fn parse_move(&self, input: &str) -> (r: Option<Position>)
        requires
            self.wf(),
        ensures
            match r {
                Some(pos) => {
                    &&& input@.len() == 2
                    &&& valid_pos_char(input@[0])
                    &&& valid_pos_char(input@[1])
                    &&& pos.spec_row() == input@[0] as int - 'a' as int
                    &&& pos.spec_col() == input@[1] as int - 'a' as int
                    &&& pos.spec_in_bound()
                    &&& self.m_next_available_moves@[idx(pos.spec_row(), pos.spec_col())]
                },
                None => {
                    ||| input@.len() != 2
                    ||| !valid_pos_char(input@[0])
                    ||| !valid_pos_char(input@[1])
                    ||| !self.m_next_available_moves@[idx(
                        input@[0] as int - 'a' as int,
                        input@[1] as int - 'a' as int,
                    )]
                },
            },
    {
        if 2 != input.unicode_len() {
            return None;
        }
        let row_char = input.get_char(0);
        let col_char = input.get_char(1);
        if false == is_valid_pos_char(row_char) || false == is_valid_pos_char(col_char) {
            return None;
        }
        let row = (row_char as u32 - 'a' as u32) as i8;
        let col = (col_char as u32 - 'a' as u32) as i8;
        let pos = Position::new(row, col);
        if false == self.m_next_available_moves.contains(&pos) {
            return None;
        }
        Some(pos)
    }

    /// Flip the side to move.
    pub fn switch_turn(&mut self)
        ensures
            final(self).m_turn == !old(self).m_turn,
            final(self).m_board@ == old(self).m_board@,
            final(self).m_game_over == old(self).m_game_over,
            final(self).m_num_white == old(self).m_num_white,
            final(self).m_num_black == old(self).m_num_black,
            final(self).m_next_available_moves@ == old(self).m_next_available_moves@,
            final(self).m_next_available_moves.m_num_set == old(
                self,
            ).m_next_available_moves.m_num_set,
    {
        self.m_turn = !self.m_turn;
    }

    /// Book a committed move for the side to move: it gains the flipped
    /// pieces plus the one it placed, the opponent loses the flipped pieces.
    pub fn update_count(&mut self, num_piece_flipped: usize)
        requires
            TURN_WHITE == old(self).m_turn ==> num_piece_flipped <= old(self).m_num_black
                && old(self).m_num_white + num_piece_flipped + 1 <= 64,
            TURN_BLACK == old(self).m_turn ==> num_piece_flipped <= old(self).m_num_white
                && old(self).m_num_black + num_piece_flipped + 1 <= 64,
        ensures
            TURN_WHITE == old(self).m_turn ==> final(self).m_num_white == old(self).m_num_white
                + num_piece_flipped + 1 && final(self).m_num_black == old(self).m_num_black
                - num_piece_flipped,
            TURN_BLACK == old(self).m_turn ==> final(self).m_num_black == old(self).m_num_black
                + num_piece_flipped + 1 && final(self).m_num_white == old(self).m_num_white
                - num_piece_flipped,
            final(self).m_board@ == old(self).m_board@,
            final(self).m_turn == old(self).m_turn,
            final(self).m_game_over == old(self).m_game_over,
            final(self).m_next_available_moves@ == old(self).m_next_available_moves@,
            final(self).m_next_available_moves.m_num_set == old(
                self,
            ).m_next_available_moves.m_num_set,
    {
        if TURN_WHITE == self.m_turn {
            self.m_num_white = self.m_num_white + num_piece_flipped + 1;
            self.m_num_black = self.m_num_black - num_piece_flipped;
        } else {
            self.m_num_white = self.m_num_white - num_piece_flipped;
            self.m_num_black = self.m_num_black + num_piece_flipped + 1;
        }
    }
}

/// A cache that lists exactly the legal destinations holds no coordinate at
/// all exactly when the side has no legal move.
pub proof fn lemma_flags_match_moves(flags: Seq<bool>, b: Seq<Cell>, me: Cell, opp: Cell)
    requires
        flags.len() == 64,
        forall|r: int, c: int| in_bounds(r, c) ==> flags[idx(r, c)] == is_available(b, r, c, me, opp),
    ensures
        (forall|i: int| 0 <= i < 64 ==> flags[i] == false) <==> !has_any_move(b, me, opp),
{
    if forall|i: int| 0 <= i < 64 ==> flags[i] == false {
        assert forall|r: int, c: int| in_bounds(r, c) implies !is_available(b, r, c, me, opp) by {
            assert(0 <= idx(r, c) < 64);
            assert(flags[idx(r, c)] == false);
        }
        assert(!has_any_move(b, me, opp));
    } else {
        let i = choose|i: int| 0 <= i < 64 && flags[i] != false;
        let r = i / 8;
        let c = i % 8;
        lemma_fundamental_div_mod(i, 8);
        assert(in_bounds(r, c));
        assert(idx(r, c) == i);
        assert(is_available(b, r, c, me, opp));
        assert(has_any_move(b, me, opp));
    }
}

} // verus!
