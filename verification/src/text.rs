//! Text the driver shows: the rendered board grid and the final verdict.

use vstd::prelude::*;
use vstd::string::{StringExecFns, StrSliceExecFns};
use crate::cell::Cell;
use crate::counting::lemma_count_le_len;
use crate::position::{BOARD_DIMENSION, Position, idx};
use crate::manager::GameManager;

verus! {

/// The character that renders one cell state.
pub open spec fn cell_char(c: Cell) -> char {
    match c {
        Cell::Empty => '.',
        Cell::White => 'W',
        Cell::Black => 'B',
    }
}

/// The row and column labels, 'a' through 'h'.
pub open spec fn label_char(i: int) -> char {
    if i == 0 {
        'a'
    } else if i == 1 {
        'b'
    } else if i == 2 {
        'c'
    } else if i == 3 {
        'd'
    } else if i == 4 {
        'e'
    } else if i == 5 {
        'f'
    } else if i == 6 {
        'g'
    } else {
        'h'
    }
}

/// The character shown for cell (r, c): a marker where the overlay is on
/// and the legal-move set holds the cell, else the cell's own character.
pub open spec fn render_cell(
    b: Seq<Cell>,
    flags: Seq<bool>,
    overlay: bool,
    r: int,
    c: int,
) -> char {
    if overlay && flags[idx(r, c)] {
        '*'
    } else {
        cell_char(b[idx(r, c)])
    }
}

/// The header line: two spaces, the column labels, a newline.
pub open spec fn header_line() -> Seq<char> {
    seq![' ', ' ', 'a', 'b', 'c', 'd', 'e', 'f', 'g', 'h', '\n']
}

/// Row r's line up to column c: its label, a space, and cells 0..c.
pub open spec fn row_prefix(b: Seq<Cell>, flags: Seq<bool>, overlay: bool, r: int, c: int) -> Seq<
    char,
>
    decreases c,
{
    if c <= 0 {
        seq![label_char(r), ' ']
    } else {
        row_prefix(b, flags, overlay, r, c - 1).push(render_cell(b, flags, overlay, r, c - 1))
    }
}

/// The header and the first r full row lines.
pub open spec fn board_prefix(b: Seq<Cell>, flags: Seq<bool>, overlay: bool, r: int) -> Seq<char>
    decreases r,
{
    if r <= 0 {
        header_line()
    } else {
        board_prefix(b, flags, overlay, r - 1) + row_prefix(b, flags, overlay, r - 1, 8).push('\n')
    }
}

/// The whole rendered board: a header line, then one line per row.
pub open spec fn render(b: Seq<Cell>, flags: Seq<bool>, overlay: bool) -> Seq<char> {
    board_prefix(b, flags, overlay, 8)
}

/// The decimal text of n, for n below 100.
pub open spec fn dec_digits(n: int) -> Seq<char> {
    if n < 10 {
        seq![digit_char(n)]
    } else {
        seq![digit_char(n / 10), digit_char(n % 10)]
    }
}

/// The digit character for d in 0..10.
pub open spec fn digit_char(d: int) -> char {
    if d == 0 {
        '0'
    } else if d == 1 {
        '1'
    } else if d == 2 {
        '2'
    } else if d == 3 {
        '3'
    } else if d == 4 {
        '4'
    } else if d == 5 {
        '5'
    } else if d == 6 {
        '6'
    } else if d == 7 {
        '7'
    } else if d == 8 {
        '8'
    } else {
        '9'
    }
}

/// The verdict line for the given scores: a draw on equal counts, else the
/// higher count wins by the difference; a reminder while the game runs.
pub open spec fn verdict(over: bool, num_white: int, num_black: int) -> Seq<char> {
    if !over {
        "Game isn't over."@
    } else if num_black == num_white {
        "Draw!"@
    } else if num_black > num_white {
        "Black wins by "@ + dec_digits(num_black - num_white) + " points!"@
    } else {
        "White wins by "@ + dec_digits(num_white - num_black) + " points!"@
    }
}

/// The label character of row or column i, as a one-character string.
fn label_str(i: usize) -> (s: &'static str)
    requires
        i < 8,
    ensures
        s@ == seq![label_char(i as int)],
{
    proof {
        reveal_strlit("a");
        reveal_strlit("b");
        reveal_strlit("c");
        reveal_strlit("d");
        reveal_strlit("e");
        reveal_strlit("f");
        reveal_strlit("g");
        reveal_strlit("h");
        assert("a"@ =~= seq![label_char(0)]);
        assert("b"@ =~= seq![label_char(1)]);
        assert("c"@ =~= seq![label_char(2)]);
        assert("d"@ =~= seq![label_char(3)]);
        assert("e"@ =~= seq![label_char(4)]);
        assert("f"@ =~= seq![label_char(5)]);
        assert("g"@ =~= seq![label_char(6)]);
        assert("h"@ =~= seq![label_char(7)]);
    }
    match i {
        0 => "a",
        1 => "b",
        2 => "c",
        3 => "d",
        4 => "e",
        5 => "f",
        6 => "g",
        _ => "h",
    }
}

/// The one-character string that renders a cell state.
fn cell_str(cell: Cell) -> (s: &'static str)
    ensures
        s@ == seq![cell_char(cell)],
{
    proof {
        reveal_strlit(".");
        reveal_strlit("W");
        reveal_strlit("B");
        assert("."@ =~= seq![cell_char(Cell::Empty)]);
        assert("W"@ =~= seq![cell_char(Cell::White)]);
        assert("B"@ =~= seq![cell_char(Cell::Black)]);
    }
    match cell {
        Cell::Empty => ".",
        Cell::White => "W",
        Cell::Black => "B",
    }
}

/// The digit character of d, as a one-character string.
fn digit_str(d: usize) -> (s: &'static str)
    requires
        d < 10,
    ensures
        s@ == seq![digit_char(d as int)],
{
    proof {
        reveal_strlit("0");
        reveal_strlit("1");
        reveal_strlit("2");
        reveal_strlit("3");
        reveal_strlit("4");
        reveal_strlit("5");
        reveal_strlit("6");
        reveal_strlit("7");
        reveal_strlit("8");
        reveal_strlit("9");
        assert("0"@ =~= seq![digit_char(0)]);
        assert("1"@ =~= seq![digit_char(1)]);
        assert("2"@ =~= seq![digit_char(2)]);
        assert("3"@ =~= seq![digit_char(3)]);
        assert("4"@ =~= seq![digit_char(4)]);
        assert("5"@ =~= seq![digit_char(5)]);
        assert("6"@ =~= seq![digit_char(6)]);
        assert("7"@ =~= seq![digit_char(7)]);
        assert("8"@ =~= seq![digit_char(8)]);
        assert("9"@ =~= seq![digit_char(9)]);
    }
    match d {
        0 => "0",
        1 => "1",
        2 => "2",
        3 => "3",
        4 => "4",
        5 => "5",
        6 => "6",
        7 => "7",
        8 => "8",
        _ => "9",
    }
}

impl GameManager {
    /// The rendered board: a header of column labels, then one line per
    /// row, each prefixed by its row label. With `print_available_moves`
    /// every legal destination of the side to move is shown as a marker.
    pub fn print_board(&self, print_available_moves: bool) -> (out: String)
        requires
            self.wf(),
        ensures
            out@ == render(self.m_board@, self.m_next_available_moves@, print_available_moves),
    {
        let ghost b = self.m_board@;
        let ghost flags = self.m_next_available_moves@;
        let mut out = String::from_str("  abcdefgh\n");
        proof {
            reveal_strlit("  abcdefgh\n");
            assert(out@ =~= header_line());
        }
        let mut row: usize = 0;
        while row < BOARD_DIMENSION
            invariant
                self.wf(),
                b == self.m_board@,
                flags == self.m_next_available_moves@,
                row <= 8,
                out@ == board_prefix(b, flags, print_available_moves, row as int),
            decreases 8 - row,
        {
            out.append(label_str(row));
            out.append(" ");
            proof {
                reveal_strlit(" ");
                assert(out@ =~= board_prefix(b, flags, print_available_moves, row as int)
                    + row_prefix(b, flags, print_available_moves, row as int, 0));
            }
            let mut col: usize = 0;
            while col < BOARD_DIMENSION
                invariant
                    self.wf(),
                    b == self.m_board@,
                    flags == self.m_next_available_moves@,
                    row < 8,
                    col <= 8,
                    out@ == board_prefix(b, flags, print_available_moves, row as int) + row_prefix(
                        b,
                        flags,
                        print_available_moves,
                        row as int,
                        col as int,
                    ),
                decreases 8 - col,
            {
                let pos = Position::new(row as i8, col as i8);
                if print_available_moves && self.m_next_available_moves.contains(&pos) {
                    out.append("*");
                    proof {
                        reveal_strlit("*");
                    }
                } else {
                    out.append(cell_str(self.m_board.at(&pos)));
                }
                proof {
                    assert(out@ =~= board_prefix(b, flags, print_available_moves, row as int)
                        + row_prefix(b, flags, print_available_moves, row as int, col as int + 1));
                }
                col = col + 1;
            }
            out.append("\n");
            proof {
                assert(row_prefix(b, flags, print_available_moves, row as int, 8).push('\n') =~= row_prefix(
                    b,
                    flags,
                    print_available_moves,
                    row as int,
                    8,
                ) + "\n"@) by {
                    reveal_strlit("\n");
                }
                assert(out@ =~= board_prefix(b, flags, print_available_moves, row as int + 1));
            }
            row = row + 1;
        }
        out
    }

    /// The verdict line: "Draw!" on equal counts, else which colour wins
    /// and by how many points; a reminder while the game is still running.
    pub fn print_game_result(&self) -> (out: String)
        requires
            self.wf(),
        ensures
            out@ == verdict(self.m_game_over, self.m_num_white as int, self.m_num_black as int),
    {
        proof {
            lemma_count_le_len(self.m_board@, Cell::White);
            lemma_count_le_len(self.m_board@, Cell::Black);
        }
        if false == self.m_game_over {
            let out = String::from_str("Game isn't over.");
            return out;
        }
        if self.m_num_black == self.m_num_white {
            let out = String::from_str("Draw!");
            return out;
        }
        if self.m_num_black > self.m_num_white {
            let mut out = String::from_str("Black wins by ");
            append_margin(&mut out, self.m_num_black - self.m_num_white);
            out.append(" points!");
            proof {
                assert(out@ =~= verdict(
                    self.m_game_over,
                    self.m_num_white as int,
                    self.m_num_black as int,
                ));
            }
            out
        } else {
            let mut out = String::from_str("White wins by ");
            append_margin(&mut out, self.m_num_white - self.m_num_black);
            out.append(" points!");
            proof {
                assert(out@ =~= verdict(
                    self.m_game_over,
                    self.m_num_white as int,
                    self.m_num_black as int,
                ));
            }
            out
        }
    }
}

/// Append the decimal text of a margin below 100 to the line being built.
fn append_margin(out: &mut String, n: usize)
    requires
        n < 100,
    ensures
        final(out)@ == old(out)@ + dec_digits(n as int),
{
    if n < 10 {
        out.append(digit_str(n));
    } else {
        out.append(digit_str(n / 10));
        out.append(digit_str(n % 10));
        proof {
            assert(old(out)@ + seq![digit_char(n as int / 10)] + seq![
                digit_char(n as int % 10),
            ] =~= old(out)@ + dec_digits(n as int));
        }
    }
}

} // verus!
