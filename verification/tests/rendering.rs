use othello::board::GameBoard;
use othello::cell::{Cell, TURN_BLACK};
use othello::manager::GameManager;
use othello::position::Position;

/// The rendered starting board: column labels, then one labelled line per
/// row, with the four centre pieces in place.
#[test]
fn render_starting_board() {
    let mgr = GameManager::new();
    let expected = "  abcdefgh\n\
                    a ........\n\
                    b ........\n\
                    c ........\n\
                    d ...WB...\n\
                    e ...BW...\n\
                    f ........\n\
                    g ........\n\
                    h ........\n";
    assert_eq!(mgr.print_board(false), expected);
}

/// With the overlay on, every legal destination of the side to move is
/// shown as a marker: Black's four opening moves.
#[test]
fn render_opening_moves_overlay() {
    let mgr = GameManager::new();
    let expected = "  abcdefgh\n\
                    a ........\n\
                    b ........\n\
                    c ...*....\n\
                    d ..*WB...\n\
                    e ...BW*..\n\
                    f ....*...\n\
                    g ........\n\
                    h ........\n";
    assert_eq!(mgr.print_board(true), expected);
}

/// While the game runs there is no verdict yet.
#[test]
fn no_verdict_while_running() {
    let mgr = GameManager::new();
    assert_eq!(mgr.print_game_result(), "Game isn't over.");
}

/// A two-digit winning margin is printed in full.
#[test]
fn two_digit_margin() {
    let mut board = GameBoard::new();
    board.set_cell(&Position::new(3, 3), Cell::Empty);
    board.set_cell(&Position::new(3, 4), Cell::Empty);
    board.set_cell(&Position::new(4, 3), Cell::Empty);
    board.set_cell(&Position::new(4, 4), Cell::Empty);
    // Twelve isolated White pieces on alternating cells of three rows.
    for row in [0i8, 2, 4] {
        for col in [0i8, 2, 4, 6] {
            board.set_cell(&Position::new(row, col), Cell::White);
        }
    }
    let mut mgr = GameManager::with_board(board, TURN_BLACK);
    assert!(!mgr.advance_to_next_turn());
    assert_eq!(mgr.print_game_result(), "White wins by 12 points!");
}
