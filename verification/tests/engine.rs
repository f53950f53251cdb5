use othello::board::GameBoard;
use othello::cell::{get_color_from_turn, Cell, TURN_BLACK, TURN_WHITE};
use othello::manager::{is_valid_pos_char, GameManager};
use othello::position::Position;

/// The starting board: exactly four occupied centre cells in the diagonal
/// pattern, and both sides start with two pieces.
#[test]
fn starting_board_counts() {
    let mgr = GameManager::new();
    assert_eq!(mgr.m_num_white, 2);
    assert_eq!(mgr.m_num_black, 2);
    assert_eq!(mgr.m_board.count_cells(Cell::White), 2);
    assert_eq!(mgr.m_board.count_cells(Cell::Black), 2);
    assert_eq!(mgr.m_board.count_cells(Cell::Empty), 60);
    assert_eq!(mgr.m_board.at(&Position::new(3, 3)), Cell::White);
    assert_eq!(mgr.m_board.at(&Position::new(4, 4)), Cell::White);
    assert_eq!(mgr.m_board.at(&Position::new(3, 4)), Cell::Black);
    assert_eq!(mgr.m_board.at(&Position::new(4, 3)), Cell::Black);
    assert_eq!(mgr.m_turn, TURN_BLACK);
    assert!(!mgr.m_game_over);
}

/// A direction captures only when a non-empty opponent run is closed off
/// by a piece of one's own colour.
#[test]
fn capturing_direction_cases() {
    let board = GameBoard::new();
    let origin = Position::new(2, 3);
    // Down from (2,3): White at (3,3), then Black at (4,3) - captures.
    assert!(board.is_valid_direction(&origin, 1, 0, Cell::Black, Cell::White));
    // Right from (2,3): the neighbour (2,4) is empty - no capture.
    assert!(!board.is_valid_direction(&origin, 0, 1, Cell::Black, Cell::White));
    // Down from (2,3) for White: the neighbour holds White itself - no capture.
    assert!(!board.is_valid_direction(&origin, 1, 0, Cell::White, Cell::Black));
    // Up from (2,3): leaves the board before any run closes - no capture.
    assert!(!board.is_valid_direction(&origin, -1, 0, Cell::Black, Cell::White));
    // A run that reaches the edge without closing does not capture.
    let mut edge = GameBoard::new();
    edge.set_cell(&Position::new(0, 1), Cell::White);
    edge.set_cell(&Position::new(0, 0), Cell::White);
    assert!(!edge.is_valid_direction(&Position::new(0, 2), 0, -1, Cell::Black, Cell::White));
}

/// The known opening move: Black plays row 2, column 3; exactly one White
/// piece flips, so Black holds 4 pieces and White 1.
#[test]
fn opening_move_flips_one() {
    let mut mgr = GameManager::new();
    let pos = mgr.parse_move("cd").expect("the opening move must parse");
    assert_eq!(pos, Position::new(2, 3));
    assert!(mgr.make_move(&pos));
    assert_eq!(mgr.m_num_black, 4);
    assert_eq!(mgr.m_num_white, 1);
    assert_eq!(mgr.m_board.at(&Position::new(3, 3)), Cell::Black);
    assert_eq!(mgr.m_board.at(&Position::new(2, 3)), Cell::Black);
    // The other two centre cells are untouched.
    assert_eq!(mgr.m_board.at(&Position::new(4, 4)), Cell::White);
    assert_eq!(mgr.m_board.at(&Position::new(4, 3)), Cell::Black);
    // The move does not advance the turn by itself.
    assert_eq!(mgr.m_turn, TURN_BLACK);
    assert!(mgr.advance_to_next_turn());
    assert_eq!(mgr.m_turn, TURN_WHITE);
}

/// Each committed move raises the total piece count by exactly one.
#[test]
fn total_count_grows_by_one() {
    let mut mgr = GameManager::new();
    let before = mgr.m_num_white + mgr.m_num_black;
    let pos = mgr.parse_move("cd").expect("the opening move must parse");
    assert!(mgr.make_move(&pos));
    assert_eq!(mgr.m_num_white + mgr.m_num_black, before + 1);
}

/// Malformed input is rejected without touching the board or the turn.
#[test]
fn malformed_input_rejected() {
    let mut mgr = GameManager::new();
    assert!(mgr.parse_move("z9").is_none());
    assert!(mgr.parse_move("").is_none());
    assert!(mgr.parse_move("c").is_none());
    assert!(mgr.parse_move("cde").is_none());
    // Well-formed but illegal: not a capturing destination.
    assert!(mgr.parse_move("aa").is_none());
    // A rejected coordinate leaves everything unchanged.
    assert!(!mgr.make_move(&Position::new(0, 0)));
    assert_eq!(mgr.m_num_white, 2);
    assert_eq!(mgr.m_num_black, 2);
    assert_eq!(mgr.m_board.count_cells(Cell::Empty), 60);
    assert_eq!(mgr.m_turn, TURN_BLACK);
}

/// A forced pass: the other side has no legal move, so the turn comes
/// straight back, and the board is untouched.
#[test]
fn forced_pass_returns_turn() {
    let mut board = GameBoard::new();
    // Clear the centre, then lay out B W _ in the top row: Black can play
    // at (0,2); White has no legal move anywhere.
    board.set_cell(&Position::new(3, 3), Cell::Empty);
    board.set_cell(&Position::new(3, 4), Cell::Empty);
    board.set_cell(&Position::new(4, 3), Cell::Empty);
    board.set_cell(&Position::new(4, 4), Cell::Empty);
    board.set_cell(&Position::new(0, 0), Cell::Black);
    board.set_cell(&Position::new(0, 1), Cell::White);
    let mut mgr = GameManager::with_board(board, TURN_BLACK);
    let empty_before = mgr.m_board.count_cells(Cell::Empty);
    assert!(mgr.advance_to_next_turn());
    // White was skipped: Black is still to move.
    assert_eq!(mgr.m_turn, TURN_BLACK);
    assert!(!mgr.m_game_over);
    assert_eq!(mgr.m_board.count_cells(Cell::Empty), empty_before);
    // And Black's one legal move is available again.
    assert!(mgr.parse_move("ac").is_some());
}

/// Double stalemate: neither side can move, so advancing the turn reports
/// the game over and mutates nothing on the board.
#[test]
fn double_stalemate_ends_game() {
    let mut board = GameBoard::new();
    board.set_cell(&Position::new(3, 3), Cell::Empty);
    board.set_cell(&Position::new(3, 4), Cell::Empty);
    board.set_cell(&Position::new(4, 3), Cell::Empty);
    board.set_cell(&Position::new(4, 4), Cell::Empty);
    board.set_cell(&Position::new(0, 0), Cell::Black);
    let mut mgr = GameManager::with_board(board, TURN_BLACK);
    assert!(!mgr.advance_to_next_turn());
    assert!(mgr.m_game_over);
    assert_eq!(mgr.m_turn, TURN_BLACK);
    assert_eq!(mgr.m_num_black, 1);
    assert_eq!(mgr.m_num_white, 0);
    assert_eq!(mgr.print_game_result(), "Black wins by 1 points!");
    // Once over, advancing again stays a rejected no-op.
    assert!(!mgr.advance_to_next_turn());
    assert!(mgr.m_game_over);
}

/// On equal counts the stalemate verdict is a draw.
#[test]
fn stalemate_draw_verdict() {
    let mut board = GameBoard::new();
    board.set_cell(&Position::new(3, 3), Cell::Empty);
    board.set_cell(&Position::new(3, 4), Cell::Empty);
    board.set_cell(&Position::new(4, 3), Cell::Empty);
    board.set_cell(&Position::new(4, 4), Cell::Empty);
    board.set_cell(&Position::new(0, 0), Cell::Black);
    board.set_cell(&Position::new(7, 7), Cell::White);
    let mut mgr = GameManager::with_board(board, TURN_WHITE);
    assert!(!mgr.advance_to_next_turn());
    assert!(mgr.m_game_over);
    assert_eq!(mgr.print_game_result(), "Draw!");
}

/// The side-to-move mapping and the coordinate characters.
#[test]
fn colors_and_coordinate_chars() {
    assert_eq!(get_color_from_turn(TURN_WHITE), (Cell::White, Cell::Black));
    assert_eq!(get_color_from_turn(TURN_BLACK), (Cell::Black, Cell::White));
    assert!(is_valid_pos_char('a'));
    assert!(is_valid_pos_char('h'));
    assert!(!is_valid_pos_char('i'));
    assert!(!is_valid_pos_char('A'));
    assert!(!is_valid_pos_char('9'));
}
