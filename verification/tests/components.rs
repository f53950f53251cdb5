use othello::board::GameBoard;
use othello::cache::BoardLUT;
use othello::cell::{Cell, TURN_BLACK, TURN_WHITE};
use othello::manager::GameManager;
use othello::position::Position;

/// Coordinates know whether they lie on the board.
#[test]
fn position_bounds() {
    assert!(Position::new(0, 0).is_in_bound());
    assert!(Position::new(7, 7).is_in_bound());
    assert!(Position::new(-1, 0).out_of_bounds());
    assert!(Position::new(0, 8).out_of_bounds());
    assert!(Position::new(8, 3).out_of_bounds());
}

/// The legal-move cache: insertion, membership and emptiness.
#[test]
fn cache_insert_contains() {
    let mut lut = BoardLUT::new();
    assert!(lut.is_empty());
    let pos = Position::new(2, 5);
    assert!(!lut.contains(&pos));
    lut.insert(&pos);
    assert!(lut.contains(&pos));
    assert!(!lut.is_empty());
    assert!(!lut.contains(&Position::new(5, 2)));
}

/// Black has exactly the four known opening destinations.
#[test]
fn opening_legal_moves() {
    let board = GameBoard::new();
    let moves = board.generate_next_available_moves(TURN_BLACK);
    let legal = [(2, 3), (3, 2), (4, 5), (5, 4)];
    for row in 0..8 {
        for col in 0..8 {
            let expected = legal.contains(&(row, col));
            assert_eq!(moves.contains(&Position::new(row as i8, col as i8)), expected);
        }
    }
}

/// Applying a move on the bare board flips the whole closed run.
#[test]
fn board_move_flips_run() {
    let mut board = GameBoard::new();
    // Top row: B W W _ ; Black plays at (0,3) and flips both White pieces.
    board.set_cell(&Position::new(0, 0), Cell::Black);
    board.set_cell(&Position::new(0, 1), Cell::White);
    board.set_cell(&Position::new(0, 2), Cell::White);
    let flipped = board.make_move(&Position::new(0, 3), Cell::Black, Cell::White);
    assert_eq!(flipped, 2);
    assert_eq!(board.at(&Position::new(0, 0)), Cell::Black);
    assert_eq!(board.at(&Position::new(0, 1)), Cell::Black);
    assert_eq!(board.at(&Position::new(0, 2)), Cell::Black);
    assert_eq!(board.at(&Position::new(0, 3)), Cell::Black);
    // The centre pieces are untouched.
    assert_eq!(board.at(&Position::new(3, 3)), Cell::White);
    assert_eq!(board.at(&Position::new(4, 4)), Cell::White);
}

/// Switching the turn flips the side flag and nothing else.
#[test]
fn switch_turn_flips_side() {
    let mut mgr = GameManager::new();
    assert_eq!(mgr.m_turn, TURN_BLACK);
    mgr.switch_turn();
    assert_eq!(mgr.m_turn, TURN_WHITE);
    mgr.switch_turn();
    assert_eq!(mgr.m_turn, TURN_BLACK);
    assert_eq!(mgr.m_num_white, 2);
    assert_eq!(mgr.m_num_black, 2);
}

/// Booking a committed move moves the flipped pieces between the scores.
#[test]
fn update_count_books_flips() {
    let mut mgr = GameManager::new();
    // Black is to move: two flips become three pieces gained for Black.
    mgr.update_count(2);
    assert_eq!(mgr.m_num_black, 5);
    assert_eq!(mgr.m_num_white, 0);
}
