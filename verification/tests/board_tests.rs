use othello::board::Board;
use othello::cell::Cell;

fn legal_moves(b: &Board, color: Cell) -> Vec<(usize, usize)> {
    let mut out = Vec::new();
    for row in 0..8 {
        for col in 0..8 {
            if b.is_valid_move(row, col, color) {
                out.push((row, col));
            }
        }
    }
    out
}

#[test]
fn opposite_swaps_players() {
    assert_eq!(Cell::Black.opposite(), Cell::White);
    assert_eq!(Cell::White.opposite(), Cell::Black);
    assert_eq!(Cell::Empty.opposite(), Cell::Empty);
}

#[test]
fn glyphs_per_cell() {
    assert_eq!(Cell::Empty.to_char(), '.');
    assert_eq!(Cell::Black.to_char(), 'B');
    assert_eq!(Cell::White.to_char(), 'W');
}

#[test]
fn initial_layout_and_counts() {
    let b = Board::new();
    assert_eq!(b.get_cell(3, 3), Cell::White);
    assert_eq!(b.get_cell(3, 4), Cell::Black);
    assert_eq!(b.get_cell(4, 3), Cell::Black);
    assert_eq!(b.get_cell(4, 4), Cell::White);
    assert_eq!(b.get_cell(0, 0), Cell::Empty);
    assert_eq!(b.count_pieces(), (2, 2));
}

#[test]
fn initial_black_moves_are_the_four_diagonal_entries() {
    let b = Board::new();
    let moves = legal_moves(&b, Cell::Black);
    assert_eq!(moves, vec![(2, 3), (3, 2), (4, 5), (5, 4)]);
}

#[test]
fn occupied_cells_are_never_legal() {
    let b = Board::new();
    for &color in &[Cell::Black, Cell::White] {
        assert!(!b.is_valid_move(3, 3, color));
        assert!(!b.is_valid_move(4, 3, color));
    }
}

#[test]
fn out_of_range_is_false_not_a_panic() {
    let b = Board::new();
    assert!(!b.is_valid_move(8, 0, Cell::Black));
    assert!(!b.is_valid_move(0, 8, Cell::Black));
    assert!(!b.is_valid_move(usize::MAX, usize::MAX, Cell::Black));
}

#[test]
fn empty_mover_has_no_legal_move() {
    let b = Board::new();
    assert!(!b.is_valid_move(2, 3, Cell::Empty));
    assert!(!b.has_valid_moves(Cell::Empty));
}

#[test]
fn first_black_move_flips_the_centre_disc() {
    let mut b = Board::new();
    assert!(b.is_valid_move(2, 3, Cell::Black));
    b.apply_move(2, 3, Cell::Black);
    assert_eq!(b.get_cell(2, 3), Cell::Black);
    assert_eq!(b.get_cell(3, 3), Cell::Black);
    assert_eq!(b.count_pieces(), (4, 1));
}

#[test]
fn mover_count_strictly_increases_and_total_grows_by_one() {
    let mut b = Board::new();
    let (black_before, white_before) = b.count_pieces();
    b.apply_move(2, 3, Cell::Black);
    let (black_after, white_after) = b.count_pieces();
    assert!(black_after > black_before);
    assert_eq!(
        black_after + white_after,
        black_before + white_before + 1
    );
}

#[test]
fn capture_line_flips_the_whole_run() {
    let mut cells = vec![Cell::Empty; 64];
    cells[0] = Cell::Black; // (0,0)
    cells[1] = Cell::White; // (0,1)
    cells[2] = Cell::White; // (0,2)
    let mut b = Board::from_cells(cells).unwrap();
    assert!(b.is_valid_move(0, 3, Cell::Black));
    b.apply_move(0, 3, Cell::Black);
    assert_eq!(b.get_cell(0, 1), Cell::Black);
    assert_eq!(b.get_cell(0, 2), Cell::Black);
    assert_eq!(b.count_pieces(), (4, 0));
}

#[test]
fn only_validating_directions_contribute_flips() {
    // One capture line runs left from the played square; the unclosed run
    // below it must stay white.
    let mut cells = vec![Cell::Empty; 64];
    cells[0] = Cell::Black; // (0,0)
    cells[1] = Cell::White; // (0,1)
    cells[2] = Cell::White; // (0,2)
    cells[1 * 8 + 3] = Cell::White; // (1,3), no closing black disc below
    let mut b = Board::from_cells(cells).unwrap();
    assert!(b.is_valid_move(0, 3, Cell::Black));
    b.apply_move(0, 3, Cell::Black);
    assert_eq!(b.get_cell(0, 1), Cell::Black);
    assert_eq!(b.get_cell(0, 2), Cell::Black);
    assert_eq!(b.get_cell(1, 3), Cell::White);
}

#[test]
fn zero_length_runs_never_validate() {
    // A lone empty square beside the mover's own disc captures nothing.
    let mut cells = vec![Cell::Empty; 64];
    cells[0] = Cell::Black;
    let b = Board::from_cells(cells).unwrap();
    assert!(!b.is_valid_move(0, 1, Cell::Black));
}

#[test]
fn full_board_has_no_moves_for_either_colour() {
    let cells = vec![Cell::Black; 64];
    let b = Board::from_cells(cells).unwrap();
    assert!(!b.has_valid_moves(Cell::Black));
    assert!(!b.has_valid_moves(Cell::White));
}

#[test]
fn sparse_dead_board_has_no_moves_for_either_colour() {
    let mut cells = vec![Cell::Empty; 64];
    cells[0] = Cell::Black;
    let b = Board::from_cells(cells).unwrap();
    assert!(!b.has_valid_moves(Cell::Black));
    assert!(!b.has_valid_moves(Cell::White));
}

#[test]
fn from_cells_rejects_wrong_lengths() {
    assert!(Board::from_cells(vec![Cell::Empty; 63]).is_none());
    assert!(Board::from_cells(vec![Cell::Empty; 65]).is_none());
    assert!(Board::from_cells(Vec::new()).is_none());
}

#[test]
fn total_pieces_is_four_plus_moves_applied() {
    let mut b = Board::new();
    let mut applied = 0;
    // Greedily play the first legal move for the alternating player, with a
    // pass when blocked, until neither side can move.
    let mut current = Cell::Black;
    loop {
        if !b.has_valid_moves(Cell::Black) && !b.has_valid_moves(Cell::White) {
            break;
        }
        if b.has_valid_moves(current) {
            let moves = legal_moves(&b, current);
            let (row, col) = moves[0];
            b.apply_move(row, col, current);
            applied += 1;
            let (black, white) = b.count_pieces();
            assert_eq!(black + white, 4 + applied);
        }
        current = current.opposite();
    }
    let (black, white) = b.count_pieces();
    assert_eq!(black + white, 4 + applied);
}
