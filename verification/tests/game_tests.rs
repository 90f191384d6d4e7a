use othello::board::Board;
use othello::cell::Cell;
use othello::game::{Game, GameResult, TurnStatus};

#[test]
fn new_game_starts_with_black_awaiting_a_move() {
    let g = Game::new();
    assert_eq!(g.current_player(), Cell::Black);
    assert_eq!(g.turn_status(), TurnStatus::AwaitingMove);
    assert_eq!(g.board().count_pieces(), (2, 2));
}

#[test]
fn illegal_move_changes_nothing() {
    let mut g = Game::new();
    assert!(!g.try_move(0, 0));
    assert_eq!(g.current_player(), Cell::Black);
    assert_eq!(g.board().count_pieces(), (2, 2));
    assert!(!g.try_move(9, 9));
    assert_eq!(g.current_player(), Cell::Black);
}

#[test]
fn legal_move_applies_and_hands_the_turn_over() {
    let mut g = Game::new();
    assert!(g.try_move(2, 3));
    assert_eq!(g.current_player(), Cell::White);
    assert_eq!(g.board().count_pieces(), (4, 1));
    assert_eq!(g.board().get_cell(3, 3), Cell::Black);
}

#[test]
fn result_compares_counts() {
    let g = Game::new();
    assert_eq!(g.result(), GameResult::Draw);
    let mut g2 = Game::new();
    g2.try_move(2, 3);
    assert_eq!(g2.result(), GameResult::BlackWins(3));
}

#[test]
fn full_board_is_game_over_with_a_sweep_win() {
    let b = Board::from_cells(vec![Cell::Black; 64]).unwrap();
    let g = Game::with_board(b, Cell::White).unwrap();
    assert_eq!(g.turn_status(), TurnStatus::GameOver);
    assert_eq!(g.result(), GameResult::BlackWins(64));
}

#[test]
fn blocked_player_forfeits_and_the_opponent_plays() {
    // White at (0,0), black at (0,1): black has no capture anywhere, white
    // can play at (0,2).
    let mut cells = vec![Cell::Empty; 64];
    cells[0] = Cell::White;
    cells[1] = Cell::Black;
    let b = Board::from_cells(cells).unwrap();
    let mut g = Game::with_board(b, Cell::Black).unwrap();
    assert_eq!(g.turn_status(), TurnStatus::Forfeit);
    g.pass_turn();
    assert_eq!(g.current_player(), Cell::White);
    assert_eq!(g.turn_status(), TurnStatus::AwaitingMove);
    assert!(g.try_move(0, 2));
    assert_eq!(g.board().get_cell(0, 1), Cell::White);
}

#[test]
fn with_board_rejects_bad_states() {
    let b = Board::new();
    assert!(Game::with_board(b, Cell::Empty).is_none());
}

#[test]
fn greedy_playthrough_reaches_a_terminal_state() {
    let mut g = Game::new();
    let mut guard = 0;
    loop {
        match g.turn_status() {
            TurnStatus::GameOver => break,
            TurnStatus::Forfeit => g.pass_turn(),
            TurnStatus::AwaitingMove => {
                let mut played = false;
                'outer: for row in 0..8 {
                    for col in 0..8 {
                        if g.try_move(row, col) {
                            played = true;
                            break 'outer;
                        }
                    }
                }
                assert!(played);
            },
        }
        guard += 1;
        assert!(guard < 200);
    }
    assert!(!g.board().has_valid_moves(Cell::Black));
    assert!(!g.board().has_valid_moves(Cell::White));
    let (black, white) = g.board().count_pieces();
    match g.result() {
        GameResult::BlackWins(n) => assert_eq!(n, black - white),
        GameResult::WhiteWins(n) => assert_eq!(n, white - black),
        GameResult::Draw => assert_eq!(black, white),
    }
}
