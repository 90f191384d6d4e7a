use vstd::prelude::*;

use crate::board::{
    Board, board_after_move, board_wf, count_color, has_move, initial_board, is_legal,
};
use crate::cell::Cell;

verus! {

/// What the current turn calls for.
#[derive(Copy, Clone, PartialEq, Eq, Structural, Debug)]
pub enum TurnStatus {
    /// Neither colour has a legal move: the game is over.
    GameOver,
    /// Only the current player is blocked: the turn is forfeit and passes.
    Forfeit,
    /// The current player has a legal move and must supply one.
    AwaitingMove,
}

/// The outcome of a finished game: the winner with its margin, or a draw.
#[derive(Copy, Clone, PartialEq, Eq, Structural, Debug)]
pub enum GameResult {
    BlackWins(usize),
    WhiteWins(usize),
    Draw,
}

/// What the turn calls for on board `b` with `cur` to move.
pub open spec fn turn_status_spec(b: Seq<Cell>, cur: Cell) -> TurnStatus {
    if !has_move(b, Cell::Black) && !has_move(b, Cell::White) {
        TurnStatus::GameOver
    } else if !has_move(b, cur) {
        TurnStatus::Forfeit
    } else {
        TurnStatus::AwaitingMove
    }
}

/// The outcome read off a board: the strictly greater count wins by the
/// numeric difference; equal counts draw.
pub open spec fn result_spec(b: Seq<Cell>) -> GameResult {
    let cb = count_color(b, Cell::Black);
    let cw = count_color(b, Cell::White);
    if cb > cw {
        GameResult::BlackWins((cb - cw) as usize)
    } else if cw > cb {
        GameResult::WhiteWins((cw - cb) as usize)
    } else {
        GameResult::Draw
    }
}

/// The game state: the board plus whose turn it is. The board is mutated
/// only through `try_move`, and the turn flips after each applied move or
/// forfeit.
pub struct Game {
    board: Board,
    current: Cell,
}

impl Game {
    /// The state is well formed: the grid has its 64 cells and the player
    /// to move is an actual player.
    pub closed spec fn wf(self) -> bool {
        board_wf(self.board@) && self.current.is_player()
    }

    /// The grid of the game's board.
    pub closed spec fn board_view(self) -> Seq<Cell> {
        self.board@
    }

    /// Whose turn it is.
    pub closed spec fn turn(self) -> Cell {
        self.current
    }

    /// A fresh game: the starting board, black to move.
    pub fn new() -> (g: Game)
        ensures
            g.wf(),
            g.board_view() == initial_board(),
            g.turn() == Cell::Black,
    {
        Game { board: Board::new(), current: Cell::Black }
    }

    /// A game resumed from an arbitrary position: rejects a malformed grid
    /// or a mover that is not a player.
    pub fn with_board(board: Board, current: Cell) -> (g: Option<Game>)
        ensures
            g is Some <==> board_wf(board@) && current.is_player(),
            g matches Some(gg) ==> gg.wf() && gg.board_view() == board@ && gg.turn() == current,
    {
        if board.is_well_formed() && !(current == Cell::Empty) {
            Some(Game { board, current })
        } else {
            None
        }
    }

    /// The player to move.
    pub fn current_player(&self) -> (c: Cell)
        ensures
            c == self.turn(),
    {
        self.current
    }

    /// The board, for rendering and inspection.
    pub fn board(&self) -> (b: &Board)
        ensures
            b@ == self.board_view(),
    {
        &self.board
    }

    /// What the current turn calls for, checked fresh from the board.
    pub fn turn_status(&self) -> (s: TurnStatus)
        requires
            self.wf(),
        ensures
            s == turn_status_spec(self.board_view(), self.turn()),
    {
        let black_can = self.board.has_valid_moves(Cell::Black);
        let white_can = self.board.has_valid_moves(Cell::White);
        if !black_can && !white_can {
            TurnStatus::GameOver
        } else {
            let cur_can = if self.current == Cell::Black {
                black_can
            } else {
                white_can
            };
            if !cur_can {
                TurnStatus::Forfeit
            } else {
                TurnStatus::AwaitingMove
            }
        }
    }

    /// Forfeits the turn: the board is untouched and the other player is to
    /// move.
    pub fn pass_turn(&mut self)
        requires
            old(self).wf(),
        ensures
            final(self).wf(),
            final(self).board_view() == old(self).board_view(),
            final(self).turn() == old(self).turn().opposite_spec(),
    {
        self.current = self.current.opposite();
    }

    /// Attempts the move `(row, col)` for the current player: if it is
    /// legal, applies it and flips the turn; otherwise leaves the state
    /// untouched. Out-of-range coordinates are simply illegal.
    pub fn try_move(&mut self, row: usize, col: usize) -> (ok: bool)
        requires
            old(self).wf(),
        ensures
            final(self).wf(),
            ok == is_legal(old(self).board_view(), row as int, col as int, old(self).turn()),
            ok ==> final(self).board_view() == board_after_move(
                old(self).board_view(),
                row as int,
                col as int,
                old(self).turn(),
            ) && final(self).turn() == old(self).turn().opposite_spec(),
            !ok ==> final(self).board_view() == old(self).board_view() && final(self).turn()
                == old(self).turn(),
    {
        if self.board.is_valid_move(row, col, self.current) {
            let mover = self.current;
            self.board.apply_move(row, col, mover);
            self.current = mover.opposite();
            true
        } else {
            false
        }
    }

    /// The outcome read off the current board; meaningful once the status
    /// is `GameOver`.
    pub fn result(&self) -> (r: GameResult)
        requires
            self.wf(),
        ensures
            r == result_spec(self.board_view()),
    {
        let (black, white) = self.board.count_pieces();
        if black > white {
            GameResult::BlackWins(black - white)
        } else if white > black {
            GameResult::WhiteWins(white - black)
        } else {
            GameResult::Draw
        }
    }
}

} // verus!
