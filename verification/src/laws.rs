//! Game-wide laws: facts that tie legality, capture propagation and piece
//! counting together, proved once over the board model.

use vstd::prelude::*;

use crate::board::{
    board_after_move, board_wf, cell_at, cell_flipped, count_color, dir_captures, dir_flips_at,
    initial_board, is_legal, line_captures, ray_col, ray_row,
};
use crate::cell::Cell;

verus! {

/// Keeping every cell of a colour keeps at least its count.
proof fn lemma_count_pointwise(b1: Seq<Cell>, b2: Seq<Cell>, color: Cell)
    requires
        b1.len() == b2.len(),
        forall|i: int| 0 <= i < b1.len() && b1[i] == color ==> #[trigger] b2[i] == color,
    ensures
        count_color(b2, color) >= count_color(b1, color),
    decreases b1.len(),
{
    if b1.len() > 0 {
        let c1 = b1.drop_last();
        let c2 = b2.drop_last();
        assert forall|i: int| 0 <= i < c1.len() && c1[i] == color implies #[trigger] c2[i]
            == color by {
            assert(b1[i] == color);
            assert(b2[i] == color);
        };
        lemma_count_pointwise(c1, c2, color);
        if b1.last() == color {
            assert(b2[b1.len() - 1] == color);
        }
    }
}

/// Keeping every cell of a colour and gaining one more strictly grows the
/// count.
proof fn lemma_count_pointwise_strict(b1: Seq<Cell>, b2: Seq<Cell>, color: Cell, w: int)
    requires
        b1.len() == b2.len(),
        forall|i: int| 0 <= i < b1.len() && b1[i] == color ==> #[trigger] b2[i] == color,
        0 <= w < b1.len(),
        b1[w] != color,
        b2[w] == color,
    ensures
        count_color(b2, color) > count_color(b1, color),
    decreases b1.len(),
{
    let c1 = b1.drop_last();
    let c2 = b2.drop_last();
    assert forall|i: int| 0 <= i < c1.len() && c1[i] == color implies #[trigger] c2[i]
        == color by {
        assert(b1[i] == color);
        assert(b2[i] == color);
    };
    if w == b1.len() - 1 {
        lemma_count_pointwise(c1, c2, color);
    } else {
        lemma_count_pointwise_strict(c1, c2, color, w);
        if b1.last() == color {
            assert(b2[b1.len() - 1] == color);
        }
    }
}

/// Losing a colour at exactly one cell and matching it elsewhere drops the
/// count by one.
proof fn lemma_count_except_one(b1: Seq<Cell>, b2: Seq<Cell>, color: Cell, w: int)
    requires
        b1.len() == b2.len(),
        forall|i: int| 0 <= i < b1.len() && i != w ==> ((b1[i] == color) <==> (#[trigger] b2[i]
            == color)),
        0 <= w < b1.len(),
        b1[w] == color,
        b2[w] != color,
    ensures
        count_color(b2, color) + 1 == count_color(b1, color),
    decreases b1.len(),
{
    let c1 = b1.drop_last();
    let c2 = b2.drop_last();
    if w == b1.len() - 1 {
        assert forall|i: int| 0 <= i < c1.len() && c1[i] == color implies #[trigger] c2[i]
            == color by {
            assert(b1[i] == color);
            assert(b2[i] == color);
        };
        assert forall|i: int| 0 <= i < c2.len() && c2[i] == color implies #[trigger] c1[i]
            == color by {
            assert(b2[i] == color);
            assert(b1[i] == color);
        };
        lemma_count_pointwise(c1, c2, color);
        lemma_count_pointwise(c2, c1, color);
    } else {
        assert forall|i: int| 0 <= i < c1.len() && i != w implies ((c1[i] == color) <==> (
        #[trigger] c2[i] == color)) by {
            assert(((b1[i] == color) <==> (b2[i] == color)));
        };
        lemma_count_except_one(c1, c2, color, w);
        if b1.last() == color {
            assert(b2[b1.len() - 1] == color);
        }
        if b2.last() == color {
            assert(b1[b1.len() - 1] == color);
        }
    }
}

/// Every cell is empty, black or white, so the three counts sum to the
/// number of cells.
proof fn lemma_counts_sum_len(b: Seq<Cell>)
    ensures
        count_color(b, Cell::Black) + count_color(b, Cell::White) + count_color(b, Cell::Empty)
            == b.len(),
    decreases b.len(),
{
    if b.len() > 0 {
        lemma_counts_sum_len(b.drop_last());
    }
}

/// Overwriting one cell adjusts a colour's count by the two contributions.
proof fn lemma_count_update(s: Seq<Cell>, k: int, v: Cell, color: Cell)
    requires
        0 <= k < s.len(),
    ensures
        count_color(s.update(k, v), color) + (if s[k] == color {
            1nat
        } else {
            0nat
        }) == count_color(s, color) + (if v == color {
            1nat
        } else {
            0nat
        }),
    decreases s.len(),
{
    let u = s.update(k, v);
    if k == s.len() - 1 {
        assert(u.drop_last() =~= s.drop_last());
        assert(u.last() == v);
    } else {
        assert(u.drop_last() =~= s.drop_last().update(k, v));
        assert(u.last() == s.last());
        lemma_count_update(s.drop_last(), k, v, color);
    }
}

/// A board of empty cells holds no disc of either colour.
proof fn lemma_count_all_empty(s: Seq<Cell>)
    requires
        forall|i: int| 0 <= i < s.len() ==> #[trigger] s[i] == Cell::Empty,
    ensures
        count_color(s, Cell::Black) == 0,
        count_color(s, Cell::White) == 0,
    decreases s.len(),
{
    if s.len() > 0 {
        lemma_count_all_empty(s.drop_last());
    }
}

/// What one cell of the board looks like after a move: the played square
/// gains the mover's colour, a flipped cell turns from the opponent's colour
/// to the mover's, and every other cell is untouched.
proof fn lemma_after_move_entry(b: Seq<Cell>, row: int, col: int, color: Cell, i: int)
    requires
        board_wf(b),
        is_legal(b, row, col, color),
        0 <= i < 64,
    ensures
        board_after_move(b, row, col, color)[i] == color || board_after_move(b, row, col, color)[i]
            == b[i],
        i == row * 8 + col ==> board_after_move(b, row, col, color)[i] == color && b[i]
            == Cell::Empty,
        i != row * 8 + col && board_after_move(b, row, col, color)[i] != b[i] ==> b[i]
            == color.opposite_spec() && board_after_move(b, row, col, color)[i] == color,
{
    let b2 = board_after_move(b, row, col, color);
    let r = i / 8;
    let c = i % 8;
    assert(i == r * 8 + c && 0 <= r < 8 && 0 <= c < 8) by (nonlinear_arith)
        requires
            r == i / 8,
            c == i % 8,
            0 <= i < 64,
    ;
    if i == row * 8 + col {
        assert(r == row && c == col);
        assert(b[i] == cell_at(b, row, col));
    } else {
        if cell_flipped(b, row, col, color, r, c) {
            let (dd, jj) = choose|dd: int, jj: int|
                0 <= dd < 8 && #[trigger] dir_flips_at(b, row, col, dd, color, jj) && r == ray_row(
                    row,
                    dd,
                    jj,
                ) && c == ray_col(col, dd, jj);
            let nn = choose|nn: int|
                #[trigger] line_captures(b, row, col, dd, color, nn) && 1 <= jj <= nn;
            assert(crate::board::ray_cell(b, row, col, dd, jj) == color.opposite_spec());
            assert(b[i] == color.opposite_spec());
        }
    }
}

/// A move is never legal on an occupied square, whatever the mover.
pub proof fn lemma_occupied_never_legal(b: Seq<Cell>, row: int, col: int, color: Cell)
    requires
        cell_at(b, row, col) != Cell::Empty,
    ensures
        !is_legal(b, row, col, color),
{
}

/// Capture application and legality agree direction by direction: a
/// direction contributes flipped cells to the move exactly when it
/// independently validates as a capture line.
pub proof fn lemma_direction_flips_iff_captures(
    b: Seq<Cell>,
    row: int,
    col: int,
    d: int,
    color: Cell,
)
    ensures
        (exists|j: int| dir_flips_at(b, row, col, d, color, j)) <==> dir_captures(
            b,
            row,
            col,
            d,
            color,
        ),
{
    if exists|j: int| dir_flips_at(b, row, col, d, color, j) {
        let j = choose|j: int| dir_flips_at(b, row, col, d, color, j);
        let n = choose|n: int| #[trigger] line_captures(b, row, col, d, color, n) && 1 <= j <= n;
        assert(dir_captures(b, row, col, d, color));
    }
    if dir_captures(b, row, col, d, color) {
        let n = choose|n: int| line_captures(b, row, col, d, color, n);
        assert(dir_flips_at(b, row, col, d, color, 1));
    }
}

/// After a legal move the played square holds the mover's colour and the
/// mover's piece count strictly increases.
pub proof fn lemma_move_places_and_gains(b: Seq<Cell>, row: int, col: int, color: Cell)
    requires
        board_wf(b),
        is_legal(b, row, col, color),
    ensures
        cell_at(board_after_move(b, row, col, color), row, col) == color,
        count_color(board_after_move(b, row, col, color), color) > count_color(b, color),
{
    let b2 = board_after_move(b, row, col, color);
    let w = row * 8 + col;
    assert forall|i: int| 0 <= i < 64 && b[i] == color implies #[trigger] b2[i] == color by {
        lemma_after_move_entry(b, row, col, color, i);
    };
    lemma_after_move_entry(b, row, col, color, w);
    lemma_count_pointwise_strict(b, b2, color, w);
}

/// How many discs stand on the board in all.
pub open spec fn total_pieces(b: Seq<Cell>) -> nat {
    count_color(b, Cell::Black) + count_color(b, Cell::White)
}

/// One legal move adds exactly one disc in total: the placement adds one and
/// every flip conserves the sum.
pub proof fn lemma_move_adds_one_piece(b: Seq<Cell>, row: int, col: int, color: Cell)
    requires
        board_wf(b),
        is_legal(b, row, col, color),
    ensures
        total_pieces(board_after_move(b, row, col, color)) == total_pieces(b) + 1,
{
    let b2 = board_after_move(b, row, col, color);
    let w = row * 8 + col;
    assert forall|i: int|
        0 <= i < 64 && i != w implies ((b[i] == Cell::Empty) <==> (#[trigger] b2[i]
        == Cell::Empty)) by {
        lemma_after_move_entry(b, row, col, color, i);
    };
    lemma_after_move_entry(b, row, col, color, w);
    lemma_count_except_one(b, b2, Cell::Empty, w);
    lemma_counts_sum_len(b);
    lemma_counts_sum_len(b2);
}

/// The starting board holds two discs of each colour: four in all.
pub proof fn lemma_initial_counts()
    ensures
        count_color(initial_board(), Cell::Black) == 2,
        count_color(initial_board(), Cell::White) == 2,
        total_pieces(initial_board()) == 4,
{
    let e = Seq::<Cell>::new(64, |i: int| Cell::Empty);
    let u1 = e.update(27, Cell::White);
    let u2 = u1.update(28, Cell::Black);
    let u3 = u2.update(35, Cell::Black);
    let u4 = u3.update(36, Cell::White);
    assert(initial_board() =~= u4);
    lemma_count_all_empty(e);
    lemma_count_update(e, 27, Cell::White, Cell::Black);
    lemma_count_update(e, 27, Cell::White, Cell::White);
    lemma_count_update(u1, 28, Cell::Black, Cell::Black);
    lemma_count_update(u1, 28, Cell::Black, Cell::White);
    lemma_count_update(u2, 35, Cell::Black, Cell::Black);
    lemma_count_update(u2, 35, Cell::Black, Cell::White);
    lemma_count_update(u3, 36, Cell::White, Cell::Black);
    lemma_count_update(u3, 36, Cell::White, Cell::White);
}

/// A move as a plain record: coordinates and mover.
pub struct MoveRecord {
    pub row: int,
    pub col: int,
    pub color: Cell,
}

/// Every move of the sequence is legal on the board it is played on.
pub open spec fn moves_all_legal(b: Seq<Cell>, moves: Seq<MoveRecord>) -> bool
    decreases moves.len(),
{
    moves.len() == 0 || {
        is_legal(b, moves[0].row, moves[0].col, moves[0].color) && moves_all_legal(
            board_after_move(b, moves[0].row, moves[0].col, moves[0].color),
            moves.drop_first(),
        )
    }
}

/// The board after playing the whole sequence in order.
pub open spec fn play_moves(b: Seq<Cell>, moves: Seq<MoveRecord>) -> Seq<Cell>
    decreases moves.len(),
{
    if moves.len() == 0 {
        b
    } else {
        play_moves(board_after_move(b, moves[0].row, moves[0].col, moves[0].color), moves.drop_first())
    }
}

/// Playing legal moves adds one disc per move.
pub proof fn lemma_total_after_moves(b: Seq<Cell>, moves: Seq<MoveRecord>)
    requires
        board_wf(b),
        moves_all_legal(b, moves),
    ensures
        total_pieces(play_moves(b, moves)) == total_pieces(b) + moves.len(),
    decreases moves.len(),
{
    if moves.len() > 0 {
        let b2 = board_after_move(b, moves[0].row, moves[0].col, moves[0].color);
        lemma_move_adds_one_piece(b, moves[0].row, moves[0].col, moves[0].color);
        lemma_total_after_moves(b2, moves.drop_first());
    }
}

/// After any sequence of legal moves from the start, the total piece count
/// is four plus the number of moves played: the four fixed starting discs,
/// one disc placed per move, and flips conserving the sum.
pub proof fn lemma_total_after_game(moves: Seq<MoveRecord>)
    requires
        moves_all_legal(initial_board(), moves),
    ensures
        total_pieces(play_moves(initial_board(), moves)) == 4 + moves.len(),
{
    lemma_initial_counts();
    lemma_total_after_moves(initial_board(), moves);
}

} // verus!
