//! The textual face of the game: decoding a typed move, rendering the grid,
//! and parsing a rendered grid back.
//!
//! A rendered grid is 9 lines of 11 characters each: a header line holding
//! the column letters, then one line per row with its row letter, a space,
//! the 8 cell glyphs, and a newline.

use vstd::prelude::*;

use crate::board::{Board, board_wf, cell_at};
use crate::cell::Cell;

verus! {

/// The letter labelling row or column `k`.
pub open spec fn label_char(k: int) -> char {
    if k == 0 {
        'a'
    } else if k == 1 {
        'b'
    } else if k == 2 {
        'c'
    } else if k == 3 {
        'd'
    } else if k == 4 {
        'e'
    } else if k == 5 {
        'f'
    } else if k == 6 {
        'g'
    } else {
        'h'
    }
}

/// Positions of a rendered grid that hold a cell glyph: lines after the
/// header, columns after the row label, before the newline.
pub open spec fn is_cell_pos(p: int) -> bool {
    p >= 11 && 2 <= p % 11 <= 9
}

/// The fixed frame of a rendered grid: spaces and letters of the header
/// line, row labels, and newlines.
pub open spec fn fixed_char(p: int) -> char {
    let line = p / 11;
    let off = p % 11;
    if line == 0 {
        if off <= 1 {
            ' '
        } else if off == 10 {
            '\n'
        } else {
            label_char(off - 2)
        }
    } else {
        if off == 0 {
            label_char(line - 1)
        } else if off == 1 {
            ' '
        } else {
            '\n'
        }
    }
}

/// The character at position `p` of board `b`'s rendering.
pub open spec fn render_char(b: Seq<Cell>, p: int) -> char {
    if is_cell_pos(p) {
        cell_at(b, p / 11 - 1, p % 11 - 2).to_char_spec()
    } else {
        fixed_char(p)
    }
}

/// The full rendering of board `b`: 9 lines of 11 characters.
pub open spec fn render_spec(b: Seq<Cell>) -> Seq<char> {
    Seq::new(99, |p: int| render_char(b, p))
}

/// The cell a glyph stands for, if any.
pub open spec fn cell_of_char(ch: char) -> Option<Cell> {
    if ch == '.' {
        Some(Cell::Empty)
    } else if ch == 'B' {
        Some(Cell::Black)
    } else if ch == 'W' {
        Some(Cell::White)
    } else {
        None
    }
}

/// The position of cell `i` (row-major) inside a rendered grid.
pub open spec fn cell_pos(i: int) -> int {
    13 + (i / 8) * 11 + i % 8
}

/// The text is a well-formed rendered grid: right length, the fixed frame
/// in place, and a valid glyph at every cell position.
pub open spec fn parse_ok(s: Seq<char>) -> bool {
    &&& s.len() == 99
    &&& forall|p: int| 0 <= p < 99 && !is_cell_pos(p) ==> #[trigger] s[p] == fixed_char(p)
    &&& forall|p: int| 0 <= p < 99 && is_cell_pos(p) ==> (#[trigger] cell_of_char(s[p])) is Some
}

/// The 64 cells read off a well-formed rendered grid.
pub open spec fn parse_cells(s: Seq<char>) -> Seq<Cell> {
    Seq::new(64, |i: int| cell_of_char(s[cell_pos(i)]).unwrap())
}

/// What parsing a text yields: the grid, if the text is a rendering.
pub open spec fn parse_spec(s: Seq<char>) -> Option<Seq<Cell>> {
    if parse_ok(s) {
        Some(parse_cells(s))
    } else {
        None
    }
}

/// Whether a typed character names a row or column, `'a'` through `'h'`.
pub open spec fn is_coord_char(ch: char) -> bool {
    'a' as u32 <= ch as u32 <= 'h' as u32
}

/// A typed move decoded: exactly two characters, each `'a'` through `'h'`,
/// row letter first; anything else is rejected.
pub open spec fn decode_spec(s: Seq<char>) -> Option<(usize, usize)> {
    if s.len() == 2 && is_coord_char(s[0]) && is_coord_char(s[1]) {
        Some(
            (
                (s[0] as u32 - 'a' as u32) as usize,
                (s[1] as u32 - 'a' as u32) as usize,
            ),
        )
    } else {
        None
    }
}

/// Decodes one typed line into a `(row, col)` pair, rejecting any line that
/// is not exactly two letters in `'a'..='h'`. Out-of-alphabet characters
/// never reach the board.
pub fn decode_move(s: &str) -> (r: Option<(usize, usize)>)
    ensures
        r == decode_spec(s@),
{
    if s.unicode_len() != 2 {
        return None;
    }
    let c0 = s.get_char(0);
    let c1 = s.get_char(1);
    let base: u32 = 'a' as u32;
    let top: u32 = 'h' as u32;
    let v0: u32 = c0 as u32;
    let v1: u32 = c1 as u32;
    if v0 < base || v0 > top || v1 < base || v1 > top {
        return None;
    }
    Some(((v0 - base) as usize, (v1 - base) as usize))
}

/// Position facts for cell `i` of a rendered grid.
proof fn lemma_cell_pos_facts(i: int)
    requires
        0 <= i < 64,
    ensures
        11 <= cell_pos(i) < 99,
        is_cell_pos(cell_pos(i)),
        cell_pos(i) / 11 == 1 + i / 8,
        cell_pos(i) % 11 == 2 + i % 8,
        (cell_pos(i) / 11 - 1) * 8 + (cell_pos(i) % 11 - 2) == i,
{
    let a = i / 8;
    let r = i % 8;
    assert(i == 8 * a + r && 0 <= r < 8 && 0 <= a < 8) by (nonlinear_arith)
        requires
            a == i / 8,
            r == i % 8,
            0 <= i < 64,
    ;
    let p = cell_pos(i);
    assert(p == (a + 1) * 11 + (2 + r));
    vstd::arithmetic::div_mod::lemma_fundamental_div_mod_converse(p, 11, a + 1, 2 + r);
}

/// Rendering then re-parsing a board's textual grid reproduces the
/// identical cell layout.
pub proof fn lemma_render_parse_round_trip(b: Seq<Cell>)
    requires
        board_wf(b),
    ensures
        parse_spec(render_spec(b)) == Some(b),
{
    let s = render_spec(b);
    assert forall|p: int| 0 <= p < 99 && is_cell_pos(p) implies (#[trigger] cell_of_char(
        s[p],
    )) is Some by {
        let cell = cell_at(b, p / 11 - 1, p % 11 - 2);
        assert(s[p] == cell.to_char_spec());
    };
    assert(parse_ok(s));
    assert forall|i: int| 0 <= i < 64 implies #[trigger] parse_cells(s)[i] == b[i] by {
        lemma_cell_pos_facts(i);
        let p = cell_pos(i);
        assert(s[p] == cell_at(b, i / 8, i % 8).to_char_spec());
        assert(i / 8 * 8 + i % 8 == i && 0 <= i / 8 < 8 && 0 <= i % 8 < 8) by (nonlinear_arith)
            requires
                0 <= i < 64,
        ;
        assert(cell_at(b, i / 8, i % 8) == b[i]);
    };
    assert(parse_cells(s) =~= b);
}

/// The letter labelling row or column `k`.
fn label(k: usize) -> (c: char)
    requires
        k < 8,
    ensures
        c == label_char(k as int),
{
    if k == 0 {
        'a'
    } else if k == 1 {
        'b'
    } else if k == 2 {
        'c'
    } else if k == 3 {
        'd'
    } else if k == 4 {
        'e'
    } else if k == 5 {
        'f'
    } else if k == 6 {
        'g'
    } else {
        'h'
    }
}

impl Board {
    /// The textual grid: a header of column letters, then one labelled line
    /// per row, `.` for empty and one glyph per colour.
    pub fn render(&self) -> (out: Vec<char>)
        requires
            board_wf(self@),
        ensures
            out@ == render_spec(self@),
    {
        let mut out: Vec<char> = Vec::new();
        for p in 0..99usize
            invariant
                board_wf(self@),
                out@.len() == p,
                forall|q: int| 0 <= q < p ==> #[trigger] out@[q] == render_char(self@, q),
        {
            let line: usize = p / 11;
            let off: usize = p % 11;
            let ch: char;
            if line >= 1 && off >= 2 && off <= 9 {
                ch = self.get_cell(line - 1, off - 2).to_char();
            } else if line == 0 {
                if off <= 1 {
                    ch = ' ';
                } else if off == 10 {
                    ch = '\n';
                } else {
                    ch = label(off - 2);
                }
            } else {
                if off == 0 {
                    ch = label(line - 1);
                } else if off == 1 {
                    ch = ' ';
                } else {
                    ch = '\n';
                }
            }
            out.push(ch);
        }
        proof {
            assert(out@ =~= render_spec(self@));
        }
        out
    }

    /// Parses a textual grid back into a board; rejects any text that is
    /// not exactly a rendering.
    pub fn parse(input: &Vec<char>) -> (r: Option<Board>)
        ensures
            match r {
                Some(b) => parse_spec(input@) == Some(b@) && board_wf(b@),
                None => parse_spec(input@) is None,
            },
    {
        if input.len() != 99 {
            return None;
        }
        for p in 0..99usize
            invariant
                input@.len() == 99,
                forall|q: int|
                    0 <= q < p && !is_cell_pos(q) ==> #[trigger] input@[q] == fixed_char(q),
                forall|q: int|
                    0 <= q < p && is_cell_pos(q) ==> (#[trigger] cell_of_char(input@[q])) is Some,
        {
            let line: usize = p / 11;
            let off: usize = p % 11;
            let ch: char = input[p];
            proof {
                vstd::arithmetic::div_mod::lemma_fundamental_div_mod(p as int, 11);
            }
            if line >= 1 && off >= 2 && off <= 9 {
                proof {
                    assert(is_cell_pos(p as int));
                }
                if !(ch == '.' || ch == 'B' || ch == 'W') {
                    proof {
                        assert(cell_of_char(input@[p as int]) is None);
                        assert(!parse_ok(input@));
                    }
                    return None;
                }
            } else {
                let expected: char;
                if line == 0 {
                    if off <= 1 {
                        expected = ' ';
                    } else if off == 10 {
                        expected = '\n';
                    } else {
                        expected = label(off - 2);
                    }
                } else {
                    if off == 0 {
                        expected = label(line - 1);
                    } else if off == 1 {
                        expected = ' ';
                    } else {
                        expected = '\n';
                    }
                }
                proof {
                    assert(!is_cell_pos(p as int));
                    assert(expected == fixed_char(p as int));
                }
                if ch != expected {
                    proof {
                        assert(!parse_ok(input@));
                    }
                    return None;
                }
            }
        }
        proof {
            assert(parse_ok(input@));
        }
        let mut cells: Vec<Cell> = Vec::new();
        for i in 0..64usize
            invariant
                input@.len() == 99,
                parse_ok(input@),
                cells@.len() == i,
                forall|k: int| 0 <= k < i ==> #[trigger] cells@[k] == parse_cells(input@)[k],
        {
            proof {
                lemma_cell_pos_facts(i as int);
            }
            let a: usize = i / 8;
            let r: usize = i % 8;
            let p: usize = 13 + a * 11 + r;
            let ch: char = input[p];
            let cell: Cell;
            if ch == '.' {
                cell = Cell::Empty;
            } else if ch == 'B' {
                cell = Cell::Black;
            } else {
                proof {
                    assert(cell_of_char(input@[p as int]) is Some);
                }
                cell = Cell::White;
            }
            cells.push(cell);
        }
        proof {
            assert(cells@ =~= parse_cells(input@));
        }
        Some(Board::from_exact_cells(cells))
    }
}

} // verus!
