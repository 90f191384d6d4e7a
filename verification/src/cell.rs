use vstd::prelude::*;

verus! {

/// One square of the grid: empty, or holding a disc of one player.
#[derive(Copy, Clone, PartialEq, Eq, Structural, Debug)]
pub enum Cell {
    Empty,
    Black,
    White,
}

impl Cell {
    /// The colour captured against `self`; `Empty` has no opponent and maps
    /// to itself.
    pub open spec fn opposite_spec(self) -> Cell {
        match self {
            Cell::Black => Cell::White,
            Cell::White => Cell::Black,
            Cell::Empty => Cell::Empty,
        }
    }

    /// True of the two disc colours, false of `Empty`.
    pub open spec fn is_player(self) -> bool {
        self != Cell::Empty
    }

    /// The glyph a cell is drawn with.
    pub open spec fn to_char_spec(self) -> char {
        match self {
            Cell::Empty => '.',
            Cell::Black => 'B',
            Cell::White => 'W',
        }
    }

    pub fn opposite(&self) -> (r: Cell)
        ensures
            r == self.opposite_spec(),
    {
        match self {
            Cell::Black => Cell::White,
            Cell::White => Cell::Black,
            Cell::Empty => Cell::Empty,
        }
    }

    pub fn to_char(&self) -> (r: char)
        ensures
            r == self.to_char_spec(),
    {
        match self {
            Cell::Empty => '.',
            Cell::Black => 'B',
            Cell::White => 'W',
        }
    }
}

} // verus!
