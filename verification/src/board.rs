use vstd::prelude::*;

use crate::cell::Cell;

verus! {

/// Number of rows and of columns of the grid.
pub const BOARD_SIZE: usize = 8;

/// The 8x8 grid, stored row-major as 64 cells.
pub struct Board {
    cells: Vec<Cell>,
}

impl View for Board {
    type V = Seq<Cell>;

    closed spec fn view(&self) -> Seq<Cell> {
        self.cells@
    }
}

/// A well-formed board holds exactly the 64 cells of the 8x8 grid.
pub open spec fn board_wf(b: Seq<Cell>) -> bool {
    b.len() == 64
}

/// Whether `(r, c)` lies on the grid.
pub open spec fn in_bounds(r: int, c: int) -> bool {
    0 <= r < 8 && 0 <= c < 8
}

/// The cell at row `r`, column `c` of the row-major grid.
pub open spec fn cell_at(b: Seq<Cell>, r: int, c: int) -> Cell {
    b[r * 8 + c]
}

/// Row step of direction `d`; the 8 directions are the vectors
/// `(dr, dc)` over `{-1, 0, 1}` without `(0, 0)`, in row-major order.
pub open spec fn dir_dr(d: int) -> int {
    if d == 0 || d == 1 || d == 2 {
        -1
    } else if d == 3 || d == 4 {
        0
    } else {
        1
    }
}

/// Column step of direction `d`.
pub open spec fn dir_dc(d: int) -> int {
    if d == 0 || d == 3 || d == 5 {
        -1
    } else if d == 1 || d == 6 {
        0
    } else {
        1
    }
}

/// Row of the `j`-th step outward from `row` along direction `d`.
pub open spec fn ray_row(row: int, d: int, j: int) -> int {
    row + j * dir_dr(d)
}

/// Column of the `j`-th step outward from `col` along direction `d`.
pub open spec fn ray_col(col: int, d: int, j: int) -> int {
    col + j * dir_dc(d)
}

/// Whether the `j`-th step outward from `(row, col)` along `d` is on the grid.
pub open spec fn ray_ok(row: int, col: int, d: int, j: int) -> bool {
    in_bounds(ray_row(row, d, j), ray_col(col, d, j))
}

/// The cell at the `j`-th step outward from `(row, col)` along `d`.
pub open spec fn ray_cell(b: Seq<Cell>, row: int, col: int, d: int, j: int) -> Cell {
    cell_at(b, ray_row(row, d, j), ray_col(col, d, j))
}

/// Direction `d` holds a capture line of length `n` for `color` at
/// `(row, col)`: `n >= 1` opponent discs immediately outward, closed by one
/// of `color`'s own discs.
pub open spec fn line_captures(
    b: Seq<Cell>,
    row: int,
    col: int,
    d: int,
    color: Cell,
    n: int,
) -> bool {
    &&& 1 <= n
    &&& forall|j: int| 1 <= j <= n ==> #[trigger] ray_ok(row, col, d, j)
    &&& forall|j: int|
        1 <= j <= n ==> #[trigger] ray_cell(b, row, col, d, j) == color.opposite_spec()
    &&& ray_ok(row, col, d, n + 1)
    &&& ray_cell(b, row, col, d, n + 1) == color
}

/// Direction `d` validates as a capture line for `color` at `(row, col)`.
pub open spec fn dir_captures(b: Seq<Cell>, row: int, col: int, d: int, color: Cell) -> bool {
    exists|n: int| line_captures(b, row, col, d, color, n)
}

/// Placing `color` at `(row, col)` is legal: the square is on the grid and
/// empty, the mover is a player, and some direction yields a capture line.
pub open spec fn is_legal(b: Seq<Cell>, row: int, col: int, color: Cell) -> bool {
    &&& in_bounds(row, col)
    &&& cell_at(b, row, col) == Cell::Empty
    &&& color.is_player()
    &&& exists|d: int| 0 <= d < 8 && #[trigger] dir_captures(b, row, col, d, color)
}

/// The `j`-th step of direction `d` lies within that direction's capture
/// line, so applying the move flips it.
pub open spec fn dir_flips_at(
    b: Seq<Cell>,
    row: int,
    col: int,
    d: int,
    color: Cell,
    j: int,
) -> bool {
    exists|n: int| #[trigger] line_captures(b, row, col, d, color, n) && 1 <= j <= n
}

/// `(r, c)` is flipped by playing `color` at `(row, col)`, considering only
/// the directions below `dlim`.
pub open spec fn cell_flipped_upto(
    b: Seq<Cell>,
    row: int,
    col: int,
    color: Cell,
    dlim: int,
    r: int,
    c: int,
) -> bool {
    exists|d: int, j: int|
        0 <= d < dlim && #[trigger] dir_flips_at(b, row, col, d, color, j) && r == ray_row(
            row,
            d,
            j,
        ) && c == ray_col(col, d, j)
}

/// `(r, c)` is flipped by playing `color` at `(row, col)`.
pub open spec fn cell_flipped(b: Seq<Cell>, row: int, col: int, color: Cell, r: int, c: int) -> bool {
    cell_flipped_upto(b, row, col, color, 8, r, c)
}

/// The grid after playing `color` at `(row, col)`: the played square holds
/// `color`, every captured cell is flipped to `color`, all else is unchanged.
pub open spec fn board_after_move(b: Seq<Cell>, row: int, col: int, color: Cell) -> Seq<Cell> {
    Seq::new(
        64,
        |i: int|
            if i == row * 8 + col {
                color
            } else if cell_flipped(b, row, col, color, i / 8, i % 8) {
                color
            } else {
                b[i]
            },
    )
}

/// How many cells of `b` hold `color`.
pub open spec fn count_color(b: Seq<Cell>, color: Cell) -> nat
    decreases b.len(),
{
    if b.len() == 0 {
        0
    } else {
        count_color(b.drop_last(), color) + if b.last() == color {
            1nat
        } else {
            0nat
        }
    }
}

/// `color` has at least one legal move somewhere on the grid.
pub open spec fn has_move(b: Seq<Cell>, color: Cell) -> bool {
    exists|r: int, c: int| #[trigger] is_legal(b, r, c, color)
}

/// The canonical starting grid: the four centre squares hold the alternating
/// pattern, everything else is empty.
pub open spec fn initial_board() -> Seq<Cell> {
    Seq::new(
        64,
        |i: int|
            if i == 27 {
                Cell::White
            } else if i == 28 {
                Cell::Black
            } else if i == 35 {
                Cell::Black
            } else if i == 36 {
                Cell::White
            } else {
                Cell::Empty
            },
    )
}

impl Board {
    /// A fresh board with the four centre discs placed.
    pub fn new() -> (b: Board)
        ensures
            board_wf(b@),
            b@ == initial_board(),
    {
        let mut cells: Vec<Cell> = Vec::new();
        for i in 0..64
            invariant
                cells@.len() == i,
                forall|k: int| 0 <= k < i ==> cells@[k] == Cell::Empty,
        {
            cells.push(Cell::Empty);
        }
        let mut b = Board { cells };
        b.set_cell(3, 3, Cell::White);
        b.set_cell(3, 4, Cell::Black);
        b.set_cell(4, 3, Cell::Black);
        b.set_cell(4, 4, Cell::White);
        proof {
            assert(b@ =~= initial_board());
        }
        b
    }

    /// A board from an explicit row-major list of 64 cells; rejects any
    /// other length.
    pub fn from_cells(cells: Vec<Cell>) -> (r: Option<Board>)
        ensures
            match r {
                Some(b) => cells@.len() == 64 && b@ == cells@,
                None => cells@.len() != 64,
            },
    {
        if cells.len() == 64 {
            Some(Board { cells })
        } else {
            None
        }
    }

    pub(crate) fn from_exact_cells(cells: Vec<Cell>) -> (b: Board)
        requires
            cells@.len() == 64,
        ensures
            b@ == cells@,
            board_wf(b@),
    {
        Board { cells }
    }

    /// Whether the grid holds exactly its 64 cells.
    pub fn is_well_formed(&self) -> (r: bool)
        ensures
            r == board_wf(self@),
    {
        self.cells.len() == 64
    }

    /// The cell at `(row, col)`.
    pub fn get_cell(&self, row: usize, col: usize) -> (r: Cell)
        requires
            board_wf(self@),
            row < 8,
            col < 8,
        ensures
            r == cell_at(self@, row as int, col as int),
    {
        let idx: usize = row * 8 + col;
        self.cells[idx]
    }

    fn set_cell(&mut self, row: usize, col: usize, v: Cell)
        requires
            board_wf(old(self)@),
            row < 8,
            col < 8,
        ensures
            board_wf(final(self)@),
            final(self)@ == old(self)@.update(row as int * 8 + col as int, v),
    {
        let idx: usize = row * 8 + col;
        self.cells[idx] = v;
    }

    /// Scans direction `d` outward from `(row, col)` as a prospective move
    /// for `color`: the length of the capture line there, if the direction
    /// validates one.
    fn capture_len(&self, row: usize, col: usize, d: usize, color: Cell) -> (res: Option<usize>)
        requires
            board_wf(self@),
            row < 8,
            col < 8,
            d < 8,
            color.is_player(),
        ensures
            match res {
                Some(n) => line_captures(self@, row as int, col as int, d as int, color, n as int),
                None => forall|n: int|
                    !line_captures(self@, row as int, col as int, d as int, color, n),
            },
    {
        let (dr, dc) = dir_delta(d);
        let mut r: isize = row as isize + dr;
        let mut c: isize = col as isize + dc;
        let mut j: usize = 1;
        proof {
            lemma_mul_small(1, dir_dr(d as int));
            lemma_mul_small(1, dir_dc(d as int));
        }
        while r >= 0 && r < 8 && c >= 0 && c < 8
            invariant
                board_wf(self@),
                row < 8,
                col < 8,
                d < 8,
                color.is_player(),
                dr as int == dir_dr(d as int),
                dc as int == dir_dc(d as int),
                1 <= j <= 9,
                -1 <= r <= 8,
                -1 <= c <= 8,
                r as int == ray_row(row as int, d as int, j as int),
                c as int == ray_col(col as int, d as int, j as int),
                scan_prefix(self@, row as int, col as int, d as int, color, j as int),
            decreases 10 - j,
        {
            let idx: usize = (r as usize) * 8 + (c as usize);
            let cell = self.cells[idx];
            proof {
                assert(ray_ok(row as int, col as int, d as int, j as int));
                assert(cell == ray_cell(self@, row as int, col as int, d as int, j as int));
            }
            if cell == color.opposite() {
                proof {
                    lemma_ray_step(row as int, col as int, d as int, j as int);
                }
                j = j + 1;
                r = r + dr;
                c = c + dc;
                proof {
                    lemma_step_bound(
                        row as int,
                        col as int,
                        d as int,
                        j as int,
                        r as int,
                        c as int,
                    );
                }
            } else if cell == color {
                if j == 1 {
                    proof {
                        lemma_scan_blocked(self@, row as int, col as int, d as int, color, 1);
                    }
                    return None;
                }
                proof {
                    assert(line_captures(
                        self@,
                        row as int,
                        col as int,
                        d as int,
                        color,
                        j as int - 1,
                    ));
                }
                return Some(j - 1);
            } else {
                proof {
                    lemma_scan_blocked(self@, row as int, col as int, d as int, color, j as int);
                }
                return None;
            }
        }
        proof {
            lemma_scan_blocked(self@, row as int, col as int, d as int, color, j as int);
        }
        None
    }

    /// Whether placing `color` at `(row, col)` is a legal move. Any
    /// out-of-range coordinate simply answers `false`.
    pub fn is_valid_move(&self, row: usize, col: usize, color: Cell) -> (r: bool)
        requires
            board_wf(self@),
        ensures
            r == is_legal(self@, row as int, col as int, color),
    {
        if row >= 8 || col >= 8 {
            return false;
        }
        let idx: usize = row * 8 + col;
        if self.cells[idx] != Cell::Empty {
            return false;
        }
        if color == Cell::Empty {
            return false;
        }
        for d in 0..8
            invariant
                board_wf(self@),
                row < 8,
                col < 8,
                color.is_player(),
                cell_at(self@, row as int, col as int) == Cell::Empty,
                forall|dd: int|
                    0 <= dd < d ==> !#[trigger] dir_captures(self@, row as int, col as int, dd, color),
        {
            match self.capture_len(row, col, d, color) {
                Some(_) => {
                    proof {
                        assert(dir_captures(self@, row as int, col as int, d as int, color));
                        assert(is_legal(self@, row as int, col as int, color));
                    }
                    return true;
                },
                None => {},
            }
        }
        false
    }

    /// Plays `color` at `(row, col)`: places the disc and flips every
    /// captured line. The caller must already have confirmed legality;
    /// calling this on an illegal position is a contract violation.
    pub fn apply_move(&mut self, row: usize, col: usize, color: Cell)
        requires
            board_wf(old(self)@),
            is_legal(old(self)@, row as int, col as int, color),
        ensures
            board_wf(final(self)@),
            final(self)@ == board_after_move(old(self)@, row as int, col as int, color),
    {
        let ghost b0 = self@;
        self.set_cell(row, col, color);
        for d in 0..8
            invariant
                board_wf(self@),
                board_wf(b0),
                row < 8,
                col < 8,
                color.is_player(),
                cell_at(self@, row as int, col as int) == color,
                forall|r: int, c: int|
                    in_bounds(r, c) && !(r == row as int && c == col as int)
                        ==> #[trigger] cell_at(self@, r, c) == (if cell_flipped_upto(
                        b0,
                        row as int,
                        col as int,
                        color,
                        d as int,
                        r,
                        c,
                    ) {
                        color
                    } else {
                        cell_at(b0, r, c)
                    }),
        {
            proof {
                assert forall|k: int|
                    1 <= k && #[trigger] ray_ok(row as int, col as int, d as int, k) implies
                    ray_cell(self@, row as int, col as int, d as int, k) == ray_cell(
                    b0,
                    row as int,
                    col as int,
                    d as int,
                    k,
                ) by {
                    let r = ray_row(row as int, d as int, k);
                    let c = ray_col(col as int, d as int, k);
                    lemma_ray_not_origin(row as int, col as int, d as int, k);
                    if cell_flipped_upto(b0, row as int, col as int, color, d as int, r, c) {
                        let (dd, jj) = choose|dd: int, jj: int|
                            0 <= dd < d as int && #[trigger] dir_flips_at(
                                b0,
                                row as int,
                                col as int,
                                dd,
                                color,
                                jj,
                            ) && r == ray_row(row as int, dd, jj) && c == ray_col(
                                col as int,
                                dd,
                                jj,
                            );
                        let nn = choose|nn: int|
                            #[trigger] line_captures(b0, row as int, col as int, dd, color, nn)
                                && 1 <= jj <= nn;
                        lemma_rays_disjoint(row as int, col as int, dd, d as int, jj, k);
                        assert(false);
                    }
                };
            }
            match self.capture_len(row, col, d, color) {
                Some(n) => {
                    proof {
                        lemma_line_same_on_ray(
                            self@,
                            b0,
                            row as int,
                            col as int,
                            d as int,
                            color,
                            n as int,
                        );
                    }
                    let (dr, dc) = dir_delta(d);
                    let mut r2: isize = row as isize + dr;
                    let mut c2: isize = col as isize + dc;
                    let mut j: usize = 1;
                    proof {
                        lemma_mul_small(1, dir_dr(d as int));
                        lemma_mul_small(1, dir_dc(d as int));
                    }
                    while j <= n
                        invariant
                            board_wf(self@),
                            board_wf(b0),
                            row < 8,
                            col < 8,
                            d < 8,
                            color.is_player(),
                            dr as int == dir_dr(d as int),
                            dc as int == dir_dc(d as int),
                            line_captures(b0, row as int, col as int, d as int, color, n as int),
                            1 <= j <= n + 1,
                            r2 as int == ray_row(row as int, d as int, j as int),
                            c2 as int == ray_col(col as int, d as int, j as int),
                            cell_at(self@, row as int, col as int) == color,
                            forall|r: int, c: int|
                                in_bounds(r, c) && !(r == row as int && c == col as int)
                                    ==> #[trigger] cell_at(self@, r, c) == (if cell_flipped_upto(
                                    b0,
                                    row as int,
                                    col as int,
                                    color,
                                    d as int,
                                    r,
                                    c,
                                ) || on_ray_prefix(
                                    row as int,
                                    col as int,
                                    d as int,
                                    j as int,
                                    r,
                                    c,
                                ) {
                                    color
                                } else {
                                    cell_at(b0, r, c)
                                }),
                        decreases n + 1 - j,
                    {
                        proof {
                            assert(ray_ok(row as int, col as int, d as int, j as int));
                        }
                        let ur: usize = r2 as usize;
                        let uc: usize = c2 as usize;
                        let ghost pre = self@;
                        self.set_cell(ur, uc, color);
                        proof {
                            lemma_ray_not_origin(row as int, col as int, d as int, j as int);
                            lemma_ray_step(row as int, col as int, d as int, j as int);
                            assert(self@ == pre.update(ur as int * 8 + uc as int, color));
                            assert forall|r: int, c: int|
                                in_bounds(r, c) && !(r == row as int && c == col as int) implies
                                #[trigger] cell_at(self@, r, c) == (if cell_flipped_upto(
                                b0,
                                row as int,
                                col as int,
                                color,
                                d as int,
                                r,
                                c,
                            ) || on_ray_prefix(
                                row as int,
                                col as int,
                                d as int,
                                j as int + 1,
                                r,
                                c,
                            ) {
                                color
                            } else {
                                cell_at(b0, r, c)
                            }) by {
                                if r == ur as int && c == uc as int {
                                    assert(r == ray_row(row as int, d as int, j as int));
                                    assert(c == ray_col(col as int, d as int, j as int));
                                    assert(on_ray_prefix(
                                        row as int,
                                        col as int,
                                        d as int,
                                        j as int + 1,
                                        r,
                                        c,
                                    ));
                                    assert(cell_at(self@, r, c) == color);
                                } else {
                                    assert(r * 8 + c != ur as int * 8 + uc as int);
                                    assert(cell_at(self@, r, c) == cell_at(pre, r, c));
                                    if on_ray_prefix(
                                        row as int,
                                        col as int,
                                        d as int,
                                        j as int + 1,
                                        r,
                                        c,
                                    ) {
                                        let k = choose|k: int|
                                            1 <= k < j as int + 1 && r == #[trigger] ray_row(
                                                row as int,
                                                d as int,
                                                k,
                                            ) && c == ray_col(col as int, d as int, k);
                                        assert(k < j as int);
                                        assert(on_ray_prefix(
                                            row as int,
                                            col as int,
                                            d as int,
                                            j as int,
                                            r,
                                            c,
                                        ));
                                    }
                                }
                            };
                        }
                        j = j + 1;
                        r2 = r2 + dr;
                        c2 = c2 + dc;
                    }
                    proof {
                        assert forall|r: int, c: int|
                            in_bounds(r, c) && !(r == row as int && c == col as int) implies
                            #[trigger] cell_at(self@, r, c) == (if cell_flipped_upto(
                            b0,
                            row as int,
                            col as int,
                            color,
                            d as int + 1,
                            r,
                            c,
                        ) {
                            color
                        } else {
                            cell_at(b0, r, c)
                        }) by {
                            if cell_flipped_upto(
                                b0,
                                row as int,
                                col as int,
                                color,
                                d as int + 1,
                                r,
                                c,
                            ) {
                                let (dd, jj) = choose|dd: int, jj: int|
                                    0 <= dd < d as int + 1 && #[trigger] dir_flips_at(
                                        b0,
                                        row as int,
                                        col as int,
                                        dd,
                                        color,
                                        jj,
                                    ) && r == ray_row(row as int, dd, jj) && c == ray_col(
                                        col as int,
                                        dd,
                                        jj,
                                    );
                                if dd == d as int {
                                    let nn = choose|nn: int|
                                        #[trigger] line_captures(
                                            b0,
                                            row as int,
                                            col as int,
                                            dd,
                                            color,
                                            nn,
                                        ) && 1 <= jj <= nn;
                                    lemma_line_unique(
                                        b0,
                                        row as int,
                                        col as int,
                                        d as int,
                                        color,
                                        nn,
                                        n as int,
                                    );
                                    assert(on_ray_prefix(
                                        row as int,
                                        col as int,
                                        d as int,
                                        j as int,
                                        r,
                                        c,
                                    ));
                                } else {
                                    assert(cell_flipped_upto(
                                        b0,
                                        row as int,
                                        col as int,
                                        color,
                                        d as int,
                                        r,
                                        c,
                                    ));
                                }
                            } else {
                                assert(!cell_flipped_upto(
                                    b0,
                                    row as int,
                                    col as int,
                                    color,
                                    d as int,
                                    r,
                                    c,
                                ));
                                if on_ray_prefix(row as int, col as int, d as int, j as int, r, c) {
                                    let k = choose|k: int|
                                        1 <= k < j as int && r == #[trigger] ray_row(
                                            row as int,
                                            d as int,
                                            k,
                                        ) && c == ray_col(col as int, d as int, k);
                                    assert(dir_flips_at(
                                        b0,
                                        row as int,
                                        col as int,
                                        d as int,
                                        color,
                                        k,
                                    ));
                                    assert(cell_flipped_upto(
                                        b0,
                                        row as int,
                                        col as int,
                                        color,
                                        d as int + 1,
                                        r,
                                        c,
                                    ));
                                }
                            }
                        };
                    }
                },
                None => {
                    proof {
                        assert forall|n2: int|
                            !line_captures(b0, row as int, col as int, d as int, color, n2) by {
                            if line_captures(b0, row as int, col as int, d as int, color, n2) {
                                lemma_line_same_on_ray(
                                    b0,
                                    self@,
                                    row as int,
                                    col as int,
                                    d as int,
                                    color,
                                    n2,
                                );
                                assert(false);
                            }
                        };
                        assert forall|r: int, c: int|
                            in_bounds(r, c) && !(r == row as int && c == col as int) implies
                            #[trigger] cell_at(self@, r, c) == (if cell_flipped_upto(
                            b0,
                            row as int,
                            col as int,
                            color,
                            d as int + 1,
                            r,
                            c,
                        ) {
                            color
                        } else {
                            cell_at(b0, r, c)
                        }) by {
                            if cell_flipped_upto(
                                b0,
                                row as int,
                                col as int,
                                color,
                                d as int + 1,
                                r,
                                c,
                            ) {
                                let (dd, jj) = choose|dd: int, jj: int|
                                    0 <= dd < d as int + 1 && #[trigger] dir_flips_at(
                                        b0,
                                        row as int,
                                        col as int,
                                        dd,
                                        color,
                                        jj,
                                    ) && r == ray_row(row as int, dd, jj) && c == ray_col(
                                        col as int,
                                        dd,
                                        jj,
                                    );
                                if dd == d as int {
                                    let nn = choose|nn: int|
                                        #[trigger] line_captures(
                                            b0,
                                            row as int,
                                            col as int,
                                            dd,
                                            color,
                                            nn,
                                        ) && 1 <= jj <= nn;
                                    assert(false);
                                } else {
                                    assert(cell_flipped_upto(
                                        b0,
                                        row as int,
                                        col as int,
                                        color,
                                        d as int,
                                        r,
                                        c,
                                    ));
                                }
                            } else {
                                assert(!cell_flipped_upto(
                                    b0,
                                    row as int,
                                    col as int,
                                    color,
                                    d as int,
                                    r,
                                    c,
                                ));
                            }
                        };
                    }
                },
            }
        }
        proof {
            let bafter = board_after_move(b0, row as int, col as int, color);
            assert forall|i: int| 0 <= i < 64 implies self@[i] == bafter[i] by {
                let r = i / 8;
                let c = i % 8;
                assert(i == r * 8 + c) by (nonlinear_arith)
                    requires
                        r == i / 8,
                        c == i % 8,
                        0 <= i < 64,
                ;
                assert(in_bounds(r, c)) by (nonlinear_arith)
                    requires
                        r == i / 8,
                        c == i % 8,
                        0 <= i < 64,
                ;
                if i == row as int * 8 + col as int {
                    assert(r == row as int && c == col as int);
                    assert(self@[i] == color);
                } else {
                    assert(!(r == row as int && c == col as int));
                    assert(cell_at(self@, r, c) == self@[i]);
                }
            };
            assert(self@ =~= bafter);
        }
    }

    /// Whether `color` has at least one legal move anywhere on the grid.
    pub fn has_valid_moves(&self, color: Cell) -> (r: bool)
        requires
            board_wf(self@),
        ensures
            r == has_move(self@, color),
    {
        for row in 0..8
            invariant
                board_wf(self@),
                forall|rr: int, cc: int|
                    0 <= rr < row && 0 <= cc < 8 ==> !#[trigger] is_legal(self@, rr, cc, color),
        {
            for col in 0..8
                invariant
                    board_wf(self@),
                    row < 8,
                    forall|rr: int, cc: int|
                        0 <= rr < row && 0 <= cc < 8 ==> !#[trigger] is_legal(self@, rr, cc, color),
                    forall|cc: int|
                        0 <= cc < col ==> !#[trigger] is_legal(self@, row as int, cc, color),
            {
                if self.is_valid_move(row, col, color) {
                    proof {
                        assert(has_move(self@, color));
                    }
                    return true;
                }
            }
        }
        proof {
            assert forall|r: int, c: int| !is_legal(self@, r, c, color) by {
                if is_legal(self@, r, c, color) {
                    assert(in_bounds(r, c));
                    assert(false);
                }
            };
        }
        false
    }

    /// Tally of discs on the board, `(black, white)`.
    pub fn count_pieces(&self) -> (r: (usize, usize))
        requires
            board_wf(self@),
        ensures
            r.0 == count_color(self@, Cell::Black),
            r.1 == count_color(self@, Cell::White),
    {
        let mut black: usize = 0;
        let mut white: usize = 0;
        for i in 0..64
            invariant
                board_wf(self@),
                black == count_color(self@.take(i as int), Cell::Black),
                white == count_color(self@.take(i as int), Cell::White),
                black <= i,
                white <= i,
        {
            proof {
                lemma_count_take_step(self@, Cell::Black, i as int);
                lemma_count_take_step(self@, Cell::White, i as int);
            }
            match self.cells[i] {
                Cell::Black => {
                    black = black + 1;
                },
                Cell::White => {
                    white = white + 1;
                },
                Cell::Empty => {},
            }
        }
        proof {
            assert(self@.take(64) =~= self@);
        }
        (black, white)
    }
}

/// The exec direction table, mirroring `dir_dr` / `dir_dc`.
fn dir_delta(d: usize) -> (dd: (isize, isize))
    requires
        d < 8,
    ensures
        dd.0 as int == dir_dr(d as int),
        dd.1 as int == dir_dc(d as int),
{
    if d == 0 {
        (-1, -1)
    } else if d == 1 {
        (-1, 0)
    } else if d == 2 {
        (-1, 1)
    } else if d == 3 {
        (0, -1)
    } else if d == 4 {
        (0, 1)
    } else if d == 5 {
        (1, -1)
    } else if d == 6 {
        (1, 0)
    } else {
        (1, 1)
    }
}

/// Multiplying by a factor from `{-1, 0, 1}` is negation, zeroing, or identity.
proof fn lemma_mul_small(j: int, a: int)
    by (nonlinear_arith)
    requires
        -1 <= a <= 1,
    ensures
        a == 1 ==> j * a == j,
        a == 0 ==> j * a == 0,
        a == -1 ==> j * a == -j,
{
}

/// Stepping once more along a ray moves the position by one direction vector.
proof fn lemma_ray_step(row: int, col: int, d: int, j: int)
    ensures
        ray_row(row, d, j + 1) == ray_row(row, d, j) + dir_dr(d),
        ray_col(col, d, j + 1) == ray_col(col, d, j) + dir_dc(d),
{
    assert((j + 1) * dir_dr(d) == j * dir_dr(d) + dir_dr(d)) by (nonlinear_arith);
    assert((j + 1) * dir_dc(d) == j * dir_dc(d) + dir_dc(d)) by (nonlinear_arith);
}

/// A ray that has left the grid never re-enters it.
proof fn lemma_out_stays_out(row: int, col: int, d: int, i: int, j: int)
    requires
        in_bounds(row, col),
        0 <= d < 8,
        1 <= i <= j,
        !ray_ok(row, col, d, i),
    ensures
        !ray_ok(row, col, d, j),
{
    lemma_mul_small(i, dir_dr(d));
    lemma_mul_small(j, dir_dr(d));
    lemma_mul_small(i, dir_dc(d));
    lemma_mul_small(j, dir_dc(d));
}

/// A ray position one step or more out never coincides with its origin.
proof fn lemma_ray_not_origin(row: int, col: int, d: int, j: int)
    requires
        0 <= d < 8,
        1 <= j,
    ensures
        !(ray_row(row, d, j) == row && ray_col(col, d, j) == col),
{
    lemma_mul_small(j, dir_dr(d));
    lemma_mul_small(j, dir_dc(d));
}

/// Equal products with positive multipliers force equal unit factors.
proof fn lemma_scaled_sign(j1: int, j2: int, a: int, b: int)
    by (nonlinear_arith)
    requires
        1 <= j1,
        1 <= j2,
        -1 <= a <= 1,
        -1 <= b <= 1,
        j1 * a == j2 * b,
    ensures
        a == b,
{
}

/// Rays of two distinct directions share no position beyond the origin.
proof fn lemma_rays_disjoint(row: int, col: int, d1: int, d2: int, j1: int, j2: int)
    requires
        0 <= d1 < 8,
        0 <= d2 < 8,
        d1 != d2,
        1 <= j1,
        1 <= j2,
    ensures
        ray_row(row, d1, j1) != ray_row(row, d2, j2) || ray_col(col, d1, j1) != ray_col(
            col,
            d2,
            j2,
        ),
{
    if ray_row(row, d1, j1) == ray_row(row, d2, j2) && ray_col(col, d1, j1) == ray_col(
        col,
        d2,
        j2,
    ) {
        assert(j1 * dir_dr(d1) == j2 * dir_dr(d2));
        assert(j1 * dir_dc(d1) == j2 * dir_dc(d2));
        lemma_scaled_sign(j1, j2, dir_dr(d1), dir_dr(d2));
        lemma_scaled_sign(j1, j2, dir_dc(d1), dir_dc(d2));
        assert(false);
    }
}

/// A step index stays small while its ray position stays near the grid.
proof fn lemma_step_bound(row: int, col: int, d: int, j: int, r: int, c: int)
    requires
        0 <= row < 8,
        0 <= col < 8,
        0 <= d < 8,
        1 <= j,
        r == ray_row(row, d, j),
        c == ray_col(col, d, j),
        -1 <= r <= 8,
        -1 <= c <= 8,
    ensures
        j <= 9,
{
    lemma_mul_small(j, dir_dr(d));
    lemma_mul_small(j, dir_dc(d));
}

/// A capture line only depends on the cells along its own ray.
proof fn lemma_line_same_on_ray(
    b1: Seq<Cell>,
    b2: Seq<Cell>,
    row: int,
    col: int,
    d: int,
    color: Cell,
    n: int,
)
    requires
        forall|k: int|
            1 <= k && #[trigger] ray_ok(row, col, d, k) ==> ray_cell(b1, row, col, d, k)
                == ray_cell(b2, row, col, d, k),
        line_captures(b1, row, col, d, color, n),
    ensures
        line_captures(b2, row, col, d, color, n),
{
    assert forall|j: int| 1 <= j <= n implies #[trigger] ray_cell(b2, row, col, d, j)
        == color.opposite_spec() by {
        assert(ray_ok(row, col, d, j));
        assert(ray_cell(b1, row, col, d, j) == color.opposite_spec());
    };
    assert(ray_ok(row, col, d, n + 1));
    assert(ray_cell(b2, row, col, d, n + 1) == ray_cell(b1, row, col, d, n + 1));
}

/// A direction validates at most one capture-line length.
proof fn lemma_line_unique(
    b: Seq<Cell>,
    row: int,
    col: int,
    d: int,
    color: Cell,
    n1: int,
    n2: int,
)
    requires
        color.is_player(),
        line_captures(b, row, col, d, color, n1),
        line_captures(b, row, col, d, color, n2),
    ensures
        n1 == n2,
{
    if n1 < n2 {
        assert(ray_cell(b, row, col, d, n1 + 1) == color);
        assert(ray_cell(b, row, col, d, n1 + 1) == color.opposite_spec());
    }
    if n2 < n1 {
        assert(ray_cell(b, row, col, d, n2 + 1) == color);
        assert(ray_cell(b, row, col, d, n2 + 1) == color.opposite_spec());
    }
}

/// `(r, c)` is one of the first `j - 1` steps outward along direction `d`.
spec fn on_ray_prefix(row: int, col: int, d: int, j: int, r: int, c: int) -> bool {
    exists|k: int| 1 <= k < j && r == #[trigger] ray_row(row, d, k) && c == ray_col(col, d, k)
}

/// The scan has seen `j - 1` opponent discs, all on the grid.
spec fn scan_prefix(b: Seq<Cell>, row: int, col: int, d: int, color: Cell, j: int) -> bool {
    &&& forall|k: int| 1 <= k < j ==> #[trigger] ray_ok(row, col, d, k)
    &&& forall|k: int|
        1 <= k < j ==> #[trigger] ray_cell(b, row, col, d, k) == color.opposite_spec()
}

/// A scan that ran off the grid, hit an empty cell, or hit its own colour
/// with no opponent disc in between disqualifies the whole direction.
proof fn lemma_scan_blocked(b: Seq<Cell>, row: int, col: int, d: int, color: Cell, j: int)
    requires
        in_bounds(row, col),
        0 <= d < 8,
        color.is_player(),
        scan_prefix(b, row, col, d, color, j),
        1 <= j,
        !ray_ok(row, col, d, j) || ray_cell(b, row, col, d, j) == Cell::Empty || (ray_cell(
            b,
            row,
            col,
            d,
            j,
        ) == color && j == 1),
    ensures
        forall|n: int| !line_captures(b, row, col, d, color, n),
{
    assert forall|n: int| !line_captures(b, row, col, d, color, n) by {
        if line_captures(b, row, col, d, color, n) {
            if !ray_ok(row, col, d, j) {
                if n + 1 >= j {
                    lemma_out_stays_out(row, col, d, j, n + 1);
                    assert(ray_ok(row, col, d, n + 1));
                } else {
                    assert(ray_cell(b, row, col, d, n + 1) == color.opposite_spec());
                    assert(ray_cell(b, row, col, d, n + 1) == color);
                }
            } else if ray_cell(b, row, col, d, j) == Cell::Empty {
                if n >= j {
                    assert(ray_cell(b, row, col, d, j) == color.opposite_spec());
                } else if n + 1 == j {
                    assert(ray_cell(b, row, col, d, n + 1) == color);
                } else {
                    assert(ray_cell(b, row, col, d, n + 1) == color.opposite_spec());
                    assert(ray_cell(b, row, col, d, n + 1) == color);
                }
            } else {
                assert(ray_cell(b, row, col, d, 1) == color.opposite_spec());
            }
            assert(false);
        }
    };
}

/// Counting one more prefix cell adds that cell's contribution.
proof fn lemma_count_take_step(b: Seq<Cell>, color: Cell, k: int)
    requires
        0 <= k < b.len(),
    ensures
        count_color(b.take(k + 1), color) == count_color(b.take(k), color) + if b[k] == color {
            1nat
        } else {
            0nat
        },
{
    assert(b.take(k + 1).drop_last() =~= b.take(k));
    assert(b.take(k + 1).last() == b[k]);
}

} // verus!
