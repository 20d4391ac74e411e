use vstd::prelude::*;

verus! {

use vstd::arithmetic::div_mod::lemma_fundamental_div_mod_converse;

/// A coordinate on the board. Construction performs no bounds check; every
/// geometry or board-access operation requires a coordinate that is valid
/// for the board side it is given.
#[derive(Clone, Copy, Debug, PartialEq, Eq, Structural)]
pub struct Position {
    pub row: usize,
    pub col: usize,
}

/// Row offset of diagonal direction `k`, in the fixed enumeration order
/// top-left, top-right, bottom-left, bottom-right.
pub open spec fn dir_row_delta(k: int) -> int {
    if k == 0 || k == 1 {
        -1
    } else {
        1
    }
}

/// Column offset of diagonal direction `k`, in the fixed enumeration order
/// top-left, top-right, bottom-left, bottom-right.
pub open spec fn dir_col_delta(k: int) -> int {
    if k == 0 || k == 2 {
        -1
    } else {
        1
    }
}

/// The adjacent square of `p` in diagonal direction `k`, as a sequence:
/// a singleton when it lies on the board, empty otherwise.
pub open spec fn diag_candidate(p: Position, k: int, side: int) -> Seq<Position> {
    let r = p.row + dir_row_delta(k);
    let c = p.col + dir_col_delta(k);
    if 0 <= r < side && 0 <= c < side {
        seq![Position { row: r as usize, col: c as usize }]
    } else {
        Seq::empty()
    }
}

/// The in-bounds diagonal neighbors of `p`, in the fixed enumeration order
/// top-left, top-right, bottom-left, bottom-right.
pub open spec fn diag_seq(p: Position, side: int) -> Seq<Position> {
    diag_candidate(p, 0, side) + diag_candidate(p, 1, side) + diag_candidate(p, 2, side)
        + diag_candidate(p, 3, side)
}

impl Position {
    /// Both coordinates lie in `[0, side)`.
    pub open spec fn valid(self, side: int) -> bool {
        self.row < side && self.col < side
    }

    /// The row-major linear index of `self` on a board of the given side.
    pub open spec fn index_of(self, side: int) -> int {
        self.row * side + self.col
    }

    /// The coordinate whose row-major linear index is `idx` on a board of
    /// the given side.
    pub open spec fn of_index(idx: int, side: int) -> Position {
        Position { row: (idx / side) as usize, col: (idx % side) as usize }
    }

    pub fn new(row: usize, col: usize) -> (r: Self)
        ensures
            r == (Position { row, col }),
    {
        Position { row, col }
    }

    pub fn from_index(idx: usize, board_side: usize) -> (r: Self)
        requires
            board_side > 0,
        ensures
            r == Position::of_index(idx as int, board_side as int),
    {
        Position { row: idx / board_side, col: idx % board_side }
    }

    pub fn to_index(&self, board_side: usize) -> (r: usize)
        requires
            self.row * board_side + self.col <= usize::MAX,
        ensures
            r == self.index_of(board_side as int),
    {
        self.row * board_side + self.col
    }

    pub fn is_valid(&self, board_side: usize) -> (r: bool)
        ensures
            r == self.valid(board_side as int),
    {
        self.row < board_side && self.col < board_side
    }

    /// The in-bounds diagonal neighbors of `self`, in the fixed order
    /// top-left, top-right, bottom-left, bottom-right.
    pub fn get_diagonals(&self, board_side: usize) -> (r: Vec<Position>)
        requires
            self.valid(board_side as int),
        ensures
            r@ == diag_seq(*self, board_side as int),
    {
        let mut out: Vec<Position> = Vec::new();
        if self.row >= 1 && self.col >= 1 {
            out.push(Position::new(self.row - 1, self.col - 1));
        }
        if self.row >= 1 && self.col + 1 < board_side {
            out.push(Position::new(self.row - 1, self.col + 1));
        }
        if self.row + 1 < board_side && self.col >= 1 {
            out.push(Position::new(self.row + 1, self.col - 1));
        }
        if self.row + 1 < board_side && self.col + 1 < board_side {
            out.push(Position::new(self.row + 1, self.col + 1));
        }
        proof {
            assert(out@ =~= diag_seq(*self, board_side as int));
        }
        out
    }
}

/// Converting a valid coordinate to its linear index and back yields the
/// same coordinate.
pub proof fn lemma_index_round_trip(p: Position, side: usize)
    requires
        0 < side,
        p.valid(side as int),
    ensures
        Position::of_index(p.index_of(side as int), side as int) == p,
{
    lemma_fundamental_div_mod_converse(
        p.row * side + p.col,
        side as int,
        p.row as int,
        p.col as int,
    );
}

/// Every diagonal neighbor is in bounds; an interior square has exactly
/// four, a square on an edge of the board fewer.
pub proof fn lemma_diagonals_in_bounds(p: Position, side: usize)
    requires
        p.valid(side as int),
    ensures
        forall|i: int|
            0 <= i < diag_seq(p, side as int).len() ==> (#[trigger] diag_seq(p, side as int)[i]).valid(
                side as int,
            ),
        0 < p.row && p.row + 1 < side && 0 < p.col && p.col + 1 < side ==> diag_seq(
            p,
            side as int,
        ).len() == 4,
        p.row == 0 || p.row + 1 >= side || p.col == 0 || p.col + 1 >= side ==> diag_seq(
            p,
            side as int,
        ).len() < 4,
{
}

} // verus!
