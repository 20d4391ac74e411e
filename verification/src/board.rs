use vstd::prelude::*;

pub use crate::moves::Move;
pub use crate::piece::Piece;
pub use crate::player::Player;
pub use crate::position::Position;

use crate::capture::{search_from, CaptureSearch};
use crate::moves::{MoveModel, moves_view};
use crate::position::diag_seq;

verus! {

use vstd::arithmetic::div_mod::lemma_fundamental_div_mod_converse;

pub const BOARD_SIDE: usize = 8;

pub const BOARD_SIZE: usize = BOARD_SIDE * BOARD_SIDE;

/// The piece standing on `p`, if any.
pub open spec fn square_at(g: Seq<Option<Piece>>, p: Position) -> Option<Piece> {
    g[p.row * 8 + p.col]
}

/// `p` holds no piece.
pub open spec fn square_empty(g: Seq<Option<Piece>>, p: Position) -> bool {
    square_at(g, p) is None
}

/// `p` holds a piece of the player opposing `pl`.
pub open spec fn square_opposing(g: Seq<Option<Piece>>, pl: Player, p: Position) -> bool {
    match square_at(g, p) {
        Some(q) => q.player != pl,
        None => false,
    }
}

/// The piece a fresh board holds at `(row, col)`: men on the squares where
/// `row + col` is odd, Black on rows 0 through 2, White on rows 5 through 7.
pub open spec fn initial_square(row: int, col: int) -> Option<Piece> {
    if (row + col) % 2 == 1 {
        if row <= 2 {
            Some(Piece { player: Player::Black, is_king: false })
        } else if row >= 5 {
            Some(Piece { player: Player::White, is_king: false })
        } else {
            None
        }
    } else {
        None
    }
}

/// The grid holds exactly the standard starting layout.
pub open spec fn initial_layout(g: Seq<Option<Piece>>) -> bool {
    g.len() == 64 && forall|i: int| 0 <= i < 64 ==> g[i] == initial_square(i / 8, i % 8)
}

/// How many pieces of `pl` stand on the squares with linear index at least
/// `i`.
pub open spec fn count_pieces(g: Seq<Option<Piece>>, pl: Player, i: int) -> int
    decreases g.len() - i,
{
    if i < 0 || i >= g.len() {
        0
    } else {
        (match g[i] {
            Some(p) => if p.player == pl {
                1int
            } else {
                0int
            },
            None => 0int,
        }) + count_pieces(g, pl, i + 1)
    }
}

/// A diagonal neighbor `d` of `src` can be stepped onto: it is empty, and
/// the step is forward unless the piece is a king.
pub open spec fn regular_ok(
    g: Seq<Option<Piece>>,
    pl: Player,
    king: bool,
    src: Position,
    d: Position,
) -> bool {
    square_empty(g, d) && (king || pl.forward(src, d))
}

/// The simple moves whose destinations are the elements of `diags` from
/// index `i` on that can be stepped onto, in order.
pub open spec fn regular_moves_from(
    g: Seq<Option<Piece>>,
    pl: Player,
    king: bool,
    src: Position,
    diags: Seq<Position>,
    i: int,
) -> Seq<MoveModel>
    decreases diags.len() - i,
{
    if i < 0 || i >= diags.len() {
        Seq::empty()
    } else {
        (if regular_ok(g, pl, king, src, diags[i]) {
            seq![MoveModel { src, stops: seq![diags[i]], captures: None }]
        } else {
            Seq::empty()
        }) + regular_moves_from(g, pl, king, src, diags, i + 1)
    }
}

/// All simple moves of a piece of `pl` standing on `src`, in the fixed
/// diagonal enumeration order.
pub open spec fn regular_moves_spec(
    g: Seq<Option<Piece>>,
    pl: Player,
    king: bool,
    src: Position,
) -> Seq<MoveModel> {
    regular_moves_from(g, pl, king, src, diag_seq(src, 8), 0)
}

/// A fixed 8 by 8 grid of optional pieces, stored row-major.
pub struct Board {
    grid: Vec<Option<Piece>>,
}

impl Board {
    /// The grid as a sequence of 64 optional pieces, indexed `row * 8 + col`.
    pub closed spec fn grid_seq(&self) -> Seq<Option<Piece>> {
        self.grid@
    }

    pub open spec fn wf(&self) -> bool {
        self.grid_seq().len() == 64
    }

    /// The standard starting layout.
    pub fn new() -> (r: Board)
        ensures
            r.wf(),
            initial_layout(r.grid_seq()),
    {
        let mut grid: Vec<Option<Piece>> = Vec::new();
        let mut idx: usize = 0;
        while idx < BOARD_SIZE
            invariant
                idx <= 64,
                grid@.len() == idx,
                forall|i: int| 0 <= i < idx ==> grid@[i] == initial_square(i / 8, i % 8),
            decreases 64 - idx,
        {
            let pos: Position = Position::from_index(idx, BOARD_SIDE);
            let mut sq: Option<Piece> = None;
            if (pos.row + pos.col) % 2 != 0 {
                if pos.row <= 2 {
                    sq = Some(Piece::new(Player::Black));
                } else if pos.row >= 5 {
                    sq = Some(Piece::new(Player::White));
                }
            }
            grid.push(sq);
            idx = idx + 1;
        }
        Board { grid }
    }

    pub fn get(&self, pos: Position) -> (r: Option<Piece>)
        requires
            self.wf(),
            pos.valid(BOARD_SIDE as int),
        ensures
            r == square_at(self.grid_seq(), pos),
    {
        let idx = pos.to_index(BOARD_SIDE);
        self.grid[idx]
    }

    pub fn set(&mut self, pos: Position, piece: Option<Piece>)
        requires
            old(self).wf(),
            pos.valid(BOARD_SIDE as int),
        ensures
            final(self).wf(),
            final(self).grid_seq() == old(self).grid_seq().update(pos.index_of(8), piece),
    {
        let idx = pos.to_index(BOARD_SIDE);
        self.grid.set(idx, piece);
    }

    /// The simple (non-capturing) moves of the piece on `src`: absence if
    /// the square is empty, else one move per empty diagonal neighbor that
    /// lies forward of a man or in any direction of a king.
    pub fn get_regular_moves(&self, src: Position) -> (r: Option<Vec<Move>>)
        requires
            self.wf(),
            src.valid(BOARD_SIDE as int),
        ensures
            match r {
                None => square_at(self.grid_seq(), src) is None,
                Some(ms) => square_at(self.grid_seq(), src) matches Some(piece) && moves_view(ms@)
                    == regular_moves_spec(self.grid_seq(), piece.player, piece.is_king, src),
            },
    {
        let ghost g = self.grid_seq();
        let piece = match self.get(src) {
            None => {
                return None;
            },
            Some(p) => p,
        };
        let only_forward = !piece.is_king();
        let player = piece.player();
        let diags = src.get_diagonals(BOARD_SIDE);
        proof {
            crate::position::lemma_diagonals_in_bounds(src, BOARD_SIDE);
        }
        let mut out: Vec<Move> = Vec::new();
        let mut i: usize = 0;
        while i < diags.len()
            invariant
                self.wf(),
                g == self.grid_seq(),
                src.valid(BOARD_SIDE as int),
                square_at(g, src) == Some(piece),
                only_forward == !piece.is_king,
                player == piece.player,
                diags@ == diag_seq(src, 8),
                forall|j: int| 0 <= j < diags@.len() ==> (#[trigger] diags@[j]).valid(8),
                i <= diags@.len(),
                moves_view(out@) + regular_moves_from(g, piece.player, piece.is_king, src, diags@, i as int)
                    == regular_moves_from(g, piece.player, piece.is_king, src, diags@, 0),
            decreases diags@.len() - i,
        {
            let d = diags[i];
            let ghost out_prev = out@;
            let ghost gi = i as int;
            let ghost head = (MoveModel { src, stops: seq![diags@[gi]], captures: None });
            if self.get(d).is_none() && (!only_forward || player.is_forward_move(src, d)) {
                let mut stops: Vec<Position> = Vec::new();
                stops.push(d);
                out.push(Move::new(src, stops, None));
                proof {
                    let m = out@[out_prev.len() as int];
                    assert(out@ == out_prev.push(m));
                    assert(m@.stops =~= seq![diags@[gi]]);
                    assert(m@ =~= head);
                    assert(moves_view(out@) =~= moves_view(out_prev).push(head));
                    assert(moves_view(out_prev).push(head) =~= moves_view(out_prev) + seq![head]);
                }
            }
            proof {
                let ds = diags@;
                let pl = piece.player;
                let king = piece.is_king;
                assert(regular_moves_from(g, pl, king, src, ds, gi) == (if regular_ok(g, pl, king, src, ds[gi]) {
                    seq![head]
                } else {
                    Seq::<MoveModel>::empty()
                }) + regular_moves_from(g, pl, king, src, ds, gi + 1));
                if regular_ok(g, pl, king, src, ds[gi]) {
                    assert(moves_view(out@) =~= moves_view(out_prev) + seq![head]);
                    assert(moves_view(out@) + regular_moves_from(g, pl, king, src, ds, gi + 1)
                        =~= moves_view(out_prev) + (seq![head] + regular_moves_from(g, pl, king, src, ds, gi + 1)));
                } else {
                    assert(out@ == out_prev);
                    assert(Seq::<MoveModel>::empty() + regular_moves_from(g, pl, king, src, ds, gi + 1)
                        =~= regular_moves_from(g, pl, king, src, ds, gi + 1));
                }
            }
            i = i + 1;
        }
        proof {
            assert(moves_view(out@) + Seq::<MoveModel>::empty() =~= moves_view(out@));
        }
        Some(out)
    }

    /// The maximal capture sequences of the piece on `src`: absence if the
    /// square is empty or no capture is reachable, else every maximal
    /// sequence found by the capture search.
    pub fn get_capture_moves(&self, src: Position) -> (r: Option<Vec<Move>>)
        requires
            self.wf(),
            src.valid(BOARD_SIDE as int),
        ensures
            match r {
                None => square_at(self.grid_seq(), src) is None || (square_at(self.grid_seq(), src)
                    matches Some(piece) && search_from(
                    self.grid_seq(),
                    piece.player,
                    piece.is_king,
                    src,
                    Seq::empty(),
                    Seq::empty(),
                ).len() == 0),
                Some(ms) => square_at(self.grid_seq(), src) matches Some(piece) && moves_view(ms@)
                    == search_from(
                    self.grid_seq(),
                    piece.player,
                    piece.is_king,
                    src,
                    Seq::empty(),
                    Seq::empty(),
                ) && ms@.len() > 0,
            },
    {
        let piece = match self.get(src) {
            None => {
                return None;
            },
            Some(p) => p,
        };
        let searcher = CaptureSearch::new(self, piece.player(), piece.is_king());
        let captures = searcher.find_captures(src, Vec::new(), Vec::new());
        if captures.len() == 0 {
            None
        } else {
            Some(captures)
        }
    }
}

/// A fresh board holds twelve pieces per side, men only, each on a square
/// whose coordinates sum to an odd number: Black on rows 0 through 2,
/// White on rows 5 through 7, rows 3 and 4 empty.
pub proof fn lemma_initial_board_layout(g: Seq<Option<Piece>>)
    requires
        initial_layout(g),
    ensures
        count_pieces(g, Player::Black, 0) == 12,
        count_pieces(g, Player::White, 0) == 12,
        forall|p: Position|
            p.valid(8) ==> #[trigger] square_at(g, p) == initial_square(p.row as int, p.col as int),
        forall|p: Position| p.valid(8) && #[trigger] square_at(g, p) is Some ==> (p.row + p.col) % 2
            == 1,
        forall|p: Position|
            p.valid(8) && (p.row + p.col) % 2 == 1 && p.row <= 2 ==> #[trigger] square_at(g, p)
                == Some((Piece { player: Player::Black, is_king: false })),
        forall|p: Position|
            p.valid(8) && (p.row + p.col) % 2 == 1 && p.row >= 5 ==> #[trigger] square_at(g, p)
                == Some((Piece { player: Player::White, is_king: false })),
        forall|p: Position| p.valid(8) && 3 <= p.row <= 4 ==> #[trigger] square_at(g, p) is None,
{
    assert forall|p: Position| p.valid(8) implies #[trigger] square_at(g, p) == initial_square(
        p.row as int,
        p.col as int,
    ) by {
        lemma_fundamental_div_mod_converse(
            p.row as int * 8 + p.col as int,
            8,
            p.row as int,
            p.col as int,
        );
    }
    let black = Player::Black;
    let white = Player::White;
    assert(count_pieces(g, black, 64) == 0);
    assert(count_pieces(g, white, 64) == 0);
    assert(count_pieces(g, black, 56) == 0) by {
        reveal_with_fuel(count_pieces, 9);
    }
    assert(count_pieces(g, black, 48) == 0) by {
        reveal_with_fuel(count_pieces, 9);
    }
    assert(count_pieces(g, black, 40) == 0) by {
        reveal_with_fuel(count_pieces, 9);
    }
    assert(count_pieces(g, black, 32) == 0) by {
        reveal_with_fuel(count_pieces, 9);
    }
    assert(count_pieces(g, black, 24) == 0) by {
        reveal_with_fuel(count_pieces, 9);
    }
    assert(count_pieces(g, black, 16) == 4) by {
        reveal_with_fuel(count_pieces, 9);
    }
    assert(count_pieces(g, black, 8) == 8) by {
        reveal_with_fuel(count_pieces, 9);
    }
    assert(count_pieces(g, black, 0) == 12) by {
        reveal_with_fuel(count_pieces, 9);
    }
    assert(count_pieces(g, white, 56) == 4) by {
        reveal_with_fuel(count_pieces, 9);
    }
    assert(count_pieces(g, white, 48) == 8) by {
        reveal_with_fuel(count_pieces, 9);
    }
    assert(count_pieces(g, white, 40) == 12) by {
        reveal_with_fuel(count_pieces, 9);
    }
    assert(count_pieces(g, white, 32) == 12) by {
        reveal_with_fuel(count_pieces, 9);
    }
    assert(count_pieces(g, white, 24) == 12) by {
        reveal_with_fuel(count_pieces, 9);
    }
    assert(count_pieces(g, white, 16) == 12) by {
        reveal_with_fuel(count_pieces, 9);
    }
    assert(count_pieces(g, white, 8) == 12) by {
        reveal_with_fuel(count_pieces, 9);
    }
    assert(count_pieces(g, white, 0) == 12) by {
        reveal_with_fuel(count_pieces, 9);
    }
}

/// Every simple move the query produces is a single step from `src` onto
/// one of its diagonal neighbors that may be stepped onto.
pub proof fn lemma_regular_moves_from_shape(
    g: Seq<Option<Piece>>,
    pl: Player,
    king: bool,
    src: Position,
    diags: Seq<Position>,
    i: int,
)
    ensures
        forall|j: int|
            0 <= j < regular_moves_from(g, pl, king, src, diags, i).len() ==> {
                let m = #[trigger] regular_moves_from(g, pl, king, src, diags, i)[j];
                &&& m.src == src
                &&& m.captures is None
                &&& m.stops.len() == 1
                &&& diags.contains(m.stops[0])
                &&& regular_ok(g, pl, king, src, m.stops[0])
            },
    decreases diags.len() - i,
{
    if 0 <= i < diags.len() {
        lemma_regular_moves_from_shape(g, pl, king, src, diags, i + 1);
        let result = regular_moves_from(g, pl, king, src, diags, i);
        let rest = regular_moves_from(g, pl, king, src, diags, i + 1);
        if regular_ok(g, pl, king, src, diags[i]) {
            let head = (MoveModel { src, stops: seq![diags[i]], captures: None });
            assert(result == seq![head] + rest);
            assert(head.stops[0] == diags[i]);
            assert forall|j: int| 0 <= j < result.len() && j >= 1 implies result[j] == rest[j
                - 1] by {}
        } else {
            assert(result == rest);
        }
    }
}

/// Every diagonal neighbor sits exactly one row above or below its square.
pub proof fn lemma_diag_row_step(src: Position, d: Position)
    requires
        diag_seq(src, 8).contains(d),
    ensures
        d.row == src.row + 1 || d.row + 1 == src.row,
{
    let ds = diag_seq(src, 8);
    let j = choose|j: int| 0 <= j < ds.len() && ds[j] == d;
    assert(ds[j] == d);
}

/// A man steps only forward: every simple move of a non-king piece of `pl`
/// lands on the row one step in `pl`'s forward direction, so a Black man
/// on row 2 with free neighbors on row 3 moves only toward row 3.
pub proof fn lemma_man_moves_forward(g: Seq<Option<Piece>>, pl: Player, src: Position)
    requires
        src.valid(8),
    ensures
        forall|j: int|
            0 <= j < regular_moves_spec(g, pl, false, src).len() ==> {
                let m = #[trigger] regular_moves_spec(g, pl, false, src)[j];
                &&& pl.forward(src, m.stops[0])
                &&& pl == Player::Black ==> m.stops[0].row == src.row + 1
                &&& pl == Player::White ==> m.stops[0].row + 1 == src.row
            },
{
    lemma_regular_moves_from_shape(g, pl, false, src, diag_seq(src, 8), 0);
    assert forall|j: int| 0 <= j < regular_moves_spec(g, pl, false, src).len() implies {
        let m = #[trigger] regular_moves_spec(g, pl, false, src)[j];
        &&& pl.forward(src, m.stops[0])
        &&& pl == Player::Black ==> m.stops[0].row == src.row + 1
        &&& pl == Player::White ==> m.stops[0].row + 1 == src.row
    } by {
        let m = regular_moves_spec(g, pl, false, src)[j];
        lemma_diag_row_step(src, m.stops[0]);
    }
}

/// When a neighbor of `src` from index `i` on may be stepped onto, the
/// query lists a move onto it.
pub proof fn lemma_regular_moves_from_complete(
    g: Seq<Option<Piece>>,
    pl: Player,
    king: bool,
    src: Position,
    diags: Seq<Position>,
    i: int,
    j: int,
)
    requires
        0 <= i <= j < diags.len(),
        regular_ok(g, pl, king, src, diags[j]),
    ensures
        exists|n: int|
            0 <= n < regular_moves_from(g, pl, king, src, diags, i).len() && (#[trigger]
            regular_moves_from(g, pl, king, src, diags, i)[n]).stops == seq![diags[j]],
    decreases diags.len() - i,
{
    let result = regular_moves_from(g, pl, king, src, diags, i);
    let rest = regular_moves_from(g, pl, king, src, diags, i + 1);
    if i == j {
        assert(result[0].stops == seq![diags[j]]);
    } else {
        lemma_regular_moves_from_complete(g, pl, king, src, diags, i + 1, j);
        let n0 = choose|n0: int|
            0 <= n0 < rest.len() && (#[trigger] rest[n0]).stops == seq![diags[j]];
        if regular_ok(g, pl, king, src, diags[i]) {
            assert(result[n0 + 1] == rest[n0]);
        } else {
            assert(result[n0] == rest[n0]);
        }
    }
}

/// A king is free of the direction constraint: it steps onto every empty
/// diagonal neighbor, backward ones included.
pub proof fn lemma_king_moves_any_direction(
    g: Seq<Option<Piece>>,
    pl: Player,
    src: Position,
    d: Position,
)
    requires
        src.valid(8),
        diag_seq(src, 8).contains(d),
        square_empty(g, d),
    ensures
        exists|n: int|
            0 <= n < regular_moves_spec(g, pl, true, src).len() && (#[trigger] regular_moves_spec(
                g,
                pl,
                true,
                src,
            )[n]).stops == seq![d],
{
    let ds = diag_seq(src, 8);
    let j = choose|j: int| 0 <= j < ds.len() && ds[j] == d;
    lemma_regular_moves_from_complete(g, pl, true, src, ds, 0, j);
    let found = regular_moves_from(g, pl, true, src, ds, 0);
    let n = choose|n: int| 0 <= n < found.len() && (#[trigger] found[n]).stops == seq![ds[j]];
    assert(regular_moves_spec(g, pl, true, src)[n].stops == seq![d]);
}

} // verus!

