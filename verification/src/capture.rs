use vstd::prelude::*;

use crate::board::{square_empty, square_opposing, Board, BOARD_SIDE};
use crate::moves::{Move, MoveModel, moves_view};
use crate::piece::Piece;
use crate::player::Player;
use crate::position::{dir_col_delta, dir_row_delta, Position};

verus! {

use vstd::seq_lib::*;
use vstd::set_lib::{lemma_int_range, lemma_len_subset, set_int_range};

/// The square jumped over when the piece on `cur` jumps in diagonal
/// direction `k`.
pub open spec fn jumped_square(cur: Position, k: int) -> Position {
    Position {
        row: (cur.row + dir_row_delta(k)) as usize,
        col: (cur.col + dir_col_delta(k)) as usize,
    }
}

/// The square the piece on `cur` lands on when it jumps in diagonal
/// direction `k`: two steps away, with `jumped_square` in between.
pub open spec fn landing_square(cur: Position, k: int) -> Position {
    Position {
        row: (cur.row + 2 * dir_row_delta(k)) as usize,
        col: (cur.col + 2 * dir_col_delta(k)) as usize,
    }
}

/// The jump from `cur` in direction `k` stays on the board.
pub open spec fn jump_in_bounds(cur: Position, k: int) -> bool {
    cur.valid(8) && 0 <= cur.row + 2 * dir_row_delta(k) < 8 && 0 <= cur.col + 2 * dir_col_delta(k)
        < 8
}

/// The piece of `pl` on `cur` (a king when `king` holds) can jump in
/// direction `k`: the landing square is on the board and empty, the square
/// in between holds an opposing piece not yet captured in this sequence,
/// and the jump goes forward unless the piece is a king.
pub open spec fn can_jump(
    g: Seq<Option<Piece>>,
    pl: Player,
    king: bool,
    captured: Seq<Position>,
    cur: Position,
    k: int,
) -> bool {
    jump_in_bounds(cur, k) && square_opposing(g, pl, jumped_square(cur, k)) && square_empty(
        g,
        landing_square(cur, k),
    ) && (king || pl.forward(cur, landing_square(cur, k))) && !captured.contains(
        jumped_square(cur, k),
    )
}

/// The captured squares accumulated so far are distinct, on the board, and
/// each holds an opposing piece.
pub open spec fn captured_ok(g: Seq<Option<Piece>>, pl: Player, captured: Seq<Position>) -> bool {
    captured.no_duplicates() && forall|i: int|
        0 <= i < captured.len() ==> (#[trigger] captured[i]).valid(8) && square_opposing(
            g,
            pl,
            captured[i],
        )
}

/// Distinct valid board coordinates number at most 64.
pub proof fn lemma_valid_distinct_positions_len(s: Seq<Position>)
    requires
        s.no_duplicates(),
        forall|i: int| 0 <= i < s.len() ==> (#[trigger] s[i]).valid(8),
    ensures
        s.len() <= 64,
{
    let idxs = s.map_values(|p: Position| p.row as int * 8 + p.col as int);
    assert forall|a: int, b: int|
        0 <= a < idxs.len() && 0 <= b < idxs.len() && a != b implies idxs[a] != idxs[b] by {
        assert(s[a] != s[b]);
        assert(s[a].valid(8) && s[b].valid(8));
    }
    assert(idxs.no_duplicates());
    idxs.unique_seq_to_set();
    assert(idxs.to_set().subset_of(set_int_range(0, 64))) by {
        assert forall|x: int| idxs.to_set().contains(x) implies set_int_range(0, 64).contains(
            x,
        ) by {
            let a = choose|a: int| 0 <= a < idxs.len() && idxs[a] == x;
            assert(s[a].valid(8));
        }
    }
    lemma_int_range(0, 64);
    lemma_len_subset(idxs.to_set(), set_int_range(0, 64));
}

/// All maximal capture sequences of the piece of `pl` (a king when `king`
/// holds) standing at the end of `path` on `cur`, exploring the diagonal
/// directions from `k` on at the current square and all four at deeper
/// ones. `path` is the landing squares walked so far, origin first and
/// `cur` last; `captured` the squares jumped so far. Each maximal sequence
/// yields one move whose stops extend `path` and whose captures extend
/// `captured`; a sequence that can be extended is superseded by its
/// extensions.
pub open spec fn search_dirs(
    g: Seq<Option<Piece>>,
    pl: Player,
    king: bool,
    cur: Position,
    path: Seq<Position>,
    captured: Seq<Position>,
    k: int,
) -> Seq<MoveModel>
    decreases 64 - captured.len(), 4 - k,
        when captured_ok(g, pl, captured) && 0 <= k
        via search_dirs_decreases
{
    if k >= 4 {
        Seq::empty()
    } else {
        let rest = search_dirs(g, pl, king, cur, path, captured, k + 1);
        if can_jump(g, pl, king, captured, cur, k) {
            let land = landing_square(cur, k);
            let caps = captured.push(jumped_square(cur, k));
            let deeper = search_dirs(g, pl, king, land, path.push(land), caps, 0);
            if deeper.len() == 0 {
                seq![MoveModel { src: path[0], stops: path.push(land), captures: Some(caps) }]
                    + rest
            } else {
                deeper + rest
            }
        } else {
            rest
        }
    }
}

/// A valid jump appends a fresh, valid, opposing square to the captured
/// sequence, so the sequence stays well-formed and within the board's 64
/// squares.
pub proof fn lemma_captured_ok_push(
    g: Seq<Option<Piece>>,
    pl: Player,
    king: bool,
    captured: Seq<Position>,
    cur: Position,
    k: int,
)
    requires
        captured_ok(g, pl, captured),
        can_jump(g, pl, king, captured, cur, k),
    ensures
        captured_ok(g, pl, captured.push(jumped_square(cur, k))),
        captured.push(jumped_square(cur, k)).len() <= 64,
{
    let j = jumped_square(cur, k);
    let caps = captured.push(j);
    assert(j.valid(8));
    assert forall|a: int, b: int|
        0 <= a < caps.len() && 0 <= b < caps.len() && a != b implies caps[a] != caps[b] by {
        if b == captured.len() {
            assert(captured[a] != j);
        } else if a == captured.len() {
            assert(captured[b] != j);
        }
    }
    assert(captured_ok(g, pl, caps));
    lemma_valid_distinct_positions_len(caps);
}

#[via_fn]
proof fn search_dirs_decreases(
    g: Seq<Option<Piece>>,
    pl: Player,
    king: bool,
    cur: Position,
    path: Seq<Position>,
    captured: Seq<Position>,
    k: int,
) {
    if captured_ok(g, pl, captured) && 0 <= k < 4 && can_jump(g, pl, king, captured, cur, k) {
        lemma_captured_ok_push(g, pl, king, captured, cur, k);
    }
}

/// All maximal capture sequences reachable from `cur`, the path walked so
/// far being `visited` (origin first, `cur` not yet appended).
pub open spec fn search_from(
    g: Seq<Option<Piece>>,
    pl: Player,
    king: bool,
    cur: Position,
    visited: Seq<Position>,
    captured: Seq<Position>,
) -> Seq<MoveModel> {
    search_dirs(g, pl, king, cur, visited.push(cur), captured, 0)
}

fn clone_positions(v: &Vec<Position>) -> (r: Vec<Position>)
    ensures
        r@ == v@,
{
    let mut out: Vec<Position> = Vec::new();
    let mut i: usize = 0;
    while i < v.len()
        invariant
            i <= v@.len(),
            out@ == v@.subrange(0, i as int),
        decreases v@.len() - i,
    {
        out.push(v[i]);
        proof {
            assert(out@ =~= v@.subrange(0, i as int + 1));
        }
        i = i + 1;
    }
    proof {
        assert(v@.subrange(0, v@.len() as int) =~= v@);
    }
    out
}

fn contains_position(list: &Vec<Position>, p: Position) -> (r: bool)
    ensures
        r == list@.contains(p),
{
    let mut i: usize = 0;
    while i < list.len()
        invariant
            i <= list@.len(),
            forall|j: int| 0 <= j < i ==> list@[j] != p,
        decreases list@.len() - i,
    {
        if list[i] == p {
            return true;
        }
        i = i + 1;
    }
    false
}

/// The jumped and landing squares of a jump from `cur` in direction `k`,
/// when the landing square is on the board.
fn jump_squares(cur: Position, k: usize) -> (r: Option<(Position, Position)>)
    requires
        cur.valid(BOARD_SIDE as int),
        k < 4,
    ensures
        match r {
            Some(pair) => jump_in_bounds(cur, k as int) && pair.0 == jumped_square(cur, k as int)
                && pair.1 == landing_square(cur, k as int),
            None => !jump_in_bounds(cur, k as int),
        },
{
    if k == 0 {
        if cur.row >= 2 && cur.col >= 2 {
            Some((Position::new(cur.row - 1, cur.col - 1), Position::new(cur.row - 2, cur.col - 2)))
        } else {
            None
        }
    } else if k == 1 {
        if cur.row >= 2 && cur.col + 2 < BOARD_SIDE {
            Some((Position::new(cur.row - 1, cur.col + 1), Position::new(cur.row - 2, cur.col + 2)))
        } else {
            None
        }
    } else if k == 2 {
        if cur.row + 2 < BOARD_SIDE && cur.col >= 2 {
            Some((Position::new(cur.row + 1, cur.col - 1), Position::new(cur.row + 2, cur.col - 2)))
        } else {
            None
        }
    } else {
        if cur.row + 2 < BOARD_SIDE && cur.col + 2 < BOARD_SIDE {
            Some((Position::new(cur.row + 1, cur.col + 1), Position::new(cur.row + 2, cur.col + 2)))
        } else {
            None
        }
    }
}

/// Recursive engine enumerating all maximal capture sequences for a piece
/// of `player` (a king when `is_king` holds) over a fixed board snapshot.
/// The board is never mutated: captures are hypothetical.
pub struct CaptureSearch<'a> {
    pub board: &'a Board,
    pub player: Player,
    pub is_king: bool,
}

impl<'a> CaptureSearch<'a> {
    pub fn new(board: &'a Board, player: Player, is_king: bool) -> (r: Self)
        ensures
            r.board == board,
            r.player == player,
            r.is_king == is_king,
    {
        CaptureSearch { board, player, is_king }
    }

    fn is_valid_capture(
        &self,
        jumped_piece: Piece,
        current_pos: Position,
        landing: Position,
        jumped_pos: Position,
        captured_pieces: &Vec<Position>,
    ) -> (r: bool)
        requires
            self.board.wf(),
            landing.valid(BOARD_SIDE as int),
        ensures
            r == (jumped_piece.player != self.player && square_empty(self.board.grid_seq(), landing)
                && (self.is_king || self.player.forward(current_pos, landing))
                && !captured_pieces@.contains(jumped_pos)),
    {
        jumped_piece.player() != self.player && self.board.get(landing).is_none() && (self.is_king
            || self.player.is_forward_move(current_pos, landing)) && !contains_position(
            captured_pieces,
            jumped_pos,
        )
    }

    /// Every maximal capture sequence from `current_pos`, as one move each:
    /// origin the first square of the extended path, stops the landing
    /// squares walked (origin first, final landing last), captures the
    /// jumped squares in order.
    pub fn find_captures(
        &self,
        current_pos: Position,
        visited_positions: Vec<Position>,
        captured_pieces: Vec<Position>,
    ) -> (moves: Vec<Move>)
        requires
            self.board.wf(),
            current_pos.valid(BOARD_SIDE as int),
            captured_ok(self.board.grid_seq(), self.player, captured_pieces@),
        ensures
            moves_view(moves@) == search_from(
                self.board.grid_seq(),
                self.player,
                self.is_king,
                current_pos,
                visited_positions@,
                captured_pieces@,
            ),
        decreases 64 - captured_pieces@.len(),
    {
        let ghost g = self.board.grid_seq();
        let mut moves: Vec<Move> = Vec::new();
        let mut visited = visited_positions;
        visited.push(current_pos);
        let ghost path = visited@;
        let mut k: usize = 0;
        while k < 4
            invariant
                self.board.wf(),
                g == self.board.grid_seq(),
                current_pos.valid(BOARD_SIDE as int),
                captured_ok(g, self.player, captured_pieces@),
                visited@ == path,
                path == visited_positions@.push(current_pos),
                k <= 4,
                moves_view(moves@) + search_dirs(g, self.player, self.is_king, current_pos, path, captured_pieces@, k as int)
                    == search_dirs(g, self.player, self.is_king, current_pos, path, captured_pieces@, 0),
            decreases 4 - k,
        {
            let ghost moves_prev = moves@;
            let ghost gk = k as int;
            if let Some((jumped_pos, landing)) = jump_squares(current_pos, k) {
                match self.board.get(jumped_pos) {
                    Some(jumped_piece) => {
                        if self.is_valid_capture(
                            jumped_piece,
                            current_pos,
                            landing,
                            jumped_pos,
                            &captured_pieces,
                        ) {
                            assert(can_jump(g, self.player, self.is_king, captured_pieces@, current_pos, gk));
                            let mut new_captured = clone_positions(&captured_pieces);
                            new_captured.push(jumped_pos);
                            proof {
                                lemma_captured_ok_push(
                                    g,
                                    self.player,
                                    self.is_king,
                                    captured_pieces@,
                                    current_pos,
                                    gk,
                                );
                            }
                            let next_captures = self.find_captures(
                                landing,
                                clone_positions(&visited),
                                clone_positions(&new_captured),
                            );
                            let ghost deeper = search_dirs(
                                g,
                                self.player,
                                self.is_king,
                                landing,
                                path.push(landing),
                                new_captured@,
                                0,
                            );
                            proof {
                                assert(moves_view(next_captures@) == deeper);
                            }
                            if next_captures.len() == 0 {
                                let mut stops = clone_positions(&visited);
                                stops.push(landing);
                                let first = visited[0];
                                moves.push(Move::new(first, stops, Some(new_captured)));
                                proof {
                                    assert(deeper.len() == 0);
                                    let m = moves@[moves_prev.len() as int];
                                    let head = (MoveModel {
                                        src: path[0],
                                        stops: path.push(landing_square(current_pos, gk)),
                                        captures: Some(captured_pieces@.push(jumped_square(current_pos, gk))),
                                    });
                                    assert(moves@ == moves_prev.push(m));
                                    assert(m@ =~= head);
                                    assert(moves_view(moves@) =~= moves_view(moves_prev).push(head));
                                    assert(moves_view(moves@) =~= moves_view(moves_prev) + seq![head]);
                                }
                            } else {
                                let mut rest = next_captures;
                                moves.append(&mut rest);
                                proof {
                                    assert(deeper.len() > 0);
                                    assert(moves_view(moves@) =~= moves_view(moves_prev) + deeper);
                                }
                            }
                        }
                    },
                    None => {},
                }
            }
            proof {
                let pl = self.player;
                let king = self.is_king;
                let caps0 = captured_pieces@;
                let full = search_dirs(g, pl, king, current_pos, path, caps0, 0);
                let tail = search_dirs(g, pl, king, current_pos, path, caps0, gk + 1);
                if can_jump(g, pl, king, caps0, current_pos, gk) {
                    let land = landing_square(current_pos, gk);
                    let caps = caps0.push(jumped_square(current_pos, gk));
                    let deeper = search_dirs(g, pl, king, land, path.push(land), caps, 0);
                    if deeper.len() == 0 {
                        let head = (MoveModel {
                            src: path[0],
                            stops: path.push(land),
                            captures: Some(caps),
                        });
                        assert(search_dirs(g, pl, king, current_pos, path, caps0, gk) == seq![head]
                            + tail);
                        assert(moves_view(moves@) =~= moves_view(moves_prev) + seq![head]);
                        assert(moves_view(moves@) + tail =~= moves_view(moves_prev) + (seq![head]
                            + tail));
                    } else {
                        assert(search_dirs(g, pl, king, current_pos, path, caps0, gk) == deeper
                            + tail);
                        assert(moves_view(moves@) + tail =~= moves_view(moves_prev) + (deeper
                            + tail));
                    }
                } else {
                    assert(search_dirs(g, pl, king, current_pos, path, caps0, gk) == tail);
                    assert(moves@ == moves_prev);
                }
            }
            k = k + 1;
        }
        proof {
            assert(moves_view(moves@) + Seq::<MoveModel>::empty() =~= moves_view(moves@));
        }
        moves
    }
}

/// Every move the search returns is a capture record that extends the
/// given context: its origin is the head of the path, its captured squares
/// are distinct and strictly outnumber those already accumulated, and its
/// stops grow past the path by exactly one landing per new capture.
pub proof fn lemma_search_moves_wf(
    g: Seq<Option<Piece>>,
    pl: Player,
    king: bool,
    cur: Position,
    path: Seq<Position>,
    captured: Seq<Position>,
    k: int,
)
    requires
        captured_ok(g, pl, captured),
        0 <= k,
        path.len() > 0,
    ensures
        forall|j: int|
            0 <= j < search_dirs(g, pl, king, cur, path, captured, k).len() ==> {
                let m = #[trigger] search_dirs(g, pl, king, cur, path, captured, k)[j];
                &&& m.src == path[0]
                &&& m.captures is Some
                &&& m.captures->0.no_duplicates()
                &&& m.captures->0.len() > captured.len()
                &&& m.stops.len() + captured.len() == m.captures->0.len() + path.len()
            },
    decreases 64 - captured.len(), 4 - k,
{
    if k < 4 {
        let result = search_dirs(g, pl, king, cur, path, captured, k);
        let rest = search_dirs(g, pl, king, cur, path, captured, k + 1);
        lemma_search_moves_wf(g, pl, king, cur, path, captured, k + 1);
        if can_jump(g, pl, king, captured, cur, k) {
            let land = landing_square(cur, k);
            let caps = captured.push(jumped_square(cur, k));
            lemma_captured_ok_push(g, pl, king, captured, cur, k);
            let deeper = search_dirs(g, pl, king, land, path.push(land), caps, 0);
            lemma_search_moves_wf(g, pl, king, land, path.push(land), caps, 0);
            if deeper.len() == 0 {
                let head = (MoveModel { src: path[0], stops: path.push(land), captures: Some(caps) });
                assert(result == seq![head] + rest);
                assert(result[0] == head);
                assert forall|j: int| 0 <= j < result.len() && j >= 1 implies result[j] == rest[j
                    - 1] by {}
            } else {
                assert(result == deeper + rest);
            }
        }
    }
}

/// The search returns at least one move exactly when some diagonal
/// direction from `k` on admits a jump at the current square.
pub proof fn lemma_search_nonempty(
    g: Seq<Option<Piece>>,
    pl: Player,
    king: bool,
    cur: Position,
    path: Seq<Position>,
    captured: Seq<Position>,
    k: int,
)
    requires
        captured_ok(g, pl, captured),
        0 <= k,
    ensures
        search_dirs(g, pl, king, cur, path, captured, k).len() > 0 <==> exists|k2: int|
            k <= k2 < 4 && can_jump(g, pl, king, captured, cur, k2),
    decreases 64 - captured.len(), 4 - k,
{
    if k < 4 {
        lemma_search_nonempty(g, pl, king, cur, path, captured, k + 1);
        if can_jump(g, pl, king, captured, cur, k) {
            lemma_captured_ok_push(g, pl, king, captured, cur, k);
            assert(k <= k < 4 && can_jump(g, pl, king, captured, cur, k));
        }
    }
}

/// A fresh search from an occupied square finds a capture exactly when
/// some diagonal direction admits a first jump there.
pub proof fn lemma_search_from_nonempty(
    g: Seq<Option<Piece>>,
    pl: Player,
    king: bool,
    cur: Position,
)
    ensures
        search_from(g, pl, king, cur, Seq::empty(), Seq::empty()).len() > 0 <==> exists|k: int|
            0 <= k < 4 && can_jump(g, pl, king, Seq::empty(), cur, k),
{
    lemma_search_nonempty(g, pl, king, cur, Seq::<Position>::empty().push(cur), Seq::empty(), 0);
}

/// Every move of a fresh search starts at the queried square, captures at
/// least one square and no square twice, and lists one more stop than
/// captures: the origin followed by one landing per jump.
pub proof fn lemma_search_from_moves_wf(
    g: Seq<Option<Piece>>,
    pl: Player,
    king: bool,
    cur: Position,
)
    ensures
        forall|j: int|
            0 <= j < search_from(g, pl, king, cur, Seq::empty(), Seq::empty()).len() ==> {
                let m = #[trigger] search_from(g, pl, king, cur, Seq::empty(), Seq::empty())[j];
                &&& m.src == cur
                &&& m.captures is Some
                &&& m.captures->0.no_duplicates()
                &&& m.captures->0.len() >= 1
                &&& m.stops.len() == m.captures->0.len() + 1
            },
{
    let path = Seq::<Position>::empty().push(cur);
    assert(path[0] == cur);
    lemma_search_moves_wf(g, pl, king, cur, path, Seq::empty(), 0);
}

} // verus!
