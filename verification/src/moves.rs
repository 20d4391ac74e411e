use vstd::prelude::*;

use crate::position::Position;

verus! {

/// A move produced by a board query: the origin square, the ordered landing
/// squares, and, for a capture sequence, the jumped-over squares in capture
/// order. A simple move has exactly one stop and no captures; a capture
/// sequence's stops are the full path (origin first), and its captures list
/// one jumped square per jump.
#[derive(Debug)]
pub struct Move {
    pub src: Position,
    pub stops: Vec<Position>,
    pub captures: Option<Vec<Position>>,
}

/// The mathematical value of a `Move`.
#[verifier::ext_equal]
pub ghost struct MoveModel {
    pub src: Position,
    pub stops: Seq<Position>,
    pub captures: Option<Seq<Position>>,
}

impl View for Move {
    type V = MoveModel;

    open spec fn view(&self) -> MoveModel {
        MoveModel {
            src: self.src,
            stops: self.stops@,
            captures: match self.captures {
                Some(c) => Some(c@),
                None => None,
            },
        }
    }
}

/// The mathematical values of a sequence of moves.
pub open spec fn moves_view(ms: Seq<Move>) -> Seq<MoveModel> {
    ms.map_values(|m: Move| m@)
}

impl Move {
    pub fn new(src: Position, stops: Vec<Position>, captures: Option<Vec<Position>>) -> (r: Move)
        ensures
            r.src == src,
            r.stops == stops,
            r.captures == captures,
    {
        Move { src, stops, captures }
    }
}

} // verus!
