use vstd::prelude::*;

use crate::position::Position;

verus! {

/// One of the two sides. Black moves toward increasing rows, White toward
/// decreasing rows.
#[derive(Clone, Copy, Debug, PartialEq, Eq, Structural)]
pub enum Player {
    Black,
    White,
}

impl Player {
    /// Whether moving from `src` to `dst` goes in this player's forward
    /// direction.
    pub open spec fn forward(self, src: Position, dst: Position) -> bool {
        match self {
            Player::Black => dst.row > src.row,
            Player::White => dst.row < src.row,
        }
    }

    pub fn is_forward_move(&self, src: Position, dst: Position) -> (r: bool)
        ensures
            r == self.forward(src, dst),
    {
        match self {
            Player::Black => dst.row > src.row,
            Player::White => dst.row < src.row,
        }
    }
}

} // verus!
