use vstd::prelude::*;

use crate::player::Player;

verus! {

/// A piece on the board: its owner and whether it has been crowned a king.
/// `new` always produces a man; promotion is outside this library's scope.
#[derive(Clone, Copy, Debug, PartialEq, Eq, Structural)]
pub struct Piece {
    pub player: Player,
    pub is_king: bool,
}

impl Piece {
    pub fn new(player: Player) -> (r: Self)
        ensures
            r == (Piece { player, is_king: false }),
    {
        Piece { player, is_king: false }
    }

    pub fn player(&self) -> (r: Player)
        ensures
            r == self.player,
    {
        self.player
    }

    pub fn is_king(&self) -> (r: bool)
        ensures
            r == self.is_king,
    {
        self.is_king
    }
}

} // verus!
