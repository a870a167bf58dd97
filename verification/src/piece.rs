use vstd::prelude::*;

verus! {

/// One of the two sides.
#[derive(Debug, Clone, Copy, PartialEq, Eq, Structural)]
pub enum Piece {
    Black,
    White,
}

impl Piece {
    /// The other side.
    pub open spec fn other(self) -> Piece {
        match self {
            Piece::Black => Piece::White,
            Piece::White => Piece::Black,
        }
    }

    /// Returns the other side.
    pub fn opponent(&self) -> (r: Piece)
        ensures
            r == self.other(),
    {
        match *self {
            Piece::Black => Piece::White,
            Piece::White => Piece::Black,
        }
    }
}

/// `opponent` never maps a side to itself, and applying it twice gives the side back.
pub proof fn lemma_opponent_swaps(p: Piece)
    ensures
        p.other() != p,
        p.other().other() == p,
{
}

} // verus!
