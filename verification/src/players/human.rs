use crate::board::Move;
use crate::moves::Moves;
use vstd::prelude::*;

verus! {

/// A player at a terminal, who is shown the legal moves as a numbered list and answers
/// with a number.
pub struct Human;

impl Human {
    /// The move that the answer `idx` to the listing `moves` stands for. An answer that
    /// is no number of the list stands for no move, and the question is asked again.
    pub fn select(moves: &Moves, idx: usize) -> (r: Option<Move>)
        ensures
            idx < moves@.len() ==> r == Some(moves@[idx as int]),
            idx >= moves@.len() ==> r is None,
    {
        let list = moves.as_slice();
        if idx < list.len() {
            Some(list[idx].clone())
        } else {
            None
        }
    }
}

} // verus!
