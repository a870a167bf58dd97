use crate::board::{option_view, views, Board, Move};
use crate::capture::{legal_moves, MoveView};
use crate::game::Play;
use crate::piece::Piece;
use vstd::prelude::*;

verus! {

/// A player that takes the first legal move it finds.
pub struct DumbPlayer;

impl Play for DumbPlayer {
    /// The first legal move in enumeration order, or none where there is no legal move.
    fn play(&mut self, piece: Piece, board: &Board) -> (r: Option<Move>)
        ensures
            option_view(r) == (if legal_moves(board@, piece).len() > 0 {
                Some(legal_moves(board@, piece)[0])
            } else {
                None::<MoveView>
            }),
    {
        let moves = board.moves(piece);
        let list = moves.as_slice();
        if list.len() == 0 {
            None
        } else {
            assert(views(list@)[0] == list@[0]@);
            Some(list[0].clone())
        }
    }
}

} // verus!
