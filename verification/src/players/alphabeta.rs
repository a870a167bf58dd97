use crate::board::{option_view, views, Board, Move};
use crate::capture::{legal_moves, lemma_enumeration_row_major, playable};
use crate::cells::{lemma_count_bound, material};
use crate::game::Play;
use crate::piece::Piece;
use crate::pruning::{is_first_best, lemma_pruning_takes_first};
use crate::search::{alphabeta_scan, alphabeta_spec, lemma_material_bound};
use vstd::prelude::*;

verus! {

/// A player that searches a fixed number of plies ahead and prunes what cannot matter.
pub struct AlphaBetaPlayer {
    depth: usize,
}

impl AlphaBetaPlayer {
    /// How many plies the player looks ahead.
    pub closed spec fn plies(&self) -> nat {
        self.depth as nat
    }

    /// A player that looks `depth` plies ahead.
    pub fn new(depth: usize) -> (r: Self)
        ensures
            r.plies() == depth,
    {
        AlphaBetaPlayer { depth }
    }

    /// The material balance of `piece`: its stones minus the stones of the other side.
    pub fn evaluate(&self, piece: Piece, board: &Board) -> (r: i8)
        requires
            board.wf(),
        ensures
            r == material(board@, piece),
            -64 <= r <= 64,
    {
        proof {
            lemma_material_bound(board@, piece);
            lemma_count_bound(board@, Some(Piece::Black));
            lemma_count_bound(board@, Some(Piece::White));
        }
        match piece {
            Piece::Black => board.black as i8 - board.white as i8,
            Piece::White => board.white as i8 - board.black as i8,
        }
    }

    /// Searches `depth` plies ahead for `piece` inside the window `(al, be)` and returns
    /// the score with the move that earns it.
    pub fn alphabeta(&self, piece: Piece, board: &Board, al: i8, be: i8, depth: usize) -> (r: (
        i8,
        Option<Move>,
    ))
        requires
            board.wf(),
            i8::MIN < al,
            i8::MIN < be,
        ensures
            (r.0 as int, option_view(r.1)) == alphabeta_spec(
                board@,
                piece,
                al as int,
                be as int,
                depth as nat,
            ),
            -64 <= r.0 <= 64,
            depth == 0 ==> r.0 == material(board@, piece),
            r.1 is Some <==> depth > 0 && legal_moves(board@, piece).len() > 0,
            r.1 matches Some(m) ==> legal_moves(board@, piece).contains(m@),
        decreases depth,
    {
        if depth == 0 {
            return (self.evaluate(piece, board), None);
        }
        let moves = board.moves(piece);
        let list = moves.as_slice();
        if list.len() == 0 {
            return (self.evaluate(piece, board), None);
        }
        let ghost cells = board@;
        let ghost all = legal_moves(cells, piece);
        let ghost goal = alphabeta_spec(cells, piece, al as int, be as int, depth as nat);
        proof {
            lemma_enumeration_row_major(cells, piece);
        }
        let mut best: (i8, Option<Move>) = (-127, None);
        let mut alpha = al;
        let mut cut = false;
        let mut i: usize = 0;
        while i < list.len() && !cut
            invariant
                board.wf(),
                cells == board@,
                all == legal_moves(cells, piece),
                views(list@) == all,
                depth > 0,
                i <= list.len(),
                i8::MIN < alpha,
                i8::MIN < be,
                forall|j: int| 0 <= j < all.len() ==> playable(cells, piece, #[trigger] all[j]),
                i == 0 ==> best.0 == -127 && best.1 is None && !cut,
                i > 0 ==> -64 <= best.0 <= 64 && best.1 is Some,
                best.1 matches Some(m) ==> all.contains(m@),
                cut ==> (best.0 as int, option_view(best.1)) == goal,
                !cut ==> alphabeta_scan(
                    cells,
                    piece,
                    alpha as int,
                    be as int,
                    depth as nat,
                    i as nat,
                    (best.0 as int, option_view(best.1)),
                ) == goal,
            decreases list.len() - i,
        {
            let mov = &list[i];
            assert(mov@ == all[i as int]);
            let mut child = board.clone();
            child.do_move(piece, mov);
            let (score, _) = self.alphabeta(piece.opponent(), &child, -be, -alpha, depth - 1);
            let score = -score;
            if score > best.0 {
                best = (score, Some(mov.clone()));
            }
            if score > alpha {
                alpha = score;
            }
            if alpha >= be {
                cut = true;
            }
            i += 1;
        }
        best
    }
}

impl Play for AlphaBetaPlayer {
    /// The move that the search finds best inside the full window: the first of the
    /// legal moves with the highest score, and none where the player looks no ply ahead
    /// or `piece` has no legal move.
    fn play(&mut self, piece: Piece, board: &Board) -> (r: Option<Move>)
        ensures
            final(self).plies() == old(self).plies(),
            option_view(r) == alphabeta_spec(board@, piece, -127, 127, old(self).plies()).1,
            r is Some <==> old(self).plies() > 0 && legal_moves(board@, piece).len() > 0,
            r matches Some(m) ==> exists|k: int|
                {
                    &&& #[trigger] is_first_best(
                        board@,
                        piece,
                        old(self).plies(),
                        legal_moves(board@, piece).len(),
                        k,
                    )
                    &&& m@ == legal_moves(board@, piece)[k]
                },
    {
        let depth = self.depth;
        let (_, mov) = self.alphabeta(piece, board, -127, 127, depth);
        proof {
            if depth > 0 && legal_moves(board@, piece).len() > 0 {
                let k = lemma_pruning_takes_first(board@, piece, depth as nat);
                assert(is_first_best(
                    board@,
                    piece,
                    depth as nat,
                    legal_moves(board@, piece).len(),
                    k,
                ));
            }
        }
        mov
    }
}

} // verus!
