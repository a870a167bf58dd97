use crate::board::{option_view, views, Board, Move};
use crate::capture::{legal_moves, lemma_enumeration_row_major, placed, playable};
use crate::cells::{lemma_count_bound, material};
use crate::game::Play;
use crate::piece::Piece;
use crate::search::{
    is_last_best, lemma_material_bound, lemma_negamax_best_bound, lemma_negamax_best_is_last,
    lemma_negamax_bound, negamax_best, negamax_spec, reply_score,
};
use rayon::prelude::{IntoParallelRefIterator, ParallelIterator};
use vstd::prelude::*;

verus! {

/// A player that searches a fixed number of plies ahead without pruning, and looks at
/// the moves of the first ply side by side.
pub struct NegaMaxPlayer {
    depth: usize,
}

impl NegaMaxPlayer {
    /// How many plies the player looks ahead.
    pub closed spec fn plies(&self) -> nat {
        self.depth as nat
    }

    /// A player that looks `depth` plies ahead.
    pub fn new(depth: usize) -> (r: Self)
        ensures
            r.plies() == depth,
    {
        NegaMaxPlayer { depth }
    }

    /// The material balance of `piece`: its stones minus the stones of the other side.
    pub fn evaluate(&self, piece: Piece, board: &Board) -> (r: i8)
        requires
            board.wf(),
        ensures
            r == material(board@, piece),
            -64 <= r <= 64,
    {
        proof {
            lemma_material_bound(board@, piece);
            lemma_count_bound(board@, Some(Piece::Black));
            lemma_count_bound(board@, Some(Piece::White));
        }
        match piece {
            Piece::Black => board.black as i8 - board.white as i8,
            Piece::White => board.white as i8 - board.black as i8,
        }
    }

    /// What `mov` is worth to `piece`: the negated score of the position after it, which
    /// the other side searches `depth - 1` plies ahead.
    pub fn score_after(&self, piece: Piece, board: &Board, mov: &Move, depth: usize) -> (r: i8)
        requires
            board.wf(),
            playable(board@, piece, mov@),
            depth > 0,
        ensures
            r == reply_score(board@, piece, mov@, depth as nat),
            -64 <= r <= 64,
        decreases depth, 0nat,
    {
        let mut child = board.clone();
        child.do_move(piece, mov);
        let (score, _) = self.negamax(piece.opponent(), &child, depth - 1);
        -score
    }

    /// The move with the highest score among `list`, the last of equally good ones, with
    /// its score. `scores` holds the score of each move of `list`. An empty list gives no
    /// move and the score -127.
    pub fn pick_best(list: &[Move], scores: &Vec<i8>) -> (r: (i8, Option<Move>))
        requires
            list@.len() == scores@.len(),
        ensures
            list@.len() == 0 ==> r.0 == -127 && r.1 is None,
            list@.len() > 0 ==> exists|i: int|
                {
                    &&& 0 <= i < list@.len()
                    &&& r.0 == #[trigger] scores@[i]
                    &&& r.1 == Some(list@[i])
                    &&& forall|j: int| 0 <= j < list@.len() ==> #[trigger] scores@[j] <= r.0
                    &&& forall|j: int| i < j < list@.len() ==> #[trigger] scores@[j] < r.0
                },
    {
        let mut best: (i8, Option<Move>) = (-127, None);
        let ghost mut at: int = 0;
        let mut i: usize = 0;
        while i < list.len()
            invariant
                i <= list@.len(),
                list@.len() == scores@.len(),
                i == 0 ==> best.0 == -127 && best.1 is None,
                i > 0 ==> {
                    &&& 0 <= at < i
                    &&& best.0 == scores@[at]
                    &&& best.1 == Some(list@[at])
                    &&& forall|j: int| 0 <= j < i ==> #[trigger] scores@[j] <= best.0
                    &&& forall|j: int| at < j < i ==> #[trigger] scores@[j] < best.0
                },
            decreases list.len() - i,
        {
            if i == 0 || scores[i] >= best.0 {
                best = (scores[i], Some(list[i].clone()));
                proof {
                    at = i as int;
                }
            }
            i += 1;
        }
        best
    }

    /// Searches `depth` plies ahead for `piece`, one move after the other, and returns
    /// the score with the move that earns it.
    pub fn negamax(&self, piece: Piece, board: &Board, depth: usize) -> (r: (i8, Option<Move>))
        requires
            board.wf(),
        ensures
            (r.0 as int, option_view(r.1)) == negamax_spec(board@, piece, depth as nat),
            -64 <= r.0 <= 64,
            depth == 0 ==> r.0 == material(board@, piece),
            r.1 is Some <==> depth > 0 && legal_moves(board@, piece).len() > 0,
            r.1 matches Some(m) ==> legal_moves(board@, piece).contains(m@),
        decreases depth, 1nat,
    {
        if depth == 0 {
            return (self.evaluate(piece, board), None);
        }
        let moves = board.moves(piece);
        let list = moves.as_slice();
        if list.len() == 0 {
            return (self.evaluate(piece, board), None);
        }
        let ghost cells = board@;
        let ghost all = legal_moves(cells, piece);
        proof {
            lemma_enumeration_row_major(cells, piece);
        }
        let mut best: (i8, Option<Move>) = (-127, None);
        let mut i: usize = 0;
        while i < list.len()
            invariant
                board.wf(),
                cells == board@,
                all == legal_moves(cells, piece),
                views(list@) == all,
                depth > 0,
                i <= list.len(),
                forall|j: int| 0 <= j < all.len() ==> playable(cells, piece, #[trigger] all[j]),
                (best.0 as int, option_view(best.1)) == negamax_best(
                    cells,
                    piece,
                    depth as nat,
                    i as nat,
                ),
            decreases list.len() - i,
        {
            let mov = &list[i];
            assert(mov@ == all[i as int]);
            proof {
                lemma_negamax_best_bound(cells, piece, depth as nat, i as nat);
            }
            let score = self.score_after(piece, board, mov, depth);
            if score >= best.0 {
                best = (score, Some(mov.clone()));
            }
            i += 1;
        }
        proof {
            lemma_negamax_best_bound(cells, piece, depth as nat, i as nat);
        }
        best
    }

    /// The score of each move of `list`, worked out side by side by rayon: `par_iter`
    /// hands the moves out to the worker threads, `map` applies `score_after` to each
    /// move, and `collect` gathers the scores into a vector. Taken on trust: the vector
    /// holds one score for each move, in the order of the moves, and each is what
    /// `score_after` returns for that move.
    #[verifier::external_body]
    fn par_scores(&self, piece: Piece, board: &Board, list: &[Move], depth: usize) -> (r: Vec<i8>)
        requires
            board.wf(),
            depth > 0,
            forall|i: int| 0 <= i < list@.len() ==> playable(board@, piece, (#[trigger] list@[i])@),
        ensures
            r@.len() == list@.len(),
            forall|i: int|
                0 <= i < list@.len() ==> #[trigger] r@[i] == reply_score(
                    board@,
                    piece,
                    list@[i]@,
                    depth as nat,
                ),
    {
        list.par_iter().map(|mov| self.score_after(piece, board, mov, depth)).collect()
    }

    /// Searches `depth` plies ahead for `piece`. The moves of the first ply are scored
    /// side by side, each by the one-after-the-other search of the reply, and the best is
    /// picked once all scores are in.
    pub fn negamax_mt(&self, piece: Piece, board: &Board, depth: usize) -> (r: (i8, Option<Move>))
        requires
            board.wf(),
        ensures
            (r.0 as int, option_view(r.1)) == negamax_spec(board@, piece, depth as nat),
            -64 <= r.0 <= 64,
            depth == 0 ==> r.0 == material(board@, piece),
            r.1 is Some <==> depth > 0 && legal_moves(board@, piece).len() > 0,
            r.1 matches Some(m) ==> legal_moves(board@, piece).contains(m@),
    {
        if depth == 0 {
            return (self.evaluate(piece, board), None);
        }
        let moves = board.moves(piece);
        let list = moves.as_slice();
        if list.len() == 0 {
            return (self.evaluate(piece, board), None);
        }
        let ghost cells = board@;
        let ghost all = legal_moves(cells, piece);
        proof {
            lemma_enumeration_row_major(cells, piece);
            assert forall|i: int| 0 <= i < list@.len() implies playable(
                cells,
                piece,
                (#[trigger] list@[i])@,
            ) by {
                assert(list@[i]@ == all[i]);
            }
        }
        let scores = self.par_scores(piece, board, list, depth);
        let best = Self::pick_best(list, &scores);
        proof {
            let n = all.len();
            let want = lemma_negamax_best_is_last(cells, piece, depth as nat, n);
            let got = choose|i: int|
                {
                    &&& 0 <= i < list@.len()
                    &&& best.0 == #[trigger] scores@[i]
                    &&& best.1 == Some(list@[i])
                    &&& forall|j: int| 0 <= j < list@.len() ==> #[trigger] scores@[j] <= best.0
                    &&& forall|j: int| i < j < list@.len() ==> #[trigger] scores@[j] < best.0
                };
            assert(list@[got]@ == all[got]);
            assert(list@[want]@ == all[want]);
            assert(scores@[want] == reply_score(cells, piece, all[want], depth as nat));
            assert(scores@[got] == reply_score(cells, piece, all[got], depth as nat));
            assert(got == want);
            lemma_negamax_best_bound(cells, piece, depth as nat, n);
        }
        best
    }
}

impl Play for NegaMaxPlayer {
    /// The move that the search finds best: the last of the legal moves with the highest
    /// score, and none where the player looks no ply ahead or `piece` has no legal move.
    fn play(&mut self, piece: Piece, board: &Board) -> (r: Option<Move>)
        ensures
            final(self).plies() == old(self).plies(),
            option_view(r) == negamax_spec(board@, piece, old(self).plies()).1,
            r is Some <==> old(self).plies() > 0 && legal_moves(board@, piece).len() > 0,
            r matches Some(m) ==> exists|k: int|
                {
                    &&& #[trigger] is_last_best(
                        board@,
                        piece,
                        old(self).plies(),
                        legal_moves(board@, piece).len(),
                        k,
                    )
                    &&& m@ == legal_moves(board@, piece)[k]
                },
    {
        let depth = self.depth;
        let (_, mov) = self.negamax_mt(piece, board, depth);
        proof {
            let n = legal_moves(board@, piece).len();
            if depth > 0 && n > 0 {
                let k = lemma_negamax_best_is_last(board@, piece, depth as nat, n);
                assert(is_last_best(board@, piece, depth as nat, n, k));
                assert(negamax_spec(board@, piece, depth as nat) == negamax_best(
                    board@,
                    piece,
                    depth as nat,
                    n,
                ));
                assert(option_view(mov) == Some(legal_moves(board@, piece)[k]));
            }
        }
        mov
    }
}

} // verus!
