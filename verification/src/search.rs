//! What the two search strategies compute, as mathematics.
//!
//! Both score a position for the side to move by its material balance at the leaves and
//! by the best negated score of the replies elsewhere. A side without a legal move is a
//! leaf: the search does not pass the turn.

use crate::capture::{legal_moves, placed, MoveView};
use crate::cells::{lemma_count_bound, material, Cell};
use crate::piece::Piece;
use vstd::prelude::*;

verus! {

/// A score and the move that earns it, if any.
pub type Scored = (int, Option<MoveView>);

/// The score below every score of a position.
pub open spec fn floor_score() -> int {
    -127
}

/// The plain search to `depth` plies: the material balance at a leaf, else the best
/// reply-negated score over the legal moves. Among moves of equal score the last one in
/// enumeration order is chosen.
pub open spec fn negamax_spec(cells: Seq<Cell>, side: Piece, depth: nat) -> Scored
    decreases depth, 1nat, 0nat,
{
    let moves = legal_moves(cells, side);
    if depth == 0 || moves.len() == 0 {
        (material(cells, side), None)
    } else {
        negamax_best(cells, side, depth, moves.len())
    }
}

/// The best of the first `n` legal moves, a later move winning a tie.
pub open spec fn negamax_best(cells: Seq<Cell>, side: Piece, depth: nat, n: nat) -> Scored
    decreases depth, 0nat, n,
{
    if depth == 0 || n == 0 {
        (floor_score(), None)
    } else {
        let m = legal_moves(cells, side)[n - 1];
        let score = -negamax_spec(placed(cells, side, m), side.other(), (depth - 1) as nat).0;
        let before = negamax_best(cells, side, depth, (n - 1) as nat);
        if score >= before.0 {
            (score, Some(m))
        } else {
            before
        }
    }
}

/// What the move `m` is worth to `side` when the reply is searched to `depth - 1` plies.
pub open spec fn reply_score(cells: Seq<Cell>, side: Piece, m: MoveView, depth: nat) -> int {
    -negamax_spec(placed(cells, side, m), side.other(), (depth - 1) as nat).0
}

/// The pruning search to `depth` plies inside the window `(alpha, beta)`: the material
/// balance at a leaf, else the outcome of going through the legal moves in order.
pub open spec fn alphabeta_spec(
    cells: Seq<Cell>,
    side: Piece,
    alpha: int,
    beta: int,
    depth: nat,
) -> Scored
    decreases depth, 1nat, 0nat,
{
    let moves = legal_moves(cells, side);
    if depth == 0 || moves.len() == 0 {
        (material(cells, side), None)
    } else {
        alphabeta_scan(cells, side, alpha, beta, depth, 0, (floor_score(), None))
    }
}

/// Going through the legal moves from the `i`-th on, with `best` found so far. Each move
/// is scored by the negated search of the reply inside the negated, swapped window. A
/// strictly higher score replaces the best one, so the earliest of equal moves stays.
/// `alpha` rises to the score, and once it reaches `beta` no further move is examined.
pub open spec fn alphabeta_scan(
    cells: Seq<Cell>,
    side: Piece,
    alpha: int,
    beta: int,
    depth: nat,
    i: nat,
    best: Scored,
) -> Scored
    decreases depth, 0nat, legal_moves(cells, side).len() - i,
{
    let moves = legal_moves(cells, side);
    if depth == 0 || i >= moves.len() {
        best
    } else {
        let m = moves[i as int];
        let score = -alphabeta_spec(
            placed(cells, side, m),
            side.other(),
            -beta,
            -alpha,
            (depth - 1) as nat,
        ).0;
        let best2 = if score > best.0 {
            (score, Some(m))
        } else {
            best
        };
        let alpha2 = if score > alpha {
            score
        } else {
            alpha
        };
        if alpha2 >= beta {
            best2
        } else {
            alphabeta_scan(cells, side, alpha2, beta, depth, i + 1, best2)
        }
    }
}

/// The material balance of a full grid lies between -64 and 64.
pub proof fn lemma_material_bound(cells: Seq<Cell>, side: Piece)
    requires
        cells.len() == 64,
    ensures
        -64 <= material(cells, side) <= 64,
{
    lemma_count_bound(cells, Some(side));
    lemma_count_bound(cells, Some(side.other()));
}

/// Both strategies stop at depth 0 with the material balance and no move.
pub proof fn lemma_depth_zero_terminal(cells: Seq<Cell>, side: Piece, alpha: int, beta: int)
    ensures
        negamax_spec(cells, side, 0) == (material(cells, side), None::<MoveView>),
        alphabeta_spec(cells, side, alpha, beta, 0) == (material(cells, side), None::<MoveView>),
{
}

/// A side without a legal move gets no move from either strategy, at any depth.
pub proof fn lemma_no_move_is_pass(
    cells: Seq<Cell>,
    side: Piece,
    alpha: int,
    beta: int,
    depth: nat,
)
    requires
        legal_moves(cells, side).len() == 0,
    ensures
        negamax_spec(cells, side, depth).1 is None,
        alphabeta_spec(cells, side, alpha, beta, depth).1 is None,
{
}

/// The plain search scores every position between -64 and 64.
pub proof fn lemma_negamax_bound(cells: Seq<Cell>, side: Piece, depth: nat)
    requires
        cells.len() == 64,
    ensures
        -64 <= negamax_spec(cells, side, depth).0 <= 64,
    decreases depth, 1nat, 0nat,
{
    let moves = legal_moves(cells, side);
    if depth == 0 || moves.len() == 0 {
        lemma_material_bound(cells, side);
    } else {
        lemma_negamax_best_bound(cells, side, depth, moves.len());
    }
}

/// The best of the first `n` moves is a move of the list with a score between -64 and
/// 64, as soon as `n` is at least 1.
pub proof fn lemma_negamax_best_bound(cells: Seq<Cell>, side: Piece, depth: nat, n: nat)
    requires
        cells.len() == 64,
        depth > 0,
        n <= legal_moves(cells, side).len(),
    ensures
        n == 0 ==> negamax_best(cells, side, depth, n) == (floor_score(), None::<MoveView>),
        n > 0 ==> -64 <= negamax_best(cells, side, depth, n).0 <= 64,
        n > 0 ==> negamax_best(cells, side, depth, n).1 is Some,
        negamax_best(cells, side, depth, n).1 matches Some(m) ==> legal_moves(
            cells,
            side,
        ).contains(m),
    decreases depth, 0nat, n,
{
    if n > 0 {
        let m = legal_moves(cells, side)[n - 1];
        lemma_negamax_bound(placed(cells, side, m), side.other(), (depth - 1) as nat);
        lemma_negamax_best_bound(cells, side, depth, (n - 1) as nat);
    }
}

/// Whether the `i`-th legal move is the last one among the first `n` whose score no
/// other of them exceeds.
pub open spec fn is_last_best(cells: Seq<Cell>, side: Piece, depth: nat, n: nat, i: int) -> bool {
    let moves = legal_moves(cells, side);
    &&& 0 <= i < n
    &&& forall|j: int|
        0 <= j < n ==> reply_score(cells, side, #[trigger] moves[j], depth) <= reply_score(
            cells,
            side,
            moves[i],
            depth,
        )
    &&& forall|j: int|
        i < j < n ==> reply_score(cells, side, #[trigger] moves[j], depth) < reply_score(
            cells,
            side,
            moves[i],
            depth,
        )
}

/// The plain search chooses the last of the moves with the highest score.
pub proof fn lemma_negamax_best_is_last(cells: Seq<Cell>, side: Piece, depth: nat, n: nat) -> (i:
    int)
    requires
        cells.len() == 64,
        depth > 0,
        0 < n <= legal_moves(cells, side).len(),
    ensures
        is_last_best(cells, side, depth, n, i),
        negamax_best(cells, side, depth, n) == (
            reply_score(cells, side, legal_moves(cells, side)[i], depth),
            Some(legal_moves(cells, side)[i]),
        ),
    decreases n,
{
    let moves = legal_moves(cells, side);
    let score = reply_score(cells, side, moves[n - 1], depth);
    lemma_negamax_bound(placed(cells, side, moves[n - 1]), side.other(), (depth - 1) as nat);
    lemma_negamax_best_bound(cells, side, depth, (n - 1) as nat);
    if n == 1 {
        n - 1
    } else {
        let before = lemma_negamax_best_is_last(cells, side, depth, (n - 1) as nat);
        if score >= negamax_best(cells, side, depth, (n - 1) as nat).0 {
            n - 1
        } else {
            before
        }
    }
}

} // verus!
