//! What pruning may and may not change: the score of a position is the score of the plain
//! search, and the two strategies differ only in which of several equally good moves they
//! choose.

use crate::capture::{legal_moves, placed, MoveView};
use crate::cells::Cell;
use crate::piece::Piece;
use crate::search::{
    alphabeta_scan, alphabeta_spec, floor_score, is_last_best, lemma_negamax_best_is_last,
    lemma_negamax_bound, negamax_best, negamax_spec, reply_score, Scored,
};
use vstd::prelude::*;

verus! {

/// What a score `found` inside the window `(alpha, beta)` says of the score `exact` of
/// the plain search: inside the window the two are equal, at or below `alpha` the exact
/// score is no higher, and at or above `beta` it is no lower.
pub open spec fn within(found: int, exact: int, alpha: int, beta: int) -> bool {
    &&& found <= alpha ==> exact <= found
    &&& alpha < found < beta ==> exact == found
    &&& found >= beta ==> exact >= found
}

/// Whether the `k`-th legal move is the first one among the first `n` whose score no
/// other of them exceeds.
pub open spec fn is_first_best(cells: Seq<Cell>, side: Piece, depth: nat, n: nat, k: int) -> bool {
    let moves = legal_moves(cells, side);
    &&& 0 <= k < n
    &&& forall|j: int|
        0 <= j < n ==> reply_score(cells, side, #[trigger] moves[j], depth) <= reply_score(
            cells,
            side,
            moves[k],
            depth,
        )
    &&& forall|j: int|
        0 <= j < k ==> reply_score(cells, side, #[trigger] moves[j], depth) < reply_score(
            cells,
            side,
            moves[k],
            depth,
        )
}

/// The score of a move lies between -64 and 64.
pub proof fn lemma_reply_score_bound(cells: Seq<Cell>, side: Piece, m: MoveView, depth: nat)
    requires
        cells.len() == 64,
    ensures
        -64 <= reply_score(cells, side, m, depth) <= 64,
{
    lemma_negamax_bound(placed(cells, side, m), side.other(), (depth - 1) as nat);
}

/// The best score of the first `n` moves is no lower than the score of any of them.
pub proof fn lemma_negamax_best_dominates(
    cells: Seq<Cell>,
    side: Piece,
    depth: nat,
    n: nat,
    j: int,
)
    requires
        cells.len() == 64,
        depth > 0,
        0 <= j < n <= legal_moves(cells, side).len(),
    ensures
        reply_score(cells, side, legal_moves(cells, side)[j], depth) <= negamax_best(
            cells,
            side,
            depth,
            n,
        ).0,
{
    let i = lemma_negamax_best_is_last(cells, side, depth, n);
    assert(is_last_best(cells, side, depth, n, i));
}

/// The pruning search inside a window bounds the score of the plain search as `within`
/// says.
pub proof fn lemma_pruning_bounds(cells: Seq<Cell>, side: Piece, alpha: int, beta: int, depth: nat)
    requires
        cells.len() == 64,
        -127 <= alpha < beta <= 127,
    ensures
        within(
            alphabeta_spec(cells, side, alpha, beta, depth).0,
            negamax_spec(cells, side, depth).0,
            alpha,
            beta,
        ),
    decreases depth, 1nat, 0nat,
{
    let moves = legal_moves(cells, side);
    if depth > 0 && moves.len() > 0 {
        lemma_scan_bounds(cells, side, alpha, alpha, beta, depth, 0, (floor_score(), None));
    }
}

/// The same for a search that is under way: `low` is the lower end of the window at the
/// start, `alpha` the end as it has risen, and `best` the best score found among the
/// first `i` moves.
proof fn lemma_scan_bounds(
    cells: Seq<Cell>,
    side: Piece,
    low: int,
    alpha: int,
    beta: int,
    depth: nat,
    i: nat,
    best: Scored,
)
    requires
        cells.len() == 64,
        depth > 0,
        i <= legal_moves(cells, side).len(),
        -127 <= low <= alpha < beta <= 127,
        -127 <= best.0,
        alpha == (if best.0 > low {
            best.0
        } else {
            low
        }),
        best.0 <= low ==> negamax_best(cells, side, depth, i).0 <= best.0,
        best.0 > low ==> negamax_best(cells, side, depth, i).0 == best.0,
    ensures
        within(
            alphabeta_scan(cells, side, alpha, beta, depth, i, best).0,
            negamax_best(cells, side, depth, legal_moves(cells, side).len()).0,
            low,
            beta,
        ),
    decreases depth, 0nat, legal_moves(cells, side).len() - i,
{
    let moves = legal_moves(cells, side);
    let n = moves.len();
    if i < n {
        let m = moves[i as int];
        let child = placed(cells, side, m);
        let found = alphabeta_spec(child, side.other(), -beta, -alpha, (depth - 1) as nat).0;
        let exact = negamax_spec(child, side.other(), (depth - 1) as nat).0;
        lemma_pruning_bounds(child, side.other(), -beta, -alpha, (depth - 1) as nat);
        assert(within(found, exact, -beta, -alpha));
        let score = -found;
        assert(reply_score(cells, side, m, depth) == -exact);
        let best2: Scored = if score > best.0 {
            (score, Some(m))
        } else {
            best
        };
        let alpha2 = if score > alpha {
            score
        } else {
            alpha
        };
        if alpha2 >= beta {
            lemma_negamax_best_dominates(cells, side, depth, n, i as int);
        } else {
            lemma_scan_bounds(cells, side, low, alpha2, beta, depth, i + 1, best2);
        }
    }
}

/// With the full window the pruning search finds the score of the plain search.
pub proof fn lemma_pruning_keeps_score(cells: Seq<Cell>, side: Piece, depth: nat)
    requires
        cells.len() == 64,
    ensures
        alphabeta_spec(cells, side, -127, 127, depth).0 == negamax_spec(cells, side, depth).0,
{
    lemma_pruning_bounds(cells, side, -127, 127, depth);
    lemma_negamax_bound(cells, side, depth);
}

/// The full-window search under way: once `k` is the first best of the first `i` moves
/// and is held as the best so far, the search ends with the first best of all moves.
proof fn lemma_scan_first(cells: Seq<Cell>, side: Piece, depth: nat, i: nat, k: int) -> (r: int)
    requires
        cells.len() == 64,
        depth > 0,
        0 < i <= legal_moves(cells, side).len(),
        is_first_best(cells, side, depth, i, k),
    ensures
        is_first_best(cells, side, depth, legal_moves(cells, side).len(), r),
        alphabeta_scan(
            cells,
            side,
            reply_score(cells, side, legal_moves(cells, side)[k], depth),
            127,
            depth,
            i,
            (
                reply_score(cells, side, legal_moves(cells, side)[k], depth),
                Some(legal_moves(cells, side)[k]),
            ),
        ) == (
            reply_score(cells, side, legal_moves(cells, side)[r], depth),
            Some(legal_moves(cells, side)[r]),
        ),
    decreases legal_moves(cells, side).len() - i,
{
    let moves = legal_moves(cells, side);
    let n = moves.len();
    let top = reply_score(cells, side, moves[k], depth);
    lemma_reply_score_bound(cells, side, moves[k], depth);
    if i < n {
        let m = moves[i as int];
        let child = placed(cells, side, m);
        let found = alphabeta_spec(child, side.other(), -127, -top, (depth - 1) as nat).0;
        let exact = negamax_spec(child, side.other(), (depth - 1) as nat).0;
        lemma_pruning_bounds(child, side.other(), -127, -top, (depth - 1) as nat);
        lemma_negamax_bound(child, side.other(), (depth - 1) as nat);
        assert(within(found, exact, -127, -top));
        assert(reply_score(cells, side, m, depth) == -exact);
        let score = -found;
        if score > top {
            assert(is_first_best(cells, side, depth, i + 1, i as int));
            lemma_scan_first(cells, side, depth, i + 1, i as int)
        } else {
            assert(is_first_best(cells, side, depth, i + 1, k));
            lemma_scan_first(cells, side, depth, i + 1, k)
        }
    } else {
        k
    }
}

/// With the full window the pruning search chooses the first of the moves with the
/// highest score.
pub proof fn lemma_pruning_takes_first(cells: Seq<Cell>, side: Piece, depth: nat) -> (k: int)
    requires
        cells.len() == 64,
        depth > 0,
        legal_moves(cells, side).len() > 0,
    ensures
        is_first_best(cells, side, depth, legal_moves(cells, side).len(), k),
        alphabeta_spec(cells, side, -127, 127, depth) == (
            reply_score(cells, side, legal_moves(cells, side)[k], depth),
            Some(legal_moves(cells, side)[k]),
        ),
{
    let moves = legal_moves(cells, side);
    let m = moves[0];
    let child = placed(cells, side, m);
    let found = alphabeta_spec(child, side.other(), -127, 127, (depth - 1) as nat).0;
    lemma_pruning_keeps_score(child, side.other(), (depth - 1) as nat);
    lemma_negamax_bound(child, side.other(), (depth - 1) as nat);
    assert(is_first_best(cells, side, depth, 1, 0));
    lemma_scan_first(cells, side, depth, 1, 0)
}

/// The two strategies agree on the score, and on the move as well unless several moves
/// share the highest score: pruning then takes the first of them and the plain search the
/// last.
pub proof fn lemma_strategies_differ_in_ties_only(cells: Seq<Cell>, side: Piece, depth: nat) -> (r:
    (int, int))
    requires
        cells.len() == 64,
        depth > 0,
        legal_moves(cells, side).len() > 0,
    ensures
        is_first_best(cells, side, depth, legal_moves(cells, side).len(), r.0),
        is_last_best(cells, side, depth, legal_moves(cells, side).len(), r.1),
        r.0 <= r.1,
        alphabeta_spec(cells, side, -127, 127, depth).1 == Some(legal_moves(cells, side)[r.0]),
        negamax_spec(cells, side, depth).1 == Some(legal_moves(cells, side)[r.1]),
        alphabeta_spec(cells, side, -127, 127, depth).0 == negamax_spec(cells, side, depth).0,
{
    let n = legal_moves(cells, side).len();
    let first = lemma_pruning_takes_first(cells, side, depth);
    let last = lemma_negamax_best_is_last(cells, side, depth, n);
    lemma_pruning_keeps_score(cells, side, depth);
    assert(is_first_best(cells, side, depth, n, first));
    assert(is_last_best(cells, side, depth, n, last));
    (first, last)
}

} // verus!
