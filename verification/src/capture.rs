//! Capture by bracketing, as mathematics: rays from a cell, runs of opposing stones along
//! them, and what a move is worth.

use crate::cells::{cell_at, in_range, index_of, Cell};
use crate::coord::Coord;
use crate::piece::Piece;
use vstd::prelude::*;

verus! {

/// The eight compass directions in the order in which a move lists its captures:
/// up-left, up, up-right, left, right, down-left, down, down-right.
pub open spec fn direction(d: int) -> Coord {
    if d == 0 {
        Coord(-1i8, -1i8)
    } else if d == 1 {
        Coord(0, -1i8)
    } else if d == 2 {
        Coord(1, -1i8)
    } else if d == 3 {
        Coord(-1i8, 0)
    } else if d == 4 {
        Coord(1, 0)
    } else if d == 5 {
        Coord(-1i8, 1)
    } else if d == 6 {
        Coord(0, 1)
    } else {
        Coord(1, 1)
    }
}

/// A step to one of the eight neighbouring cells.
pub open spec fn is_unit(dx: int, dy: int) -> bool {
    -1 <= dx <= 1 && -1 <= dy <= 1 && !(dx == 0 && dy == 0)
}

/// The position `k` steps of `(dx, dy)` away from `(x, y)`.
pub open spec fn ray_pos(x: int, y: int, dx: int, dy: int, k: int) -> (int, int) {
    (x + k * dx, y + k * dy)
}

/// The cell `k` steps of `(dx, dy)` away from `(x, y)`.
pub open spec fn ray_cell(cells: Seq<Cell>, x: int, y: int, dx: int, dy: int, k: int) -> Cell {
    cell_at(cells, ray_pos(x, y, dx, dy, k).0, ray_pos(x, y, dx, dy, k).1)
}

/// Whether `(cx, cy)` is one of the first `k` positions of the ray that leaves `(x, y)` by
/// `(dx, dy)`.
pub open spec fn on_ray(cx: int, cy: int, x: int, y: int, dx: int, dy: int, k: int) -> bool {
    exists|j: int| 1 <= j <= k && #[trigger] ray_pos(x, y, dx, dy, j) == (cx, cy)
}

/// The grid after the first `k` cells of a ray were given to `side`.
pub open spec fn flipped(
    cells: Seq<Cell>,
    side: Piece,
    x: int,
    y: int,
    dx: int,
    dy: int,
    k: int,
) -> Seq<Cell> {
    Seq::new(
        64,
        |i: int|
            if on_ray(i % 8, i / 8, x, y, dx, dy, k) {
                Some(side)
            } else {
                cells[i]
            },
    )
}

/// The first `k` cells of the ray that leaves `(x, y)` by `(dx, dy)` all hold stones of the
/// side opposing `side`.
pub open spec fn is_run(
    cells: Seq<Cell>,
    side: Piece,
    x: int,
    y: int,
    dx: int,
    dy: int,
    k: int,
) -> bool {
    forall|j: int| 1 <= j <= k ==> #[trigger] ray_cell(cells, x, y, dx, dy, j) == Some(side.other())
}

/// A run of exactly `k` opposing stones along the ray, closed by a stone of `side`.
pub open spec fn brackets(
    cells: Seq<Cell>,
    side: Piece,
    x: int,
    y: int,
    dx: int,
    dy: int,
    k: int,
) -> bool {
    &&& 0 <= k
    &&& is_run(cells, side, x, y, dx, dy, k)
    &&& ray_cell(cells, x, y, dx, dy, k + 1) == Some(side)
}

/// How many stones a stone of `side` placed on `(x, y)` captures along `(dx, dy)`: the
/// length of the run that a stone of `side` closes, and 0 where the ray reaches an empty
/// cell or the edge first.
pub open spec fn capture_count(
    cells: Seq<Cell>,
    side: Piece,
    x: int,
    y: int,
    dx: int,
    dy: int,
) -> int {
    if exists|k: int| brackets(cells, side, x, y, dx, dy, k) {
        choose|k: int| brackets(cells, side, x, y, dx, dy, k)
    } else {
        0
    }
}

/// A move as a value: where the stone goes, and how many stones it captures in each of
/// the eight directions, in the order of `direction`.
pub struct MoveView {
    /// Where the stone goes.
    pub pos: Coord,
    /// How many stones are captured in each direction.
    pub captures: Seq<int>,
}

impl MoveView {
    /// A move is legal when it captures in at least one direction.
    pub open spec fn legal(self) -> bool {
        exists|d: int| 0 <= d < 8 && #[trigger] self.captures[d] != 0
    }
}

/// The sum of the first `n` entries.
pub open spec fn sum_upto(s: Seq<int>, n: int) -> int
    decreases n,
{
    if n <= 0 {
        0
    } else {
        sum_upto(s, n - 1) + s[n - 1]
    }
}

/// How many stones a move captures in all.
pub open spec fn total(m: MoveView) -> int {
    sum_upto(m.captures, 8)
}

/// Whether the move captures the stone on `(cx, cy)` in direction `d`.
pub open spec fn captured_in(m: MoveView, cx: int, cy: int, d: int) -> bool {
    on_ray(
        cx,
        cy,
        m.pos.0 as int,
        m.pos.1 as int,
        direction(d).0 as int,
        direction(d).1 as int,
        m.captures[d],
    )
}

/// Whether the move captures the stone on `(cx, cy)` in one of the first `n` directions.
pub open spec fn captured_within(m: MoveView, cx: int, cy: int, n: int) -> bool {
    exists|d: int| 0 <= d < n && #[trigger] captured_in(m, cx, cy, d)
}

/// The grid after the stone was placed and the captures of the first `n` directions were
/// made.
pub open spec fn placed_within(cells: Seq<Cell>, side: Piece, m: MoveView, n: int) -> Seq<
    Cell,
> {
    Seq::new(
        64,
        |i: int|
            if (i % 8 == m.pos.0 && i / 8 == m.pos.1) || captured_within(m, i % 8, i / 8, n) {
                Some(side)
            } else {
                cells[i]
            },
    )
}

/// The grid after `side` played `m`: the cell of the move and every captured cell hold a
/// stone of `side`, and no other cell has changed.
pub open spec fn placed(cells: Seq<Cell>, side: Piece, m: MoveView) -> Seq<Cell> {
    placed_within(cells, side, m, 8)
}

/// What can be played for `side` on `cells`: a move onto an empty cell of the board that
/// captures something, and whose captures in each direction are a run of opposing stones.
/// Every legal move of `side` on `cells` is of this kind.
pub open spec fn playable(cells: Seq<Cell>, side: Piece, m: MoveView) -> bool {
    &&& in_range(m.pos.0 as int, m.pos.1 as int)
    &&& cell_at(cells, m.pos.0 as int, m.pos.1 as int) is None
    &&& m.captures.len() == 8
    &&& m.legal()
    &&& forall|d: int|
        0 <= d < 8 ==> 0 <= #[trigger] m.captures[d] && is_run(
            cells,
            side,
            m.pos.0 as int,
            m.pos.1 as int,
            direction(d).0 as int,
            direction(d).1 as int,
            m.captures[d],
        )
}

/// What a stone of `side` placed on `pos` captures in each direction. An occupied cell
/// captures nothing.
pub open spec fn captures_at(cells: Seq<Cell>, side: Piece, pos: Coord) -> Seq<int> {
    Seq::new(
        8,
        |d: int|
            if cell_at(cells, pos.0 as int, pos.1 as int) is Some {
                0
            } else {
                capture_count(
                    cells,
                    side,
                    pos.0 as int,
                    pos.1 as int,
                    direction(d).0 as int,
                    direction(d).1 as int,
                )
            },
    )
}

/// The move that placing a stone of `side` on `pos` amounts to.
pub open spec fn proposed(cells: Seq<Cell>, side: Piece, pos: Coord) -> MoveView {
    MoveView { pos, captures: captures_at(cells, side, pos) }
}

/// The position of the cell with row-major index `i`.
pub open spec fn coord_of(i: int) -> Coord {
    Coord((i % 8) as i8, (i / 8) as i8)
}

/// The move of `side` on each of the 64 cells, in row-major order.
pub open spec fn proposals(cells: Seq<Cell>, side: Piece) -> Seq<MoveView> {
    Seq::new(64, |i: int| proposed(cells, side, coord_of(i)))
}

/// The test by which moves are kept.
pub open spec fn is_legal_move() -> spec_fn(MoveView) -> bool {
    |m: MoveView| m.legal()
}

/// The legal moves of `side`, in row-major order of their positions.
pub open spec fn legal_moves(cells: Seq<Cell>, side: Piece) -> Seq<MoveView> {
    proposals(cells, side).filter(is_legal_move())
}

/// A multiple of a unit step, spelled out without multiplication.
pub proof fn lemma_scale_unit(k: int, d: int)
    requires
        -1 <= d <= 1,
    ensures
        k * d == (if d == 1 {
            k
        } else if d == -1 {
            -k
        } else {
            0
        }),
{
    assert(k * 1 == k);
    assert(k * (-1) == -k);
    assert(k * 0 == 0);
}

/// Each of the eight directions is a unit step.
pub proof fn lemma_direction_unit(d: int)
    requires
        0 <= d < 8,
    ensures
        is_unit(direction(d).0 as int, direction(d).1 as int),
{
}

/// A ray that leaves a cell by a unit step never comes back to a position it has passed.
pub proof fn lemma_ray_injective(x: int, y: int, dx: int, dy: int, j: int, k: int)
    requires
        is_unit(dx, dy),
        j != k,
    ensures
        ray_pos(x, y, dx, dy, j) != ray_pos(x, y, dx, dy, k),
{
    lemma_scale_unit(j, dx);
    lemma_scale_unit(j, dy);
    lemma_scale_unit(k, dx);
    lemma_scale_unit(k, dy);
}

/// Two different directions from one cell share no position but the cell itself.
pub proof fn lemma_rays_disjoint(x: int, y: int, d: int, e: int, j: int, k: int)
    requires
        0 <= d < 8,
        0 <= e < 8,
        d != e,
        j >= 1,
        k >= 1,
    ensures
        ray_pos(x, y, direction(d).0 as int, direction(d).1 as int, j) != ray_pos(
            x,
            y,
            direction(e).0 as int,
            direction(e).1 as int,
            k,
        ),
{
    lemma_scale_unit(j, direction(d).0 as int);
    lemma_scale_unit(j, direction(d).1 as int);
    lemma_scale_unit(k, direction(e).0 as int);
    lemma_scale_unit(k, direction(e).1 as int);
}

/// At most one run along a ray is closed by an own stone.
pub proof fn lemma_brackets_unique(
    cells: Seq<Cell>,
    side: Piece,
    x: int,
    y: int,
    dx: int,
    dy: int,
    a: int,
    b: int,
)
    requires
        brackets(cells, side, x, y, dx, dy, a),
        brackets(cells, side, x, y, dx, dy, b),
    ensures
        a == b,
{
    if a < b {
        assert(ray_cell(cells, x, y, dx, dy, a + 1) == Some(side.other()));
    }
    if b < a {
        assert(ray_cell(cells, x, y, dx, dy, b + 1) == Some(side.other()));
    }
}

/// A run that a stone of `side` closes is the capture count.
pub proof fn lemma_capture_closed(
    cells: Seq<Cell>,
    side: Piece,
    x: int,
    y: int,
    dx: int,
    dy: int,
    k: int,
)
    requires
        brackets(cells, side, x, y, dx, dy, k),
    ensures
        capture_count(cells, side, x, y, dx, dy) == k,
{
    let c = capture_count(cells, side, x, y, dx, dy);
    lemma_brackets_unique(cells, side, x, y, dx, dy, c, k);
}

/// A run that ends at an empty cell or at the edge captures nothing.
pub proof fn lemma_capture_open(
    cells: Seq<Cell>,
    side: Piece,
    x: int,
    y: int,
    dx: int,
    dy: int,
    k: int,
)
    requires
        0 <= k,
        is_run(cells, side, x, y, dx, dy, k),
        ray_cell(cells, x, y, dx, dy, k + 1) is None,
    ensures
        capture_count(cells, side, x, y, dx, dy) == 0,
{
    assert forall|a: int| !brackets(cells, side, x, y, dx, dy, a) by {
        if brackets(cells, side, x, y, dx, dy, a) {
            if a < k {
                assert(ray_cell(cells, x, y, dx, dy, a + 1) == Some(side.other()));
            } else if a > k {
                assert(ray_cell(cells, x, y, dx, dy, k + 1) == Some(side.other()));
            }
        }
    }
}

/// A run along a unit step stays on the board, so it is no longer than the board is wide.
pub proof fn lemma_run_short(
    cells: Seq<Cell>,
    side: Piece,
    x: int,
    y: int,
    dx: int,
    dy: int,
    k: int,
)
    requires
        is_unit(dx, dy),
        is_run(cells, side, x, y, dx, dy, k),
    ensures
        k <= 8,
        k >= 1 ==> in_range(x + dx, y + dy) && in_range(x + k * dx, y + k * dy),
{
    if k >= 1 {
        lemma_scale_unit(1, dx);
        lemma_scale_unit(1, dy);
        lemma_scale_unit(k, dx);
        lemma_scale_unit(k, dy);
        assert(ray_cell(cells, x, y, dx, dy, 1) == Some(side.other()));
        assert(ray_cell(cells, x, y, dx, dy, k) == Some(side.other()));
    }
}

/// A run that is counted as captured is there: the capture count of a direction is the
/// length of a run of opposing stones.
pub proof fn lemma_capture_is_run(cells: Seq<Cell>, side: Piece, x: int, y: int, dx: int, dy: int)
    ensures
        0 <= capture_count(cells, side, x, y, dx, dy),
        is_run(cells, side, x, y, dx, dy, capture_count(cells, side, x, y, dx, dy)),
        capture_count(cells, side, x, y, dx, dy) > 0 ==> brackets(
            cells,
            side,
            x,
            y,
            dx,
            dy,
            capture_count(cells, side, x, y, dx, dy),
        ),
{
}

/// A legal move proposed for a cell of the board may be played.
pub proof fn lemma_proposed_playable(cells: Seq<Cell>, side: Piece, pos: Coord)
    requires
        in_range(pos.0 as int, pos.1 as int),
        proposed(cells, side, pos).legal(),
    ensures
        playable(cells, side, proposed(cells, side, pos)),
{
    let m = proposed(cells, side, pos);
    let d0 = choose|d: int| 0 <= d < 8 && #[trigger] m.captures[d] != 0;
    assert(m.captures[d0] != 0);
    assert forall|d: int| 0 <= d < 8 implies 0 <= #[trigger] m.captures[d] && is_run(
        cells,
        side,
        pos.0 as int,
        pos.1 as int,
        direction(d).0 as int,
        direction(d).1 as int,
        m.captures[d],
    ) by {
        lemma_capture_is_run(
            cells,
            side,
            pos.0 as int,
            pos.1 as int,
            direction(d).0 as int,
            direction(d).1 as int,
        );
    }
}

/// The legal moves among the first `n` cells: each is the move proposed for its own cell,
/// they stand in the order of their cells, and none is missing.
proof fn lemma_legal_prefix(cells: Seq<Cell>, side: Piece, n: int)
    requires
        0 <= n <= 64,
    ensures
        ({
            let all = proposals(cells, side);
            let kept = all.take(n).filter(is_legal_move());
            &&& forall|i: int|
                0 <= i < kept.len() ==> {
                    let c = index_of((#[trigger] kept[i]).pos.0 as int, kept[i].pos.1 as int);
                    0 <= c < n && kept[i] == all[c] && kept[i].legal()
                }
            &&& forall|i: int, j: int|
                0 <= i < j < kept.len() ==> index_of(
                    (#[trigger] kept[i]).pos.0 as int,
                    kept[i].pos.1 as int,
                ) < index_of((#[trigger] kept[j]).pos.0 as int, kept[j].pos.1 as int)
            &&& forall|c: int| 0 <= c < n && (#[trigger] all[c]).legal() ==> kept.contains(all[c])
        }),
    decreases n,
{
    reveal(Seq::filter);
    let all = proposals(cells, side);
    let kept = all.take(n).filter(is_legal_move());
    if n > 0 {
        lemma_legal_prefix(cells, side, n - 1);
        let rest = all.take(n - 1).filter(is_legal_move());
        assert(all.take(n).drop_last() =~= all.take(n - 1));
        assert(all.take(n).last() == all[n - 1]);
        assert(all[n - 1].pos == coord_of(n - 1));
        assert(index_of(coord_of(n - 1).0 as int, coord_of(n - 1).1 as int) == n - 1);
        if all[n - 1].legal() {
            assert(kept == rest.push(all[n - 1]));
            assert(kept[kept.len() - 1] == all[n - 1]);
            assert forall|c: int| 0 <= c < n && (#[trigger] all[c]).legal() implies kept.contains(
                all[c],
            ) by {
                if c < n - 1 {
                    let i = choose|i: int| 0 <= i < rest.len() && rest[i] == all[c];
                    assert(kept[i] == all[c]);
                }
            }
        } else {
            assert(kept == rest);
        }
    }
}

/// Enumeration goes by the grid alone and in row-major order: the legal moves of a side
/// are, cell by cell from the top-left corner, exactly the moves proposed for the cells of
/// the board that capture something. Each of them may be played.
pub proof fn lemma_enumeration_row_major(cells: Seq<Cell>, side: Piece)
    ensures
        forall|i: int|
            0 <= i < legal_moves(cells, side).len() ==> {
                let m = #[trigger] legal_moves(cells, side)[i];
                &&& in_range(m.pos.0 as int, m.pos.1 as int)
                &&& m == proposed(cells, side, m.pos)
                &&& m.legal()
                &&& playable(cells, side, m)
            },
        forall|i: int, j: int|
            0 <= i < j < legal_moves(cells, side).len() ==> index_of(
                (#[trigger] legal_moves(cells, side)[i]).pos.0 as int,
                legal_moves(cells, side)[i].pos.1 as int,
            ) < index_of(
                (#[trigger] legal_moves(cells, side)[j]).pos.0 as int,
                legal_moves(cells, side)[j].pos.1 as int,
            ),
        forall|c: int|
            0 <= c < 64 && proposed(cells, side, coord_of(c)).legal() ==> legal_moves(
                cells,
                side,
            ).contains(#[trigger] proposed(cells, side, coord_of(c))),
{
    let all = proposals(cells, side);
    let kept = legal_moves(cells, side);
    lemma_legal_prefix(cells, side, 64);
    assert(all.take(64) =~= all);
    assert forall|i: int| 0 <= i < kept.len() implies {
        let m = #[trigger] kept[i];
        &&& in_range(m.pos.0 as int, m.pos.1 as int)
        &&& m == proposed(cells, side, m.pos)
        &&& m.legal()
        &&& playable(cells, side, m)
    } by {
        let m = kept[i];
        let c = index_of(m.pos.0 as int, m.pos.1 as int);
        assert(m == all[c]);
        assert(m.pos == coord_of(c));
        lemma_proposed_playable(cells, side, m.pos);
    }
    assert forall|c: int|
        0 <= c < 64 && proposed(cells, side, coord_of(c)).legal() implies kept.contains(
        #[trigger] proposed(cells, side, coord_of(c)),
    ) by {
        assert(all[c] == proposed(cells, side, coord_of(c)));
    }
}

/// A move that captures nothing may not be played.
pub proof fn lemma_empty_move_rejected(cells: Seq<Cell>, side: Piece, m: MoveView)
    requires
        forall|d: int| 0 <= d < 8 ==> m.captures[d] == 0,
    ensures
        !playable(cells, side, m),
{
}

} // verus!
