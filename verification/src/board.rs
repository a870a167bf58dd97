use crate::capture::{
    capture_count, captured_in, captured_within, captures_at, coord_of, direction, flipped,
    is_legal_move, is_run, is_unit, legal_moves, lemma_capture_closed, lemma_capture_open,
    lemma_direction_unit, lemma_ray_injective, lemma_rays_disjoint, lemma_run_short,
    lemma_scale_unit, on_ray, placed, placed_within, playable, proposals, proposed, ray_cell,
    ray_pos, sum_upto, total, MoveView,
};
use crate::cells::{
    cell_at, count, in_range, index_of, initial_cells, lemma_count_positive, lemma_count_update,
    lemma_counts_partition, lemma_initial_counts, Cell,
};
use crate::coord::Coord;
use crate::moves::Moves;
use crate::piece::Piece;
use std::ops::{AddAssign, Index, IndexMut};
use vstd::prelude::*;

verus! {

/// Side length of the board.
pub const MATRIX_SIZE: usize = 8;

/// The stones on the board, without the counters.
#[derive(Debug, PartialEq, Eq)]
pub struct Matrix(pub [[Option<Piece>; 8]; 8]);

impl View for Matrix {
    type V = Seq<Cell>;

    /// The 64 cells in row-major order: the cell at column `x`, row `y` has index `8 * y + x`.
    open spec fn view(&self) -> Seq<Cell> {
        Seq::new(64, |i: int| self.0[i / 8][i % 8])
    }
}

impl Clone for Matrix {
    fn clone(&self) -> (r: Self)
        ensures
            r == *self,
    {
        Matrix(self.0)
    }
}

impl Matrix {
    /// The opening position.
    pub fn new() -> (r: Self)
        ensures
            r@ == initial_cells(),
    {
        let n: Option<Piece> = None;
        let b: Option<Piece> = Some(Piece::Black);
        let w: Option<Piece> = Some(Piece::White);
        let r = Matrix(
            [
                [n, n, n, n, n, n, n, n],
                [n, n, n, n, n, n, n, n],
                [n, n, n, n, n, n, n, n],
                [n, n, n, w, b, n, n, n],
                [n, n, n, b, w, n, n, n],
                [n, n, n, n, n, n, n, n],
                [n, n, n, n, n, n, n, n],
                [n, n, n, n, n, n, n, n],
            ],
        );
        assert(r@ =~= initial_cells());
        r
    }

    /// Side length of the board.
    pub fn size(&self) -> (r: usize)
        ensures
            r == 8,
    {
        MATRIX_SIZE
    }

    /// Whether `pos` lies on the board.
    pub fn is_in_range(&self, pos: Coord) -> (r: bool)
        ensures
            r == in_range(pos.0 as int, pos.1 as int),
    {
        let Coord(x, y) = pos;
        0 <= x && x < 8 && 0 <= y && y < 8
    }
}

impl Index<Coord> for Matrix {
    type Output = Option<Piece>;

    /// The cell at `index`; empty when `index` is off the board.
    fn index(&self, index: Coord) -> (r: &Option<Piece>)
        ensures
            *r == cell_at(self@, index.0 as int, index.1 as int),
    {
        if !self.is_in_range(index) {
            return &None;
        }
        let Coord(x, y) = index;
        &self.0[y as usize][x as usize]
    }
}

impl vstd::std_specs::core::IndexSpecImpl<Coord> for Matrix {
    open spec fn index_req(&self, index: &Coord) -> bool {
        true
    }
}

impl IndexMut<Coord> for Matrix {
    /// The cell at `index`, to overwrite. `index` must lie on the board; no other cell
    /// changes.
    fn index_mut(&mut self, index: Coord) -> (r: &mut Option<Piece>)
        requires
            in_range(index.0 as int, index.1 as int),
        ensures
            *r == cell_at(old(self)@, index.0 as int, index.1 as int),
            final(self)@ == old(self)@.update(
                index_of(index.0 as int, index.1 as int),
                *final(r),
            ),
    {
        let Coord(x, y) = index;
        &mut self.0[y as usize][x as usize]
    }
}

/// The eight unit steps, in the order in which a move lists its captures.
pub fn directions() -> (r: [Coord; 8])
    ensures
        forall|d: int| 0 <= d < 8 ==> r[d] == direction(d),
{
    [
        Coord(-1, -1),
        Coord(0, -1),
        Coord(1, -1),
        Coord(-1, 0),
        Coord(1, 0),
        Coord(-1, 1),
        Coord(0, 1),
        Coord(1, 1),
    ]
}

/// A placement together with what it captures.
#[derive(Debug, PartialEq)]
pub struct Move {
    /// Where the stone goes.
    pub pos: Coord,
    /// How many stones are captured in each direction, in the order of `directions`.
    flips: [u8; 8],
}

/// The capture counts of a move as integers.
pub open spec fn captures_of(flips: [u8; 8]) -> Seq<int> {
    Seq::new(8, |d: int| flips[d] as int)
}

impl View for Move {
    type V = MoveView;

    closed spec fn view(&self) -> MoveView {
        MoveView { pos: self.pos, captures: captures_of(self.flips) }
    }
}

impl Clone for Move {
    fn clone(&self) -> (r: Self)
        ensures
            r == *self,
    {
        Move { pos: self.pos, flips: self.flips }
    }
}

impl Move {
    /// A move is its position and its capture counts: two moves that are equal as values
    /// are equal.
    pub proof fn lemma_view_injective(a: Move, b: Move)
        requires
            a@ == b@,
        ensures
            a == b,
    {
        assert forall|d: int| 0 <= d < 8 implies a.flips[d] == b.flips[d] by {
            assert(captures_of(a.flips)[d] == captures_of(b.flips)[d]);
        }
        assert(a.flips =~= b.flips);
    }

    /// A move on `pos` with the given capture counts.
    pub fn new(pos: Coord, flips: [u8; 8]) -> (r: Move)
        ensures
            r@ == (MoveView { pos, captures: captures_of(flips) }),
    {
        Move { pos, flips }
    }

    /// The capture counts, one per direction.
    pub fn flips(&self) -> (r: [u8; 8])
        ensures
            captures_of(r) == self@.captures,
    {
        self.flips
    }

    /// Whether the move captures anything.
    pub fn is_legal(&self) -> (r: bool)
        ensures
            r == self@.legal(),
    {
        let mut d: usize = 0;
        while d < 8
            invariant
                d <= 8,
                forall|e: int| 0 <= e < d ==> self@.captures[e] == 0,
            decreases 8 - d,
        {
            if self.flips[d] != 0 {
                assert(self@.captures[d as int] != 0);
                return true;
            }
            d += 1;
        }
        false
    }
}

/// The moves of a list as values.
pub open spec fn views(moves: Seq<Move>) -> Seq<MoveView> {
    moves.map_values(|m: Move| m@)
}

/// A move that may be absent, as a value.
pub open spec fn option_view(mov: Option<Move>) -> Option<MoveView> {
    match mov {
        Some(m) => Some(m@),
        None => None,
    }
}

/// The grid with its two running counters.
pub struct Board {
    /// The stones.
    pub matrix: Matrix,
    /// How many black stones are on the board.
    pub black: u8,
    /// How many white stones are on the board.
    pub white: u8,
}

impl View for Board {
    type V = Seq<Cell>;

    /// The 64 cells in row-major order.
    open spec fn view(&self) -> Seq<Cell> {
        self.matrix@
    }
}

impl Clone for Board {
    fn clone(&self) -> (r: Self)
        ensures
            r == *self,
    {
        Board { matrix: self.matrix.clone(), black: self.black, white: self.white }
    }
}

impl Board {
    /// The counter kept for `piece`.
    pub open spec fn stones(&self, piece: Piece) -> int {
        match piece {
            Piece::Black => self.black as int,
            Piece::White => self.white as int,
        }
    }

    /// Each counter equals the number of cells that hold a stone of its side.
    pub open spec fn wf(&self) -> bool {
        &&& self.black == count(self@, Some(Piece::Black))
        &&& self.white == count(self@, Some(Piece::White))
    }

    /// On a board whose counters agree with its grid, the two counters and the number of
    /// empty cells add up to 64.
    pub proof fn lemma_counters_cover(&self)
        requires
            self.wf(),
        ensures
            self.black + self.white + count(self@, None) == 64,
            self.black <= 64,
            self.white <= 64,
    {
        lemma_counts_partition(self@);
    }

    /// The opening position.
    pub fn new() -> (r: Self)
        ensures
            r@ == initial_cells(),
            r.wf(),
    {
        proof {
            lemma_initial_counts(Piece::Black);
            lemma_initial_counts(Piece::White);
        }
        Board { matrix: Matrix::new(), black: 2, white: 2 }
    }

    /// How many stones a stone of `piece` placed on `pos` captures along `dir`: the
    /// number of opposing stones between `pos` and the next stone of `piece` on that ray,
    /// and 0 where an empty cell or the edge comes first.
    pub fn get_flip(&self, piece: Piece, pos: Coord, dir: Coord) -> (r: u8)
        requires
            is_unit(dir.0 as int, dir.1 as int),
            pos.sum_fits(dir),
        ensures
            r == capture_count(
                self@,
                piece,
                pos.0 as int,
                pos.1 as int,
                dir.0 as int,
                dir.1 as int,
            ),
    {
        let ghost cells = self@;
        let ghost x = pos.0 as int;
        let ghost y = pos.1 as int;
        let ghost dx = dir.0 as int;
        let ghost dy = dir.1 as int;
        let mut cur = pos;
        let mut count: u8 = 0;
        loop
            invariant
                cells == self@,
                is_unit(dx, dy),
                dx == dir.0,
                dy == dir.1,
                count <= 8,
                x == pos.0,
                y == pos.1,
                cur.0 == x + count * dx,
                cur.1 == y + count * dy,
                cur.sum_fits(dir),
                is_run(cells, piece, x, y, dx, dy, count as int),
            decreases 9 - count,
        {
            proof {
                lemma_scale_unit(count as int, dx);
                lemma_scale_unit(count as int, dy);
                lemma_scale_unit(count + 1, dx);
                lemma_scale_unit(count + 1, dy);
            }
            cur.add_assign(dir);
            let cell = self.matrix[cur];
            assert(cell == ray_cell(cells, x, y, dx, dy, count + 1));
            match cell {
                None => {
                    proof {
                        lemma_capture_open(cells, piece, x, y, dx, dy, count as int);
                    }
                    return 0;
                },
                Some(p) => {
                    if p == piece {
                        proof {
                            lemma_capture_closed(cells, piece, x, y, dx, dy, count as int);
                        }
                        return count;
                    }
                },
            }
            proof {
                assert(is_run(cells, piece, x, y, dx, dy, count + 1)) by {
                    assert forall|j: int| 1 <= j <= count + 1 implies #[trigger] ray_cell(
                        cells,
                        x,
                        y,
                        dx,
                        dy,
                        j,
                    ) == Some(piece.other()) by {
                        if j <= count {
                            assert(ray_cell(cells, x, y, dx, dy, j) == Some(piece.other()));
                        }
                    }
                }
                lemma_run_short(cells, piece, x, y, dx, dy, count + 1);
            }
            count += 1;
        }
    }

    /// The move that placing a stone of `piece` on `pos` amounts to: the capture count of
    /// each direction, and no capture at all where `pos` is occupied.
    pub fn get_move(&self, piece: Piece, pos: Coord) -> (r: Move)
        requires
            i8::MIN < pos.0 < i8::MAX,
            i8::MIN < pos.1 < i8::MAX,
        ensures
            r@ == proposed(self@, piece, pos),
    {
        let mut flips: [u8; 8] = [0, 0, 0, 0, 0, 0, 0, 0];
        if self.matrix[pos].is_some() {
            assert(captures_of(flips) =~= captures_at(self@, piece, pos));
            return Move { pos, flips };
        }
        let dirs = directions();
        let mut d: usize = 0;
        while d < 8
            invariant
                d <= 8,
                i8::MIN < pos.0 < i8::MAX,
                i8::MIN < pos.1 < i8::MAX,
                cell_at(self@, pos.0 as int, pos.1 as int) is None,
                forall|e: int| 0 <= e < 8 ==> dirs[e] == direction(e),
                forall|e: int|
                    0 <= e < d ==> flips[e] as int == #[trigger] captures_at(self@, piece, pos)[e],
            decreases 8 - d,
        {
            assert(dirs[d as int] == direction(d as int));
            let n = self.get_flip(piece, pos, dirs[d]);
            flips[d] = n;
            d += 1;
        }
        assert(captures_of(flips) =~= captures_at(self@, piece, pos));
        Move { pos, flips }
    }

    /// The legal moves of `piece`: every cell is tried from the top-left corner to the
    /// bottom-right one, row by row, and the moves that capture are kept in that order.
    pub fn moves(&self, piece: Piece) -> (r: Moves)
        ensures
            views(r@) == legal_moves(self@, piece),
            r@.len() <= 64,
    {
        let ghost all = proposals(self@, piece);
        let mut moves = Moves::empty();
        assert(views(moves@) =~= all.take(0).filter(is_legal_move())) by {
            reveal(Seq::filter);
        }
        let mut y: usize = 0;
        while y < 8
            invariant
                y <= 8,
                all == proposals(self@, piece),
                views(moves@) == all.take(y * 8).filter(is_legal_move()),
            decreases 8 - y,
        {
            let mut x: usize = 0;
            while x < 8
                invariant
                    y < 8,
                    x <= 8,
                    all == proposals(self@, piece),
                    views(moves@) == all.take(y * 8 + x).filter(is_legal_move()),
                decreases 8 - x,
            {
                let ghost n = (y * 8 + x) as int;
                let mov = self.get_move(piece, Coord(x as i8, y as i8));
                proof {
                    reveal(Seq::filter);
                    assert(coord_of(n) == Coord(x as i8, y as i8));
                    assert(all.take(n + 1).drop_last() =~= all.take(n));
                    assert(all.take(n + 1).last() == mov@);
                }
                if mov.is_legal() {
                    let ghost before = moves@;
                    moves.append(mov);
                    assert(views(moves@) =~= views(before).push(mov@));
                }
                x += 1;
            }
            y += 1;
        }
        assert(all.take(64) =~= all);
        proof {
            all.lemma_filter_len(is_legal_move());
        }
        moves
    }

    /// The counter kept for `piece`, to read or to overwrite. Nothing else changes.
    pub fn count_mut(&mut self, piece: Piece) -> (r: &mut u8)
        ensures
            *r == old(self).stones(piece),
            final(self).stones(piece) == *final(r),
            final(self).stones(piece.other()) == old(self).stones(piece.other()),
            final(self).matrix == old(self).matrix,
    {
        match piece {
            Piece::Black => &mut self.black,
            Piece::White => &mut self.white,
        }
    }

    /// Gives the first `flip` cells of the ray that leaves `pos` by `dir` to `piece`, and
    /// moves `flip` from the counter of the other side to the counter of `piece`.
    pub fn do_flip(&mut self, piece: Piece, pos: Coord, dir: Coord, flip: u8)
        requires
            old(self).wf(),
            is_unit(dir.0 as int, dir.1 as int),
            is_run(
                old(self)@,
                piece,
                pos.0 as int,
                pos.1 as int,
                dir.0 as int,
                dir.1 as int,
                flip as int,
            ),
        ensures
            final(self)@ == flipped(
                old(self)@,
                piece,
                pos.0 as int,
                pos.1 as int,
                dir.0 as int,
                dir.1 as int,
                flip as int,
            ),
            final(self).wf(),
            final(self).stones(piece) == old(self).stones(piece) + flip,
            final(self).stones(piece.other()) == old(self).stones(piece.other()) - flip,
    {
        let ghost before = self@;
        let ghost x = pos.0 as int;
        let ghost y = pos.1 as int;
        let ghost dx = dir.0 as int;
        let ghost dy = dir.1 as int;
        let mut cur = pos;
        let mut done: u8 = 0;
        assert(self@ =~= flipped(before, piece, x, y, dx, dy, 0));
        while done < flip
            invariant
                before == old(self)@,
                x == pos.0,
                y == pos.1,
                dx == dir.0,
                dy == dir.1,
                is_unit(dx, dy),
                is_run(before, piece, x, y, dx, dy, flip as int),
                done <= flip,
                cur.0 == x + done * dx,
                cur.1 == y + done * dy,
                self@ == flipped(before, piece, x, y, dx, dy, done as int),
                self.wf(),
                self.stones(piece) == old(self).stones(piece) + done,
                self.stones(piece.other()) == old(self).stones(piece.other()) - done,
            decreases flip - done,
        {
            let ghost now = self@;
            let ghost k = done as int + 1;
            proof {
                lemma_scale_unit(done as int, dx);
                lemma_scale_unit(done as int, dy);
                lemma_scale_unit(k, dx);
                lemma_scale_unit(k, dy);
                assert(ray_cell(before, x, y, dx, dy, k) == Some(piece.other()));
            }
            cur.add_assign(dir);
            let ghost i = index_of(cur.0 as int, cur.1 as int);
            proof {
                assert(ray_pos(x, y, dx, dy, k) == (cur.0 as int, cur.1 as int));
                assert(!on_ray(cur.0 as int, cur.1 as int, x, y, dx, dy, done as int)) by {
                    assert forall|j: int| 1 <= j <= done implies ray_pos(x, y, dx, dy, j) != (
                        cur.0 as int,
                        cur.1 as int,
                    ) by {
                        lemma_ray_injective(x, y, dx, dy, j, k);
                    }
                }
                assert(now[i] == Some(piece.other()));
                lemma_count_update(now, i, Some(piece), Some(piece));
                lemma_count_update(now, i, Some(piece), Some(piece.other()));
                lemma_count_positive(now, i, Some(piece.other()));
                lemma_counts_partition(now);
            }
            *self.matrix.index_mut(cur) = Some(piece);
            let own = self.count_mut(piece);
            *own = *own + 1;
            let theirs = self.count_mut(piece.opponent());
            *theirs = *theirs - 1;
            done += 1;
            proof {
                assert(self@ =~= flipped(before, piece, x, y, dx, dy, k)) by {
                    assert forall|c: int| 0 <= c < 64 implies self@[c] == flipped(
                        before,
                        piece,
                        x,
                        y,
                        dx,
                        dy,
                        k,
                    )[c] by {
                        if on_ray(c % 8, c / 8, x, y, dx, dy, k) {
                            let j = choose|j: int|
                                1 <= j <= k && #[trigger] ray_pos(x, y, dx, dy, j) == (
                                    c % 8,
                                    c / 8,
                                );
                            if j < k {
                                assert(on_ray(c % 8, c / 8, x, y, dx, dy, k - 1));
                            }
                        } else {
                            if on_ray(c % 8, c / 8, x, y, dx, dy, k - 1) {
                                let j = choose|j: int|
                                    1 <= j <= k - 1 && #[trigger] ray_pos(x, y, dx, dy, j) == (
                                        c % 8,
                                        c / 8,
                                    );
                                assert(ray_pos(x, y, dx, dy, j) == (c % 8, c / 8));
                            }
                        }
                    }
                }
            }
        }
    }

    /// Plays `mov` for `piece`: puts a stone of `piece` on the cell of the move, then gives
    /// it the captured stones of every direction. The counter of `piece` grows by the
    /// captured stones and the one placed; the other counter shrinks by the captured ones.
    pub fn do_move(&mut self, piece: Piece, mov: &Move)
        requires
            old(self).wf(),
            playable(old(self)@, piece, mov@),
        ensures
            final(self)@ == placed(old(self)@, piece, mov@),
            final(self).wf(),
            final(self).stones(piece) == old(self).stones(piece) + total(mov@) + 1,
            final(self).stones(piece.other()) == old(self).stones(piece.other()) - total(mov@),
    {
        let ghost before = self@;
        let ghost m = mov@;
        let ghost x = m.pos.0 as int;
        let ghost y = m.pos.1 as int;
        let pos = mov.pos;
        proof {
            let i = index_of(x, y);
            lemma_count_update(before, i, Some(piece), Some(piece));
            lemma_count_update(before, i, Some(piece), Some(piece.other()));
            lemma_count_positive(before, i, None);
            lemma_counts_partition(before);
        }
        *self.matrix.index_mut(pos) = Some(piece);
        let own = self.count_mut(piece);
        *own = *own + 1;
        assert(self@ =~= placed_within(before, piece, m, 0));
        let dirs = directions();
        let mut d: usize = 0;
        while d < 8
            invariant
                d <= 8,
                before == old(self)@,
                m == mov@,
                pos == m.pos,
                x == m.pos.0,
                y == m.pos.1,
                playable(before, piece, m),
                forall|e: int| 0 <= e < 8 ==> dirs[e] == direction(e),
                self@ == placed_within(before, piece, m, d as int),
                self.wf(),
                self.stones(piece) == old(self).stones(piece) + sum_upto(m.captures, d as int) + 1,
                self.stones(piece.other()) == old(self).stones(piece.other()) - sum_upto(
                    m.captures,
                    d as int,
                ),
            decreases 8 - d,
        {
            let ghost now = self@;
            let ghost dx = direction(d as int).0 as int;
            let ghost dy = direction(d as int).1 as int;
            let n = mov.flips[d];
            assert(n as int == m.captures[d as int]);
            assert(dirs[d as int] == direction(d as int));
            proof {
                lemma_direction_unit(d as int);
                assert(is_run(now, piece, x, y, dx, dy, n as int)) by {
                    assert forall|j: int| 1 <= j <= n implies #[trigger] ray_cell(
                        now,
                        x,
                        y,
                        dx,
                        dy,
                        j,
                    ) == Some(piece.other()) by {
                        let (cx, cy) = ray_pos(x, y, dx, dy, j);
                        assert(ray_cell(before, x, y, dx, dy, j) == Some(piece.other()));
                        lemma_ray_injective(x, y, dx, dy, j, 0);
                        assert(ray_pos(x, y, dx, dy, 0) == (x, y));
                        assert(!captured_within(m, cx, cy, d as int)) by {
                            assert forall|e: int| 0 <= e < d implies !captured_in(
                                m,
                                cx,
                                cy,
                                e,
                            ) by {
                                assert forall|k: int| 1 <= k <= m.captures[e] implies ray_pos(
                                    x,
                                    y,
                                    direction(e).0 as int,
                                    direction(e).1 as int,
                                    k,
                                ) != (cx, cy) by {
                                    lemma_rays_disjoint(x, y, d as int, e, j, k);
                                }
                            }
                        }
                        assert(index_of(cx, cy) % 8 == cx && index_of(cx, cy) / 8 == cy);
                    }
                }
            }
            if n != 0 {
                self.do_flip(piece, pos, dirs[d], n);
            } else {
                assert(self@ =~= flipped(now, piece, x, y, dx, dy, 0));
            }
            proof {
                assert(self@ =~= placed_within(before, piece, m, d + 1)) by {
                    assert forall|c: int| 0 <= c < 64 implies self@[c] == placed_within(
                        before,
                        piece,
                        m,
                        d + 1,
                    )[c] by {
                        assert(captured_in(m, c % 8, c / 8, d as int) == on_ray(
                            c % 8,
                            c / 8,
                            x,
                            y,
                            dx,
                            dy,
                            n as int,
                        ));
                        if captured_within(m, c % 8, c / 8, d + 1) {
                            let e = choose|e: int|
                                0 <= e < d + 1 && #[trigger] captured_in(m, c % 8, c / 8, e);
                            if e < d {
                                assert(captured_within(m, c % 8, c / 8, d as int));
                            }
                        }
                        if captured_within(m, c % 8, c / 8, d as int) {
                            let e = choose|e: int|
                                0 <= e < d && #[trigger] captured_in(m, c % 8, c / 8, e);
                            assert(captured_in(m, c % 8, c / 8, e));
                        }
                    }
                }
            }
            d += 1;
        }
    }
}

} // verus!
