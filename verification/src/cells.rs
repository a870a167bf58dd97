//! The grid as a mathematical value: 64 cells in row-major order, and how many of them hold
//! a given value.

use crate::piece::Piece;
use vstd::prelude::*;

verus! {

/// What a cell holds: a stone of one side, or nothing.
pub type Cell = Option<Piece>;

/// Whether column `x`, row `y` lies on the board.
pub open spec fn in_range(x: int, y: int) -> bool {
    0 <= x < 8 && 0 <= y < 8
}

/// The index of column `x`, row `y` in the row-major grid.
pub open spec fn index_of(x: int, y: int) -> int {
    y * 8 + x
}

/// The cell at column `x`, row `y`; empty off the board.
pub open spec fn cell_at(cells: Seq<Cell>, x: int, y: int) -> Cell {
    if in_range(x, y) {
        cells[index_of(x, y)]
    } else {
        None
    }
}

/// The opening position: two stones of each side on the four centre cells, the diagonals
/// alternating.
pub open spec fn initial_cells() -> Seq<Cell> {
    Seq::new(
        64,
        |i: int|
            if i == 27 || i == 36 {
                Some(Piece::White)
            } else if i == 28 || i == 35 {
                Some(Piece::Black)
            } else {
                None
            },
    )
}

/// How many cells hold `v`.
pub open spec fn count(cells: Seq<Cell>, v: Cell) -> nat
    decreases cells.len(),
{
    if cells.len() == 0 {
        0
    } else {
        count(cells.drop_last(), v) + if cells.last() == v {
            1nat
        } else {
            0nat
        }
    }
}

/// The stones of `side` minus the stones of the other side.
pub open spec fn material(cells: Seq<Cell>, side: Piece) -> int {
    count(cells, Some(side)) - count(cells, Some(side.other()))
}

/// Writing a cell of the board changes what is read there and nowhere else.
pub proof fn lemma_read_after_write(cells: Seq<Cell>, x: int, y: int, v: Cell, u: int, w: int)
    requires
        cells.len() == 64,
        in_range(x, y),
    ensures
        cell_at(cells.update(index_of(x, y), v), u, w) == (if u == x && w == y {
            v
        } else {
            cell_at(cells, u, w)
        }),
{
}

/// No more cells hold a value than there are cells.
pub proof fn lemma_count_bound(cells: Seq<Cell>, v: Cell)
    ensures
        count(cells, v) <= cells.len(),
    decreases cells.len(),
{
    if cells.len() > 0 {
        lemma_count_bound(cells.drop_last(), v);
    }
}

/// Every cell is empty or holds a stone of exactly one side, so the three counts add up to
/// the number of cells.
pub proof fn lemma_counts_partition(cells: Seq<Cell>)
    ensures
        count(cells, Some(Piece::Black)) + count(cells, Some(Piece::White)) + count(cells, None)
            == cells.len(),
    decreases cells.len(),
{
    if cells.len() > 0 {
        lemma_counts_partition(cells.drop_last());
        assert(cells.last() == None::<Piece> || cells.last() == Some(Piece::Black) || cells.last()
            == Some(Piece::White));
    }
}

/// Overwriting one cell moves one unit from the count of the value it held to the count of
/// the value written, and leaves every other count alone.
pub proof fn lemma_count_update(cells: Seq<Cell>, i: int, w: Cell, v: Cell)
    requires
        0 <= i < cells.len(),
    ensures
        count(cells.update(i, w), v) == count(cells, v) - (if cells[i] == v {
            1int
        } else {
            0int
        }) + (if w == v {
            1int
        } else {
            0int
        }),
    decreases cells.len(),
{
    let after = cells.update(i, w);
    if i == cells.len() - 1 {
        assert(after.drop_last() =~= cells.drop_last());
    } else {
        lemma_count_update(cells.drop_last(), i, w, v);
        assert(after.drop_last() =~= cells.drop_last().update(i, w));
    }
}

/// A value that occurs in some cell is counted at least once.
pub proof fn lemma_count_positive(cells: Seq<Cell>, i: int, v: Cell)
    requires
        0 <= i < cells.len(),
        cells[i] == v,
    ensures
        count(cells, v) >= 1,
    decreases cells.len(),
{
    if i < cells.len() - 1 {
        lemma_count_positive(cells.drop_last(), i, v);
    }
}

/// A grid without stones counts none.
pub proof fn lemma_count_blank(cells: Seq<Cell>, p: Piece)
    requires
        forall|i: int| 0 <= i < cells.len() ==> cells[i] is None,
    ensures
        count(cells, Some(p)) == 0,
    decreases cells.len(),
{
    if cells.len() > 0 {
        lemma_count_blank(cells.drop_last(), p);
    }
}

/// The opening position holds two stones of each side.
pub proof fn lemma_initial_counts(p: Piece)
    ensures
        count(initial_cells(), Some(p)) == 2,
{
    let blank = Seq::new(64, |i: int| None::<Piece>);
    let w: Cell = Some(Piece::White);
    let b: Cell = Some(Piece::Black);
    let s1 = blank.update(27, w);
    let s2 = s1.update(28, b);
    let s3 = s2.update(35, b);
    let s4 = s3.update(36, w);
    lemma_count_blank(blank, p);
    lemma_count_update(blank, 27, w, Some(p));
    lemma_count_update(s1, 28, b, Some(p));
    lemma_count_update(s2, 35, b, Some(p));
    lemma_count_update(s3, 36, w, Some(p));
    assert(s4 =~= initial_cells());
}

/// The material balance of one side is the negation of the other side's.
pub proof fn lemma_material_antisymmetric(cells: Seq<Cell>, side: Piece)
    ensures
        material(cells, side) == -material(cells, side.other()),
{
}

} // verus!
