//! How positions, grids and boards are written out: a position as a column letter and a
//! row number, a grid as a framed picture with `X` for black and `O` for white, and a
//! board as its grid followed by the two counters.

use crate::board::{Board, Matrix};
use crate::cells::{cell_at, Cell};
use crate::coord::Coord;
use crate::piece::Piece;
use vstd::prelude::*;
use vstd::string::StringExecFns;

verus! {

/// The digit `d`.
pub open spec fn digit(d: int) -> Seq<char> {
    if d == 0 {
        "0"@
    } else if d == 1 {
        "1"@
    } else if d == 2 {
        "2"@
    } else if d == 3 {
        "3"@
    } else if d == 4 {
        "4"@
    } else if d == 5 {
        "5"@
    } else if d == 6 {
        "6"@
    } else if d == 7 {
        "7"@
    } else if d == 8 {
        "8"@
    } else {
        "9"@
    }
}

/// A number that is not negative, in decimal digits.
pub open spec fn decimal(n: int) -> Seq<char>
    decreases n,
{
    if n < 10 {
        digit(n)
    } else {
        decimal(n / 10) + digit(n % 10)
    }
}

/// A number in decimal digits, with a minus sign first where it is negative.
pub open spec fn signed_decimal(n: int) -> Seq<char> {
    if n < 0 {
        "-"@ + decimal(-n)
    } else {
        decimal(n)
    }
}

/// The letter of column `x`.
pub open spec fn letter(x: int) -> Seq<char> {
    if x == 0 {
        "a"@
    } else if x == 1 {
        "b"@
    } else if x == 2 {
        "c"@
    } else if x == 3 {
        "d"@
    } else if x == 4 {
        "e"@
    } else if x == 5 {
        "f"@
    } else if x == 6 {
        "g"@
    } else {
        "h"@
    }
}

/// A position: the letter of its column, then the number of its row, counted from 1.
pub open spec fn coord_text(pos: Coord) -> Seq<char> {
    letter(pos.0 as int) + signed_decimal(pos.1 + 1)
}

/// A cell and the bar to its right.
pub open spec fn mark(cell: Cell) -> Seq<char> {
    match cell {
        Some(Piece::Black) => "X|"@,
        Some(Piece::White) => "O|"@,
        None => " |"@,
    }
}

/// The first `n` cells of row `y`.
pub open spec fn marks(cells: Seq<Cell>, y: int, n: int) -> Seq<char>
    decreases n,
{
    if n <= 0 {
        Seq::empty()
    } else {
        marks(cells, y, n - 1) + mark(cell_at(cells, n - 1, y))
    }
}

/// Row `y`: its number, counted from 1, its eight cells, and the rule below it.
pub open spec fn row_text(cells: Seq<Cell>, y: int) -> Seq<char> {
    digit(y + 1) + "|"@ + marks(cells, y, 8) + "\n"@ + " +-+-+-+-+-+-+-+-+\n"@
}

/// The first `n` rows.
pub open spec fn rows_text(cells: Seq<Cell>, n: int) -> Seq<char>
    decreases n,
{
    if n <= 0 {
        Seq::empty()
    } else {
        rows_text(cells, n - 1) + row_text(cells, n - 1)
    }
}

/// The grid: the column letters, a rule, and the eight rows.
pub open spec fn matrix_text(cells: Seq<Cell>) -> Seq<char> {
    "  a b c d e f g h\n"@ + " +-+-+-+-+-+-+-+-+\n"@ + rows_text(cells, 8)
}

/// The board: the grid, an empty line, and the counters of black and white.
pub open spec fn board_text(cells: Seq<Cell>, black: int, white: int) -> Seq<char> {
    matrix_text(cells) + "\n"@ + "B "@ + decimal(black) + " - "@ + decimal(white) + " W"@
}

fn digit_str(d: u8) -> (r: &'static str)
    requires
        d < 10,
    ensures
        r@ == digit(d as int),
{
    match d {
        0 => "0",
        1 => "1",
        2 => "2",
        3 => "3",
        4 => "4",
        5 => "5",
        6 => "6",
        7 => "7",
        8 => "8",
        _ => "9",
    }
}

fn letter_str(x: i8) -> (r: &'static str)
    requires
        0 <= x < 8,
    ensures
        r@ == letter(x as int),
{
    match x {
        0 => "a",
        1 => "b",
        2 => "c",
        3 => "d",
        4 => "e",
        5 => "f",
        6 => "g",
        _ => "h",
    }
}

fn mark_str(cell: Cell) -> (r: &'static str)
    ensures
        r@ == mark(cell),
{
    match cell {
        Some(Piece::Black) => "X|",
        Some(Piece::White) => "O|",
        None => " |",
    }
}

fn push_decimal(s: &mut String, n: u8)
    ensures
        final(s)@ == old(s)@ + decimal(n as int),
    decreases n,
{
    if n >= 10 {
        push_decimal(s, n / 10);
    }
    s.append(digit_str(n % 10));
    assert(s@ =~= old(s)@ + decimal(n as int));
}

impl Coord {
    /// The position as text: the letter of the column, then the number of the row,
    /// counted from 1, such as `d3` for column 3, row 2.
    pub fn to_text(&self) -> (r: String)
        requires
            0 <= self.0 < 8,
            self.1 < i8::MAX,
        ensures
            r@ == coord_text(*self),
    {
        let mut s = String::new();
        s.append(letter_str(self.0));
        let row = self.1 + 1;
        if row < 0 {
            s.append("-");
            push_decimal(&mut s, (-row) as u8);
        } else {
            push_decimal(&mut s, row as u8);
        }
        assert(s@ =~= coord_text(*self));
        s
    }
}

impl Matrix {
    /// The grid as text: the column letters, then each row with its number, `X` for a
    /// black stone and `O` for a white one, framed by rules.
    pub fn to_text(&self) -> (r: String)
        ensures
            r@ == matrix_text(self@),
    {
        let ghost cells = self@;
        let mut s = String::new();
        s.append("  a b c d e f g h\n");
        s.append(" +-+-+-+-+-+-+-+-+\n");
        let ghost head = s@;
        assert(s@ =~= head + rows_text(cells, 0));
        let mut y: u8 = 0;
        while y < 8
            invariant
                y <= 8,
                cells == self@,
                head == "  a b c d e f g h\n"@ + " +-+-+-+-+-+-+-+-+\n"@,
                s@ == head + rows_text(cells, y as int),
            decreases 8 - y,
        {
            let ghost above = s@;
            s.append(digit_str(y + 1));
            s.append("|");
            let ghost start = s@;
            assert(s@ =~= start + marks(cells, y as int, 0));
            let mut x: u8 = 0;
            while x < 8
                invariant
                    y < 8,
                    x <= 8,
                    cells == self@,
                    s@ == start + marks(cells, y as int, x as int),
                decreases 8 - x,
            {
                let cell = self[Coord(x as i8, y as i8)];
                s.append(mark_str(cell));
                assert(s@ =~= start + marks(cells, y as int, x + 1));
                x += 1;
            }
            s.append("\n");
            s.append(" +-+-+-+-+-+-+-+-+\n");
            assert(s@ =~= above + row_text(cells, y as int));
            assert(s@ =~= head + rows_text(cells, y + 1));
            y += 1;
        }
        s
    }
}

impl Board {
    /// The board as text: the grid, an empty line, and the counters, as in
    /// `B 2 - 2 W`.
    pub fn to_text(&self) -> (r: String)
        ensures
            r@ == board_text(self@, self.black as int, self.white as int),
    {
        let mut s = self.matrix.to_text();
        s.append("\n");
        s.append("B ");
        push_decimal(&mut s, self.black);
        s.append(" - ");
        push_decimal(&mut s, self.white);
        s.append(" W");
        assert(s@ =~= board_text(self@, self.black as int, self.white as int));
        s
    }
}

} // verus!
