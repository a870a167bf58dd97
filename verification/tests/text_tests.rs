use reversi::board::{Board, Matrix};
use reversi::coord::Coord;
use reversi::piece::Piece;

const RULE: &str = " +-+-+-+-+-+-+-+-+\n";

#[test]
fn coord_text_is_letter_and_row_number() {
    assert_eq!("a1", Coord(0, 0).to_text());
    assert_eq!("d3", Coord(3, 2).to_text());
    assert_eq!("h8", Coord(7, 7).to_text());
    assert_eq!("c4", Coord(2, 3).to_text());
}

#[test]
fn coord_text_writes_rows_off_the_board_in_full() {
    assert_eq!("b10", Coord(1, 9).to_text());
    assert_eq!("h127", Coord(7, 126).to_text());
    assert_eq!("a100", Coord(0, 99).to_text());
    assert_eq!("a0", Coord(0, -1).to_text());
    assert_eq!("e-1", Coord(4, -2).to_text());
    assert_eq!("g-127", Coord(6, -128).to_text());
}

#[test]
fn opening_grid_text() {
    let mut expected = String::new();
    expected.push_str("  a b c d e f g h\n");
    expected.push_str(RULE);
    expected.push_str("1| | | | | | | | |\n");
    expected.push_str(RULE);
    expected.push_str("2| | | | | | | | |\n");
    expected.push_str(RULE);
    expected.push_str("3| | | | | | | | |\n");
    expected.push_str(RULE);
    expected.push_str("4| | | |O|X| | | |\n");
    expected.push_str(RULE);
    expected.push_str("5| | | |X|O| | | |\n");
    expected.push_str(RULE);
    expected.push_str("6| | | | | | | | |\n");
    expected.push_str(RULE);
    expected.push_str("7| | | | | | | | |\n");
    expected.push_str(RULE);
    expected.push_str("8| | | | | | | | |\n");
    expected.push_str(RULE);
    assert_eq!(expected, Matrix::new().to_text());
}

#[test]
fn opening_board_text_ends_with_the_counters() {
    let board = Board::new();
    let text = board.to_text();
    let grid = board.matrix.to_text();
    assert_eq!(format!("{}\nB 2 - 2 W", grid), text);
}

#[test]
fn board_text_writes_counters_in_decimal() {
    let n: Option<Piece> = None;
    let b: Option<Piece> = Some(Piece::Black);
    let w: Option<Piece> = Some(Piece::White);
    let board = Board {
        matrix: Matrix([
            [n, n, w, w, n, b, n, n],
            [n, n, n, w, w, b, n, b],
            [b, w, w, w, b, w, w, b],
            [n, b, w, b, b, w, w, b],
            [b, b, b, w, w, b, w, b],
            [w, n, b, w, w, w, b, b],
            [n, n, b, w, w, w, n, b],
            [n, b, b, b, b, b, n, n],
        ]),
        black: 25,
        white: 22,
    };
    let text = board.to_text();
    assert!(text.ends_with("\n\nB 25 - 22 W"));
    let rows: Vec<&str> = text.lines().collect();
    assert_eq!(20, rows.len());
    assert_eq!("  a b c d e f g h", rows[0]);
    assert_eq!("1| | |O|O| |X| | |", rows[2]);
    assert_eq!("3|X|O|O|O|X|O|O|X|", rows[6]);
    assert_eq!("8| |X|X|X|X|X| | |", rows[16]);
    assert_eq!("", rows[18]);
    let mut odd = Board::new();
    *odd.count_mut(Piece::Black) = 255;
    *odd.count_mut(Piece::White) = 100;
    assert!(odd.to_text().ends_with("B 255 - 100 W"));
    *odd.count_mut(Piece::White) = 0;
    assert!(odd.to_text().ends_with("B 255 - 0 W"));
}
