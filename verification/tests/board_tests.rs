use reversi::board::{Board, Matrix, Move};
use reversi::coord::Coord;
use reversi::piece::Piece;

fn sample_matrix() -> Matrix {
    let n: Option<Piece> = None;
    let b: Option<Piece> = Some(Piece::Black);
    let w: Option<Piece> = Some(Piece::White);
    Matrix([
        [n, n, w, w, n, b, n, n],
        [n, n, n, w, w, b, n, b],
        [b, w, w, w, b, w, w, b],
        [n, b, w, b, b, w, w, b],
        [b, b, b, w, w, b, w, b],
        [w, n, b, w, w, w, b, b],
        [n, n, b, w, w, w, n, b],
        [n, b, b, b, b, b, n, n],
    ])
}

fn sample_board() -> Board {
    Board {
        matrix: sample_matrix(),
        black: 25,
        white: 22,
    }
}

#[test]
fn test_matrix_is_in_range() {
    let matrix = Matrix::new();
    assert_eq!(true, matrix.is_in_range(Coord(3, 3)));
    assert_eq!(true, matrix.is_in_range(Coord(0, 0)));
    assert_eq!(true, matrix.is_in_range(Coord(7, 7)));
    assert_eq!(false, matrix.is_in_range(Coord(-1, 0)));
    assert_eq!(false, matrix.is_in_range(Coord(0, -1)));
    assert_eq!(false, matrix.is_in_range(Coord(8, 0)));
    assert_eq!(false, matrix.is_in_range(Coord(0, 8)));
}

#[test]
fn test_matrix_index() {
    let n: Option<Piece> = None;
    let b: Option<Piece> = Some(Piece::Black);
    let w: Option<Piece> = Some(Piece::White);
    let matrix = Matrix::new();
    assert_eq!(n, matrix[Coord(0, 0)]);
    assert_eq!(w, matrix[Coord(3, 3)]);
    assert_eq!(b, matrix[Coord(4, 3)]);
    assert_eq!(n, matrix[Coord(8, 0)]);
    assert_eq!(n, matrix[Coord(0, -1)]);
}

#[test]
fn test_matrix_index_mut() {
    let n: Option<Piece> = None;
    let b: Option<Piece> = Some(Piece::Black);
    let mut matrix = Matrix::new();
    assert_eq!(n, matrix[Coord(0, 0)]);
    matrix[Coord(0, 0)] = b;
    assert_eq!(b, matrix[Coord(0, 0)]);
}

#[test]
fn test_move_is_legal() {
    let b = Board::new();
    assert_eq!(
        false,
        b.get_move(Piece::Black, Coord(0, 0)).is_legal(),
        "black on upper left corner",
    );
    assert_eq!(
        true,
        b.get_move(Piece::Black, Coord(3, 2)).is_legal(),
        "black on top of upper left white",
    );
    assert_eq!(
        false,
        b.get_move(Piece::White, Coord(3, 2)).is_legal(),
        "white on top of upper left white",
    );
    assert_eq!(
        true,
        b.get_move(Piece::White, Coord(4, 2)).is_legal(),
        "white on right of upper right black",
    );
}

#[test]
fn test_board_get_flip() {
    let b = Board::new();
    let right = b.get_flip(Piece::Black, Coord(2, 3), Coord(1, 0));
    assert_eq!(1, right, "right");
    let left = b.get_flip(Piece::Black, Coord(2, 3), Coord(-1, 0));
    assert_eq!(0, left, "left");
    let bottom = b.get_flip(Piece::Black, Coord(2, 3), Coord(0, 1));
    assert_eq!(0, bottom, "bottom");
}

#[test]
fn test_board_get_move() {
    let b = sample_board();
    let actual = b.get_move(Piece::White, Coord(0, 3));
    let expected = Move::new(
        Coord(0, 3),
        [
            0, 0, 0,
            0,    1,
            0, 1, 2,
        ],
    );
    assert_eq!(expected, actual);
}

#[test]
fn test_board_moves() {
    let b = sample_board();
    let actual = b.moves(Piece::White);
    let candidates = vec![
        Move::new(
            Coord(4, 0),
            [
                0, 0, 0,
                0,    0,
                0, 0, 1,
            ],
        ),
        Move::new(
            Coord(6, 1),
            [
                0, 0, 0,
                1,    0,
                0, 0, 0,
            ],
        ),
        Move::new(
            Coord(0, 3),
            [
                0, 0, 0,
                0,    1,
                0, 1, 2,
            ],
        ),
        Move::new(
            Coord(1, 5),
            [
                0, 2, 0,
                0,    1,
                0, 0, 0,
            ],
        ),
        Move::new(
            Coord(1, 6),
            [
                0, 0, 1,
                0,    1,
                0, 0, 0,
            ],
        ),
        Move::new(
            Coord(6, 6),
            [
                0, 1, 0,
                0,    0,
                0, 0, 0,
            ],
        ),
    ];
    assert_eq!(6, actual.len());
    assert!(actual.as_slice().contains(&candidates[0]));
    assert!(actual.as_slice().contains(&candidates[1]));
    assert!(actual.as_slice().contains(&candidates[2]));
    assert!(actual.as_slice().contains(&candidates[3]));
    assert!(actual.as_slice().contains(&candidates[4]));
    assert!(actual.as_slice().contains(&candidates[5]));
}

#[test]
fn test_board_count_mut() {
    let mut b = Board::new();
    assert_eq!(2, *b.count_mut(Piece::White));
    *b.count_mut(Piece::White) = 5;
    assert_eq!(5, *b.count_mut(Piece::White));
}

#[test]
fn test_do_flip() {
    let n: Option<Piece> = None;
    let b: Option<Piece> = Some(Piece::Black);
    let w: Option<Piece> = Some(Piece::White);
    let mut board = sample_board();
    board.do_flip(Piece::White, Coord(0, 3), Coord(1, 1), 2);
    assert_eq!(24, board.white);
    assert_eq!(23, board.black);
    assert_eq!(
        Matrix([
            [n, n, w, w, n, b, n, n],
            [n, n, n, w, w, b, n, b],
            [b, w, w, w, b, w, w, b],
            [n, b, w, b, b, w, w, b],
            [b, w, b, w, w, b, w, b],
            [w, n, w, w, w, w, b, b],
            [n, n, b, w, w, w, n, b],
            [n, b, b, b, b, b, n, n],
        ]),
        board.matrix,
    );
}

#[test]
fn test_board_do_move() {
    let n: Option<Piece> = None;
    let b: Option<Piece> = Some(Piece::Black);
    let w: Option<Piece> = Some(Piece::White);
    let mut board = sample_board();
    board.do_move(
        Piece::White,
        &Move::new(
            Coord(0, 3),
            [
                0, 0, 0,
                0,    1,
                0, 1, 2,
            ],
        ),
    );
    assert_eq!(27, board.white);
    assert_eq!(21, board.black);
    assert_eq!(
        Matrix([
            [n, n, w, w, n, b, n, n],
            [n, n, n, w, w, b, n, b],
            [b, w, w, w, b, w, w, b],
            [w, w, w, b, b, w, w, b],
            [w, w, b, w, w, b, w, b],
            [w, n, w, w, w, w, b, b],
            [n, n, b, w, w, w, n, b],
            [n, b, b, b, b, b, n, n],
        ]),
        board.matrix,
    );
}
