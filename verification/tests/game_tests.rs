use reversi::board::{Board, Move};
use reversi::coord::Coord;
use reversi::game::{Game, Play};
use reversi::piece::Piece;
use reversi::players::{AlphaBetaPlayer, DumbPlayer, NegaMaxPlayer};

struct Passer;

impl Play for Passer {
    fn play(&mut self, _piece: Piece, _board: &Board) -> Option<Move> {
        None
    }
}

#[test]
fn new_game_starts_with_black() {
    let game = Game::new(DumbPlayer, DumbPlayer);
    assert_eq!(Piece::Black, game.turn());
    assert!(!game.is_passed());
    assert_eq!(Board::new().matrix, game.board().matrix);
    assert_eq!(2, game.board().black);
    assert_eq!(2, game.board().white);
}

#[test]
fn step_plays_the_chosen_move_and_hands_over() {
    let mut game = Game::new(DumbPlayer, DumbPlayer);
    assert!(game.step());
    assert_eq!(Piece::White, game.turn());
    assert!(!game.is_passed());
    let mut expected = Board::new();
    let mov = expected.get_move(Piece::Black, Coord(3, 2));
    expected.do_move(Piece::Black, &mov);
    assert_eq!(expected.matrix, game.board().matrix);
    assert_eq!(4, game.board().black);
    assert_eq!(1, game.board().white);
}

#[test]
fn two_passes_in_a_row_end_the_match() {
    let mut game = Game::new(Passer, Passer);
    assert!(game.step());
    assert!(game.is_passed());
    assert_eq!(Piece::White, game.turn());
    assert!(!game.step());
    assert!(game.is_passed());
    assert_eq!(Piece::White, game.turn());
    assert_eq!(Board::new().matrix, game.board().matrix);
}

#[test]
fn a_move_clears_the_pass() {
    let mut game = Game::new(Passer, DumbPlayer);
    assert!(game.step());
    assert!(game.is_passed());
    assert!(game.step());
    assert!(!game.is_passed());
    assert_eq!(Piece::Black, game.turn());
    assert_eq!(1, game.board().black);
    assert_eq!(4, game.board().white);
    assert!(game.step());
    assert!(game.is_passed());
    assert_eq!(Piece::White, game.turn());
}

#[test]
fn advance_follows_the_choice() {
    let mut game = Game::new(DumbPlayer, DumbPlayer);
    let mov = game.board().get_move(Piece::Black, Coord(2, 3));
    assert!(game.advance(Some(mov)));
    assert_eq!(Piece::White, game.turn());
    assert_eq!(4, game.board().black);
    assert!(game.advance(None));
    assert!(game.is_passed());
    assert_eq!(Piece::Black, game.turn());
    assert!(!game.advance(None));
    assert_eq!(Piece::Black, game.turn());
    assert_eq!(4, game.board().black);
    assert_eq!(1, game.board().white);
}

#[test]
fn a_match_of_first_moves_runs_to_its_end() {
    let mut game = Game::new(DumbPlayer, DumbPlayer);
    let mut steps = 0;
    while game.step() {
        steps += 1;
        let board = game.board();
        assert!(board.black as usize + board.white as usize <= 64);
        assert!(steps < 200);
    }
    let board = game.board();
    assert_eq!(0, board.moves(Piece::Black).len());
    assert_eq!(0, board.moves(Piece::White).len());
    assert!(steps >= 5);
}

#[test]
fn searching_players_finish_a_match() {
    let mut game = Game::new(AlphaBetaPlayer::new(2), NegaMaxPlayer::new(2));
    let mut steps = 0;
    while game.step() {
        steps += 1;
        assert!(steps < 200);
    }
    let board = game.board();
    assert_eq!(0, board.moves(Piece::Black).len());
    assert_eq!(0, board.moves(Piece::White).len());
    assert!(board.black as usize + board.white as usize <= 64);
}
