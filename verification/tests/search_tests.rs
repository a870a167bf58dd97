use reversi::board::{Board, Matrix, Move};
use reversi::coord::Coord;
use reversi::game::Play;
use reversi::piece::Piece;
use reversi::players::{AlphaBetaPlayer, DumbPlayer, Human, NegaMaxPlayer};

fn midgame() -> Board {
    let n: Option<Piece> = None;
    let b: Option<Piece> = Some(Piece::Black);
    let w: Option<Piece> = Some(Piece::White);
    Board {
        matrix: Matrix([
            [n, n, w, w, n, b, n, n],
            [n, n, n, w, w, b, n, b],
            [b, w, w, w, b, w, w, b],
            [n, b, w, b, b, w, w, b],
            [b, b, b, w, w, b, w, b],
            [w, n, b, w, w, w, b, b],
            [n, n, b, w, w, w, n, b],
            [n, b, b, b, b, b, n, n],
        ]),
        black: 25,
        white: 22,
    }
}

fn stuck() -> Board {
    let mut rows = [[None; 8]; 8];
    rows[0][0] = Some(Piece::Black);
    rows[0][1] = Some(Piece::Black);
    rows[7][7] = Some(Piece::White);
    Board { matrix: Matrix(rows), black: 2, white: 1 }
}

#[test]
fn evaluation_is_the_material_balance() {
    let board = midgame();
    assert_eq!(3, AlphaBetaPlayer::new(1).evaluate(Piece::Black, &board));
    assert_eq!(-3, AlphaBetaPlayer::new(1).evaluate(Piece::White, &board));
    assert_eq!(3, NegaMaxPlayer::new(1).evaluate(Piece::Black, &board));
    assert_eq!(-3, NegaMaxPlayer::new(1).evaluate(Piece::White, &board));
    assert_eq!(0, AlphaBetaPlayer::new(1).evaluate(Piece::Black, &Board::new()));
}

#[test]
fn evaluation_of_one_side_negates_the_other() {
    let boards = [Board::new(), midgame(), stuck()];
    for board in boards.iter() {
        let a = AlphaBetaPlayer::new(3);
        let n = NegaMaxPlayer::new(3);
        assert_eq!(a.evaluate(Piece::Black, board), -a.evaluate(Piece::White, board));
        assert_eq!(n.evaluate(Piece::Black, board), -n.evaluate(Piece::White, board));
    }
}

#[test]
fn depth_zero_is_a_leaf() {
    let board = midgame();
    let a = AlphaBetaPlayer::new(0);
    let n = NegaMaxPlayer::new(0);
    assert_eq!((3, None), a.alphabeta(Piece::Black, &board, -127, 127, 0));
    assert_eq!((-3, None), a.alphabeta(Piece::White, &board, -127, 127, 0));
    assert_eq!((3, None), n.negamax(Piece::Black, &board, 0));
    assert_eq!((-3, None), n.negamax(Piece::White, &board, 0));
    assert_eq!((3, None), n.negamax_mt(Piece::Black, &board, 0));
    assert_eq!((-3, None), n.negamax_mt(Piece::White, &board, 0));
    assert_eq!(None, AlphaBetaPlayer::new(0).play(Piece::Black, &board));
    assert_eq!(None, NegaMaxPlayer::new(0).play(Piece::Black, &board));
}

#[test]
fn side_without_moves_passes_in_both_searches() {
    let board = stuck();
    for depth in 1..5 {
        for piece in [Piece::Black, Piece::White] {
            assert_eq!(None, AlphaBetaPlayer::new(depth).play(piece, &board));
            assert_eq!(None, NegaMaxPlayer::new(depth).play(piece, &board));
        }
        assert_eq!(
            (1, None),
            AlphaBetaPlayer::new(depth).alphabeta(Piece::Black, &board, -127, 127, depth),
        );
        assert_eq!((-1, None), NegaMaxPlayer::new(depth).negamax(Piece::White, &board, depth));
        assert_eq!((1, None), NegaMaxPlayer::new(depth).negamax_mt(Piece::Black, &board, depth));
    }
    assert_eq!(None, DumbPlayer.play(Piece::Black, &board));
}

#[test]
fn equal_scores_go_to_the_first_move_when_pruning_and_to_the_last_otherwise() {
    let board = Board::new();
    let first = Move::new(Coord(3, 2), [0, 0, 0, 0, 0, 0, 1, 0]);
    let last = Move::new(Coord(4, 5), [0, 1, 0, 0, 0, 0, 0, 0]);
    let pruned = AlphaBetaPlayer::new(1).alphabeta(Piece::Black, &board, -127, 127, 1);
    let plain = NegaMaxPlayer::new(1).negamax(Piece::Black, &board, 1);
    let fanned = NegaMaxPlayer::new(1).negamax_mt(Piece::Black, &board, 1);
    assert_eq!((3, Some(first.clone())), pruned);
    assert_eq!((3, Some(last.clone())), plain);
    assert_eq!((3, Some(last.clone())), fanned);
    assert_eq!(Some(first), AlphaBetaPlayer::new(1).play(Piece::Black, &board));
    assert_eq!(Some(last), NegaMaxPlayer::new(1).play(Piece::Black, &board));
    assert_ne!(pruned.1, plain.1);
}

#[test]
fn one_ply_takes_the_biggest_capture() {
    let board = midgame();
    let best = Move::new(Coord(0, 3), [0, 0, 0, 0, 1, 0, 1, 2]);
    assert_eq!(
        (6, Some(best.clone())),
        AlphaBetaPlayer::new(1).alphabeta(Piece::White, &board, -127, 127, 1),
    );
    assert_eq!((6, Some(best.clone())), NegaMaxPlayer::new(1).negamax(Piece::White, &board, 1));
    assert_eq!((6, Some(best)), NegaMaxPlayer::new(1).negamax_mt(Piece::White, &board, 1));
}

#[test]
fn side_by_side_search_agrees_with_the_plain_one() {
    for board in [Board::new(), midgame()].iter() {
        for piece in [Piece::Black, Piece::White] {
            for depth in 0..4 {
                let player = NegaMaxPlayer::new(depth);
                assert_eq!(
                    player.negamax(piece, board, depth),
                    player.negamax_mt(piece, board, depth),
                );
            }
        }
    }
}

#[test]
fn pruning_keeps_the_score() {
    for board in [Board::new(), midgame()].iter() {
        for piece in [Piece::Black, Piece::White] {
            for depth in 0..5 {
                let pruned = AlphaBetaPlayer::new(depth).alphabeta(piece, board, -127, 127, depth);
                let plain = NegaMaxPlayer::new(depth).negamax(piece, board, depth);
                assert_eq!(plain.0, pruned.0);
            }
        }
    }
}

#[test]
fn pruning_takes_the_first_of_the_best_moves() {
    for board in [Board::new(), midgame()].iter() {
        for piece in [Piece::Black, Piece::White] {
            for depth in 1..4 {
                let plain = NegaMaxPlayer::new(depth);
                let moves = board.moves(piece);
                let scores: Vec<i8> = moves
                    .as_slice()
                    .iter()
                    .map(|m| plain.score_after(piece, board, m, depth))
                    .collect();
                let top = *scores.iter().max().unwrap();
                let first = scores.iter().position(|&s| s == top).unwrap();
                let last = scores.iter().rposition(|&s| s == top).unwrap();
                let pruned = AlphaBetaPlayer::new(depth).alphabeta(piece, board, -127, 127, depth);
                assert_eq!((top, Some(moves.as_slice()[first].clone())), pruned);
                assert_eq!(
                    (top, Some(moves.as_slice()[last].clone())),
                    plain.negamax_mt(piece, board, depth),
                );
            }
        }
    }
}

#[test]
fn chosen_moves_are_listed() {
    let board = midgame();
    for piece in [Piece::Black, Piece::White] {
        let moves = board.moves(piece);
        for depth in 1..4 {
            let a = AlphaBetaPlayer::new(depth).play(piece, &board).unwrap();
            let n = NegaMaxPlayer::new(depth).play(piece, &board).unwrap();
            assert!(moves.as_slice().contains(&a));
            assert!(moves.as_slice().contains(&n));
        }
        let d = DumbPlayer.play(piece, &board).unwrap();
        assert_eq!(moves.as_slice()[0], d);
    }
}

#[test]
fn narrow_window_cuts_after_the_first_move() {
    let board = midgame();
    let player = AlphaBetaPlayer::new(1);
    let moves = board.moves(Piece::White);
    let (score, mov) = player.alphabeta(Piece::White, &board, -127, -100, 1);
    assert_eq!(Some(moves.as_slice()[0].clone()), mov);
    assert_eq!(0, score);
}

#[test]
fn pick_best_keeps_the_last_of_equal_scores() {
    let list = vec![
        Move::new(Coord(0, 0), [1, 0, 0, 0, 0, 0, 0, 0]),
        Move::new(Coord(1, 0), [0, 1, 0, 0, 0, 0, 0, 0]),
        Move::new(Coord(2, 0), [0, 0, 1, 0, 0, 0, 0, 0]),
        Move::new(Coord(3, 0), [0, 0, 0, 1, 0, 0, 0, 0]),
    ];
    assert_eq!(
        (5, Some(list[2].clone())),
        NegaMaxPlayer::pick_best(&list, &vec![5, -3, 5, 4]),
    );
    assert_eq!(
        (-2, Some(list[3].clone())),
        NegaMaxPlayer::pick_best(&list, &vec![-2, -2, -2, -2]),
    );
    assert_eq!(
        (7, Some(list[0].clone())),
        NegaMaxPlayer::pick_best(&list, &vec![7, 1, 2, 3]),
    );
    assert_eq!(
        (-128, Some(list[3].clone())),
        NegaMaxPlayer::pick_best(&list, &vec![-128, -128, -128, -128]),
    );
    assert_eq!((-127, None), NegaMaxPlayer::pick_best(&[], &vec![]));
}

#[test]
fn score_after_is_the_negated_reply() {
    let board = Board::new();
    let player = NegaMaxPlayer::new(2);
    let mov = board.get_move(Piece::Black, Coord(2, 3));
    assert_eq!(3, player.score_after(Piece::Black, &board, &mov, 1));
    let mut child = board.clone();
    child.do_move(Piece::Black, &mov);
    let (reply, _) = player.negamax(Piece::White, &child, 1);
    assert_eq!(-reply, player.score_after(Piece::Black, &board, &mov, 2));
    assert_eq!(0, reply);
}

#[test]
fn human_answer_picks_from_the_list() {
    let board = Board::new();
    let moves = board.moves(Piece::Black);
    assert_eq!(Some(moves.as_slice()[0].clone()), Human::select(&moves, 0));
    assert_eq!(Some(moves.as_slice()[3].clone()), Human::select(&moves, 3));
    assert_eq!(None, Human::select(&moves, 4));
    assert_eq!(None, Human::select(&moves, usize::MAX));
    let none = stuck().moves(Piece::Black);
    assert_eq!(None, Human::select(&none, 0));
}
