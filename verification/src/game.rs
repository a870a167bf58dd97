use crate::board::{option_view, Board, Move};
use crate::capture::{legal_moves, lemma_enumeration_row_major, placed, playable, MoveView};
use crate::cells::{initial_cells, Cell};
use crate::piece::Piece;
use vstd::prelude::*;

verus! {

/// Something that chooses moves: a person at a terminal, or a search.
pub trait Play {
    /// Chooses a move for `piece` on `board`, or none to pass. A move that is chosen is
    /// one of the legal moves of `piece` on `board`.
    fn play(&mut self, piece: Piece, board: &Board) -> (r: Option<Move>)
        requires
            board.wf(),
        ensures
            r matches Some(m) ==> legal_moves(board@, piece).contains(m@),
    ;
}

/// A match as a value: the grid, whose turn it is, and whether the last turn was passed.
pub struct GameView {
    /// The 64 cells in row-major order.
    pub cells: Seq<Cell>,
    /// The side to move.
    pub turn: Piece,
    /// Whether the last turn was passed.
    pub passed: bool,
}

/// How a match goes on from `before` when the side to move has made `choice`. A move is
/// played and the turn goes over. A first pass is noted and the turn goes over. A pass
/// right after a pass ends the match and changes nothing.
pub open spec fn follows(
    before: GameView,
    choice: Option<MoveView>,
    after: GameView,
    on: bool,
) -> bool {
    match choice {
        Some(m) => {
            &&& on
            &&& after.cells == placed(before.cells, before.turn, m)
            &&& after.turn == before.turn.other()
            &&& !after.passed
        },
        None => if before.passed {
            !on && after == before
        } else {
            &&& on
            &&& after.cells == before.cells
            &&& after.turn == before.turn.other()
            &&& after.passed
        },
    }
}

/// A match between two players.
pub struct Game<P, Q> {
    board: Board,
    turn: Piece,
    black: P,
    white: Q,
    is_passed: bool,
}

impl<P, Q> View for Game<P, Q> {
    type V = GameView;

    closed spec fn view(&self) -> GameView {
        GameView { cells: self.board@, turn: self.turn, passed: self.is_passed }
    }
}

impl<P, Q> Game<P, Q> where P: Play, Q: Play {
    /// The counters of the board agree with its grid.
    pub closed spec fn wf(&self) -> bool {
        self.board.wf()
    }

    /// A match at the opening position, black to move.
    pub fn new(black: P, white: Q) -> (r: Self)
        ensures
            r.wf(),
            r@ == (GameView { cells: initial_cells(), turn: Piece::Black, passed: false }),
    {
        let board = Board::new();
        Game { board, turn: Piece::Black, black, white, is_passed: false }
    }

    /// The board as it stands.
    pub fn board(&self) -> (r: &Board)
        ensures
            r@ == self@.cells,
            r.wf() == self.wf(),
    {
        &self.board
    }

    /// The side to move.
    pub fn turn(&self) -> (r: Piece)
        ensures
            r == self@.turn,
    {
        self.turn
    }

    /// Whether the last turn was passed.
    pub fn is_passed(&self) -> (r: bool)
        ensures
            r == self@.passed,
    {
        self.is_passed
    }

    /// Goes on with the choice that the side to move has made, and says whether the match
    /// goes on.
    pub fn advance(&mut self, mov: Option<Move>) -> (r: bool)
        requires
            old(self).wf(),
            mov matches Some(m) ==> playable(old(self)@.cells, old(self)@.turn, m@),
        ensures
            final(self).wf(),
            follows(old(self)@, option_view(mov), final(self)@, r),
    {
        match mov {
            Some(mov) => {
                self.board.do_move(self.turn, &mov);
                self.is_passed = false;
            },
            None => {
                if self.is_passed {
                    return false;
                }
                self.is_passed = true;
            },
        }
        self.turn = self.turn.opponent();
        true
    }

    /// One turn: asks the player of the side to move for a move and goes on with it.
    /// Returns false when the match is over, which is when both sides have passed in a
    /// row.
    pub fn step(&mut self) -> (r: bool)
        requires
            old(self).wf(),
        ensures
            final(self).wf(),
            exists|choice: Option<MoveView>|
                {
                    &&& choice matches Some(m) ==> legal_moves(
                        old(self)@.cells,
                        old(self)@.turn,
                    ).contains(m)
                    &&& #[trigger] follows(old(self)@, choice, final(self)@, r)
                },
    {
        let mov = match self.turn {
            Piece::Black => self.black.play(self.turn, &self.board),
            Piece::White => self.white.play(self.turn, &self.board),
        };
        proof {
            lemma_enumeration_row_major(self.board@, self.turn);
        }
        let ghost choice = option_view(mov);
        let r = self.advance(mov);
        assert(follows(old(self)@, choice, self@, r));
        r
    }
}

} // verus!
