//! The list of candidate moves.
//!
//! The list is a `smallvec::SmallVec` with inline room for 64 moves, one per cell, so
//! that listing the moves of a position does not allocate. The verifier does not look
//! inside it: `listed` names what a list holds, and the three functions that touch the
//! `SmallVec` state their effect on `listed` without proof.

use crate::board::Move;
use smallvec::SmallVec;
use vstd::prelude::*;

verus! {

/// A list of moves in the order in which they were found, held in a
/// `smallvec::SmallVec<[Move; 64]>`.
#[verifier::external_body]
pub struct Moves {
    inner: SmallVec<[Move; 64]>,
}

/// The moves that a list holds, first to last.
pub uninterp spec fn listed(moves: Moves) -> Seq<Move>;

impl View for Moves {
    type V = Seq<Move>;

    open spec fn view(&self) -> Seq<Move> {
        listed(*self)
    }
}

impl Moves {
    /// An empty list, made by `SmallVec::new`. Taken on trust: the new list holds no
    /// move.
    #[verifier::external_body]
    pub(crate) fn empty() -> (r: Moves)
        ensures
            listed(r) == Seq::<Move>::empty(),
    {
        Moves { inner: SmallVec::new() }
    }

    /// Appends `mov` by `SmallVec::push`. Taken on trust: the list afterwards holds the
    /// moves it held before, in their order, and then `mov`.
    #[verifier::external_body]
    pub(crate) fn append(&mut self, mov: Move)
        ensures
            listed(*final(self)) == listed(*old(self)).push(mov),
    {
        self.inner.push(mov)
    }

    /// The moves as a slice, by `SmallVec::as_slice`. Taken on trust: the slice holds
    /// the moves of the list in the order of the list.
    #[verifier::external_body]
    pub(crate) fn slice(&self) -> (r: &[Move])
        ensures
            r@ == listed(*self),
    {
        self.inner.as_slice()
    }

    /// The moves as a slice, first to last.
    pub fn as_slice(&self) -> (r: &[Move])
        ensures
            r@ == self@,
    {
        self.slice()
    }

    /// How many moves the list holds.
    pub fn len(&self) -> (r: usize)
        ensures
            r == self@.len(),
    {
        self.slice().len()
    }
}

} // verus!
