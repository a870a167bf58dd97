//! The rules and the search of a game for two on a board of 8 by 8 cells, in which a
//! stone placed on the board captures the opposing stones that it brackets, in any of the
//! eight directions, between itself and another stone of its own side.
//!
//! - `piece`, `coord`: the two sides, and pairs of small integers.
//! - `cells`, `capture`: the grid and the rules as mathematics, with the laws that hold
//!   of them.
//! - `board`, `moves`: the board with its counters, the moves, and the operations that
//!   find and play them.
//! - `search`, `pruning`: what the two search strategies compute, and how they relate.
//! - `players`, `game`: the players and the match between two of them.
//! - `text`: how positions, grids and boards are written out.

pub mod board;
pub mod capture;
pub mod cells;
pub mod coord;
pub mod game;
pub mod moves;
pub mod piece;
pub mod players;
pub mod pruning;
pub mod search;
pub mod text;
