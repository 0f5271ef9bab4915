//! A tic-tac-toe engine: a board model, the notation that boards are written
//! in, and an exhaustive alpha-beta search for the best move.
use vstd::prelude::*;

pub mod board;
pub mod command;
pub mod engine;
pub mod notation;
pub mod outcome;
pub mod play;
pub mod pruning;

pub use crate::board::{Marker, Position};

verus! {

/// The index of a cell, 0 to 8, row by row.
pub type Move = usize;

/// A score: 0 for a draw, positive where the maximizing side is ahead.
pub type Eval = i64;

} // verus!
