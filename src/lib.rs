//! Conway's Game of Life (rule B3/S23) on a grid of fixed width and height
//! that does not wrap around, with the living cells held sparsely.
//!
//! `model` states what a board is and what a generation does, `board` holds
//! the executable engine proved against it, and `command` reads and carries
//! out the commands of an interactive loop.
use vstd::prelude::*;

pub mod board;
pub mod command;
pub mod model;

pub use board::Board;
pub use model::Cell;

verus! {

} // verus!
