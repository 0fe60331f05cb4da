//! Rule engine for a turn-based disk-placing game on a square grid.
//!
//! Players drop disks on empty cells that rest against the wall through an
//! unbroken chain of filled cells; four disks of one player in a line win.
use vstd::prelude::*;

pub mod board;
pub mod error;
pub mod game;

pub use board::{Board, Cell, Direction, Pos};
pub use error::Error;
pub use game::{Configuration, Game, Outcome, RuleError};

verus! {

/// Identifier of a player. The engine only compares players and rotates turns.
pub type Player = usize;

} // verus!
