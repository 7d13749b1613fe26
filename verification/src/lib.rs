//! Nonogram puzzles.
//!
//! A puzzle is a grid of cells with a clue sequence for every row and every
//! column: the lengths of the runs of filled cells in that line, in order.
//! The library holds the puzzle and its grid, fills the cells that the clues
//! of a single line force, and checks a grid against the clues.
//!
//! Contracts speak of a puzzle through its view, a [`board::Board`]: the
//! grid as rows of cells beside the clues.
//!
//! - [`cell`], [`puzzle`], [`grid`], [`line`]: the cells, the puzzle with
//!   its flat array, and where rows and columns lie in it.
//! - [`forcing`], [`solve`]: the line solver and the solver that runs it to
//!   a fixed point.
//! - [`runs`], [`verify`]: the runs that a line shows, and the verifier.
//! - [`layout`], [`reading`], [`painting`], [`laws`]: what the clues mean,
//!   and what holds of the solver and the verifier on every puzzle.
//! - [`text`], [`format`]: puzzles read from text.
//! - [`canvas`], [`render`]: puzzles shown as text.
//! - [`sample`]: the puzzle that is there by default.

pub mod board;
pub mod canvas;
pub mod cell;
pub mod forcing;
pub mod format;
pub mod grid;
pub mod laws;
pub mod layout;
pub mod line;
pub mod painting;
pub mod puzzle;
pub mod reading;
pub mod render;
pub mod runs;
pub mod sample;
pub mod solve;
pub mod text;
pub mod verify;

pub use crate::cell::Cell;
pub use crate::format::ParseError;
pub use crate::puzzle::{IndexOutOfBounds, Puzzle};
