//! The state of one grid cell.

use vstd::prelude::*;

verus! {

/// What is known about one cell of the grid.
#[derive(Clone, Copy, PartialEq, Eq, Debug, Structural)]
pub enum Cell {
    /// Nothing has been decided yet.
    Empty,
    /// The cell belongs to a run.
    Filled,
    /// The cell is known to belong to no run.
    Crossed,
}

} // verus!
