//! Run lengths: what a line of cells says about itself, to be held against
//! its clues.
//!
//! A run is a maximal stretch of neighbouring `Filled` cells. Reading a line
//! from its start, a run is open while filled cells follow one another and
//! is closed by the first cell that is not filled.

use vstd::prelude::*;
use crate::cell::Cell;

verus! {

/// The length of the run that reaches the end of the line: the number of
/// `Filled` cells at its end. Zero where the line is empty or its last cell
/// is not filled.
pub open spec fn open_run(cells: Seq<Cell>) -> nat
    decreases cells.len(),
{
    if cells.len() == 0 || cells.last() != Cell::Filled {
        0
    } else {
        open_run(cells.drop_last()) + 1
    }
}

/// The lengths of the runs that end before the end of the line, in the
/// line's order.
pub open spec fn closed_runs(cells: Seq<Cell>) -> Seq<nat>
    decreases cells.len(),
{
    if cells.len() == 0 {
        Seq::empty()
    } else if cells.last() != Cell::Filled && open_run(cells.drop_last()) > 0 {
        closed_runs(cells.drop_last()).push(open_run(cells.drop_last()))
    } else {
        closed_runs(cells.drop_last())
    }
}

/// The lengths of all runs of the line, in the line's order.
pub open spec fn runs(cells: Seq<Cell>) -> Seq<nat> {
    if open_run(cells) > 0 {
        closed_runs(cells).push(open_run(cells))
    } else {
        closed_runs(cells)
    }
}

/// The run lengths as clues write them: the lengths of the runs, or a single
/// zero for a line without a filled cell.
pub open spec fn run_lengths(cells: Seq<Cell>) -> Seq<nat> {
    if runs(cells).len() == 0 {
        seq![0nat]
    } else {
        runs(cells)
    }
}

/// The two sequences hold the same numbers in the same order.
pub open spec fn same_lengths(clues: Seq<usize>, lengths: Seq<nat>) -> bool {
    &&& clues.len() == lengths.len()
    &&& forall|i: int| 0 <= i < clues.len() ==> clues[i] == lengths[i]
}

/// The line shows exactly the runs that its clues declare.
pub open spec fn line_matches(cells: Seq<Cell>, clues: Seq<usize>) -> bool {
    same_lengths(clues, run_lengths(cells))
}

/// A run is no longer than the line it lies in.
pub proof fn lemma_open_run_bound(cells: Seq<Cell>)
    ensures
        open_run(cells) <= cells.len(),
    decreases cells.len(),
{
    if cells.len() > 0 && cells.last() == Cell::Filled {
        lemma_open_run_bound(cells.drop_last());
    }
}

} // verus!
