//! The sample puzzle: a ten by ten picture with its clues, the value a
//! puzzle has by default.

use vstd::prelude::*;
use crate::cell::Cell;
use crate::puzzle::{clue_seqs, Puzzle};

verus! {

/// The cells of the sample puzzle, row by row.
pub open spec fn sample_cells() -> Seq<Cell> {
    seq![
        Cell::Empty, Cell::Empty, Cell::Filled, Cell::Filled, Cell::Filled,
        Cell::Filled, Cell::Filled, Cell::Filled, Cell::Filled, Cell::Empty,
        Cell::Empty, Cell::Filled, Cell::Empty, Cell::Empty, Cell::Empty,
        Cell::Filled, Cell::Empty, Cell::Empty, Cell::Empty, Cell::Filled,
        Cell::Filled, Cell::Filled, Cell::Empty, Cell::Empty, Cell::Empty,
        Cell::Empty, Cell::Empty, Cell::Empty, Cell::Empty, Cell::Filled,
        Cell::Empty, Cell::Filled, Cell::Empty, Cell::Empty, Cell::Empty,
        Cell::Filled, Cell::Empty, Cell::Empty, Cell::Empty, Cell::Filled,
        Cell::Empty, Cell::Empty, Cell::Filled, Cell::Empty, Cell::Empty,
        Cell::Empty, Cell::Filled, Cell::Filled, Cell::Empty, Cell::Filled,
        Cell::Filled, Cell::Filled, Cell::Filled, Cell::Filled, Cell::Empty,
        Cell::Empty, Cell::Empty, Cell::Filled, Cell::Filled, Cell::Empty,
        Cell::Empty, Cell::Filled, Cell::Filled, Cell::Empty, Cell::Filled,
        Cell::Empty, Cell::Empty, Cell::Filled, Cell::Empty, Cell::Empty,
        Cell::Empty, Cell::Filled, Cell::Empty, Cell::Empty, Cell::Filled,
        Cell::Empty, Cell::Empty, Cell::Filled, Cell::Empty, Cell::Empty,
        Cell::Empty, Cell::Filled, Cell::Filled, Cell::Empty, Cell::Empty,
        Cell::Empty, Cell::Filled, Cell::Filled, Cell::Empty, Cell::Empty,
        Cell::Empty, Cell::Empty, Cell::Filled, Cell::Filled, Cell::Filled,
        Cell::Filled, Cell::Filled, Cell::Empty, Cell::Empty, Cell::Empty,
    ]
}

/// The row clues of the sample puzzle, top row first.
pub open spec fn sample_row_clues() -> Seq<Seq<usize>> {
    seq![
        seq![7usize],
        seq![1usize, 1, 1],
        seq![2usize, 1],
        seq![1usize, 1, 1],
        seq![1usize, 2, 1],
        seq![4usize, 2],
        seq![2usize, 1, 1],
        seq![1usize, 1, 1],
        seq![2usize, 2],
        seq![5usize],
    ]
}

/// The column clues of the sample puzzle, left column first.
pub open spec fn sample_column_clues() -> Seq<Seq<usize>> {
    seq![
        seq![1usize, 1],
        seq![4usize, 3],
        seq![2usize, 3, 1],
        seq![1usize, 1, 1],
        seq![1usize, 2, 1],
        seq![1usize, 1, 2],
        seq![2usize, 1, 1],
        seq![5usize, 1],
        seq![1usize, 1],
        seq![4usize],
    ]
}

impl Default for Puzzle {
    /// The sample puzzle, with its picture already drawn.
    fn default() -> (p: Self)
        ensures
            p.wf(),
            p.array@ == sample_cells(),
            clue_seqs(p.row_clues@) == sample_row_clues(),
            clue_seqs(p.column_clues@) == sample_column_clues(),
    {
        let array = vec![
            Cell::Empty, Cell::Empty, Cell::Filled, Cell::Filled, Cell::Filled,
            Cell::Filled, Cell::Filled, Cell::Filled, Cell::Filled, Cell::Empty,
            Cell::Empty, Cell::Filled, Cell::Empty, Cell::Empty, Cell::Empty,
            Cell::Filled, Cell::Empty, Cell::Empty, Cell::Empty, Cell::Filled,
            Cell::Filled, Cell::Filled, Cell::Empty, Cell::Empty, Cell::Empty,
            Cell::Empty, Cell::Empty, Cell::Empty, Cell::Empty, Cell::Filled,
            Cell::Empty, Cell::Filled, Cell::Empty, Cell::Empty, Cell::Empty,
            Cell::Filled, Cell::Empty, Cell::Empty, Cell::Empty, Cell::Filled,
            Cell::Empty, Cell::Empty, Cell::Filled, Cell::Empty, Cell::Empty,
            Cell::Empty, Cell::Filled, Cell::Filled, Cell::Empty, Cell::Filled,
            Cell::Filled, Cell::Filled, Cell::Filled, Cell::Filled, Cell::Empty,
            Cell::Empty, Cell::Empty, Cell::Filled, Cell::Filled, Cell::Empty,
            Cell::Empty, Cell::Filled, Cell::Filled, Cell::Empty, Cell::Filled,
            Cell::Empty, Cell::Empty, Cell::Filled, Cell::Empty, Cell::Empty,
            Cell::Empty, Cell::Filled, Cell::Empty, Cell::Empty, Cell::Filled,
            Cell::Empty, Cell::Empty, Cell::Filled, Cell::Empty, Cell::Empty,
            Cell::Empty, Cell::Filled, Cell::Filled, Cell::Empty, Cell::Empty,
            Cell::Empty, Cell::Filled, Cell::Filled, Cell::Empty, Cell::Empty,
            Cell::Empty, Cell::Empty, Cell::Filled, Cell::Filled, Cell::Filled,
            Cell::Filled, Cell::Filled, Cell::Empty, Cell::Empty, Cell::Empty,
        ];
        let row_clues = vec![
            vec![7],
            vec![1, 1, 1],
            vec![2, 1],
            vec![1, 1, 1],
            vec![1, 2, 1],
            vec![4, 2],
            vec![2, 1, 1],
            vec![1, 1, 1],
            vec![2, 2],
            vec![5],
        ];
        let column_clues = vec![
            vec![1, 1],
            vec![4, 3],
            vec![2, 3, 1],
            vec![1, 1, 1],
            vec![1, 2, 1],
            vec![1, 1, 2],
            vec![2, 1, 1],
            vec![5, 1],
            vec![1, 1],
            vec![4],
        ];
        proof {
            assert(array@.len() == 100);
            assert(row_clues@.len() == 10);
            assert(column_clues@.len() == 10);
            assert(row_clues@.len() * column_clues@.len() == 100) by (nonlinear_arith)
                requires
                    row_clues@.len() == 10,
                    column_clues@.len() == 10,
            ;
            assert(clue_seqs(row_clues@) =~~= sample_row_clues());
            assert(clue_seqs(column_clues@) =~~= sample_column_clues());
        }
        Puzzle { array, row_clues, column_clues }
    }
}

} // verus!
