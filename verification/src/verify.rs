//! The verifier: the run lengths of every row and every column held against
//! the declared clues.

use vstd::prelude::*;
use crate::cell::Cell;
use crate::grid::{lemma_position_in_array, lemma_row_in_array};
use crate::puzzle::Puzzle;
use crate::runs::{
    closed_runs, lemma_open_run_bound, line_matches, open_run, run_lengths, runs, same_lengths,
};

verus! {

impl Puzzle {
    /// Reads the run lengths off `cells` and holds them against `clues`: true
    /// exactly if the line has the declared runs, in number, length and order. A
    /// line without a filled cell has the single run length zero.
    pub fn verify_clues(&self, clues: &Vec<usize>, cells: &[Cell]) -> (r: bool)
        ensures
            r == line_matches(cells@, clues@),
    {
        let mut built_clues: Vec<usize> = Vec::new();
        let mut mid_set = false;
        let mut current_clue: usize = 0;
        let mut i: usize = 0;
        while i < cells.len()
            invariant
                0 <= i <= cells@.len(),
                same_lengths(built_clues@, closed_runs(cells@.take(i as int))),
                mid_set == (open_run(cells@.take(i as int)) > 0),
                mid_set ==> current_clue == open_run(cells@.take(i as int)),
                (current_clue == 0) == (runs(cells@.take(i as int)).len() == 0),
                current_clue <= i,
            decreases cells@.len() - i,
        {
            proof {
                assert(cells@.take(i + 1).drop_last() =~= cells@.take(i as int));
                lemma_open_run_bound(cells@.take(i as int));
            }
            match cells[i] {
                Cell::Filled => {
                    if mid_set {
                        current_clue = current_clue + 1;
                    } else {
                        mid_set = true;
                        current_clue = 1;
                    }
                },
                _ => {
                    if mid_set {
                        mid_set = false;
                        built_clues.push(current_clue);
                    }
                },
            }
            i = i + 1;
        }
        proof {
            assert(cells@.take(i as int) =~= cells@);
        }
        if mid_set || current_clue == 0 {
            built_clues.push(current_clue);
        }
        assert(same_lengths(built_clues@, run_lengths(cells@)));
        if clues.len() != built_clues.len() {
            return false;
        }
        let mut k: usize = 0;
        while k < clues.len()
            invariant
                0 <= k <= clues@.len(),
                clues@.len() == built_clues@.len(),
                same_lengths(built_clues@, run_lengths(cells@)),
                forall|j: int| 0 <= j < k ==> clues@[j] == built_clues@[j],
            decreases clues@.len() - k,
        {
            if clues[k] != built_clues[k] {
                return false;
            }
            k = k + 1;
        }
        true
    }

    /// Whether every row shows exactly the runs that its clues declare.
    pub fn verify_rows(&self) -> (r: bool)
        requires
            self.wf(),
        ensures
            r == self@.rows_verified(),
    {
        let height: usize = self.row_clues.len();
        let width: usize = self.column_clues.len();
        let mut y: usize = 0;
        while y < height
            invariant
                0 <= y <= height,
                height == self.row_clues@.len(),
                width == self.column_clues@.len(),
                self.wf(),
                forall|r: int|
                    0 <= r < y ==> line_matches(#[trigger] self@.row(r), self@.row_clues[r]),
            decreases height - y,
        {
            proof {
                lemma_row_in_array(
                    self.column_clues@.len() as int,
                    self.row_clues@.len() as int,
                    y as int,
                );
            }
            let start: usize = self.get_pos(0, y);
            let end: usize = self.get_pos(width, y);
            let cells: &[Cell] = &self.array[start..end];
            proof {
                assert(cells@ =~= self@.row(y as int));
            }
            if !self.verify_clues(&self.row_clues[y], cells) {
                return false;
            }
            y = y + 1;
        }
        true
    }

    /// Whether every column shows exactly the runs that its clues declare.
    pub fn verify_columns(&self) -> (r: bool)
        requires
            self.wf(),
        ensures
            r == self@.columns_verified(),
    {
        let height: usize = self.row_clues.len();
        let width: usize = self.column_clues.len();
        let mut x: usize = 0;
        while x < width
            invariant
                0 <= x <= width,
                height == self.row_clues@.len(),
                width == self.column_clues@.len(),
                self.wf(),
                forall|c: int|
                    0 <= c < x ==> line_matches(#[trigger] self@.column(c), self@.column_clues[c]),
            decreases width - x,
        {
            let mut cells: Vec<Cell> = Vec::new();
            let mut y: usize = 0;
            while y < height
                invariant
                    0 <= y <= height,
                    0 <= x < width,
                    height == self.row_clues@.len(),
                    width == self.column_clues@.len(),
                    self.wf(),
                    cells@.len() == y,
                    forall|r: int| 0 <= r < y ==> cells@[r] == self@.grid[r][x as int],
                decreases height - y,
            {
                proof {
                    lemma_position_in_array(
                        self.column_clues@.len() as int,
                        self.row_clues@.len() as int,
                        x as int,
                        y as int,
                    );
                }
                let cell = self.array[self.get_pos(x, y)];
                cells.push(cell);
                y = y + 1;
            }
            proof {
                assert(cells@ =~= self@.column(x as int));
            }
            if !self.verify_clues(&self.column_clues[x], cells.as_slice()) {
                return false;
            }
            x = x + 1;
        }
        true
    }

    /// Whether the grid is a solution of the puzzle: the run lengths read
    /// off every row and every column are exactly the declared clues of that
    /// line. A line without a filled cell has the single run length zero.
    pub fn verify(&self) -> (r: bool)
        requires
            self.wf(),
        ensures
            r == self@.verified(),
    {
        self.verify_rows() && self.verify_columns()
    }
}

} // verus!
