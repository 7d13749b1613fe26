//! The mathematical model of a puzzle: a two-dimensional grid of cells with
//! one clue sequence per row and per column.

use vstd::prelude::*;
use crate::cell::Cell;
use crate::forcing::deduce_line;
use crate::line::cells_grow;
use crate::runs::line_matches;

verus! {

/// A puzzle as contracts see it. `grid[y][x]` is the cell in row `y`,
/// column `x`; `row_clues[y]` and `column_clues[x]` are the declared run
/// lengths of that row and that column.
pub struct Board {
    pub grid: Seq<Seq<Cell>>,
    pub row_clues: Seq<Seq<usize>>,
    pub column_clues: Seq<Seq<usize>>,
}

impl Board {
    /// Number of columns: one per column clue sequence.
    pub open spec fn width(self) -> nat {
        self.column_clues.len()
    }

    /// Number of rows: one per row clue sequence.
    pub open spec fn height(self) -> nat {
        self.row_clues.len()
    }

    /// The grid has one row per row clue sequence, and every row has one
    /// cell per column clue sequence.
    pub open spec fn wf(self) -> bool {
        &&& self.grid.len() == self.height()
        &&& forall|y: int|
            0 <= y < self.height() ==> (#[trigger] self.grid[y]).len() == self.width()
    }

    /// The cells of row `y`, left to right.
    pub open spec fn row(self, y: int) -> Seq<Cell> {
        self.grid[y]
    }

    /// The cells of column `x`, top to bottom.
    pub open spec fn column(self, x: int) -> Seq<Cell> {
        Seq::new(self.height(), |y: int| self.grid[y][x])
    }

    /// Every row shows exactly the runs that its clues declare.
    pub open spec fn rows_verified(self) -> bool {
        forall|y: int|
            0 <= y < self.height() ==> line_matches(#[trigger] self.row(y), self.row_clues[y])
    }

    /// Every column shows exactly the runs that its clues declare.
    pub open spec fn columns_verified(self) -> bool {
        forall|x: int|
            0 <= x < self.width() ==> line_matches(#[trigger] self.column(x), self.column_clues[x])
    }

    /// The grid is a solution: every row and every column shows exactly the
    /// runs that its clues declare.
    pub open spec fn verified(self) -> bool {
        self.rows_verified() && self.columns_verified()
    }

    /// The board after the row phase: the line solver has run once on every
    /// row.
    pub open spec fn after_rows(self) -> Board {
        Board {
            grid: Seq::new(self.height(), |y: int| deduce_line(self.row(y), self.row_clues[y])),
            row_clues: self.row_clues,
            column_clues: self.column_clues,
        }
    }

    /// The board after the column phase: the line solver has run once on
    /// every column.
    pub open spec fn after_columns(self) -> Board {
        Board {
            grid: Seq::new(
                self.height(),
                |y: int|
                    Seq::new(
                        self.width(),
                        |x: int| deduce_line(self.column(x), self.column_clues[x])[y],
                    ),
            ),
            row_clues: self.row_clues,
            column_clues: self.column_clues,
        }
    }

    /// One cycle of the solver: the row phase, then the column phase.
    pub open spec fn after_cycle(self) -> Board {
        self.after_rows().after_columns()
    }

    /// The board after `n` cycles of the solver.
    pub open spec fn after_cycles(self, n: nat) -> Board
        decreases n,
    {
        if n == 0 {
            self
        } else {
            self.after_cycles((n - 1) as nat).after_cycle()
        }
    }

    /// The board that the solver ends with: the one after its first cycle,
    /// which no later cycle changes.
    pub open spec fn solved(self) -> Board {
        self.after_cycle()
    }

    /// `solution` is a solution of the puzzle of `self`: a grid of the same
    /// size that shows the runs of the same clues.
    pub open spec fn solved_by(self, solution: Board) -> bool {
        &&& solution.wf()
        &&& solution.row_clues == self.row_clues
        &&& solution.column_clues == self.column_clues
        &&& solution.verified()
    }

    /// Every cell that is `Filled` in `self` is `Filled` in `other`.
    pub open spec fn filled_within(self, other: Board) -> bool {
        forall|y: int, x: int|
            0 <= y < self.grid.len() && 0 <= x < self.grid[y].len() ==> (#[trigger] self.grid[y][x]
                == Cell::Filled ==> other.grid[y][x] == Cell::Filled)
    }

    /// `later` has the clues and the dimensions of `self`, and each of its
    /// cells is the cell of `self` or went from `Empty` to `Filled`.
    pub open spec fn grows_to(self, later: Board) -> bool {
        &&& later.row_clues == self.row_clues
        &&& later.column_clues == self.column_clues
        &&& later.grid.len() == self.grid.len()
        &&& forall|y: int|
            0 <= y < self.grid.len() ==> cells_grow(self.grid[y], #[trigger] later.grid[y])
    }
}

} // verus!
