//! The solver: the line solver run over every row, then over every column,
//! until a whole cycle changes nothing.

use vstd::prelude::*;
use crate::board::Board;
use crate::forcing::{deduce_line, solve_line};
use crate::grid::{lemma_off_column, lemma_off_row, lemma_position_in_array};
use crate::laws::{lemma_cells_grow_transitive, lemma_cycle_grows, lemma_cycle_settles};
use crate::line::{cells_grow, lemma_cells_grow_reflexive};
use crate::puzzle::{lemma_column_of_view, lemma_row_of_view, lemma_view_wf, Puzzle};

verus! {

impl Puzzle {
    /// Solves as far as edge forcing goes and says whether that solved the
    /// puzzle.
    ///
    /// A cycle is a row phase followed by a column phase. Cycles run until
    /// one of them changes no cell anywhere: the flag that keeps the loop
    /// going is the disjunction over all lines of the cycle. The first cycle
    /// already reaches a fixed point of both phases, so the loop ends with
    /// its second cycle at the latest, and the grid it leaves is the one
    /// after the first.
    ///
    /// Cells only ever go from `Empty` to `Filled`. The result is the
    /// verdict of the verifier on the grid as it was left.
    pub fn solve(&mut self) -> (solved: bool)
        requires
            old(self).wf(),
        ensures
            final(self).wf(),
            final(self)@ == old(self)@.solved(),
            final(self)@.after_cycle() == final(self)@,
            old(self)@.grows_to(final(self)@),
            cells_grow(old(self).array@, final(self).array@),
            final(self).row_clues == old(self).row_clues,
            final(self).column_clues == old(self).column_clues,
            solved == final(self)@.verified(),
    {
        let mut change_made = true;
        let ghost mut cycles: nat = 0;
        proof {
            lemma_cells_grow_reflexive(self.array@);
        }
        while change_made
            invariant
                self.wf(),
                self.row_clues == old(self).row_clues,
                self.column_clues == old(self).column_clues,
                cells_grow(old(self).array@, self.array@),
                cycles == 0 ==> change_made && self@ == old(self)@,
                cycles > 0 ==> self@ == old(self)@.after_cycle(),
                change_made ==> cycles <= 1,
            decreases
                    (if change_made {
                        2 - cycles
                    } else {
                        0
                    }),
        {
            let ghost before = *self;
            proof {
                lemma_view_wf(*self);
                lemma_cycle_settles(old(self)@);
            }
            let rows_changed = self.solve_rows();
            let ghost between = *self;
            let columns_changed = self.solve_columns();
            change_made = rows_changed || columns_changed;
            proof {
                lemma_cells_grow_transitive(before.array@, between.array@, self.array@);
                lemma_cells_grow_transitive(old(self).array@, before.array@, self.array@);
                cycles = cycles + 1;
            }
        }
        proof {
            lemma_view_wf(*old(self));
            lemma_cycle_settles(old(self)@);
            lemma_cycle_grows(old(self)@);
        }
        self.verify()
    }

    /// The row phase: runs the line solver on every row, top to bottom.
    /// Returns whether any cell changed.
    pub fn solve_rows(&mut self) -> (change_made: bool)
        requires
            old(self).wf(),
        ensures
            final(self).wf(),
            final(self)@ == old(self)@.after_rows(),
            change_made == (final(self)@ != old(self)@),
            cells_grow(old(self).array@, final(self).array@),
            final(self).row_clues == old(self).row_clues,
            final(self).column_clues == old(self).column_clues,
    {
        let height: usize = self.row_clues.len();
        let mut change_made = false;
        let mut y: usize = 0;
        while y < height
            invariant
                0 <= y <= height,
                height == self.row_clues@.len(),
                self.wf(),
                self.row_clues == old(self).row_clues,
                self.column_clues == old(self).column_clues,
                cells_grow(old(self).array@, self.array@),
                forall|r: int|
                    0 <= r < y ==> (#[trigger] self@.grid[r]) == deduce_line(
                        old(self)@.row(r),
                        old(self)@.row_clues[r],
                    ),
                forall|r: int| y <= r < height ==> (#[trigger] self@.grid[r]) == old(self)@.grid[r],
                change_made == (self@.grid != old(self)@.grid),
            decreases height - y,
        {
            let ghost before = *self;
            let cells = self.row_positions(y);
            let changed = solve_line(&mut self.array, &cells, &self.row_clues[y]);
            proof {
                let width = self.column_clues@.len();
                assert(self.array.len() == self.array@.len());
                lemma_row_of_view(before, y as int);
                lemma_row_of_view(*self, y as int);
                assert forall|r: int| 0 <= r < height && r != y implies (#[trigger] self@.grid[r])
                    == before@.grid[r] by {
                    assert forall|x: int| 0 <= x < width implies self@.grid[r][x]
                        == before@.grid[r][x] by {
                        lemma_off_row(width, height as nat, y as int, x, r);
                        lemma_position_in_array(width as int, height as int, x, r);
                    }
                    assert(self@.grid[r] =~= before@.grid[r]);
                }
                if !changed {
                    assert(self@.grid =~= before@.grid);
                } else {
                    assert(self@.grid[y as int] != old(self)@.grid[y as int]);
                }
            }
            change_made = change_made || changed;
            y = y + 1;
        }
        proof {
            assert(self@.grid =~= old(self)@.after_rows().grid);
        }
        change_made
    }

    /// The column phase: runs the line solver on every column, left to
    /// right. Returns whether any cell changed.
    pub fn solve_columns(&mut self) -> (change_made: bool)
        requires
            old(self).wf(),
        ensures
            final(self).wf(),
            final(self)@ == old(self)@.after_columns(),
            change_made == (final(self)@ != old(self)@),
            cells_grow(old(self).array@, final(self).array@),
            final(self).row_clues == old(self).row_clues,
            final(self).column_clues == old(self).column_clues,
    {
        let width: usize = self.column_clues.len();
        let ghost height = self.row_clues@.len();
        let mut change_made = false;
        let mut x: usize = 0;
        while x < width
            invariant
                0 <= x <= width,
                width == self.column_clues@.len(),
                height == self.row_clues@.len(),
                self.wf(),
                self.row_clues == old(self).row_clues,
                self.column_clues == old(self).column_clues,
                cells_grow(old(self).array@, self.array@),
                forall|c: int|
                    0 <= c < x ==> (#[trigger] self@.column(c)) == deduce_line(
                        old(self)@.column(c),
                        old(self)@.column_clues[c],
                    ),
                forall|c: int|
                    x <= c < width ==> (#[trigger] self@.column(c)) == old(self)@.column(c),
                change_made == (self@.grid != old(self)@.grid),
            decreases width - x,
        {
            let ghost before = *self;
            let cells = self.column_positions(x);
            let changed = solve_line(&mut self.array, &cells, &self.column_clues[x]);
            proof {
                assert(self.array.len() == self.array@.len());
                lemma_column_of_view(before, x as int);
                lemma_column_of_view(*self, x as int);
                assert forall|c: int| 0 <= c < width && c != x implies (#[trigger] self@.column(c))
                    == before@.column(c) by {
                    assert forall|y: int| 0 <= y < height implies self@.grid[y][c]
                        == before@.grid[y][c] by {
                        lemma_off_column(width as nat, height, x as int, c, y);
                        lemma_position_in_array(width as int, height as int, c, y);
                    }
                    assert(self@.column(c) =~= before@.column(c));
                }
                if !changed {
                    lemma_same_columns(before@, self@);
                } else {
                    lemma_column_differs(old(self)@, self@, x as int);
                }
            }
            change_made = change_made || changed;
            x = x + 1;
        }
        proof {
            let target = old(self)@.after_columns();
            assert forall|y: int| 0 <= y < height implies (#[trigger] self@.grid[y])
                == target.grid[y] by {
                assert forall|c: int| 0 <= c < width implies self@.grid[y][c]
                    == target.grid[y][c] by {
                    assert(self@.column(c)[y] == self@.grid[y][c]);
                }
                assert(self@.grid[y] =~= target.grid[y]);
            }
            assert(self@.grid =~= target.grid);
        }
        change_made
    }
}

/// Two well-formed boards of one size with the same columns have the same
/// grid.
pub proof fn lemma_same_columns(a: Board, b: Board)
    requires
        a.wf(),
        b.wf(),
        a.width() == b.width(),
        a.height() == b.height(),
        forall|x: int| 0 <= x < a.width() ==> #[trigger] a.column(x) == b.column(x),
    ensures
        a.grid == b.grid,
{
    assert forall|y: int| 0 <= y < a.height() implies (#[trigger] a.grid[y]) == b.grid[y] by {
        assert forall|x: int| 0 <= x < a.width() implies a.grid[y][x] == b.grid[y][x] by {
            assert(a.column(x)[y] == a.grid[y][x]);
            assert(b.column(x)[y] == b.grid[y][x]);
        }
        assert(a.grid[y] =~= b.grid[y]);
    }
    assert(a.grid =~= b.grid);
}

/// Two boards of one height that differ in a column differ in their grid.
pub proof fn lemma_column_differs(a: Board, b: Board, x: int)
    requires
        a.height() == b.height(),
        a.column(x) != b.column(x),
    ensures
        a.grid != b.grid,
{
    if a.grid == b.grid {
        assert(a.column(x) =~= b.column(x));
    }
}

} // verus!
