//! The puzzle: a flat, row-major cell array with the clue sequences that
//! give it its dimensions.

use vstd::prelude::*;
use crate::board::Board;
use crate::cell::Cell;
use crate::grid::{
    column_line, lemma_column_is_line, lemma_place_is_position, lemma_position_in_array,
    lemma_position_injective, lemma_row_is_line, position, row_line,
};
use crate::line::{is_line, line_cells};

verus! {

/// A nonogram. The cell in column `x` of row `y` is `array[y * width + x]`,
/// where the width is the number of column clue sequences and the height the
/// number of row clue sequences.
pub struct Puzzle {
    pub array: Vec<Cell>,
    pub row_clues: Vec<Vec<usize>>,
    pub column_clues: Vec<Vec<usize>>,
}

/// The clue sequences of one axis as plain sequences.
pub open spec fn clue_seqs(clues: Seq<Vec<usize>>) -> Seq<Seq<usize>> {
    Seq::new(clues.len(), |i: int| clues[i]@)
}

impl View for Puzzle {
    type V = Board;

    /// The grid read row by row out of the flat array, beside the clues.
    open spec fn view(&self) -> Board {
        Board {
            grid: Seq::new(
                self.row_clues@.len(),
                |y: int|
                    Seq::new(
                        self.column_clues@.len(),
                        |x: int| self.array@[position(self.column_clues@.len() as int, x, y)],
                    ),
            ),
            row_clues: clue_seqs(self.row_clues@),
            column_clues: clue_seqs(self.column_clues@),
        }
    }
}

/// A grid of the given size in which nothing has been decided.
pub open spec fn blank_grid(height: nat, width: nat) -> Seq<Seq<Cell>> {
    Seq::new(height, |y: int| Seq::new(width, |x: int| Cell::Empty))
}

/// The length of the longest of the clue sequences; zero where there is
/// none.
pub open spec fn longest_len(clues: Seq<Seq<usize>>) -> nat
    decreases clues.len(),
{
    if clues.len() == 0 {
        0
    } else if clues.last().len() > longest_len(clues.drop_last()) {
        clues.last().len()
    } else {
        longest_len(clues.drop_last())
    }
}

/// No clue sequence is longer than the longest, and unless that is zero one
/// of them is as long.
pub proof fn lemma_longest_len(clues: Seq<Seq<usize>>)
    ensures
        forall|i: int| 0 <= i < clues.len() ==> (#[trigger] clues[i]).len() <= longest_len(clues),
        longest_len(clues) == 0 || exists|i: int|
            0 <= i < clues.len() && (#[trigger] clues[i]).len() == longest_len(clues),
    decreases clues.len(),
{
    if clues.len() > 0 {
        let rest = clues.drop_last();
        lemma_longest_len(rest);
        assert forall|i: int| 0 <= i < clues.len() implies (#[trigger] clues[i]).len()
            <= longest_len(clues) by {
            if i < rest.len() {
                assert(rest[i] == clues[i]);
            }
        }
        if clues.last().len() > longest_len(rest) {
            assert(clues[clues.len() - 1].len() == longest_len(clues));
        } else if longest_len(rest) > 0 {
            let longest = longest_len(rest);
            let i = choose|i: int| 0 <= i < rest.len() && (#[trigger] rest[i]).len() == longest;
            assert(clues[i].len() == longest_len(clues));
        }
    }
}

/// A cell was asked for that the grid does not have: column `x` is not left
/// of the width, or row `y` is not above the height.
#[derive(Clone, Copy, PartialEq, Eq, Debug, Structural)]
pub struct IndexOutOfBounds {
    pub x: usize,
    pub y: usize,
}

impl Puzzle {
    /// The array holds exactly one cell per grid position.
    pub open spec fn wf(&self) -> bool {
        self.array.len() == self.row_clues.len() * self.column_clues.len()
    }

    /// The grid has a cell in column `x` of row `y`.
    pub open spec fn has_cell(&self, x: usize, y: usize) -> bool {
        x < self.column_clues.len() && y < self.row_clues.len()
    }

    /// A puzzle without clues and without cells.
    pub fn new() -> (p: Self)
        ensures
            p.wf(),
            p.array@.len() == 0,
            p.row_clues@.len() == 0,
            p.column_clues@.len() == 0,
    {
        let p = Puzzle { array: Vec::new(), row_clues: Vec::new(), column_clues: Vec::new() };
        proof {
            assert(p.row_clues.len() * p.column_clues.len() == 0) by (nonlinear_arith)
                requires
                    p.row_clues.len() == 0,
            ;
        }
        p
    }

    /// Makes the array anew for the clues as they stand: one cell per grid
    /// position, all `Empty`. What was in the array is lost.
    fn recalculate_size(&mut self)
        requires
            old(self).row_clues.len() * old(self).column_clues.len() <= isize::MAX,
        ensures
            final(self).wf(),
            final(self).row_clues == old(self).row_clues,
            final(self).column_clues == old(self).column_clues,
            forall|i: int|
                0 <= i < final(self).array@.len() ==> final(self).array@[i] == Cell::Empty,
    {
        self.array = vec![Cell::Empty; self.row_clues.len() * self.column_clues.len()];
    }

    /// Appends the clues of one more row, below the rows there are. The grid
    /// grows by that row and is reset: every cell is `Empty` afterwards.
    ///
    /// The new grid must be one that a vector can hold: at most `isize::MAX`
    /// cells.
    pub fn push_clues_row(&mut self, clues: Vec<usize>)
        requires
            (old(self).row_clues.len() + 1) * old(self).column_clues.len() <= isize::MAX,
        ensures
            final(self).wf(),
            final(self).array.len() == (old(self).row_clues.len() + 1) * old(
                self,
            ).column_clues.len(),
            final(self).row_clues@ == old(self).row_clues@.push(clues),
            final(self).column_clues == old(self).column_clues,
            final(self)@.row_clues == old(self)@.row_clues.push(clues@),
            final(self)@.column_clues == old(self)@.column_clues,
            final(self)@.grid == blank_grid(old(self)@.height() + 1, old(self)@.width()),
            forall|i: int|
                0 <= i < final(self).array@.len() ==> final(self).array@[i] == Cell::Empty,
    {
        self.row_clues.push(clues);
        self.recalculate_size();
        proof {
            assert(self@.row_clues =~= old(self)@.row_clues.push(clues@));
            lemma_blank(*self);
        }
    }

    /// Appends the clues of one more column, right of the columns there
    /// are. The grid grows by that column and is reset: every cell is
    /// `Empty` afterwards.
    ///
    /// The new grid must be one that a vector can hold: at most `isize::MAX`
    /// cells.
    pub fn push_clues_column(&mut self, clues: Vec<usize>)
        requires
            old(self).row_clues.len() * (old(self).column_clues.len() + 1) <= isize::MAX,
        ensures
            final(self).wf(),
            final(self).array.len() == old(self).row_clues.len() * (old(self).column_clues.len()
                + 1),
            final(self).row_clues == old(self).row_clues,
            final(self).column_clues@ == old(self).column_clues@.push(clues),
            final(self)@.row_clues == old(self)@.row_clues,
            final(self)@.column_clues == old(self)@.column_clues.push(clues@),
            final(self)@.grid == blank_grid(old(self)@.height(), old(self)@.width() + 1),
            forall|i: int|
                0 <= i < final(self).array@.len() ==> final(self).array@[i] == Cell::Empty,
    {
        self.column_clues.push(clues);
        self.recalculate_size();
        proof {
            assert(self@.column_clues =~= old(self)@.column_clues.push(clues@));
            lemma_blank(*self);
        }
    }

    /// The cell in column `x` of row `y`, or the error where the grid has no
    /// such cell.
    pub fn get_cell(&self, x: usize, y: usize) -> (r: Result<Cell, IndexOutOfBounds>)
        requires
            self.wf(),
        ensures
            r == if self.has_cell(x, y) {
                Ok::<Cell, IndexOutOfBounds>(self@.grid[y as int][x as int])
            } else {
                Err::<Cell, IndexOutOfBounds>(IndexOutOfBounds { x, y })
            },
    {
        if x >= self.column_clues.len() || y >= self.row_clues.len() {
            return Err(IndexOutOfBounds { x, y });
        }
        proof {
            lemma_position_in_array(
                self.column_clues@.len() as int,
                self.row_clues@.len() as int,
                x as int,
                y as int,
            );
        }
        Ok(self.array[self.get_pos(x, y)])
    }

    /// Puts `cell` in column `x` of row `y` and leaves every other cell and
    /// the clues as they are, or gives the error and changes nothing where
    /// the grid has no such cell.
    pub fn set_cell(&mut self, x: usize, y: usize, cell: Cell) -> (r: Result<(), IndexOutOfBounds>)
        requires
            old(self).wf(),
        ensures
            final(self).wf(),
            final(self).row_clues == old(self).row_clues,
            final(self).column_clues == old(self).column_clues,
            old(self).has_cell(x, y) ==> r == Ok::<(), IndexOutOfBounds>(())
                && final(self).array@ == old(self).array@.update(
                position(old(self)@.width() as int, x as int, y as int),
                cell,
            ) && final(self)@.grid == old(self)@.grid.update(
                y as int,
                old(self)@.grid[y as int].update(x as int, cell),
            ),
            !old(self).has_cell(x, y) ==> r == Err::<(), IndexOutOfBounds>(
                IndexOutOfBounds { x, y },
            ) && *final(self) == *old(self),
    {
        if x >= self.column_clues.len() || y >= self.row_clues.len() {
            return Err(IndexOutOfBounds { x, y });
        }
        proof {
            lemma_position_in_array(
                self.column_clues@.len() as int,
                self.row_clues@.len() as int,
                x as int,
                y as int,
            );
        }
        let pos: usize = y * self.column_clues.len() + x;
        self.array.set(pos, cell);
        proof {
            let width = self@.width() as int;
            let height = self@.height() as int;
            let target = old(self)@.grid.update(
                y as int,
                old(self)@.grid[y as int].update(x as int, cell),
            );
            assert forall|r: int| 0 <= r < height implies (#[trigger] self@.grid[r])
                == target[r] by {
                assert forall|c: int| 0 <= c < width implies self@.grid[r][c] == target[r][c] by {
                    lemma_position_in_array(width, height, c, r);
                    if position(width, c, r) == position(width, x as int, y as int) {
                        lemma_position_injective(width, c, r, x as int, y as int);
                    }
                }
                assert(self@.grid[r] =~= target[r]);
            }
            assert(self@.grid =~= target);
        }
        Ok(())
    }

    /// The length of the longest row clue sequence; zero without rows.
    pub fn get_longest_row_clue_len(&self) -> (longest: usize)
        ensures
            longest == longest_len(self@.row_clues),
    {
        longest_of(&self.row_clues)
    }

    /// The length of the longest column clue sequence; zero without columns.
    pub fn get_longest_column_clue_len(&self) -> (longest: usize)
        ensures
            longest == longest_len(self@.column_clues),
    {
        longest_of(&self.column_clues)
    }

    /// The number of columns: one per column clue sequence.
    pub fn get_width(&self) -> (width: usize)
        ensures
            width == self@.width(),
    {
        self.column_clues.len()
    }

    /// The number of rows: one per row clue sequence.
    pub fn get_height(&self) -> (height: usize)
        ensures
            height == self@.height(),
    {
        self.row_clues.len()
    }

    /// The place in the array of the cell in column `x` of row `y`:
    /// `y * width + x`.
    pub fn get_pos(&self, x: usize, y: usize) -> (pos: usize)
        requires
            position(self@.width() as int, x as int, y as int) <= usize::MAX,
        ensures
            pos == position(self@.width() as int, x as int, y as int),
    {
        proof {
            assert(0 <= y * self.column_clues.len()) by (nonlinear_arith);
        }
        y * self.column_clues.len() + x
    }

    /// The positions in the array of the cells of row `y`, left to right:
    /// `width` consecutive places that start at `y * width`.
    pub fn row_positions(&self, y: usize) -> (cells: Vec<usize>)
        requires
            self.wf(),
            y < self.row_clues@.len(),
        ensures
            cells@ == row_line(self.column_clues@.len(), y as int),
            is_line(cells@, self.array@.len()),
    {
        let width: usize = self.column_clues.len();
        let mut cells: Vec<usize> = Vec::new();
        let mut x: usize = 0;
        while x < width
            invariant
                0 <= x <= width,
                width == self.column_clues@.len(),
                y < self.row_clues@.len(),
                self.wf(),
                cells@.len() == x,
                forall|i: int| 0 <= i < x ==> cells@[i] == position(width as int, i, y as int),
            decreases width - x,
        {
            proof {
                lemma_position_in_array(
                    self.column_clues@.len() as int,
                    self.row_clues@.len() as int,
                    x as int,
                    y as int,
                );
            }
            cells.push(y * width + x);
            x = x + 1;
        }
        proof {
            assert(cells@ =~= row_line(width as nat, y as int));
            lemma_row_is_line(self.column_clues@.len(), self.row_clues@.len(), y as int);
        }
        cells
    }

    /// The positions in the array of the cells of column `x`, top to
    /// bottom: the places `x`, `x + width`, `x + 2 * width` and so on, one
    /// per row.
    pub fn column_positions(&self, x: usize) -> (cells: Vec<usize>)
        requires
            self.wf(),
            x < self.column_clues@.len(),
        ensures
            cells@ == column_line(self.column_clues@.len(), self.row_clues@.len(), x as int),
            is_line(cells@, self.array@.len()),
    {
        let width: usize = self.column_clues.len();
        let height: usize = self.row_clues.len();
        let mut cells: Vec<usize> = Vec::new();
        let mut y: usize = 0;
        while y < height
            invariant
                0 <= y <= height,
                width == self.column_clues@.len(),
                height == self.row_clues@.len(),
                x < width,
                self.wf(),
                cells@.len() == y,
                forall|i: int| 0 <= i < y ==> cells@[i] == position(width as int, x as int, i),
            decreases height - y,
        {
            proof {
                lemma_position_in_array(
                    self.column_clues@.len() as int,
                    self.row_clues@.len() as int,
                    x as int,
                    y as int,
                );
            }
            cells.push(y * width + x);
            y = y + 1;
        }
        proof {
            assert(cells@ =~= column_line(width as nat, height as nat, x as int));
            lemma_column_is_line(self.column_clues@.len(), self.row_clues@.len(), x as int);
        }
        cells
    }
}

/// The length of the longest of the clue sequences; zero where there is
/// none.
fn longest_of(clues: &Vec<Vec<usize>>) -> (longest: usize)
    ensures
        longest == longest_len(clue_seqs(clues@)),
{
    let mut longest: usize = 0;
    let mut i: usize = 0;
    while i < clues.len()
        invariant
            0 <= i <= clues@.len(),
            longest == longest_len(clue_seqs(clues@.take(i as int))),
        decreases clues@.len() - i,
    {
        proof {
            assert(clue_seqs(clues@.take(i + 1)).drop_last() =~= clue_seqs(
                clues@.take(i as int),
            ));
        }
        if clues[i].len() > longest {
            longest = clues[i].len();
        }
        i = i + 1;
    }
    proof {
        assert(clues@.take(i as int) =~= clues@);
    }
    longest
}

/// A well-formed puzzle whose array holds only `Empty` has the blank grid.
pub proof fn lemma_blank(p: Puzzle)
    requires
        p.wf(),
        forall|i: int| 0 <= i < p.array@.len() ==> p.array@[i] == Cell::Empty,
    ensures
        p@.grid == blank_grid(p@.height(), p@.width()),
{
    assert forall|y: int| 0 <= y < p@.height() implies (#[trigger] p@.grid[y]) == blank_grid(
        p@.height(),
        p@.width(),
    )[y] by {
        assert forall|x: int| 0 <= x < p@.width() implies p@.grid[y][x] == Cell::Empty by {
            lemma_position_in_array(p@.width() as int, p@.height() as int, x, y);
        }
        assert(p@.grid[y] =~= blank_grid(p@.height(), p@.width())[y]);
    }
    assert(p@.grid =~= blank_grid(p@.height(), p@.width()));
}

/// The view of a well-formed puzzle leaves nothing out: two such puzzles
/// with the same view hold the same cells and the same clues.
pub proof fn lemma_view_determines(a: Puzzle, b: Puzzle)
    requires
        a.wf(),
        b.wf(),
        a@ == b@,
    ensures
        a.array@ == b.array@,
        clue_seqs(a.row_clues@) == clue_seqs(b.row_clues@),
        clue_seqs(a.column_clues@) == clue_seqs(b.column_clues@),
{
    let width = a@.width() as int;
    let height = a@.height() as int;
    assert(a.array@.len() == b.array@.len());
    assert forall|i: int| 0 <= i < a.array@.len() implies a.array@[i] == b.array@[i] by {
        lemma_place_is_position(width, height, i);
        assert(a@.grid[i / width][i % width] == a.array@[i]);
        assert(b@.grid[i / width][i % width] == b.array@[i]);
    }
    assert(a.array@ =~= b.array@);
}

/// The grid read out of a puzzle has the puzzle's dimensions.
pub proof fn lemma_view_wf(p: Puzzle)
    ensures
        p@.wf(),
{
}

/// The cells that an array holds along row `y` are row `y` of the grid read
/// out of it.
pub proof fn lemma_row_of_view(p: Puzzle, y: int)
    requires
        p.wf(),
        0 <= y < p.row_clues.len(),
    ensures
        line_cells(p.array@, row_line(p.column_clues@.len(), y)) == p@.row(y),
{
    lemma_row_is_line(p.column_clues@.len(), p.row_clues@.len(), y);
    assert(line_cells(p.array@, row_line(p.column_clues@.len(), y)) =~= p@.row(y));
}

/// The cells that an array holds along column `x` are column `x` of the grid
/// read out of it.
pub proof fn lemma_column_of_view(p: Puzzle, x: int)
    requires
        p.wf(),
        0 <= x < p.column_clues.len(),
    ensures
        line_cells(p.array@, column_line(p.column_clues@.len(), p.row_clues@.len(), x))
            == p@.column(x),
{
    lemma_column_is_line(p.column_clues@.len(), p.row_clues@.len(), x);
    assert(line_cells(p.array@, column_line(p.column_clues@.len(), p.row_clues@.len(), x))
        =~= p@.column(x));
}

} // verus!
