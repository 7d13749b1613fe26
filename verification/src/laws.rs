//! What holds of the solver on every board: it only ever fills cells, and
//! its first cycle leaves nothing for a second one to do.

use vstd::prelude::*;
use crate::board::Board;
use crate::cell::Cell;
use crate::forcing::{all_empty, deduce_line, forced_line};
use crate::line::cells_grow;
use crate::reading::lemma_forced_in_matching_line;
use crate::runs::line_matches;

verus! {

/// The line solver keeps the length of a line, and each cell either keeps
/// its state or goes from `Empty` to `Filled`.
pub proof fn lemma_deduce_line_grows(cells: Seq<Cell>, clues: Seq<usize>)
    ensures
        deduce_line(cells, clues).len() == cells.len(),
        cells_grow(cells, deduce_line(cells, clues)),
{
}

/// Growth is transitive.
pub proof fn lemma_cells_grow_transitive(a: Seq<Cell>, b: Seq<Cell>, c: Seq<Cell>)
    requires
        cells_grow(a, b),
        cells_grow(b, c),
    ensures
        cells_grow(a, c),
{
    assert forall|k: int| 0 <= k < a.len() implies (#[trigger] c[k]) == a[k] || (a[k]
        == Cell::Empty && c[k] == Cell::Filled) by {
        assert(b[k] == a[k] || (a[k] == Cell::Empty && b[k] == Cell::Filled));
    }
}

/// Once the line solver has run on a line, it has nothing more to do there,
/// whatever has been filled on the line since.
pub proof fn lemma_deduce_line_settles(cells: Seq<Cell>, clues: Seq<usize>, later: Seq<Cell>)
    requires
        cells_grow(deduce_line(cells, clues), later),
    ensures
        deduce_line(later, clues) == later,
{
    let done = deduce_line(cells, clues);
    if all_empty(later) {
        assert forall|p: int| 0 <= p < done.len() implies done[p] == Cell::Empty by {
            assert(later[p] == Cell::Empty);
        }
        assert(done =~= later);
        if !all_empty(cells) {
            assert(done == cells);
        }
        assert(done == forced_line(clues, cells.len()));
    }
}

/// The row phase keeps the board well formed and only fills cells.
pub proof fn lemma_after_rows_grows(b: Board)
    requires
        b.wf(),
    ensures
        b.after_rows().wf(),
        b.grows_to(b.after_rows()),
{
    assert forall|y: int| 0 <= y < b.height() implies cells_grow(
        b.grid[y],
        #[trigger] b.after_rows().grid[y],
    ) by {
        lemma_deduce_line_grows(b.row(y), b.row_clues[y]);
    }
}

/// The column phase keeps the board well formed and only fills cells.
pub proof fn lemma_after_columns_grows(b: Board)
    requires
        b.wf(),
    ensures
        b.after_columns().wf(),
        b.grows_to(b.after_columns()),
{
    let after = b.after_columns();
    assert forall|y: int| 0 <= y < b.height() implies cells_grow(
        b.grid[y],
        #[trigger] after.grid[y],
    ) by {
        assert forall|x: int| 0 <= x < b.width() implies (#[trigger] after.grid[y][x])
            == b.grid[y][x] || (b.grid[y][x] == Cell::Empty && after.grid[y][x]
            == Cell::Filled) by {
            lemma_deduce_line_grows(b.column(x), b.column_clues[x]);
            assert(b.column(x)[y] == b.grid[y][x]);
        }
    }
}

/// Growth of boards is transitive.
pub proof fn lemma_grows_transitive(a: Board, b: Board, c: Board)
    requires
        a.grows_to(b),
        b.grows_to(c),
    ensures
        a.grows_to(c),
{
    assert forall|y: int| 0 <= y < a.grid.len() implies cells_grow(
        a.grid[y],
        #[trigger] c.grid[y],
    ) by {
        lemma_cells_grow_transitive(a.grid[y], b.grid[y], c.grid[y]);
    }
}

/// A cycle of the solver keeps the board well formed and only fills cells:
/// no cell that is `Filled` before the cycle is anything else after it.
pub proof fn lemma_cycle_grows(b: Board)
    requires
        b.wf(),
    ensures
        b.after_cycle().wf(),
        b.grows_to(b.after_cycle()),
{
    lemma_after_rows_grows(b);
    lemma_after_columns_grows(b.after_rows());
    lemma_grows_transitive(b, b.after_rows(), b.after_cycle());
}

/// After one cycle neither phase finds anything to do: the board is a fixed
/// point of the row phase, of the column phase and of the cycle.
pub proof fn lemma_cycle_settles(b: Board)
    requires
        b.wf(),
    ensures
        b.after_cycle().after_rows() == b.after_cycle(),
        b.after_cycle().after_columns() == b.after_cycle(),
        b.after_cycle().after_cycle() == b.after_cycle(),
{
    let rows_done = b.after_rows();
    let done = b.after_cycle();
    lemma_after_rows_grows(b);
    lemma_after_columns_grows(rows_done);
    assert forall|y: int| 0 <= y < done.height() implies (#[trigger] done.after_rows().grid[y])
        == done.grid[y] by {
        assert(cells_grow(rows_done.grid[y], done.grid[y]));
        lemma_deduce_line_settles(b.row(y), b.row_clues[y], done.grid[y]);
    }
    assert(done.after_rows().grid =~= done.grid);
    assert forall|y: int| 0 <= y < done.height() implies (#[trigger] done.after_columns().grid[y])
        == done.grid[y] by {
        assert forall|x: int| 0 <= x < done.width() implies done.after_columns().grid[y][x]
            == done.grid[y][x] by {
            let column = rows_done.column(x);
            lemma_deduce_line_grows(column, b.column_clues[x]);
            assert(done.column(x) =~= deduce_line(column, b.column_clues[x]));
            lemma_deduce_line_settles(column, b.column_clues[x], done.column(x));
        }
        assert(done.after_columns().grid[y] =~= done.grid[y]);
    }
    assert(done.after_columns().grid =~= done.grid);
}

/// However many cycles the solver runs, it ends where its first cycle ends.
pub proof fn lemma_cycles_settle(b: Board, n: nat)
    requires
        b.wf(),
        n >= 1,
    ensures
        b.after_cycles(n) == b.after_cycle(),
    decreases n,
{
    if n == 1 {
        assert(b.after_cycles(0) == b);
    } else {
        lemma_cycles_settle(b, (n - 1) as nat);
        lemma_cycle_settles(b);
    }
}

/// Monotonicity: across any number of cycles the filled cells only grow.
/// Between the board after `m` cycles and the board after `n >= m` cycles
/// each cell keeps its state or goes from `Empty` to `Filled`; none leaves
/// `Filled`.
pub proof fn lemma_cycles_grow(b: Board, m: nat, n: nat)
    requires
        b.wf(),
        m <= n,
    ensures
        b.after_cycles(n).wf(),
        b.after_cycles(m).grows_to(b.after_cycles(n)),
    decreases n,
{
    if n == 0 {
        assert(b.after_cycles(0) == b);
        lemma_grows_reflexive(b);
    } else if m == n {
        lemma_cycles_grow(b, (n - 1) as nat, (n - 1) as nat);
        lemma_cycle_grows(b.after_cycles((n - 1) as nat));
        lemma_grows_reflexive(b.after_cycles(n));
    } else {
        lemma_cycles_grow(b, m, (n - 1) as nat);
        lemma_cycle_grows(b.after_cycles((n - 1) as nat));
        lemma_grows_transitive(
            b.after_cycles(m),
            b.after_cycles((n - 1) as nat),
            b.after_cycles(n),
        );
    }
}

/// Every board grows to itself.
pub proof fn lemma_grows_reflexive(b: Board)
    ensures
        b.grows_to(b),
{
}

/// The row phase is sound: where every filled cell is filled in a solution
/// of the puzzle, that is so after the row phase too.
pub proof fn lemma_rows_sound(b: Board, solution: Board)
    requires
        b.wf(),
        b.solved_by(solution),
        b.filled_within(solution),
    ensures
        b.after_rows().filled_within(solution),
{
    let after = b.after_rows();
    assert forall|y: int, x: int|
        0 <= y < after.grid.len() && 0 <= x < after.grid[y].len() && (#[trigger] after.grid[y][x])
            == Cell::Filled implies solution.grid[y][x] == Cell::Filled by {
        if all_empty(b.row(y)) {
            assert(line_matches(solution.row(y), solution.row_clues[y]));
            lemma_forced_in_matching_line(solution.row(y), b.row_clues[y], x);
        } else {
            assert(b.grid[y][x] == Cell::Filled);
        }
    }
}

/// The column phase is sound: where every filled cell is filled in a
/// solution of the puzzle, that is so after the column phase too.
pub proof fn lemma_columns_sound(b: Board, solution: Board)
    requires
        b.wf(),
        b.solved_by(solution),
        b.filled_within(solution),
    ensures
        b.after_columns().filled_within(solution),
{
    let after = b.after_columns();
    assert forall|y: int, x: int|
        0 <= y < after.grid.len() && 0 <= x < after.grid[y].len() && (#[trigger] after.grid[y][x])
            == Cell::Filled implies solution.grid[y][x] == Cell::Filled by {
        if all_empty(b.column(x)) {
            assert(line_matches(solution.column(x), solution.column_clues[x]));
            lemma_forced_in_matching_line(solution.column(x), b.column_clues[x], y);
            assert(solution.column(x)[y] == solution.grid[y][x]);
        } else {
            assert(b.column(x)[y] == b.grid[y][x]);
            assert(b.grid[y][x] == Cell::Filled);
        }
    }
}

/// The solver is sound: it fills no cell that a solution of the puzzle
/// leaves unfilled. Where every filled cell of a board is filled in a
/// solution, every filled cell of the solved board is filled in it too. A
/// blank board is such a board for every solution.
pub proof fn lemma_solver_sound(b: Board, solution: Board)
    requires
        b.wf(),
        b.solved_by(solution),
        b.filled_within(solution),
    ensures
        b.solved().filled_within(solution),
{
    lemma_rows_sound(b, solution);
    lemma_after_rows_grows(b);
    lemma_columns_sound(b.after_rows(), solution);
}

/// Idempotence: solving a solved board changes nothing, so a second run of
/// the solver ends with the grid of the first and gives the same verdict.
pub proof fn lemma_solved_idempotent(b: Board)
    requires
        b.wf(),
    ensures
        b.solved().solved() == b.solved(),
        b.solved().solved().verified() == b.solved().verified(),
{
    lemma_cycle_settles(b);
}

} // verus!
