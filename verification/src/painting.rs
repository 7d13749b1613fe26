//! A placement painted into a line: the line whose filled cells are what the
//! runs of the placement cover, and why the verifier accepts it.

use vstd::prelude::*;
use crate::cell::Cell;
use crate::layout::{covered_by_first, gap_after, is_covered, is_placement, run_covers};
use crate::reading::{
    lemma_matching_line_is_placement, lemma_matching_line_without_runs, run_starts,
};
use crate::runs::{closed_runs, line_matches, open_run, run_lengths, runs, same_lengths};

verus! {

/// The state of a cell that is covered or not.
pub open spec fn paint(covered: bool) -> Cell {
    if covered {
        Cell::Filled
    } else {
        Cell::Empty
    }
}

/// The line of `len` cells in which the cells that the placement covers are
/// `Filled` and all others `Empty`.
pub open spec fn painted(clues: Seq<usize>, starts: Seq<int>, len: nat) -> Seq<Cell> {
    Seq::new(len, |p: int| paint(is_covered(clues, starts, p)))
}

/// `n` cells in the same state.
pub open spec fn stretch(cell: Cell, n: nat) -> Seq<Cell> {
    Seq::new(n, |p: int| cell)
}

/// Filled cells behind a line make its open run longer and close no run.
pub proof fn lemma_append_filled(cells: Seq<Cell>, n: nat)
    ensures
        open_run(cells + stretch(Cell::Filled, n)) == open_run(cells) + n,
        closed_runs(cells + stretch(Cell::Filled, n)) == closed_runs(cells),
    decreases n,
{
    let whole = cells + stretch(Cell::Filled, n);
    if n == 0 {
        assert(whole =~= cells);
    } else {
        lemma_append_filled(cells, (n - 1) as nat);
        assert(whole.drop_last() =~= cells + stretch(Cell::Filled, (n - 1) as nat));
    }
}

/// Empty cells behind a line close its open run and leave none open.
pub proof fn lemma_append_empty(cells: Seq<Cell>, n: nat)
    requires
        n >= 1,
    ensures
        open_run(cells + stretch(Cell::Empty, n)) == 0,
        closed_runs(cells + stretch(Cell::Empty, n)) == runs(cells),
    decreases n,
{
    let whole = cells + stretch(Cell::Empty, n);
    assert(whole.drop_last() =~= cells + stretch(Cell::Empty, (n - 1) as nat));
    if n == 1 {
        assert(cells + stretch(Cell::Empty, 0) =~= cells);
    } else {
        lemma_append_empty(cells, (n - 1) as nat);
    }
}

/// The line up to the end of run `n - 1`: the first `n` runs of the
/// placement, with empty cells before and between them.
pub open spec fn painted_runs(clues: Seq<usize>, starts: Seq<int>, n: nat) -> Seq<Cell>
    decreases n,
{
    if n == 0 {
        Seq::<Cell>::empty()
    } else {
        let before = painted_runs(clues, starts, (n - 1) as nat);
        before + stretch(Cell::Empty, (starts[n - 1] - before.len()) as nat) + stretch(
            Cell::Filled,
            clues[n - 1] as nat,
        )
    }
}

/// The line up to the end of a run is as long as that end is far from the
/// start of the line; it shows the runs so far, the last of them still
/// open; and its filled cells are what those runs cover.
pub proof fn lemma_painted_runs(clues: Seq<usize>, len: int, starts: Seq<int>, n: nat)
    requires
        is_placement(clues, len, starts),
        forall|i: int| 0 <= i < clues.len() ==> (#[trigger] clues[i]) >= 1,
        1 <= n <= clues.len(),
    ensures
        painted_runs(clues, starts, n).len() == starts[n - 1] + clues[n - 1],
        same_lengths(clues.take(n as int), runs(painted_runs(clues, starts, n))),
        open_run(painted_runs(clues, starts, n)) == clues[n - 1],
        forall|p: int|
            0 <= p < starts[n - 1] + clues[n - 1] ==> (#[trigger] painted_runs(clues, starts, n)[p])
                == paint(covered_by_first(clues, starts, n as int, p)),
    decreases n,
{
    let before = painted_runs(clues, starts, (n - 1) as nat);
    let gap = (starts[n - 1] - before.len()) as nat;
    let gapped = before + stretch(Cell::Empty, gap);
    let now = painted_runs(clues, starts, n);
    assert(clues[n - 1] >= 1 && 0 <= starts[n - 1]);
    if n == 1 {
        assert(before =~= Seq::<Cell>::empty());
        if gap >= 1 {
            lemma_append_empty(before, gap);
        } else {
            assert(gapped =~= before);
        }
        lemma_append_filled(gapped, clues[0] as nat);
        assert(runs(now) =~= seq![clues[0] as nat]);
        assert forall|p: int| 0 <= p < starts[0] + clues[0] implies (#[trigger] now[p]) == paint(
            covered_by_first(clues, starts, n as int, p),
        ) by {
            if p >= starts[0] {
                assert(run_covers(clues, starts, 0, p));
            }
        }
    } else {
        lemma_painted_runs(clues, len, starts, (n - 1) as nat);
        assert(gap_after(clues, starts, n - 2));
        lemma_append_empty(before, gap);
        lemma_append_filled(gapped, clues[n - 1] as nat);
        let shown = runs(before);
        assert(runs(now) =~= shown.push(clues[n - 1] as nat));
        assert forall|i: int| 0 <= i < n implies clues.take(n as int)[i] == runs(now)[i] by {
            if i < n - 1 {
                assert(clues.take(n - 1)[i] == shown[i]);
            }
        }
        assert forall|p: int| 0 <= p < starts[n - 1] + clues[n - 1] implies (#[trigger] now[p])
            == paint(covered_by_first(clues, starts, n as int, p)) by {
            if p < before.len() {
                assert(now[p] == before[p]);
                if covered_by_first(clues, starts, n - 1, p) {
                    let i = choose|i: int|
                        0 <= i < n - 1 && #[trigger] run_covers(clues, starts, i, p);
                    assert(run_covers(clues, starts, i, p));
                }
                if covered_by_first(clues, starts, n as int, p) {
                    let i = choose|i: int| 0 <= i < n && #[trigger] run_covers(clues, starts, i, p);
                    assert(i < n - 1);
                    assert(run_covers(clues, starts, i, p));
                }
            } else if p < starts[n - 1] {
                assert(now[p] == Cell::Empty);
                if covered_by_first(clues, starts, n as int, p) {
                    let i = choose|i: int| 0 <= i < n && #[trigger] run_covers(clues, starts, i, p);
                    if i < n - 1 {
                        lemma_runs_in_order(clues, len, starts, i, n - 2);
                    }
                }
            } else {
                assert(now[p] == Cell::Filled);
                assert(run_covers(clues, starts, n - 1, p));
            }
        }
    }
}

/// The runs of a placement end in the order of the clues.
pub proof fn lemma_runs_in_order(clues: Seq<usize>, len: int, starts: Seq<int>, i: int, j: int)
    requires
        is_placement(clues, len, starts),
        0 <= i <= j < clues.len(),
    ensures
        starts[i] + clues[i] <= starts[j] + clues[j],
        i < j ==> starts[i] + clues[i] + 1 <= starts[j],
    decreases j - i,
{
    if i < j {
        lemma_runs_in_order(clues, len, starts, i, j - 1);
        assert(gap_after(clues, starts, j - 1));
    }
}

/// The verifier accepts every placement: a line painted with a placement of
/// runs that are at least one cell long shows exactly the runs of the clues.
pub proof fn lemma_painted_matches(clues: Seq<usize>, len: nat, starts: Seq<int>)
    requires
        is_placement(clues, len as int, starts),
        clues.len() >= 1,
        forall|i: int| 0 <= i < clues.len() ==> (#[trigger] clues[i]) >= 1,
    ensures
        line_matches(painted(clues, starts, len), clues),
{
    let k = clues.len();
    let drawn = painted_runs(clues, starts, k);
    lemma_painted_runs(clues, len as int, starts, k);
    let rest = (len - drawn.len()) as nat;
    let line = drawn + stretch(Cell::Empty, rest);
    assert(starts[k - 1] + clues[k - 1] <= len);
    assert(clues.take(k as int) =~= clues);
    if rest >= 1 {
        lemma_append_empty(drawn, rest);
    } else {
        assert(line =~= drawn);
    }
    assert(runs(line) == runs(drawn));
    let picture = painted(clues, starts, len);
    assert forall|p: int| 0 <= p < len implies line[p] == #[trigger] picture[p] by {
        if p < drawn.len() {
            assert(line[p] == drawn[p]);
        } else {
            if is_covered(clues, starts, p) {
                let i = choose|i: int|
                    0 <= i < clues.len() && #[trigger] run_covers(clues, starts, i, p);
                lemma_runs_in_order(clues, len as int, starts, i, k - 1);
            }
        }
    }
    assert(line =~= painted(clues, starts, len));
}

/// The verifier accepts a line without a filled cell for the single clue
/// zero.
pub proof fn lemma_unfilled_matches_zero(cells: Seq<Cell>)
    requires
        forall|p: int| 0 <= p < cells.len() ==> (#[trigger] cells[p]) != Cell::Filled,
    ensures
        open_run(cells) == 0,
        closed_runs(cells).len() == 0,
        line_matches(cells, seq![0usize]),
    decreases cells.len(),
{
    if cells.len() > 0 {
        lemma_unfilled_matches_zero(cells.drop_last());
    }
    assert(run_lengths(cells) =~= seq![0nat]);
}

/// The runs of a line depend on nothing but which of its cells are filled.
pub proof fn lemma_runs_of_filled(a: Seq<Cell>, b: Seq<Cell>)
    requires
        a.len() == b.len(),
        forall|p: int| 0 <= p < a.len() ==> ((#[trigger] a[p]) == Cell::Filled) == (b[p]
            == Cell::Filled),
    ensures
        open_run(a) == open_run(b),
        closed_runs(a) == closed_runs(b),
        run_lengths(a) == run_lengths(b),
    decreases a.len(),
{
    if a.len() > 0 {
        assert((a[a.len() - 1] == Cell::Filled) == (b[a.len() - 1] == Cell::Filled));
        assert forall|p: int| 0 <= p < a.drop_last().len() implies ((#[trigger] a.drop_last()[p])
            == Cell::Filled) == (b.drop_last()[p] == Cell::Filled) by {
            assert((a[p] == Cell::Filled) == (b[p] == Cell::Filled));
        }
        lemma_runs_of_filled(a.drop_last(), b.drop_last());
    }
}

/// The filled cells of the line are what the placement covers.
pub open spec fn shows(cells: Seq<Cell>, clues: Seq<usize>, starts: Seq<int>) -> bool {
    &&& is_placement(clues, cells.len() as int, starts)
    &&& forall|p: int|
        0 <= p < cells.len() ==> ((#[trigger] cells[p]) == Cell::Filled) == is_covered(
            clues,
            starts,
            p,
        )
}

/// There is at least one clue, and every clue is at least one.
pub open spec fn names_runs(clues: Seq<usize>) -> bool {
    &&& clues.len() >= 1
    &&& forall|i: int| 0 <= i < clues.len() ==> (#[trigger] clues[i]) >= 1
}

/// What the verifier accepts. A line shows the runs of its clues exactly if
/// it has no filled cell and the clues are the single zero, or the clues
/// name runs and the filled cells of the line are what one placement of
/// those runs covers.
pub proof fn lemma_line_matches_iff_shown(cells: Seq<Cell>, clues: Seq<usize>)
    ensures
        line_matches(cells, clues) <==> {
            ||| (clues == seq![0usize] && forall|p: int|
                0 <= p < cells.len() ==> (#[trigger] cells[p]) != Cell::Filled)
            ||| (names_runs(clues) && exists|starts: Seq<int>| shows(cells, clues, starts))
        },
{
    if line_matches(cells, clues) {
        if runs(cells).len() == 0 {
            lemma_matching_line_without_runs(cells, clues);
            assert(clues =~= seq![0usize]);
        } else {
            lemma_matching_line_is_placement(cells, clues);
            let starts = run_starts(cells);
            assert forall|p: int| 0 <= p < cells.len() implies ((#[trigger] cells[p])
                == Cell::Filled) == is_covered(clues, starts, p) by {}
            assert(shows(cells, clues, starts));
        }
    }
    if clues == seq![0usize] && forall|p: int|
        0 <= p < cells.len() ==> (#[trigger] cells[p]) != Cell::Filled {
        lemma_unfilled_matches_zero(cells);
    }
    if names_runs(clues) && exists|starts: Seq<int>| shows(cells, clues, starts) {
        let starts = choose|starts: Seq<int>| shows(cells, clues, starts);
        let picture = painted(clues, starts, cells.len());
        lemma_painted_matches(clues, cells.len(), starts);
        assert forall|p: int| 0 <= p < cells.len() implies ((#[trigger] cells[p]) == Cell::Filled)
            == (picture[p] == Cell::Filled) by {}
        lemma_runs_of_filled(cells, picture);
    }
}

} // verus!
