//! A line read as a placement: where its runs start, and why a line that
//! shows the runs of its clues is one of the placements of those clues.

use vstd::prelude::*;
use crate::cell::Cell;
use crate::forcing::{in_overlap, is_forced, leftmost_start};
use crate::layout::{gap_after, is_placement, lemma_overlap_in_every_placement, run_covers};
use crate::runs::{closed_runs, line_matches, open_run, run_lengths, runs};

verus! {

/// Where the runs start that end before the end of the line, in the line's
/// order.
pub open spec fn closed_starts(cells: Seq<Cell>) -> Seq<int>
    decreases cells.len(),
{
    if cells.len() == 0 {
        Seq::empty()
    } else if cells.last() != Cell::Filled && open_run(cells.drop_last()) > 0 {
        closed_starts(cells.drop_last()).push(cells.len() - 1 - open_run(cells.drop_last()))
    } else {
        closed_starts(cells.drop_last())
    }
}

/// Where the runs of the line start, in the line's order.
pub open spec fn run_starts(cells: Seq<Cell>) -> Seq<int> {
    if open_run(cells) > 0 {
        closed_starts(cells).push(cells.len() - open_run(cells))
    } else {
        closed_starts(cells)
    }
}

/// One of the runs that start at `starts` with the lengths `lengths` covers
/// position `p`.
pub open spec fn covered(starts: Seq<int>, lengths: Seq<nat>, p: int) -> bool {
    exists|i: int| 0 <= i < starts.len() && (#[trigger] starts[i]) <= p < starts[i] + lengths[i]
}

/// Run `i + 1` starts at least one cell behind the end of run `i`.
pub open spec fn apart(starts: Seq<int>, lengths: Seq<nat>, i: int) -> bool {
    starts[i] + lengths[i] + 1 <= starts[i + 1]
}

/// The runs lie in the first `end` cells of the line, each followed by a
/// cell that is not filled, and they are exactly the filled cells there.
pub open spec fn laid_out(cells: Seq<Cell>, starts: Seq<int>, lengths: Seq<nat>, end: int) -> bool {
    &&& starts.len() == lengths.len()
    &&& forall|i: int|
        0 <= i < starts.len() ==> 0 <= #[trigger] starts[i] && lengths[i] >= 1 && starts[i]
            + lengths[i] + 1 <= end
    &&& forall|i: int| 0 <= i < starts.len() - 1 ==> #[trigger] apart(starts, lengths, i)
    &&& forall|p: int|
        0 <= p < end ==> ((#[trigger] cells[p]) == Cell::Filled <==> covered(starts, lengths, p))
}

/// One run more covers what the runs before covered and what it covers
/// itself.
pub proof fn lemma_covered_push(starts: Seq<int>, lengths: Seq<nat>, s: int, l: nat, p: int)
    requires
        starts.len() == lengths.len(),
    ensures
        covered(starts.push(s), lengths.push(l), p) <==> covered(starts, lengths, p) || s <= p < s
            + l,
{
    let more = starts.push(s);
    let longer = lengths.push(l);
    if covered(more, longer, p) {
        let i = choose|i: int|
            0 <= i < more.len() && (#[trigger] more[i]) <= p < more[i] + longer[i];
        if i < starts.len() {
            assert(starts[i] <= p < starts[i] + lengths[i]);
        }
    }
    if covered(starts, lengths, p) {
        let i = choose|i: int|
            0 <= i < starts.len() && (#[trigger] starts[i]) <= p < starts[i] + lengths[i];
        assert(more[i] <= p < more[i] + longer[i]);
    }
    if s <= p < s + l {
        let last = starts.len() as int;
        assert(more[last] <= p < more[last] + longer[last]);
    }
}

/// The closed runs of a line lie before its open run, each followed by a
/// cell that is not filled; they are the filled cells before the open run,
/// and the open run is filled.
pub proof fn lemma_closed_laid_out(cells: Seq<Cell>)
    ensures
        open_run(cells) <= cells.len(),
        laid_out(cells, closed_starts(cells), closed_runs(cells), cells.len() - open_run(cells)),
        forall|p: int|
            cells.len() - open_run(cells) <= p < cells.len() ==> cells[p] == Cell::Filled,
    decreases cells.len(),
{
    if cells.len() > 0 {
        let before = cells.drop_last();
        let n = cells.len() as int;
        let starts0 = closed_starts(before);
        let lengths0 = closed_runs(before);
        let end0 = n - 1 - open_run(before);
        lemma_closed_laid_out(before);
        let starts = closed_starts(cells);
        let lengths = closed_runs(cells);
        let end = n - open_run(cells);
        assert forall|p: int| 0 <= p < n - 1 implies cells[p] == before[p] by {}
        if cells.last() == Cell::Filled {
            assert forall|p: int| 0 <= p < end implies ((#[trigger] cells[p]) == Cell::Filled
                <==> covered(starts, lengths, p)) by {
                assert(cells[p] == before[p]);
            }
        } else if open_run(before) > 0 {
            let s = end0;
            let l = open_run(before);
            assert forall|i: int| 0 <= i < starts.len() implies 0 <= #[trigger] starts[i]
                && lengths[i] >= 1 && starts[i] + lengths[i] + 1 <= end by {
                if i < starts0.len() {
                    assert(starts[i] == starts0[i]);
                }
            }
            assert forall|i: int| 0 <= i < starts.len() - 1 implies #[trigger] apart(
                starts,
                lengths,
                i,
            ) by {
                if i < starts0.len() - 1 {
                    assert(apart(starts0, lengths0, i));
                } else {
                    assert(starts[i] == starts0[i]);
                }
            }
            assert forall|p: int| 0 <= p < end implies ((#[trigger] cells[p]) == Cell::Filled
                <==> covered(starts, lengths, p)) by {
                lemma_covered_push(starts0, lengths0, s, l, p);
                if p < end0 {
                    assert(cells[p] == before[p]);
                } else {
                    lemma_ends_before(starts0, lengths0, end0, p);
                    if p < n - 1 {
                        assert(before[p] == Cell::Filled);
                    }
                }
            }
        } else {
            assert forall|p: int| 0 <= p < end implies ((#[trigger] cells[p]) == Cell::Filled
                <==> covered(starts, lengths, p)) by {
                if p < n - 1 {
                    assert(cells[p] == before[p]);
                } else {
                    lemma_ends_before(starts0, lengths0, end0, p);
                }
            }
        }
    }
}

/// Runs that end before `end` cover nothing from `end` on.
pub proof fn lemma_ends_before(starts: Seq<int>, lengths: Seq<nat>, end: int, p: int)
    requires
        starts.len() == lengths.len(),
        forall|i: int| 0 <= i < starts.len() ==> (#[trigger] starts[i]) + lengths[i] <= end,
        end <= p,
    ensures
        !covered(starts, lengths, p),
{
}

/// The runs lie inside the line with a gap between neighbours, none is
/// empty, and they are exactly the filled cells of the line.
pub open spec fn reads_as(cells: Seq<Cell>, starts: Seq<int>, lengths: Seq<nat>) -> bool {
    &&& starts.len() == lengths.len()
    &&& forall|i: int|
        0 <= i < starts.len() ==> 0 <= #[trigger] starts[i] && lengths[i] >= 1 && starts[i]
            + lengths[i] <= cells.len()
    &&& forall|i: int| 0 <= i < starts.len() - 1 ==> #[trigger] apart(starts, lengths, i)
    &&& forall|p: int|
        0 <= p < cells.len() ==> ((#[trigger] cells[p]) == Cell::Filled <==> covered(
            starts,
            lengths,
            p,
        ))
}

/// The runs of a line, with where they start, lie in the line as runs
/// should and are exactly its filled cells.
pub proof fn lemma_runs_read(cells: Seq<Cell>)
    ensures
        reads_as(cells, run_starts(cells), runs(cells)),
{
    lemma_closed_laid_out(cells);
    let starts0 = closed_starts(cells);
    let lengths0 = closed_runs(cells);
    let starts = run_starts(cells);
    let lengths = runs(cells);
    let n = cells.len() as int;
    let end0 = n - open_run(cells);
    if open_run(cells) > 0 {
        assert forall|i: int| 0 <= i < starts.len() implies 0 <= #[trigger] starts[i]
            && lengths[i] >= 1 && starts[i] + lengths[i] <= n by {
            if i < starts0.len() {
                assert(starts[i] == starts0[i]);
            }
        }
        assert forall|i: int| 0 <= i < starts.len() - 1 implies #[trigger] apart(
            starts,
            lengths,
            i,
        ) by {
            if i < starts0.len() - 1 {
                assert(apart(starts0, lengths0, i));
            } else {
                assert(starts[i] == starts0[i]);
            }
        }
        assert forall|p: int| 0 <= p < n implies ((#[trigger] cells[p]) == Cell::Filled
            <==> covered(starts, lengths, p)) by {
            lemma_covered_push(starts0, lengths0, end0, open_run(cells), p);
            if p >= end0 {
                lemma_ends_before(starts0, lengths0, end0, p);
            }
        }
    }
}

/// A line that shows the runs of its clues is one of the placements of
/// those clues, unless it shows no run at all: its runs start where
/// `run_starts` says, and they cover exactly its filled cells.
pub proof fn lemma_matching_line_is_placement(cells: Seq<Cell>, clues: Seq<usize>)
    requires
        line_matches(cells, clues),
        runs(cells).len() > 0,
    ensures
        is_placement(clues, cells.len() as int, run_starts(cells)),
        forall|i: int| 0 <= i < clues.len() ==> (#[trigger] clues[i]) >= 1,
        forall|p: int|
            0 <= p < cells.len() ==> ((#[trigger] cells[p]) == Cell::Filled <==> exists|i: int|
                0 <= i < clues.len() && #[trigger] run_covers(clues, run_starts(cells), i, p)),
{
    let starts = run_starts(cells);
    let lengths = runs(cells);
    lemma_runs_read(cells);
    assert forall|i: int| 0 <= i < clues.len() implies (#[trigger] clues[i]) >= 1 by {
        assert(0 <= starts[i] && lengths[i] >= 1);
    }
    assert forall|i: int| 0 <= i < clues.len() - 1 implies #[trigger] gap_after(
        clues,
        starts,
        i,
    ) by {
        assert(apart(starts, lengths, i));
    }
    assert forall|p: int| 0 <= p < cells.len() implies ((#[trigger] cells[p]) == Cell::Filled
        <==> exists|i: int| 0 <= i < clues.len() && #[trigger] run_covers(clues, starts, i, p)) by {
        if covered(starts, lengths, p) {
            let i = choose|i: int|
                0 <= i < starts.len() && (#[trigger] starts[i]) <= p < starts[i] + lengths[i];
            assert(run_covers(clues, starts, i, p));
        }
        if exists|i: int| 0 <= i < clues.len() && #[trigger] run_covers(clues, starts, i, p) {
            let i = choose|i: int|
                0 <= i < clues.len() && #[trigger] run_covers(clues, starts, i, p);
            assert(starts[i] <= p < starts[i] + lengths[i]);
        }
    }
}

/// A line that shows no run matches the single clue zero and no other
/// clues, and has no filled cell.
pub proof fn lemma_matching_line_without_runs(cells: Seq<Cell>, clues: Seq<usize>)
    requires
        line_matches(cells, clues),
        runs(cells).len() == 0,
    ensures
        clues.len() == 1,
        clues[0] == 0,
        forall|p: int| 0 <= p < cells.len() ==> (#[trigger] cells[p]) != Cell::Filled,
{
    lemma_runs_read(cells);
    assert(run_lengths(cells)[0] == 0);
}

/// What edge forcing fills is filled in every solution of the line: a
/// forced cell of a line that shows the runs of its clues is `Filled`.
pub proof fn lemma_forced_in_matching_line(cells: Seq<Cell>, clues: Seq<usize>, p: int)
    requires
        line_matches(cells, clues),
        0 <= p < cells.len(),
        is_forced(clues, cells.len() as int, p),
    ensures
        cells[p] == Cell::Filled,
{
    let len = cells.len() as int;
    let i = choose|i: int| 0 <= i < clues.len() && in_overlap(clues, len, i, p);
    if runs(cells).len() == 0 {
        lemma_matching_line_without_runs(cells, clues);
        assert(clues.take(0) =~= Seq::<usize>::empty());
        assert(leftmost_start(clues, 0) == 0);
    } else {
        lemma_matching_line_is_placement(cells, clues);
        lemma_overlap_in_every_placement(clues, len, run_starts(cells), i, p);
    }
}

} // verus!
