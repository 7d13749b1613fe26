//! Placements: the ways to lay the runs of a clue sequence into a line, and
//! what edge forcing has to do with them.
//!
//! A placement gives each run a start such that the runs lie inside the
//! line, in the order of the clues, with at least one cell between
//! neighbours. The overlap of a run, which the line solver fills, is exactly
//! what the run covers in every placement.

use vstd::prelude::*;
use crate::forcing::{
    clue_sum, in_overlap, is_forced, leftmost_start, lemma_clue_sum_step,
    lemma_leftmost_within_span, slack,
};

verus! {

/// Run `i + 1` starts at least one cell behind the end of run `i`.
pub open spec fn gap_after(clues: Seq<usize>, starts: Seq<int>, i: int) -> bool {
    starts[i] + clues[i] + 1 <= starts[i + 1]
}

/// `starts` lays the runs of `clues` into a line of `len` cells: one start
/// per run, every run inside the line, and a gap between each run and the
/// next.
pub open spec fn is_placement(clues: Seq<usize>, len: int, starts: Seq<int>) -> bool {
    &&& starts.len() == clues.len()
    &&& forall|i: int|
        0 <= i < clues.len() ==> 0 <= #[trigger] starts[i] && starts[i] + clues[i] <= len
    &&& forall|i: int| 0 <= i < clues.len() - 1 ==> #[trigger] gap_after(clues, starts, i)
}

/// Run `i` of the placement covers position `p`.
pub open spec fn run_covers(clues: Seq<usize>, starts: Seq<int>, i: int, p: int) -> bool {
    starts[i] <= p < starts[i] + clues[i]
}

/// One of the first `n` runs of the placement covers position `p`.
pub open spec fn covered_by_first(clues: Seq<usize>, starts: Seq<int>, n: int, p: int) -> bool {
    exists|i: int| 0 <= i < n && #[trigger] run_covers(clues, starts, i, p)
}

/// One of the runs of the placement covers position `p`.
pub open spec fn is_covered(clues: Seq<usize>, starts: Seq<int>, p: int) -> bool {
    covered_by_first(clues, starts, clues.len() as int, p)
}

/// The placement that packs all runs to the left.
pub open spec fn leftmost(clues: Seq<usize>) -> Seq<int> {
    Seq::new(clues.len(), |i: int| leftmost_start(clues, i))
}

/// The placement that packs all runs to the right of a line of `len` cells.
pub open spec fn rightmost(clues: Seq<usize>, len: int) -> Seq<int> {
    Seq::new(clues.len(), |i: int| leftmost_start(clues, i) + slack(clues, len))
}

/// What the runs from run `i` on need at least: their lengths and the gaps
/// between them.
pub open spec fn span_from(clues: Seq<usize>, i: int) -> int {
    clue_sum(clues) - clue_sum(clues.take(i)) + clues.len() - 1 - i
}

/// No placement starts a run left of where the leftmost placement does.
pub proof fn lemma_start_at_least_leftmost(clues: Seq<usize>, len: int, starts: Seq<int>, i: int)
    requires
        is_placement(clues, len, starts),
        0 <= i < clues.len(),
    ensures
        leftmost_start(clues, i) <= starts[i],
    decreases i,
{
    if i == 0 {
        assert(clues.take(0) =~= Seq::<usize>::empty());
    } else {
        lemma_start_at_least_leftmost(clues, len, starts, i - 1);
        lemma_leftmost_within_span(clues, i - 1);
        assert(gap_after(clues, starts, i - 1));
    }
}

/// Every placement leaves room behind the start of a run for that run and
/// all that follow it.
pub proof fn lemma_start_leaves_room(clues: Seq<usize>, len: int, starts: Seq<int>, i: int)
    requires
        is_placement(clues, len, starts),
        0 <= i < clues.len(),
    ensures
        starts[i] + span_from(clues, i) <= len,
    decreases clues.len() - i,
{
    lemma_clue_sum_step(clues, i);
    if i == clues.len() - 1 {
        assert(clues.take(i + 1) =~= clues);
    } else {
        lemma_start_leaves_room(clues, len, starts, i + 1);
        assert(gap_after(clues, starts, i));
    }
}

/// No placement starts a run right of where the rightmost placement does.
pub proof fn lemma_start_at_most_rightmost(clues: Seq<usize>, len: int, starts: Seq<int>, i: int)
    requires
        is_placement(clues, len, starts),
        0 <= i < clues.len(),
    ensures
        starts[i] <= leftmost_start(clues, i) + slack(clues, len),
{
    lemma_start_leaves_room(clues, len, starts, i);
}

/// Where the runs fit into the line they can be placed: the slack is not
/// negative exactly if there is a placement, and then the leftmost and the
/// rightmost are placements.
pub proof fn lemma_fits_iff_placeable(clues: Seq<usize>, len: int)
    requires
        0 <= len,
    ensures
        slack(clues, len) >= 0 ==> is_placement(clues, len, leftmost(clues)) && is_placement(
            clues,
            len,
            rightmost(clues, len),
        ),
        slack(clues, len) >= 0 <==> exists|starts: Seq<int>| is_placement(clues, len, starts),
{
    if slack(clues, len) >= 0 {
        let left = leftmost(clues);
        let right = rightmost(clues, len);
        assert forall|i: int| 0 <= i < clues.len() implies 0 <= #[trigger] left[i] && left[i]
            + clues[i] <= len by {
            lemma_leftmost_within_span(clues, i);
        }
        assert forall|i: int| 0 <= i < clues.len() implies 0 <= #[trigger] right[i] && right[i]
            + clues[i] <= len by {
            lemma_leftmost_within_span(clues, i);
        }
        assert forall|i: int| 0 <= i < clues.len() - 1 implies #[trigger] gap_after(
            clues,
            left,
            i,
        ) by {
            lemma_leftmost_within_span(clues, i);
        }
        assert forall|i: int| 0 <= i < clues.len() - 1 implies #[trigger] gap_after(
            clues,
            right,
            i,
        ) by {
            lemma_leftmost_within_span(clues, i);
        }
    }
    if exists|starts: Seq<int>| is_placement(clues, len, starts) {
        let starts = choose|starts: Seq<int>| is_placement(clues, len, starts);
        if clues.len() > 0 {
            lemma_start_leaves_room(clues, len, starts, 0);
            assert(clues.take(0) =~= Seq::<usize>::empty());
            assert(0 <= starts[0]);
        }
    }
}

/// Edge forcing is sound: every placement of the runs covers the overlap of
/// run `i` with run `i`.
pub proof fn lemma_overlap_in_every_placement(
    clues: Seq<usize>,
    len: int,
    starts: Seq<int>,
    i: int,
    p: int,
)
    requires
        is_placement(clues, len, starts),
        0 <= i < clues.len(),
        in_overlap(clues, len, i, p),
    ensures
        run_covers(clues, starts, i, p),
{
    lemma_start_at_least_leftmost(clues, len, starts, i);
    lemma_start_at_most_rightmost(clues, len, starts, i);
}

/// Edge forcing is exact run by run: where the runs fit into the line, the
/// overlap of run `i` is what run `i` covers in every placement, no more and
/// no less.
pub proof fn lemma_overlap_is_common_cover(clues: Seq<usize>, len: int, i: int, p: int)
    requires
        0 <= len,
        slack(clues, len) >= 0,
        0 <= i < clues.len(),
    ensures
        in_overlap(clues, len, i, p) <==> forall|starts: Seq<int>| #[trigger]
            is_placement(clues, len, starts) ==> run_covers(clues, starts, i, p),
{
    if in_overlap(clues, len, i, p) {
        assert forall|starts: Seq<int>| #[trigger]
            is_placement(clues, len, starts) implies run_covers(clues, starts, i, p) by {
            lemma_overlap_in_every_placement(clues, len, starts, i, p);
        }
    }
    if forall|starts: Seq<int>| #[trigger]
        is_placement(clues, len, starts) ==> run_covers(clues, starts, i, p) {
        lemma_fits_iff_placeable(clues, len);
        assert(run_covers(clues, leftmost(clues), i, p));
        assert(run_covers(clues, rightmost(clues, len), i, p));
    }
}

/// The placement that packs to the left the runs that can end at or before
/// position `p`, and all others to the right.
pub open spec fn parted(clues: Seq<usize>, len: int, p: int) -> Seq<int> {
    Seq::new(
        clues.len(),
        |i: int|
            if leftmost_start(clues, i) + clues[i] <= p {
                leftmost_start(clues, i)
            } else {
                leftmost_start(clues, i) + slack(clues, len)
            },
    )
}

/// Edge forcing is exact: where the runs fit into the line, the forced
/// cells are the cells that every placement covers. What the line solver
/// leaves empty in an empty line, some placement leaves uncovered.
pub proof fn lemma_forced_iff_always_covered(clues: Seq<usize>, len: int, p: int)
    requires
        0 <= len,
        slack(clues, len) >= 0,
    ensures
        is_forced(clues, len, p) <==> forall|starts: Seq<int>| #[trigger]
            is_placement(clues, len, starts) ==> is_covered(clues, starts, p),
{
    if is_forced(clues, len, p) {
        let i = choose|i: int| 0 <= i < clues.len() && in_overlap(clues, len, i, p);
        assert forall|starts: Seq<int>| #[trigger]
            is_placement(clues, len, starts) implies is_covered(clues, starts, p) by {
            lemma_overlap_in_every_placement(clues, len, starts, i, p);
        }
    } else {
        let starts = parted(clues, len, p);
        assert forall|i: int| 0 <= i < clues.len() implies 0 <= #[trigger] starts[i] && starts[i]
            + clues[i] <= len by {
            lemma_leftmost_within_span(clues, i);
        }
        assert forall|i: int| 0 <= i < clues.len() - 1 implies #[trigger] gap_after(
            clues,
            starts,
            i,
        ) by {
            lemma_leftmost_within_span(clues, i);
            lemma_leftmost_within_span(clues, i + 1);
        }
        assert(is_placement(clues, len, starts));
        if is_covered(clues, starts, p) {
            let i = choose|i: int|
                0 <= i < clues.len() && #[trigger] run_covers(clues, starts, i, p);
            assert(in_overlap(clues, len, i, p));
        }
    }
}

} // verus!
