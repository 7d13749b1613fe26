//! Edge forcing on one line: the cells that every placement of the line's
//! runs must fill, worked out from the clue lengths alone.
//!
//! Packed to the left with one gap between neighbours, the runs of a line
//! take `min_span` cells. What the line has beyond that is its slack. A run
//! longer than the slack overlaps itself between its leftmost and its
//! rightmost placement, and the overlap is filled whatever the placement.

use vstd::prelude::*;
use crate::cell::Cell;
use crate::line::{cells_grow, is_line, line_cells};

verus! {

/// The sum of the clue lengths.
pub open spec fn clue_sum(clues: Seq<usize>) -> int
    decreases clues.len(),
{
    if clues.len() == 0 {
        0
    } else {
        clue_sum(clues.drop_last()) + clues.last()
    }
}

/// The length of the shortest line that holds all runs: their lengths and
/// one gap between each two neighbours. Zero without clues.
pub open spec fn min_span(clues: Seq<usize>) -> int {
    if clues.len() == 0 {
        0
    } else {
        clue_sum(clues) + clues.len() - 1
    }
}

/// What a line of `len` cells has beyond the shortest layout of its runs.
/// Negative where the runs do not fit into the line.
pub open spec fn slack(clues: Seq<usize>, len: int) -> int {
    len - min_span(clues)
}

/// Where run `i` begins when all runs are packed to the left.
pub open spec fn leftmost_start(clues: Seq<usize>, i: int) -> int {
    clue_sum(clues.take(i)) + i
}

/// Position `p` lies in the last `clues[i] - slack` cells of the leftmost
/// placement of run `i`: the cells that its rightmost placement covers too.
pub open spec fn in_overlap(clues: Seq<usize>, len: int, i: int, p: int) -> bool {
    leftmost_start(clues, i) + slack(clues, len) <= p < leftmost_start(clues, i) + clues[i]
}

/// Position `p` lies in the overlap of one of the first `n` runs.
pub open spec fn in_overlap_before(clues: Seq<usize>, len: int, n: int, p: int) -> bool {
    exists|i: int| 0 <= i < n && in_overlap(clues, len, i, p)
}

/// Position `p` of a line of `len` cells is filled by edge forcing: the runs
/// fit into the line, and `p` lies in the overlap of one of them.
pub open spec fn is_forced(clues: Seq<usize>, len: int, p: int) -> bool {
    slack(clues, len) >= 0 && in_overlap_before(clues, len, clues.len() as int, p)
}

/// A line of `len` cells with the forced cells filled and the rest empty.
pub open spec fn forced_line(clues: Seq<usize>, len: nat) -> Seq<Cell> {
    Seq::new(
        len,
        |p: int|
            if is_forced(clues, len as int, p) {
                Cell::Filled
            } else {
                Cell::Empty
            },
    )
}

/// No cell of the line has been decided.
pub open spec fn all_empty(cells: Seq<Cell>) -> bool {
    forall|p: int| 0 <= p < cells.len() ==> cells[p] == Cell::Empty
}

/// One step of the line solver. A line that is still entirely empty gets its
/// forced cells filled; a line with any decided cell is left as it is.
pub open spec fn deduce_line(cells: Seq<Cell>, clues: Seq<usize>) -> Seq<Cell> {
    if all_empty(cells) {
        forced_line(clues, cells.len())
    } else {
        cells
    }
}

/// Adding one more clue to a prefix adds its length to the sum.
pub proof fn lemma_clue_sum_step(clues: Seq<usize>, i: int)
    requires
        0 <= i < clues.len(),
    ensures
        clue_sum(clues.take(i + 1)) == clue_sum(clues.take(i)) + clues[i],
{
    assert(clues.take(i + 1).drop_last() =~= clues.take(i));
}

/// The sum over a prefix is at least zero and at most the sum over all.
pub proof fn lemma_clue_sum_prefix(clues: Seq<usize>, i: int)
    requires
        0 <= i <= clues.len(),
    ensures
        0 <= clue_sum(clues.take(i)) <= clue_sum(clues),
    decreases clues.len() - i,
{
    if i == clues.len() {
        assert(clues.take(i) =~= clues);
        lemma_clue_sum_nonnegative(clues);
    } else {
        lemma_clue_sum_prefix(clues, i + 1);
        lemma_clue_sum_step(clues, i);
        lemma_clue_sum_nonnegative(clues.take(i));
    }
}

/// A sum of lengths is never negative.
pub proof fn lemma_clue_sum_nonnegative(clues: Seq<usize>)
    ensures
        0 <= clue_sum(clues),
    decreases clues.len(),
{
    if clues.len() > 0 {
        lemma_clue_sum_nonnegative(clues.drop_last());
    }
}

/// Packed to the left, run `i` begins at or after zero and ends within the
/// shortest layout.
pub proof fn lemma_leftmost_within_span(clues: Seq<usize>, i: int)
    requires
        0 <= i < clues.len(),
    ensures
        0 <= leftmost_start(clues, i),
        leftmost_start(clues, i) + clues[i] <= min_span(clues),
        leftmost_start(clues, i + 1) == leftmost_start(clues, i) + clues[i] + 1,
{
    lemma_clue_sum_step(clues, i);
    lemma_clue_sum_prefix(clues, i);
    lemma_clue_sum_prefix(clues, i + 1);
}

/// The slack of a line of `len` cells, or `None` where the runs do not fit
/// into it.
pub fn line_slack(clues: &Vec<usize>, len: usize) -> (r: Option<usize>)
    ensures
        match r {
            Some(s) => s == slack(clues@, len as int),
            None => slack(clues@, len as int) < 0,
        },
{
    let count: usize = clues.len();
    if count == 0 {
        return Some(len);
    }
    let mut clues_space: usize = count - 1;
    let mut i: usize = 0;
    while i < count
        invariant
            0 <= i <= count,
            count == clues@.len(),
            count > 0,
            clues_space == clue_sum(clues@.take(i as int)) + count - 1,
        decreases count - i,
    {
        proof {
            lemma_clue_sum_step(clues@, i as int);
            lemma_clue_sum_prefix(clues@, i + 1);
        }
        match clues_space.checked_add(clues[i]) {
            Some(total) => {
                clues_space = total;
            },
            None => {
                return None;
            },
        }
        i = i + 1;
    }
    proof {
        assert(clues@.take(count as int) =~= clues@);
    }
    if clues_space > len {
        None
    } else {
        Some(len - clues_space)
    }
}

/// Runs the line solver on one line of the array. `cells` lists the
/// positions of the line in order and `clues` its run lengths. Where the
/// line is still entirely empty and its runs fit, the forced cells become
/// `Filled`; nothing else in the array changes. Returns whether any cell
/// changed.
pub fn solve_line(array: &mut Vec<Cell>, cells: &Vec<usize>, clues: &Vec<usize>) -> (change_made:
    bool)
    requires
        is_line(cells@, old(array)@.len()),
    ensures
        line_cells(final(array)@, cells@) == deduce_line(line_cells(old(array)@, cells@), clues@),
        forall|k: int|
            0 <= k < old(array)@.len() && !cells@.contains(k as usize) ==> final(array)@[k] == old(
                array,
            )@[k],
        change_made == (line_cells(final(array)@, cells@) != line_cells(old(array)@, cells@)),
        cells_grow(old(array)@, final(array)@),
{
    let len: usize = cells.len();
    let mut seen: usize = 0;
    while seen < len
        invariant
            0 <= seen <= len,
            len == cells@.len(),
            array@ == old(array)@,
            is_line(cells@, array@.len()),
            forall|q: int| 0 <= q < seen ==> array@[cells@[q] as int] == Cell::Empty,
        decreases len - seen,
    {
        if array[cells[seen]] != Cell::Empty {
            proof {
                let line = line_cells(array@, cells@);
                assert(line[seen as int] != Cell::Empty);
                assert(!all_empty(line));
            }
            return false;
        }
        seen = seen + 1;
    }
    proof {
        assert(all_empty(line_cells(array@, cells@)));
    }
    let spare: usize = match line_slack(clues, len) {
        Some(s) => s,
        None => {
            proof {
                assert(line_cells(array@, cells@) =~= forced_line(clues@, len as nat));
            }
            return false;
        },
    };
    let mut change_made = false;
    let mut previous_end: usize = 0;
    let mut i: usize = 0;
    while i < clues.len()
        invariant
            0 <= i <= clues@.len(),
            len == cells@.len(),
            array@.len() == old(array)@.len(),
            is_line(cells@, array@.len()),
            all_empty(line_cells(old(array)@, cells@)),
            spare == slack(clues@, len as int),
            i > 0 ==> previous_end == leftmost_start(clues@, i - 1) + clues@[i - 1],
            forall|q: int|
                0 <= q < len ==> array@[#[trigger] cells@[q] as int] == if in_overlap_before(
                    clues@,
                    len as int,
                    i as int,
                    q,
                ) {
                    Cell::Filled
                } else {
                    Cell::Empty
                },
            forall|k: int|
                0 <= k < array@.len() && !cells@.contains(k as usize) ==> array@[k] == old(
                    array,
                )@[k],
            change_made == (line_cells(array@, cells@) != line_cells(old(array)@, cells@)),
            cells_grow(old(array)@, array@),
        decreases clues@.len() - i,
    {
        let clue: usize = clues[i];
        proof {
            lemma_leftmost_within_span(clues@, i as int);
            if i > 0 {
                lemma_leftmost_within_span(clues@, i - 1);
            } else {
                assert(clues@.take(0) =~= Seq::<usize>::empty());
            }
        }
        let clue_start: usize = if i == 0 {
            0
        } else {
            previous_end + 1
        };
        assert(clue_start == leftmost_start(clues@, i as int));
        let clue_end: usize = clue_start + clue;
        if clue > spare {
            let cells_to_backfill: usize = clue - spare;
            let mut cell: usize = clue_end - cells_to_backfill;
            while cell < clue_end
                invariant
                    clue_start + spare <= cell <= clue_end <= len,
                    clue_start == leftmost_start(clues@, i as int),
                    clue_end == clue_start + clues@[i as int],
                    0 <= i < clues@.len(),
                    len == cells@.len(),
                    array@.len() == old(array)@.len(),
                    is_line(cells@, array@.len()),
                    all_empty(line_cells(old(array)@, cells@)),
                    spare == slack(clues@, len as int),
                    forall|q: int|
                        0 <= q < len ==> array@[#[trigger] cells@[q] as int]
                            == if in_overlap_before(clues@, len as int, i as int, q) || clue_start
                            + spare <= q < cell {
                            Cell::Filled
                        } else {
                            Cell::Empty
                        },
                    forall|k: int|
                        0 <= k < array@.len() && !cells@.contains(k as usize) ==> array@[k] == old(
                            array,
                        )@[k],
                    change_made == (line_cells(array@, cells@) != line_cells(
                        old(array)@,
                        cells@,
                    )),
                    cells_grow(old(array)@, array@),
                decreases clue_end - cell,
            {
                array.set(cells[cell], Cell::Filled);
                change_made = true;
                proof {
                    assert(cells@.contains(cells@[cell as int]));
                    assert(line_cells(old(array)@, cells@)[cell as int] == Cell::Empty);
                    assert(line_cells(array@, cells@)[cell as int] == Cell::Filled);
                    assert forall|q: int| 0 <= q < len implies array@[#[trigger] cells@[q] as int]
                        == if in_overlap_before(clues@, len as int, i as int, q) || clue_start
                        + spare <= q < cell + 1 {
                        Cell::Filled
                    } else {
                        Cell::Empty
                    } by {
                        if q != cell {
                            assert(cells@[q] != cells@[cell as int]);
                        }
                    }
                }
                cell = cell + 1;
            }
        }
        proof {
            assert forall|q: int| 0 <= q < len implies (in_overlap_before(
                clues@,
                len as int,
                i + 1,
                q,
            ) <==> in_overlap_before(clues@, len as int, i as int, q) || in_overlap(
                clues@,
                len as int,
                i as int,
                q,
            )) by {
                lemma_overlap_before_step(clues@, len as int, i as int, q);
            }
        }
        previous_end = clue_end;
        i = i + 1;
    }
    proof {
        assert(line_cells(array@, cells@) =~= forced_line(clues@, len as nat));
    }
    change_made
}

/// A position lies in the overlap of one of the first `n + 1` runs exactly
/// if it lies in that of one of the first `n`, or in that of run `n`.
pub proof fn lemma_overlap_before_step(clues: Seq<usize>, len: int, n: int, p: int)
    requires
        0 <= n,
    ensures
        in_overlap_before(clues, len, n + 1, p) <==> in_overlap_before(clues, len, n, p)
            || in_overlap(clues, len, n, p),
{
    if in_overlap_before(clues, len, n + 1, p) {
        let i = choose|i: int| 0 <= i < n + 1 && in_overlap(clues, len, i, p);
        if i < n {
            assert(in_overlap_before(clues, len, n, p));
        }
    }
    if in_overlap_before(clues, len, n, p) {
        let i = choose|i: int| 0 <= i < n && in_overlap(clues, len, i, p);
        assert(0 <= i < n + 1 && in_overlap(clues, len, i, p));
    }
}

} // verus!
