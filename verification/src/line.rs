//! Lines: a row or a column seen as a list of positions in the cell array.

use vstd::prelude::*;
use crate::cell::Cell;

verus! {

/// The positions lie inside an array of `n` cells and no two are the same.
pub open spec fn is_line(cells: Seq<usize>, n: nat) -> bool {
    &&& forall|i: int| 0 <= i < cells.len() ==> (#[trigger] cells[i]) < n
    &&& forall|i: int, j: int| 0 <= i < j < cells.len() ==> cells[i] != cells[j]
}

/// The cells that the array holds at the positions of the line, in the
/// line's order.
pub open spec fn line_cells(array: Seq<Cell>, cells: Seq<usize>) -> Seq<Cell> {
    Seq::new(cells.len(), |i: int| array[cells[i] as int])
}

/// The cells keep their number, and each either keeps its state or goes from
/// `Empty` to `Filled`. No cell leaves `Filled`.
pub open spec fn cells_grow(before: Seq<Cell>, after: Seq<Cell>) -> bool {
    &&& after.len() == before.len()
    &&& forall|k: int|
        0 <= k < before.len() ==> {
            ||| #[trigger] after[k] == before[k]
            ||| (before[k] == Cell::Empty && after[k] == Cell::Filled)
        }
}

/// Cells that stay as they are have grown.
pub proof fn lemma_cells_grow_reflexive(cells: Seq<Cell>)
    ensures
        cells_grow(cells, cells),
{
}

} // verus!
