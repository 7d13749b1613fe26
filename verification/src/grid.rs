//! Places in a row-major array: where the cell of a grid position lies, and
//! the places that make up a row or a column.

use vstd::prelude::*;
use crate::line::is_line;

verus! {

/// The place in a row-major array of the cell in column `x` of row `y`.
pub open spec fn position(width: int, x: int, y: int) -> int {
    y * width + x
}

/// A row inside a grid has its stretch inside the array.
pub proof fn lemma_row_in_array(width: int, height: int, y: int)
    requires
        0 <= width,
        0 <= y < height,
    ensures
        0 <= position(width, 0, y),
        position(width, width, y) <= height * width,
{
    assert(0 <= y * width && y * width + width <= height * width) by (nonlinear_arith)
        requires
            0 <= y < height,
            0 <= width,
    ;
}

/// A cell inside a grid has its place inside the array.
pub proof fn lemma_position_in_array(width: int, height: int, x: int, y: int)
    requires
        0 <= x < width,
        0 <= y < height,
    ensures
        0 <= position(width, x, y) < height * width,
{
    lemma_row_in_array(width, height, y);
}

/// Two different cells of a grid have different places in the array.
pub proof fn lemma_position_injective(width: int, x1: int, y1: int, x2: int, y2: int)
    requires
        0 <= x1 < width,
        0 <= x2 < width,
        position(width, x1, y1) == position(width, x2, y2),
    ensures
        x1 == x2,
        y1 == y2,
{
    assert(y1 == y2) by (nonlinear_arith)
        requires
            0 <= x1 < width,
            0 <= x2 < width,
            y1 * width + x1 == y2 * width + x2,
    ;
}

/// The positions of row `y`, left to right.
pub open spec fn row_line(width: nat, y: int) -> Seq<usize> {
    Seq::new(width, |x: int| position(width as int, x, y) as usize)
}

/// The positions of column `x`, top to bottom.
pub open spec fn column_line(width: nat, height: nat, x: int) -> Seq<usize> {
    Seq::new(height, |y: int| position(width as int, x, y) as usize)
}

/// The positions of a row of the grid are a line of its array.
pub proof fn lemma_row_is_line(width: nat, height: nat, y: int)
    requires
        0 <= y < height,
        height * width <= usize::MAX,
    ensures
        is_line(row_line(width, y), height * width),
        forall|x: int|
            0 <= x < width ==> (#[trigger] row_line(width, y)[x]) == position(
                width as int,
                x,
                y,
            ),
{
    let line = row_line(width, y);
    assert forall|i: int| 0 <= i < line.len() implies (#[trigger] line[i]) < height * width
        && line[i] == position(width as int, i, y) by {
        lemma_position_in_array(width as int, height as int, i, y);
    }
    assert forall|i: int, j: int| 0 <= i < j < line.len() implies line[i] != line[j] by {
        lemma_position_in_array(width as int, height as int, i, y);
        lemma_position_in_array(width as int, height as int, j, y);
    }
}

/// The positions of a column of the grid are a line of its array.
pub proof fn lemma_column_is_line(width: nat, height: nat, x: int)
    requires
        0 <= x < width,
        height * width <= usize::MAX,
    ensures
        is_line(column_line(width, height, x), height * width),
        forall|y: int|
            0 <= y < height ==> (#[trigger] column_line(width, height, x)[y]) == position(
                width as int,
                x,
                y,
            ),
{
    let line = column_line(width, height, x);
    assert forall|i: int| 0 <= i < line.len() implies (#[trigger] line[i]) < height * width
        && line[i] == position(width as int, x, i) by {
        lemma_position_in_array(width as int, height as int, x, i);
    }
    assert forall|i: int, j: int| 0 <= i < j < line.len() implies line[i] != line[j] by {
        lemma_position_in_array(width as int, height as int, x, i);
        lemma_position_in_array(width as int, height as int, x, j);
        if line[i] == line[j] {
            lemma_position_injective(width as int, x, i, x, j);
        }
    }
}

/// A cell outside row `y` has no place on the line of row `y`.
pub proof fn lemma_off_row(width: nat, height: nat, y: int, x: int, r: int)
    requires
        0 <= y < height,
        0 <= r < height,
        0 <= x < width,
        r != y,
        height * width <= usize::MAX,
    ensures
        !row_line(width, y).contains(position(width as int, x, r) as usize),
{
    let line = row_line(width, y);
    lemma_row_is_line(width, height, y);
    lemma_position_in_array(width as int, height as int, x, r);
    if line.contains(position(width as int, x, r) as usize) {
        let place = position(width as int, x, r) as usize;
        let i = choose|i: int| 0 <= i < line.len() && line[i] == place;
        lemma_position_injective(width as int, i, y, x, r);
    }
}

/// A cell outside column `x` has no place on the line of column `x`.
pub proof fn lemma_off_column(width: nat, height: nat, x: int, c: int, y: int)
    requires
        0 <= y < height,
        0 <= x < width,
        0 <= c < width,
        c != x,
        height * width <= usize::MAX,
    ensures
        !column_line(width, height, x).contains(position(width as int, c, y) as usize),
{
    let line = column_line(width, height, x);
    lemma_column_is_line(width, height, x);
    lemma_position_in_array(width as int, height as int, c, y);
    if line.contains(position(width as int, c, y) as usize) {
        let place = position(width as int, c, y) as usize;
        let i = choose|i: int| 0 <= i < line.len() && line[i] == place;
        lemma_position_injective(width as int, x, i, c, y);
    }
}

/// Every place in the array of a grid is the place of one of its cells.
pub proof fn lemma_place_is_position(width: int, height: int, place: int)
    requires
        0 <= place < height * width,
        0 <= width,
        0 <= height,
    ensures
        0 <= place % width < width,
        0 <= place / width < height,
        place == position(width, place % width, place / width),
{
    assert(width > 0 && 0 <= place % width < width && 0 <= place / width < height && place == (place
        / width) * width + place % width) by (nonlinear_arith)
        requires
            0 <= place < height * width,
            0 <= width,
            0 <= height,
    ;
}

} // verus!
