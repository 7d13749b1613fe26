//! The puzzle as text: the column clues above the grid, the row clues left
//! of it, a rule of dashes and a bar between clues and cells.
//!
//! Each column of the grid is three characters wide, and so is each place
//! for a row clue. The text is drawn on a blank canvas in five passes: the
//! column clues, the row clues, the rule, the bar, the cells. A later pass
//! writes over an earlier one.

use vstd::prelude::*;
use crate::board::Board;
use crate::canvas::{
    all_glyphs, blank, blank_canvas, lemma_blank_canvas_len, mark, put, put_number, stamp_number,
    string_of,
};
use crate::cell::Cell;
use crate::grid::{lemma_position_in_array, position};
use crate::puzzle::{lemma_longest_len, longest_len, Puzzle};

verus! {

/// The width of the margin left of the bar: three characters for each clue
/// of the longest row clue sequence.
pub open spec fn left_margin(b: Board) -> nat {
    3 * longest_len(b.row_clues)
}

/// The height of the margin above the rule: one line for each clue of the
/// longest column clue sequence.
pub open spec fn top_margin(b: Board) -> nat {
    longest_len(b.column_clues)
}

/// The number of characters in a line of the text, its line feed not
/// counted.
pub open spec fn text_width(b: Board) -> nat {
    3 * b.width() + left_margin(b) + 1
}

/// The number of lines of the text.
pub open spec fn text_height(b: Board) -> nat {
    top_margin(b) + b.height() + 1
}

/// The number of characters of the blank canvas.
pub open spec fn text_size(b: Board) -> nat {
    text_height(b) * (text_width(b) + 1)
}

/// The place on the canvas of the character in column `x` of line `y`.
pub open spec fn spot(b: Board, x: int, y: int) -> int {
    position((text_width(b) + 1) as int, x, y)
}

/// The character that shows a cell.
pub open spec fn cell_char(cell: Cell) -> char {
    match cell {
        Cell::Empty => '.',
        Cell::Filled => '0',
        Cell::Crossed => '/',
    }
}

/// The canvas with the last `n` clues of column `i` written above the rule,
/// the last clue lowest.
pub open spec fn column_labelled(text: Seq<char>, b: Board, i: int, n: nat) -> Seq<char>
    decreases n,
{
    if n == 0 {
        text
    } else {
        put_number(
            column_labelled(text, b, i, (n - 1) as nat),
            spot(b, left_margin(b) + 3 + 3 * i, top_margin(b) - n),
            b.column_clues[i][b.column_clues[i].len() - n] as nat,
        )
    }
}

/// The canvas with the clues of the first `n` columns written.
pub open spec fn columns_labelled(text: Seq<char>, b: Board, n: nat) -> Seq<char>
    decreases n,
{
    if n == 0 {
        text
    } else {
        column_labelled(
            columns_labelled(text, b, (n - 1) as nat),
            b,
            n - 1,
            b.column_clues[n - 1].len(),
        )
    }
}

/// The canvas with the last `n` clues of row `i` written left of the bar,
/// the last clue nearest to it.
pub open spec fn row_labelled(text: Seq<char>, b: Board, i: int, n: nat) -> Seq<char>
    decreases n,
{
    if n == 0 {
        text
    } else {
        put_number(
            row_labelled(text, b, i, (n - 1) as nat),
            spot(b, left_margin(b) - 3 * (n - 1) - 2, top_margin(b) + 1 + i),
            b.row_clues[i][b.row_clues[i].len() - n] as nat,
        )
    }
}

/// The canvas with the clues of the first `n` rows written.
pub open spec fn rows_labelled(text: Seq<char>, b: Board, n: nat) -> Seq<char>
    decreases n,
{
    if n == 0 {
        text
    } else {
        row_labelled(rows_labelled(text, b, (n - 1) as nat), b, n - 1, b.row_clues[n - 1].len())
    }
}

/// The canvas with the first `n` dashes of the rule drawn.
pub open spec fn ruled(text: Seq<char>, b: Board, n: nat) -> Seq<char>
    decreases n,
{
    if n == 0 {
        text
    } else {
        put(
            ruled(text, b, (n - 1) as nat),
            spot(b, (n - 1) + left_margin(b) + 1, top_margin(b) as int),
            seq!['-'],
        )
    }
}

/// The canvas with the bar drawn beside the first `n` rows.
pub open spec fn barred(text: Seq<char>, b: Board, n: nat) -> Seq<char>
    decreases n,
{
    if n == 0 {
        text
    } else {
        put(
            barred(text, b, (n - 1) as nat),
            spot(b, left_margin(b) as int, (n - 1) + top_margin(b) + 1),
            seq!['|'],
        )
    }
}

/// The canvas with the first `n` cells of row `y` drawn.
pub open spec fn row_drawn(text: Seq<char>, b: Board, y: int, n: nat) -> Seq<char>
    decreases n,
{
    if n == 0 {
        text
    } else {
        put(
            row_drawn(text, b, y, (n - 1) as nat),
            spot(b, left_margin(b) + (n - 1) * 3 + 3, top_margin(b) + y + 1),
            seq![cell_char(b.grid[y][n - 1])],
        )
    }
}

/// The canvas with the cells of the first `n` rows drawn.
pub open spec fn grid_drawn(text: Seq<char>, b: Board, n: nat) -> Seq<char>
    decreases n,
{
    if n == 0 {
        text
    } else {
        row_drawn(grid_drawn(text, b, (n - 1) as nat), b, n - 1, b.width())
    }
}

/// The text of a puzzle.
pub open spec fn rendered(b: Board) -> Seq<char> {
    let blank = blank_canvas(text_width(b), text_height(b));
    let labelled = rows_labelled(columns_labelled(blank, b, b.width()), b, b.height());
    grid_drawn(barred(ruled(labelled, b, 3 * b.width()), b, b.height()), b, b.height())
}

/// The measures of the text of one puzzle, as the passes use them.
struct Frame {
    left: usize,
    top: usize,
    width: usize,
    height: usize,
}

impl Frame {
    /// The measures are those of the text of `b`, and the blank canvas is
    /// no longer than a vector can be indexed.
    spec fn frames(self, b: Board) -> bool {
        &&& self.left == left_margin(b)
        &&& self.top == top_margin(b)
        &&& self.width == text_width(b)
        &&& self.height == text_height(b)
        &&& text_size(b) <= usize::MAX
    }

    /// The place on the canvas of the character in column `x` of line `y`.
    fn at(&self, x: usize, y: usize, Ghost(b): Ghost<Board>) -> (place: usize)
        requires
            self.frames(b),
            x < self.width,
            y < self.height,
        ensures
            place == spot(b, x as int, y as int),
            place + 1 < text_size(b),
    {
        proof {
            lemma_position_in_array(self.width + 1, self.height as int, x + 1, y as int);
            lemma_position_in_array(self.width + 1, self.height as int, x as int, y as int);
        }
        y * (self.width + 1) + x
    }
}

impl Puzzle {
    /// The measures of the text, or `None` where the blank canvas would be
    /// longer than a vector can be indexed.
    fn frame(&self) -> (r: Option<Frame>)
        ensures
            match r {
                Some(frame) => frame.frames(self@),
                None => text_size(self@) > usize::MAX,
            },
    {
        proof {
            assert(text_size(self@) >= text_height(self@) && text_size(self@) >= text_width(self@)
                + 1) by (nonlinear_arith)
                requires
                    text_size(self@) == text_height(self@) * (text_width(self@) + 1),
                    text_height(self@) >= 1,
                    text_width(self@) >= 0,
            ;
        }
        let left: usize = match self.get_longest_row_clue_len().checked_mul(3) {
            Some(v) => v,
            None => {
                return None;
            },
        };
        let top: usize = self.get_longest_column_clue_len();
        let grid_width: usize = match self.column_clues.len().checked_mul(3) {
            Some(v) => v,
            None => {
                return None;
            },
        };
        let width: usize = match grid_width.checked_add(left) {
            Some(v) => match v.checked_add(1) {
                Some(v) => v,
                None => {
                    return None;
                },
            },
            None => {
                return None;
            },
        };
        let height: usize = match top.checked_add(self.row_clues.len()) {
            Some(v) => match v.checked_add(1) {
                Some(v) => v,
                None => {
                    return None;
                },
            },
            None => {
                return None;
            },
        };
        let line: usize = match width.checked_add(1) {
            Some(v) => v,
            None => {
                return None;
            },
        };
        match height.checked_mul(line) {
            Some(_) => Some(Frame { left, top, width, height }),
            None => None,
        }
    }

    /// Writes the clues of every column above the rule, the last clue of a
    /// column lowest.
    fn draw_column_labels(&self, canvas: &mut Vec<char>, frame: &Frame)
        requires
            frame.frames(self@),
            old(canvas).len() >= text_size(self@),
        ensures
            final(canvas)@ == columns_labelled(old(canvas)@, self@, self@.width()),
            final(canvas).len() >= text_size(self@),
            all_glyphs(old(canvas)@) ==> all_glyphs(final(canvas)@),
    {
        let mut i: usize = 0;
        while i < self.column_clues.len()
            invariant
                0 <= i <= self.column_clues@.len(),
                frame.frames(self@),
                canvas.len() >= text_size(self@),
                all_glyphs(old(canvas)@) ==> all_glyphs(canvas@),
                canvas@ == columns_labelled(old(canvas)@, self@, i as nat),
            decreases self.column_clues@.len() - i,
        {
            let clues = &self.column_clues[i];
            let ghost start = canvas@;
            proof {
                lemma_longest_len(self@.column_clues);
                assert(self@.column_clues[i as int] == clues@);
            }
            let mut j: usize = 0;
            while j < clues.len()
                invariant
                    0 <= j <= clues@.len(),
                    0 <= i < self.column_clues@.len(),
                    self@.column_clues[i as int] == clues@,
                    clues@.len() <= top_margin(self@),
                    frame.frames(self@),
                    canvas.len() >= text_size(self@),
                    all_glyphs(old(canvas)@) ==> all_glyphs(canvas@),
                all_glyphs(old(canvas)@) ==> all_glyphs(canvas@),
                    canvas@ == column_labelled(start, self@, i as int, j as nat),
                decreases clues@.len() - j,
            {
                let clue: usize = clues[clues.len() - 1 - j];
                let x: usize = frame.left + 1 + 2 + i * 3;
                let y: usize = frame.top - j - 1;
                let place = frame.at(x, y, Ghost(self@));
                stamp_number(canvas, place, clue);
                j = j + 1;
            }
            i = i + 1;
        }
    }

    /// Writes the clues of every row left of the bar, the last clue of a
    /// row nearest to it.
    fn draw_row_labels(&self, canvas: &mut Vec<char>, frame: &Frame)
        requires
            frame.frames(self@),
            old(canvas).len() >= text_size(self@),
        ensures
            final(canvas)@ == rows_labelled(old(canvas)@, self@, self@.height()),
            final(canvas).len() >= text_size(self@),
            all_glyphs(old(canvas)@) ==> all_glyphs(final(canvas)@),
    {
        let mut i: usize = 0;
        while i < self.row_clues.len()
            invariant
                0 <= i <= self.row_clues@.len(),
                frame.frames(self@),
                canvas.len() >= text_size(self@),
                all_glyphs(old(canvas)@) ==> all_glyphs(canvas@),
                canvas@ == rows_labelled(old(canvas)@, self@, i as nat),
            decreases self.row_clues@.len() - i,
        {
            let clues = &self.row_clues[i];
            let ghost start = canvas@;
            proof {
                lemma_longest_len(self@.row_clues);
                assert(self@.row_clues[i as int] == clues@);
            }
            let mut j: usize = 0;
            while j < clues.len()
                invariant
                    0 <= j <= clues@.len(),
                    0 <= i < self.row_clues@.len(),
                    self@.row_clues[i as int] == clues@,
                    3 * clues@.len() <= left_margin(self@),
                    frame.frames(self@),
                    canvas.len() >= text_size(self@),
                    all_glyphs(old(canvas)@) ==> all_glyphs(canvas@),
                all_glyphs(old(canvas)@) ==> all_glyphs(canvas@),
                    canvas@ == row_labelled(start, self@, i as int, j as nat),
                decreases clues@.len() - j,
            {
                let clue: usize = clues[clues.len() - 1 - j];
                let x: usize = frame.left - (j * 3) - 2;
                let y: usize = frame.top + 1 + i;
                let place = frame.at(x, y, Ghost(self@));
                stamp_number(canvas, place, clue);
                j = j + 1;
            }
            i = i + 1;
        }
    }

    /// Draws the rule under the column clues and the bar right of the row
    /// clues.
    fn draw_rule_and_bar(&self, canvas: &mut Vec<char>, frame: &Frame)
        requires
            frame.frames(self@),
            old(canvas).len() >= text_size(self@),
        ensures
            final(canvas)@ == barred(
                ruled(old(canvas)@, self@, 3 * self@.width()),
                self@,
                self@.height(),
            ),
            final(canvas).len() >= text_size(self@),
            all_glyphs(old(canvas)@) ==> all_glyphs(final(canvas)@),
    {
        let dashes: usize = self.column_clues.len() * 3;
        let mut i: usize = 0;
        while i < dashes
            invariant
                0 <= i <= dashes,
                dashes == 3 * self@.width(),
                frame.frames(self@),
                canvas.len() >= text_size(self@),
                all_glyphs(old(canvas)@) ==> all_glyphs(canvas@),
                canvas@ == ruled(old(canvas)@, self@, i as nat),
            decreases dashes - i,
        {
            let place = frame.at(i + frame.left + 1, frame.top, Ghost(self@));
            mark(canvas, place, '-');
            i = i + 1;
        }
        let ghost ruled = canvas@;
        let mut i: usize = 0;
        while i < self.row_clues.len()
            invariant
                0 <= i <= self.row_clues@.len(),
                frame.frames(self@),
                canvas.len() >= text_size(self@),
                all_glyphs(old(canvas)@) ==> all_glyphs(canvas@),
                canvas@ == barred(ruled, self@, i as nat),
            decreases self.row_clues@.len() - i,
        {
            let place = frame.at(frame.left, i + frame.top + 1, Ghost(self@));
            mark(canvas, place, '|');
            i = i + 1;
        }
    }

    /// Draws the cells, row by row, each in the first of the three
    /// characters under its column's clues.
    fn draw_cells(&self, canvas: &mut Vec<char>, frame: &Frame)
        requires
            self.wf(),
            frame.frames(self@),
            old(canvas).len() >= text_size(self@),
        ensures
            final(canvas)@ == grid_drawn(old(canvas)@, self@, self@.height()),
            final(canvas).len() >= text_size(self@),
            all_glyphs(old(canvas)@) ==> all_glyphs(final(canvas)@),
    {
        let width: usize = self.column_clues.len();
        let mut y: usize = 0;
        while y < self.row_clues.len()
            invariant
                0 <= y <= self.row_clues@.len(),
                width == self.column_clues@.len(),
                self.wf(),
                frame.frames(self@),
                canvas.len() >= text_size(self@),
                all_glyphs(old(canvas)@) ==> all_glyphs(canvas@),
                canvas@ == grid_drawn(old(canvas)@, self@, y as nat),
            decreases self.row_clues@.len() - y,
        {
            let ghost start = canvas@;
            let mut x: usize = 0;
            while x < width
                invariant
                    0 <= x <= width,
                    0 <= y < self.row_clues@.len(),
                    width == self.column_clues@.len(),
                    self.wf(),
                    frame.frames(self@),
                    canvas.len() >= text_size(self@),
                    all_glyphs(old(canvas)@) ==> all_glyphs(canvas@),
                all_glyphs(old(canvas)@) ==> all_glyphs(canvas@),
                    canvas@ == row_drawn(start, self@, y as int, x as nat),
                decreases width - x,
            {
                proof {
                    lemma_position_in_array(
                        self.column_clues@.len() as int,
                        self.row_clues@.len() as int,
                        x as int,
                        y as int,
                    );
                }
                let c: char = match self.array[self.get_pos(x, y)] {
                    Cell::Empty => '.',
                    Cell::Filled => '0',
                    Cell::Crossed => '/',
                };
                let place = frame.at(frame.left + x * 3 + 3, frame.top + y + 1, Ghost(self@));
                mark(canvas, place, c);
                x = x + 1;
            }
            y = y + 1;
        }
    }

    /// The puzzle as text, or `None` where the text would be longer than a
    /// vector can be indexed.
    pub fn to_text(&self) -> (r: Option<String>)
        requires
            self.wf(),
        ensures
            match r {
                Some(text) => text@ == rendered(self@) && text_size(self@) <= usize::MAX,
                None => text_size(self@) > usize::MAX,
            },
    {
        let frame = match self.frame() {
            Some(frame) => frame,
            None => {
                return None;
            },
        };
        let mut canvas = blank(frame.width, frame.height);
        proof {
            lemma_blank_canvas_len(frame.width as nat, frame.height as nat);
            assert(canvas.len() == canvas@.len());
        }
        self.draw_column_labels(&mut canvas, &frame);
        self.draw_row_labels(&mut canvas, &frame);
        self.draw_rule_and_bar(&mut canvas, &frame);
        self.draw_cells(&mut canvas, &frame);
        Some(string_of(&canvas))
    }
}

} // verus!
