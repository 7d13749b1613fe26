//! The clue format: lines of text with a section of row clues under the
//! line `rows` and a section of column clues under the line `columns`.
//!
//! A section runs from the line after its heading to the next empty line or
//! to the end of the text. Each of its lines is one clue sequence, its
//! numbers separated by commas. Lines before a heading are passed over. The
//! rows stand in the text from the bottom row up.

use vstd::prelude::*;
use vstd::string::StringSliceAdditionalSpecFns;
use crate::board::Board;
use crate::cell::Cell;
use crate::puzzle::{blank_grid, clue_seqs, lemma_blank, Puzzle};
use crate::text::{byte_seqs, parse_number, read_number, split, split_bytes};

verus! {

/// Why a text is no puzzle.
#[derive(Clone, Copy, PartialEq, Eq, Debug, Structural)]
pub enum ParseError {
    /// The line `rows` is missing, or no line `columns` follows the empty
    /// line that ends the rows.
    InvalidFormat,
    /// A line of a section holds something that is no number.
    InvalidClue,
    /// The grid would have more cells than a vector can hold.
    TooLarge,
}

/// The clues of both axes as the text gives them.
pub struct Clues {
    pub rows: Seq<Seq<usize>>,
    pub columns: Seq<Seq<usize>>,
}

/// The heading of the row section: `rows`.
pub open spec fn rows_heading() -> Seq<u8> {
    seq![0x72u8, 0x6f, 0x77, 0x73]
}

/// The heading of the column section: `columns`.
pub open spec fn columns_heading() -> Seq<u8> {
    seq![0x63u8, 0x6f, 0x6c, 0x75, 0x6d, 0x6e, 0x73]
}

/// The index of the first line at or after `from` that is `word`; the
/// number of lines where there is none.
pub open spec fn find_line(lines: Seq<Seq<u8>>, from: int, word: Seq<u8>) -> int
    decreases lines.len() - from,
{
    if from >= lines.len() {
        lines.len() as int
    } else if lines[from] == word {
        from
    } else {
        find_line(lines, from + 1, word)
    }
}

/// Where the section that begins at line `from` ends: the index of its
/// closing empty line, or the number of lines.
pub open spec fn section_end(lines: Seq<Seq<u8>>, from: int) -> int {
    find_line(lines, from, Seq::<u8>::empty())
}

/// The line is a clue sequence: every piece between its commas is a number.
pub open spec fn is_clue_line(line: Seq<u8>) -> bool {
    forall|i: int|
        0 <= i < split(line, 0x2c).len() ==> parse_number(#[trigger] split(line, 0x2c)[i]) is Some
}

/// The numbers of a clue line, in order.
pub open spec fn clue_line(line: Seq<u8>) -> Seq<usize> {
    Seq::new(split(line, 0x2c).len(), |i: int| parse_number(split(line, 0x2c)[i]).unwrap())
}

/// Every line from `from` up to `to` is a clue sequence.
pub open spec fn is_section(lines: Seq<Seq<u8>>, from: int, to: int) -> bool {
    forall|i: int| from <= i < to ==> is_clue_line(#[trigger] lines[i])
}

/// The clue sequences of the lines from `from` up to `to`, in order.
pub open spec fn section(lines: Seq<Seq<u8>>, from: int, to: int) -> Seq<Seq<usize>> {
    Seq::new((to - from) as nat, |i: int| clue_line(lines[from + i]))
}

/// What the lines of a text say: the clues, rows top first, or the reason
/// why they give none.
pub open spec fn parse_lines(lines: Seq<Seq<u8>>) -> Result<Clues, ParseError> {
    let rows_at = find_line(lines, 0, rows_heading());
    let rows_end = section_end(lines, rows_at + 1);
    let columns_at = find_line(lines, rows_end + 1, columns_heading());
    let columns_end = section_end(lines, columns_at + 1);
    if rows_at >= lines.len() {
        Err(ParseError::InvalidFormat)
    } else if !is_section(lines, rows_at + 1, rows_end) {
        Err(ParseError::InvalidClue)
    } else if columns_at >= lines.len() {
        Err(ParseError::InvalidFormat)
    } else if !is_section(lines, columns_at + 1, columns_end) {
        Err(ParseError::InvalidClue)
    } else {
        Ok(
            Clues {
                rows: section(lines, rows_at + 1, rows_end).reverse(),
                columns: section(lines, columns_at + 1, columns_end),
            },
        )
    }
}

/// What a text says: the clues of a puzzle that a vector can hold, or the
/// reason why it gives none.
pub open spec fn parse_text(text: Seq<u8>) -> Result<Clues, ParseError> {
    match parse_lines(split(text, 0x0a)) {
        Ok(clues) => if clues.rows.len() * clues.columns.len() <= isize::MAX {
            Ok(clues)
        } else {
            Err(ParseError::TooLarge)
        },
        Err(e) => Err(e),
    }
}

/// The first line at or after `from` that is `word`, or the number of lines.
fn find(lines: &Vec<Vec<u8>>, from: usize, word: &[u8]) -> (at: usize)
    ensures
        at == find_line(byte_seqs(lines@), from as int, word@),
        at <= lines@.len(),
        from <= lines@.len() ==> from <= at,
{
    let mut at: usize = from;
    while at < lines.len()
        invariant
            from <= at,
            find_line(byte_seqs(lines@), from as int, word@) == find_line(
                byte_seqs(lines@),
                at as int,
                word@,
            ),
        decreases lines@.len() - at,
    {
        proof {
            assert(byte_seqs(lines@)[at as int] == lines@[at as int]@);
        }
        if same_bytes(lines[at].as_slice(), word) {
            return at;
        }
        at = at + 1;
    }
    lines.len()
}

/// Whether two texts are the same.
fn same_bytes(a: &[u8], b: &[u8]) -> (r: bool)
    ensures
        r == (a@ == b@),
{
    if a.len() != b.len() {
        return false;
    }
    let mut i: usize = 0;
    while i < a.len()
        invariant
            0 <= i <= a@.len(),
            a@.len() == b@.len(),
            forall|j: int| 0 <= j < i ==> a@[j] == b@[j],
        decreases a@.len() - i,
    {
        if a[i] != b[i] {
            return false;
        }
        i = i + 1;
    }
    proof {
        assert(a@ =~= b@);
    }
    true
}

/// Reads one clue sequence: numbers separated by commas. `None` where a
/// piece is no number.
pub fn read_clue_line(line: &[u8]) -> (r: Option<Vec<usize>>)
    ensures
        r is Some == is_clue_line(line@),
        r matches Some(clues) ==> clues@ == clue_line(line@),
{
    let pieces = split_bytes(line, 0x2c);
    let ghost parts = split(line@, 0x2c);
    let mut clues: Vec<usize> = Vec::new();
    let mut i: usize = 0;
    while i < pieces.len()
        invariant
            0 <= i <= pieces@.len(),
            byte_seqs(pieces@) == parts,
            parts == split(line@, 0x2c),
            clues@.len() == i,
            forall|j: int| 0 <= j < i ==> parse_number(#[trigger] parts[j]) == Some(clues@[j]),
        decreases pieces@.len() - i,
    {
        proof {
            assert(parts[i as int] == pieces@[i as int]@);
        }
        match read_number(pieces[i].as_slice()) {
            Some(c) => {
                clues.push(c);
            },
            None => {
                return None;
            },
        }
        i = i + 1;
    }
    proof {
        assert(clues@ =~= clue_line(line@));
    }
    Some(clues)
}

/// Reads the clue sequences of the lines from `from` up to `to`. `None`
/// where one of the lines is no clue sequence.
fn read_section(lines: &Vec<Vec<u8>>, from: usize, to: usize) -> (r: Option<Vec<Vec<usize>>>)
    requires
        from <= to <= lines@.len(),
    ensures
        r is Some == is_section(byte_seqs(lines@), from as int, to as int),
        r matches Some(clues) ==> clue_seqs(clues@) == section(
            byte_seqs(lines@),
            from as int,
            to as int,
        ),
{
    let mut clues: Vec<Vec<usize>> = Vec::new();
    let mut i: usize = from;
    while i < to
        invariant
            from <= i <= to <= lines@.len(),
            clues@.len() == i - from,
            is_section(byte_seqs(lines@), from as int, i as int),
            forall|j: int|
                0 <= j < i - from ==> (#[trigger] clues@[j])@ == clue_line(
                    byte_seqs(lines@)[from + j],
                ),
        decreases to - i,
    {
        proof {
            assert(byte_seqs(lines@)[i as int] == lines@[i as int]@);
        }
        match read_clue_line(lines[i].as_slice()) {
            Some(line) => {
                clues.push(line);
            },
            None => {
                return None;
            },
        }
        i = i + 1;
    }
    proof {
        assert(clue_seqs(clues@) =~= section(byte_seqs(lines@), from as int, to as int));
    }
    Some(clues)
}

/// The sequences in the opposite order.
fn reversed(clues: Vec<Vec<usize>>) -> (r: Vec<Vec<usize>>)
    ensures
        clue_seqs(r@) == clue_seqs(clues@).reverse(),
{
    let mut clues = clues;
    let ghost all = clue_seqs(clues@);
    let mut r: Vec<Vec<usize>> = Vec::new();
    while clues.len() > 0
        invariant
            clues@.len() + r@.len() == all.len(),
            forall|j: int| 0 <= j < clues@.len() ==> (#[trigger] clues@[j])@ == all[j],
            forall|j: int| 0 <= j < r@.len() ==> (#[trigger] r@[j])@ == all[all.len() - 1 - j],
        decreases clues@.len(),
    {
        let last = clues.pop().unwrap();
        r.push(last);
    }
    proof {
        assert(clue_seqs(r@) =~= all.reverse());
    }
    r
}

impl Puzzle {
    /// Reads a puzzle from a text in the clue format. The puzzle has the
    /// clues of the text, rows top first, and a grid of their size in which
    /// every cell is `Empty`. The error says what is wrong with the text.
    pub fn from_string(string: &str) -> (r: Result<Puzzle, ParseError>)
        ensures
            match r {
                Ok(p) => parse_text(string.spec_bytes()) matches Ok(clues) && p.wf()
                    && p@ == (Board {
                    grid: blank_grid(clues.rows.len(), clues.columns.len()),
                    row_clues: clues.rows,
                    column_clues: clues.columns,
                }),
                Err(e) => parse_text(string.spec_bytes()) == Err::<Clues, ParseError>(e),
            },
    {
        Puzzle::from_bytes(string.as_bytes())
    }

    /// Reads a puzzle from the bytes of a text in the clue format.
    pub fn from_bytes(text: &[u8]) -> (r: Result<Puzzle, ParseError>)
        ensures
            match r {
                Ok(p) => parse_text(text@) matches Ok(clues) && p.wf() && p@ == (Board {
                    grid: blank_grid(clues.rows.len(), clues.columns.len()),
                    row_clues: clues.rows,
                    column_clues: clues.columns,
                }),
                Err(e) => parse_text(text@) == Err::<Clues, ParseError>(e),
            },
    {
        let rows_word: [u8; 4] = [0x72, 0x6f, 0x77, 0x73];
        let columns_word: [u8; 7] = [0x63, 0x6f, 0x6c, 0x75, 0x6d, 0x6e, 0x73];
        let empty: [u8; 0] = [];
        proof {
            assert(rows_word@ =~= rows_heading());
            assert(columns_word@ =~= columns_heading());
            assert(empty@ =~= Seq::<u8>::empty());
        }
        let lines = split_bytes(text, 0x0a);
        let rows_at = find(&lines, 0, rows_word.as_slice());
        if rows_at >= lines.len() {
            return Err(ParseError::InvalidFormat);
        }
        let rows_end = find(&lines, rows_at + 1, empty.as_slice());
        let rows = match read_section(&lines, rows_at + 1, rows_end) {
            Some(rows) => rows,
            None => {
                return Err(ParseError::InvalidClue);
            },
        };
        if rows_end >= lines.len() {
            return Err(ParseError::InvalidFormat);
        }
        let columns_at = find(&lines, rows_end + 1, columns_word.as_slice());
        if columns_at >= lines.len() {
            return Err(ParseError::InvalidFormat);
        }
        let columns_end = find(&lines, columns_at + 1, empty.as_slice());
        let column_clues = match read_section(&lines, columns_at + 1, columns_end) {
            Some(columns) => columns,
            None => {
                return Err(ParseError::InvalidClue);
            },
        };
        let row_clues = reversed(rows);
        let size: usize = match row_clues.len().checked_mul(column_clues.len()) {
            Some(size) => size,
            None => {
                return Err(ParseError::TooLarge);
            },
        };
        if size > isize::MAX as usize {
            return Err(ParseError::TooLarge);
        }
        let p = Puzzle { array: vec![Cell::Empty; size], row_clues, column_clues };
        proof {
            lemma_blank(p);
        }
        Ok(p)
    }
}

} // verus!
