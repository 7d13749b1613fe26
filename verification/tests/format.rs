use nonogram::format::read_clue_line;
use nonogram::{Cell, ParseError, Puzzle};
use nonogram::text::{read_number, split_bytes};

fn clues_of(text: &str) -> Result<(Vec<Vec<usize>>, Vec<Vec<usize>>), ParseError> {
    Puzzle::from_string(text).map(|p| (p.row_clues, p.column_clues))
}

#[test]
fn test_from_string() {
    let mut p = Puzzle::new();
    p.push_clues_row(vec![1, 1]);
    p.push_clues_row(vec![1, 1]);
    p.push_clues_row(vec![0]);
    p.push_clues_row(vec![1, 1]);
    p.push_clues_row(vec![3]);

    p.push_clues_column(vec![1]);
    p.push_clues_column(vec![1, 2]);
    p.push_clues_column(vec![1]);
    p.push_clues_column(vec![1, 2]);
    p.push_clues_column(vec![1]);

    let mut s = String::from("junk\nrows\n3\n1,1\n0\n1,1\n1,1\n\ncolumns\n1\n1,2\n1\n1,2\n1\n");
    let mut pu = Puzzle::from_string(&s).unwrap();

    assert_eq!(p.row_clues, pu.row_clues);
    assert_eq!(p.column_clues, pu.column_clues);

    p = Puzzle::new();
    p.push_clues_row(vec![2]);
    p.push_clues_row(vec![1, 2]);
    p.push_clues_row(vec![1, 1]);
    p.push_clues_row(vec![2]);
    p.push_clues_row(vec![1, 1]);
    p.push_clues_row(vec![1, 1]);
    p.push_clues_row(vec![3]);
    p.push_clues_row(vec![1, 1]);
    p.push_clues_row(vec![2, 1]);
    p.push_clues_row(vec![2]);
    p.push_clues_column(vec![2, 1]);
    p.push_clues_column(vec![2, 1, 3]);
    p.push_clues_column(vec![7]);
    p.push_clues_column(vec![1, 3]);
    p.push_clues_column(vec![2, 1]);

    s =String::from("catalogue \"webpbn.com #1\"\ntitle \"Demo Puzzle from Front Page\"\nby \"Jan Wolter\"\ncopyright \"Â© Copyright 2004 by Jan Wolter\"\nlicense CC-BY-3.0\nwidth 5\nheight 10\n\nrows\n2\n2,1\n1,1\n3\n1,1\n1,1\n2\n1,1\n1,2\n2\n\ncolumns\n2,1\n2,1,3\n7\n1,3\n2,1\n\ngoal \"01100011010010101110101001010000110010100101111000\"");
    pu = Puzzle::from_string(&s).unwrap();

    assert_eq!(p.row_clues, pu.row_clues);
    assert_eq!(p.column_clues, pu.column_clues);
}

#[test]
fn a_read_puzzle_has_a_blank_grid_of_its_size() {
    let p = Puzzle::from_string("rows\n3\n1,1\n\ncolumns\n1\n2\n1\n").unwrap();
    assert_eq!(p.row_clues, vec![vec![1, 1], vec![3]]);
    assert_eq!(p.column_clues, vec![vec![1], vec![2], vec![1]]);
    assert_eq!(p.array, vec![Cell::Empty; 6]);
    assert_eq!(p.get_width(), 3);
    assert_eq!(p.get_height(), 2);
}

#[test]
fn rows_stand_in_the_text_bottom_up() {
    assert_eq!(
        clues_of("rows\n1\n2\n3\n\ncolumns\n4\n5\n6"),
        Ok((
            vec![vec![3], vec![2], vec![1]],
            vec![vec![4], vec![5], vec![6]]
        ))
    );
}

#[test]
fn a_section_ends_at_an_empty_line_or_at_the_end() {
    assert_eq!(
        clues_of("rows\n1\n\ncolumns\n2"),
        Ok((vec![vec![1]], vec![vec![2]]))
    );
    assert_eq!(
        clues_of("rows\n1\n\ncolumns\n2\n"),
        Ok((vec![vec![1]], vec![vec![2]]))
    );
    assert_eq!(
        clues_of("rows\n1\n\ncolumns\n2\n\n3\n"),
        Ok((vec![vec![1]], vec![vec![2]]))
    );
    assert_eq!(
        clues_of("rows\n1\n\nnoise\nmore\ncolumns\n2\n\nrows\n7"),
        Ok((vec![vec![1]], vec![vec![2]]))
    );
    assert_eq!(clues_of("rows\n\ncolumns\n"), Ok((vec![], vec![])));
    assert_eq!(clues_of("rows\n\ncolumns"), Ok((vec![], vec![])));
    assert_eq!(clues_of("rows\n\ncolumns\n5"), Ok((vec![], vec![vec![5]])));
    assert_eq!(clues_of("rows\n5\n\ncolumns\n"), Ok((vec![vec![5]], vec![])));
}

#[test]
fn a_text_without_its_headings_is_refused() {
    assert_eq!(clues_of(""), Err(ParseError::InvalidFormat));
    assert_eq!(clues_of("junk"), Err(ParseError::InvalidFormat));
    assert_eq!(clues_of("columns\n1\n"), Err(ParseError::InvalidFormat));
    assert_eq!(clues_of("rows"), Err(ParseError::InvalidFormat));
    assert_eq!(clues_of("rows\n1\n2"), Err(ParseError::InvalidFormat));
    assert_eq!(clues_of("rows\n1\n2\n"), Err(ParseError::InvalidFormat));
    assert_eq!(clues_of("rows\n1\n\n"), Err(ParseError::InvalidFormat));
    assert_eq!(clues_of("rows\n1\n\ncolumn\n1\n"), Err(ParseError::InvalidFormat));
    assert_eq!(clues_of("Rows\n1\n\ncolumns\n1\n"), Err(ParseError::InvalidFormat));
    assert_eq!(clues_of(" rows\n1\n\ncolumns\n1\n"), Err(ParseError::InvalidFormat));
    assert_eq!(
        clues_of("rows\r\n1\r\n\r\ncolumns\r\n1\r\n"),
        Err(ParseError::InvalidFormat)
    );
}

#[test]
fn a_section_line_that_is_no_clue_sequence_is_refused() {
    assert_eq!(clues_of("rows\n1\ncolumns\n1\n"), Err(ParseError::InvalidClue));
    assert_eq!(clues_of("rows\n1,a\n\ncolumns\n1\n"), Err(ParseError::InvalidClue));
    assert_eq!(clues_of("rows\n1,,2\n\ncolumns\n1\n"), Err(ParseError::InvalidClue));
    assert_eq!(clues_of("rows\n1,\n\ncolumns\n1\n"), Err(ParseError::InvalidClue));
    assert_eq!(clues_of("rows\n,1\n\ncolumns\n1\n"), Err(ParseError::InvalidClue));
    assert_eq!(clues_of("rows\n1, 2\n\ncolumns\n1\n"), Err(ParseError::InvalidClue));
    assert_eq!(clues_of("rows\n-1\n\ncolumns\n1\n"), Err(ParseError::InvalidClue));
    assert_eq!(clues_of("rows\n1\n\ncolumns\nx\n"), Err(ParseError::InvalidClue));
    assert_eq!(clues_of("rows\n1\r\n\ncolumns\n1\n"), Err(ParseError::InvalidClue));
    assert_eq!(
        clues_of("rows\n99999999999999999999999999\n\ncolumns\n1\n"),
        Err(ParseError::InvalidClue)
    );
    assert_eq!(clues_of("rows\nx\n"), Err(ParseError::InvalidClue));
}

#[test]
fn numbers_are_read_as_the_machine_word_reads_them() {
    let cases = [
        "0", "7", "42", "007", "+5", "+0", "+", "-", "", "-0", "-5", "5+", "++5", " 5", "5 ", "1_0",
        "0x10", "١", "18446744073709551615", "18446744073709551616", "4294967295", "4294967296",
        "99999999999999999999999999", "+18446744073709551615", "000000000000000000000000001",
    ];
    for text in cases {
        assert_eq!(read_number(text.as_bytes()), text.parse::<usize>().ok());
    }
    assert_eq!(read_number(b"42"), Some(42));
    assert_eq!(read_number(b"+5"), Some(5));
    assert_eq!(read_number(b"007"), Some(7));
    assert_eq!(read_number(b""), None);
    assert_eq!(read_number(b"+"), None);
    assert_eq!(read_number(b"-5"), None);
    assert_eq!(read_number(b"4a"), None);
}

#[test]
fn text_is_split_as_the_standard_library_splits_it() {
    let cases = ["", "a", ",", "a,b", "a,,b", ",a", "a,", ",,", "1,2,3", "rows\n1\n"];
    for text in cases {
        let expected: Vec<Vec<u8>> = text.split(",").map(|p| p.as_bytes().to_vec()).collect();
        assert_eq!(split_bytes(text.as_bytes(), b','), expected);
    }
    assert_eq!(
        split_bytes(b"a,,b,", b','),
        vec![b"a".to_vec(), b"".to_vec(), b"b".to_vec(), b"".to_vec()]
    );
    assert_eq!(split_bytes(b"", b'\n'), vec![b"".to_vec()]);
}

#[test]
fn clue_lines_are_numbers_between_commas() {
    assert_eq!(read_clue_line(b"1,2,3"), Some(vec![1, 2, 3]));
    assert_eq!(read_clue_line(b"10"), Some(vec![10]));
    assert_eq!(read_clue_line(b"0"), Some(vec![0]));
    assert_eq!(read_clue_line(b"+1,02"), Some(vec![1, 2]));
    assert_eq!(read_clue_line(b""), None);
    assert_eq!(read_clue_line(b"1,"), None);
    assert_eq!(read_clue_line(b"1;2"), None);
}

#[test]
fn from_bytes_reads_what_from_string_reads() {
    let text = "junk\nrows\n3\n1,1\n\ncolumns\n1\n1,2\n";
    let a = Puzzle::from_string(text).unwrap();
    let b = Puzzle::from_bytes(text.as_bytes()).unwrap();
    assert_eq!(a.row_clues, b.row_clues);
    assert_eq!(a.column_clues, b.column_clues);
    assert_eq!(a.array, b.array);
    assert_eq!(
        Puzzle::from_bytes(b"rows\n\xff\n\ncolumns\n").map(|p| p.array),
        Err(ParseError::InvalidClue)
    );
}
