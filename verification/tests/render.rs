use nonogram::canvas::{blank, decimal, mark, stamp, stamp_number};
use nonogram::{Cell, Puzzle};

fn text(s: &str) -> Vec<char> {
    s.chars().collect()
}

fn reference_solution() -> Puzzle {
    Puzzle {
        array: vec![
            Cell::Empty,
            Cell::Filled,
            Cell::Empty,
            Cell::Filled,
            Cell::Empty,
            Cell::Empty,
            Cell::Filled,
            Cell::Empty,
            Cell::Filled,
            Cell::Empty,
            Cell::Empty,
            Cell::Empty,
            Cell::Empty,
            Cell::Empty,
            Cell::Empty,
            Cell::Filled,
            Cell::Empty,
            Cell::Empty,
            Cell::Empty,
            Cell::Filled,
            Cell::Empty,
            Cell::Filled,
            Cell::Filled,
            Cell::Filled,
            Cell::Empty,
        ],
        row_clues: vec![vec![1, 1], vec![1, 1], vec![0], vec![1, 1], vec![3]],
        column_clues: vec![vec![1], vec![2, 1], vec![1], vec![2, 1], vec![1]],
    }
}

#[test]
fn text_of_a_solved_puzzle() {
    let expected = [
        "            2     2   \n",
        "         1  1  1  1  1\n",
        "       ---------------\n",
        " 1  1 |  .  0  .  0  .\n",
        " 1  1 |  .  0  .  0  .\n",
        "    0 |  .  .  .  .  .\n",
        " 1  1 |  0  .  .  .  0\n",
        "    3 |  .  0  0  0  .\n",
    ]
    .concat();
    assert_eq!(reference_solution().to_text(), Some(expected));
}

#[test]
fn text_of_the_empty_puzzle() {
    assert_eq!(Puzzle::new().to_text(), Some(" \n".to_string()));
}

#[test]
fn text_with_one_axis_only() {
    let mut rows = Puzzle::new();
    rows.push_clues_row(vec![1]);
    rows.push_clues_row(vec![2, 3]);
    assert_eq!(
        rows.to_text(),
        Some("       \n    1 |\n 2  3 |\n".to_string())
    );
    let mut columns = Puzzle::new();
    columns.push_clues_column(vec![1]);
    columns.push_clues_column(vec![2, 3]);
    assert_eq!(
        columns.to_text(),
        Some("      2\n   1  3\n ------\n".to_string())
    );
}

#[test]
fn text_shows_each_cell_state() {
    let p = Puzzle {
        array: vec![Cell::Empty, Cell::Filled, Cell::Crossed, Cell::Empty],
        row_clues: vec![vec![], vec![]],
        column_clues: vec![vec![], vec![]],
    };
    assert_eq!(p.to_text(), Some(" ------\n|  .  0\n|  /  .\n".to_string()));
}

#[test]
fn text_with_clues_of_two_digits() {
    let p = Puzzle {
        array: vec![Cell::Filled, Cell::Crossed, Cell::Empty],
        row_clues: vec![vec![12]],
        column_clues: vec![vec![1], vec![10], vec![25]],
    };
    assert_eq!(
        p.to_text(),
        Some("      1  10 25    ---------\n 12|  0  /  .\n".to_string())
    );
}

#[test]
fn text_with_clues_of_more_digits() {
    let p = Puzzle {
        array: vec![Cell::Empty, Cell::Filled],
        row_clues: vec![vec![123]],
        column_clues: vec![vec![1], vec![4567]],
    };
    assert_eq!(
        p.to_text(),
        Some("      1  476\n  ------  13|  .  0   \n".to_string())
    );
}

#[test]
fn text_of_the_sample_puzzle() {
    let expected = [
        "                  2  1  1  1  2         \n",
        "            1  4  3  1  2  1  1  5  1   \n",
        "            1  3  1  1  1  2  1  1  1  4\n",
        "          ------------------------------\n",
        "       7 |  .  .  0  0  0  0  0  0  0  .\n",
        " 1  1  1 |  .  0  .  .  .  0  .  .  .  0\n",
        "    2  1 |  0  0  .  .  .  .  .  .  .  0\n",
        " 1  1  1 |  .  0  .  .  .  0  .  .  .  0\n",
        " 1  2  1 |  .  .  0  .  .  .  0  0  .  0\n",
        "    4  2 |  0  0  0  0  .  .  .  0  0  .\n",
        " 2  1  1 |  .  0  0  .  0  .  .  0  .  .\n",
        " 1  1  1 |  .  0  .  .  0  .  .  0  .  .\n",
        "    2  2 |  .  0  0  .  .  .  0  0  .  .\n",
        "       5 |  .  .  0  0  0  0  0  .  .  .\n",
    ]
    .concat();
    assert_eq!(Puzzle::default().to_text(), Some(expected));
}

#[test]
fn numbers_are_written_in_base_ten() {
    assert_eq!(decimal(0), text("0"));
    assert_eq!(decimal(7), text("7"));
    assert_eq!(decimal(10), text("10"));
    assert_eq!(decimal(409), text("409"));
    assert_eq!(decimal(1234567890), text("1234567890"));
    assert_eq!(decimal(usize::MAX), text(&usize::MAX.to_string()));
}

#[test]
fn a_blank_canvas_is_lines_of_spaces() {
    assert_eq!(blank(3, 2), text("   \n   \n"));
    assert_eq!(blank(0, 2), text("\n\n"));
    assert_eq!(blank(3, 0), text(""));
}

#[test]
fn stamping_replaces_one_character() {
    let mut canvas = text("abcdef");
    stamp(&mut canvas, 2, &text("X"));
    assert_eq!(canvas, text("abXdef"));
    stamp(&mut canvas, 0, &text("123"));
    assert_eq!(canvas, text("123bXdef"));
    stamp(&mut canvas, 7, &text("yz"));
    assert_eq!(canvas, text("123bXdeyz"));
    mark(&mut canvas, 1, '-');
    assert_eq!(canvas, text("1-3bXdeyz"));
}

#[test]
fn clue_numbers_are_stamped_tens_first() {
    let mut canvas = text("......");
    stamp_number(&mut canvas, 1, 7);
    assert_eq!(canvas, text(".7...."));
    stamp_number(&mut canvas, 3, 42);
    assert_eq!(canvas, text(".7.42."));
    stamp_number(&mut canvas, 0, 123);
    assert_eq!(canvas, text("137.42."));
}
