use nonogram::forcing::{line_slack, solve_line};
use nonogram::{Cell, Puzzle};

fn picture(cells: &[Cell]) -> String {
    cells
        .iter()
        .map(|c| match c {
            Cell::Empty => '.',
            Cell::Filled => '#',
            Cell::Crossed => 'x',
        })
        .collect()
}

fn forced(clues: Vec<usize>, len: usize) -> (String, bool) {
    let mut array = vec![Cell::Empty; len];
    let cells: Vec<usize> = (0..len).collect();
    let changed = solve_line(&mut array, &cells, &clues);
    (picture(&array), changed)
}

fn reference_puzzle() -> Puzzle {
    let mut p = Puzzle::new();
    p.push_clues_row(vec![1, 1]);
    p.push_clues_row(vec![1, 1]);
    p.push_clues_row(vec![0]);
    p.push_clues_row(vec![1, 1]);
    p.push_clues_row(vec![3]);
    p.push_clues_column(vec![1]);
    p.push_clues_column(vec![1, 2]);
    p.push_clues_column(vec![1]);
    p.push_clues_column(vec![1, 2]);
    p.push_clues_column(vec![1]);
    p
}

#[test]
fn slack_is_length_less_runs_and_gaps() {
    assert_eq!(line_slack(&vec![5], 5), Some(0));
    assert_eq!(line_slack(&vec![1], 5), Some(4));
    assert_eq!(line_slack(&vec![4], 5), Some(1));
    assert_eq!(line_slack(&vec![1, 1], 5), Some(2));
    assert_eq!(line_slack(&vec![2, 3, 1], 10), Some(2));
    assert_eq!(line_slack(&vec![0], 5), Some(5));
    assert_eq!(line_slack(&vec![0], 0), Some(0));
    assert_eq!(line_slack(&vec![], 5), Some(5));
    assert_eq!(line_slack(&vec![], 0), Some(0));
    assert_eq!(line_slack(&vec![0, 0], 1), Some(0));
}

#[test]
fn slack_is_none_where_the_runs_do_not_fit() {
    assert_eq!(line_slack(&vec![6], 5), None);
    assert_eq!(line_slack(&vec![3, 2], 5), None);
    assert_eq!(line_slack(&vec![0, 0], 0), None);
    assert_eq!(line_slack(&vec![1], 0), None);
    assert_eq!(line_slack(&vec![usize::MAX, usize::MAX], 5), None);
    assert_eq!(line_slack(&vec![usize::MAX, 1], usize::MAX), None);
    assert_eq!(line_slack(&vec![usize::MAX], usize::MAX), Some(0));
}

#[test]
fn a_run_as_long_as_the_line_fills_it() {
    assert_eq!(forced(vec![5], 5), ("#####".to_string(), true));
}

#[test]
fn a_short_run_forces_nothing() {
    assert_eq!(forced(vec![1], 5), (".....".to_string(), false));
    assert_eq!(forced(vec![2], 5), (".....".to_string(), false));
}

#[test]
fn a_long_run_forces_its_overlap() {
    assert_eq!(forced(vec![4], 5), (".###.".to_string(), true));
    assert_eq!(forced(vec![3], 5), ("..#..".to_string(), true));
}

#[test]
fn several_runs_force_their_overlaps() {
    assert_eq!(forced(vec![1, 3], 5), ("#.###".to_string(), true));
    assert_eq!(forced(vec![1, 1, 1], 5), ("#.#.#".to_string(), true));
    assert_eq!(forced(vec![2, 3, 1], 10), (".....#....".to_string(), true));
    assert_eq!(forced(vec![4, 3], 10), ("..##...#..".to_string(), true));
    assert_eq!(forced(vec![1, 2], 5), ("...#.".to_string(), true));
    assert_eq!(forced(vec![7], 10), ("...####...".to_string(), true));
    assert_eq!(forced(vec![0, 3], 4), (".###".to_string(), true));
}

#[test]
fn the_zero_clue_forces_nothing() {
    assert_eq!(forced(vec![0], 5), (".....".to_string(), false));
    assert_eq!(forced(vec![0], 0), ("".to_string(), false));
    assert_eq!(forced(vec![], 5), (".....".to_string(), false));
    assert_eq!(forced(vec![], 0), ("".to_string(), false));
}

#[test]
fn runs_that_do_not_fit_force_nothing() {
    assert_eq!(forced(vec![6], 5), (".....".to_string(), false));
    assert_eq!(forced(vec![3, 2], 5), (".....".to_string(), false));
    assert_eq!(forced(vec![usize::MAX, 2], 5), (".....".to_string(), false));
    assert_eq!(forced(vec![0, 0], 0), ("".to_string(), false));
}

#[test]
fn a_line_with_a_decided_cell_is_left_alone() {
    for decided in [Cell::Filled, Cell::Crossed] {
        for at in 0..5 {
            let mut array = vec![Cell::Empty; 5];
            array[at] = decided;
            let before = array.clone();
            let cells: Vec<usize> = (0..5).collect();
            assert!(!solve_line(&mut array, &cells, &vec![5]));
            assert_eq!(array, before);
        }
    }
}

#[test]
fn a_line_is_solved_where_its_positions_say() {
    let mut array = vec![Cell::Empty; 12];
    array[0] = Cell::Crossed;
    array[5] = Cell::Filled;
    let cells: Vec<usize> = vec![10, 7, 4, 1];
    assert!(solve_line(&mut array, &cells, &vec![3]));
    assert_eq!(picture(&array), "x...##.#....");
}

#[test]
fn single_forced_row() {
    let mut p = Puzzle::new();
    p.push_clues_row(vec![5]);
    for _ in 0..5 {
        p.push_clues_column(vec![1]);
    }
    assert!(p.solve());
    assert_eq!(p.array, vec![Cell::Filled; 5]);
    assert!(p.verify());
}

#[test]
fn single_forced_column() {
    let mut p = Puzzle::new();
    p.push_clues_column(vec![5]);
    for _ in 0..5 {
        p.push_clues_row(vec![1]);
    }
    assert!(p.solve());
    assert_eq!(p.array, vec![Cell::Filled; 5]);
}

#[test]
fn no_deduction_possible() {
    let mut p = Puzzle::new();
    p.push_clues_row(vec![1]);
    for _ in 0..5 {
        p.push_clues_column(vec![0]);
    }
    assert!(!p.solve());
    assert_eq!(p.array, vec![Cell::Empty; 5]);
    assert!(!p.verify());
    assert!(!p.verify_clues(&vec![1], &p.array));
    assert!(p.verify_clues(&vec![0], &p.array));
}

#[test]
fn partial_forced_overlap() {
    let mut p = Puzzle::new();
    p.push_clues_row(vec![4]);
    for _ in 0..5 {
        p.push_clues_column(vec![0]);
    }
    assert!(!p.solve());
    assert_eq!(picture(&p.array), ".###.");
    assert_eq!(p.get_cell(0, 0), Ok(Cell::Empty));
    assert_eq!(p.get_cell(1, 0), Ok(Cell::Filled));
    assert_eq!(p.get_cell(2, 0), Ok(Cell::Filled));
    assert_eq!(p.get_cell(3, 0), Ok(Cell::Filled));
    assert_eq!(p.get_cell(4, 0), Ok(Cell::Empty));
}

#[test]
fn reference_puzzle_after_solve() {
    let mut p = reference_puzzle();
    let solved = p.solve();
    assert!(!solved);
    assert_eq!(
        picture(&p.array),
        [".....", ".....", ".....", ".#.#.", "..#.."].concat()
    );
    assert!(!p.verify());
}

#[test]
fn solve_rows_then_columns() {
    let mut p = Puzzle::new();
    p.push_clues_row(vec![3]);
    p.push_clues_row(vec![1]);
    p.push_clues_row(vec![0]);
    p.push_clues_column(vec![2]);
    p.push_clues_column(vec![1]);
    p.push_clues_column(vec![3]);
    assert!(p.solve_rows());
    assert_eq!(picture(&p.array), "###......");
    assert!(!p.solve_rows());
    assert_eq!(picture(&p.array), "###......");
    assert!(!p.solve_columns());
    assert_eq!(picture(&p.array), "###......");

    let mut q = Puzzle::new();
    q.push_clues_row(vec![1]);
    q.push_clues_row(vec![3]);
    q.push_clues_row(vec![1]);
    q.push_clues_column(vec![1]);
    q.push_clues_column(vec![3]);
    q.push_clues_column(vec![1]);
    assert!(q.solve_rows());
    assert_eq!(picture(&q.array), "...###...");
    assert!(!q.solve_columns());
    assert_eq!(picture(&q.array), "...###...");
    let mut r = Puzzle::new();
    r.push_clues_row(vec![0]);
    r.push_clues_row(vec![0]);
    r.push_clues_row(vec![0]);
    r.push_clues_column(vec![0]);
    r.push_clues_column(vec![3]);
    r.push_clues_column(vec![2]);
    assert!(!r.solve_rows());
    assert!(r.solve_columns());
    assert_eq!(picture(&r.array), ".#..##.#.");
    assert!(!r.solve_columns());
    assert_eq!(picture(&r.array), ".#..##.#.");
}

#[test]
fn solve_only_fills_cells() {
    let mut p = Puzzle::new();
    p.push_clues_row(vec![3]);
    p.push_clues_row(vec![2]);
    p.push_clues_row(vec![3]);
    p.push_clues_column(vec![3]);
    p.push_clues_column(vec![3]);
    p.push_clues_column(vec![1, 1]);
    assert_eq!(p.set_cell(0, 1, Cell::Filled), Ok(()));
    assert_eq!(p.set_cell(2, 2, Cell::Crossed), Ok(()));
    let before = p.array.clone();
    p.solve();
    assert_eq!(picture(&before), "...#....x");
    assert_eq!(picture(&p.array), "####....x");
    for (i, cell) in before.iter().enumerate() {
        if *cell == Cell::Filled {
            assert_eq!(p.array[i], Cell::Filled);
        }
        assert!(p.array[i] == *cell || (*cell == Cell::Empty && p.array[i] == Cell::Filled));
    }
}

#[test]
fn solve_twice_is_solve_once() {
    let mut puzzles = vec![reference_puzzle(), Puzzle::new(), Puzzle::default()];
    let mut cross = Puzzle::new();
    cross.push_clues_row(vec![1]);
    cross.push_clues_row(vec![3]);
    cross.push_clues_row(vec![1]);
    cross.push_clues_column(vec![1]);
    cross.push_clues_column(vec![3]);
    cross.push_clues_column(vec![1]);
    puzzles.push(cross);
    let mut blank_sample = Puzzle::new();
    for clues in Puzzle::default().row_clues {
        blank_sample.push_clues_row(clues);
    }
    for clues in Puzzle::default().column_clues {
        blank_sample.push_clues_column(clues);
    }
    puzzles.push(blank_sample);
    for mut p in puzzles {
        let first = p.solve();
        let grid = p.array.clone();
        let second = p.solve();
        assert_eq!(first, second);
        assert_eq!(p.array, grid);
    }
}

#[test]
fn solve_of_an_empty_puzzle() {
    let mut p = Puzzle::new();
    assert!(p.solve());
    assert!(p.array.is_empty());
}

#[test]
fn solve_leaves_a_solved_grid_as_it_is() {
    let mut p = Puzzle {
        array: vec![
            Cell::Empty,
            Cell::Filled,
            Cell::Empty,
            Cell::Filled,
            Cell::Empty,
            Cell::Empty,
            Cell::Filled,
            Cell::Empty,
            Cell::Filled,
            Cell::Empty,
            Cell::Empty,
            Cell::Empty,
            Cell::Empty,
            Cell::Empty,
            Cell::Empty,
            Cell::Filled,
            Cell::Empty,
            Cell::Empty,
            Cell::Empty,
            Cell::Filled,
            Cell::Empty,
            Cell::Filled,
            Cell::Filled,
            Cell::Filled,
            Cell::Empty,
        ],
        row_clues: vec![vec![1, 1], vec![1, 1], vec![0], vec![1, 1], vec![3]],
        column_clues: vec![vec![1], vec![2, 1], vec![1], vec![2, 1], vec![1]],
    };
    let before = p.array.clone();
    assert!(!p.solve_rows());
    assert_eq!(picture(&p.array), picture(&before));
}
