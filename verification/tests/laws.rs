use nonogram::{Cell, Puzzle};

struct Dice(u64);

impl Dice {
    fn roll(&mut self, sides: u64) -> u64 {
        self.0 = self
            .0
            .wrapping_mul(6364136223846793005)
            .wrapping_add(1442695040888963407);
        (self.0 >> 33) % sides
    }
}

fn runs_of(line: &[Cell]) -> Vec<usize> {
    let mut runs = vec![];
    let mut run = 0;
    for cell in line {
        if *cell == Cell::Filled {
            run += 1;
        } else if run > 0 {
            runs.push(run);
            run = 0;
        }
    }
    if run > 0 {
        runs.push(run);
    }
    if runs.is_empty() {
        runs.push(0);
    }
    runs
}

fn picture(dice: &mut Dice) -> (usize, usize, Vec<Cell>) {
    let height = 1 + dice.roll(6) as usize;
    let width = 1 + dice.roll(6) as usize;
    let density = 1 + dice.roll(4);
    let cells = (0..height * width)
        .map(|_| {
            if dice.roll(5) < density {
                Cell::Filled
            } else {
                Cell::Empty
            }
        })
        .collect();
    (height, width, cells)
}

fn puzzle_of(height: usize, width: usize, cells: &[Cell]) -> Puzzle {
    let mut p = Puzzle::new();
    for y in 0..height {
        p.push_clues_row(runs_of(&cells[y * width..(y + 1) * width]));
    }
    for x in 0..width {
        let column: Vec<Cell> = (0..height).map(|y| cells[y * width + x]).collect();
        p.push_clues_column(runs_of(&column));
    }
    p
}

#[test]
fn a_picture_verifies_against_its_own_runs() {
    let mut dice = Dice(1);
    for _ in 0..200 {
        let (height, width, cells) = picture(&mut dice);
        let mut p = puzzle_of(height, width, &cells);
        assert_eq!(p.array, vec![Cell::Empty; height * width]);
        p.array = cells.clone();
        assert!(p.verify());
        let at = dice.roll((height * width) as u64) as usize;
        p.array[at] = if cells[at] == Cell::Filled {
            Cell::Crossed
        } else {
            Cell::Filled
        };
        assert!(!p.verify());
    }
}

#[test]
fn the_solver_fills_only_what_the_picture_has_filled() {
    let mut dice = Dice(2);
    let mut solved = 0;
    for _ in 0..200 {
        let (height, width, cells) = picture(&mut dice);
        let mut p = puzzle_of(height, width, &cells);
        let verdict = p.solve();
        for (i, cell) in p.array.iter().enumerate() {
            assert!(*cell == Cell::Empty || *cell == Cell::Filled);
            if *cell == Cell::Filled {
                assert_eq!(cells[i], Cell::Filled);
            }
        }
        assert_eq!(verdict, p.verify());
        if verdict {
            solved += 1;
            assert_eq!(p.array, cells);
        }
    }
    assert!(solved > 0);
}

#[test]
fn the_solver_keeps_what_is_filled_and_settles_at_once() {
    let mut dice = Dice(3);
    for _ in 0..200 {
        let (height, width, cells) = picture(&mut dice);
        let mut p = puzzle_of(height, width, &cells);
        for _ in 0..dice.roll(3) {
            let at = dice.roll((height * width) as u64) as usize;
            p.array[at] = if dice.roll(2) == 0 {
                Cell::Filled
            } else {
                Cell::Crossed
            };
        }
        let before = p.array.clone();
        let first = p.solve();
        let after = p.array.clone();
        for (i, cell) in before.iter().enumerate() {
            assert!(after[i] == *cell || (*cell == Cell::Empty && after[i] == Cell::Filled));
        }
        assert!(!p.solve_rows());
        assert!(!p.solve_columns());
        assert_eq!(p.array, after);
        let second = p.solve();
        assert_eq!(first, second);
        assert_eq!(p.array, after);
    }
}
