use nonogram::{Cell, Puzzle};

fn text_of(cells: &str, rows: &[&[usize]], columns: &[&[usize]]) -> Option<String> {
    let p = Puzzle {
        array: cells
            .chars()
            .map(|c| match c {
                'F' => Cell::Filled,
                'X' => Cell::Crossed,
                _ => Cell::Empty,
            })
            .collect(),
        row_clues: rows.iter().map(|c| c.to_vec()).collect(),
        column_clues: columns.iter().map(|c| c.to_vec()).collect(),
    };
    p.to_text()
}

#[test]
fn rendered_texts_1() {
    assert_eq!(
        text_of("FEXE", &[&[1], &[8, 12345]], &[&[8], &[]]),
        Some("         8   \n       ------\n    1 |  0  .\n 8  15|4 /  .   \n".to_string())
    );
    assert_eq!(
        text_of("EXEE", &[&[5, 8, 78]], &[&[3, 3, 66], &[], &[], &[21]]),
        Some("            3         \n            3         \n            66       21          ------------\n 5  8  78|  .  /  .  .\n".to_string())
    );
    assert_eq!(
        text_of("XEXEEF", &[&[], &[157, 61]], &[&[7], &[59, 0, 0], &[65, 8]]),
        Some("            59  \n            0  65         7  0  8\n       ---------\n      |  /  .  /\n 17  6|  .  .  0 \n".to_string())
    );
    assert_eq!(
        text_of("", &[&[], &[934, 83, 7], &[13], &[]], &[]),
        Some("          \n         |\n 94  83 7| \n      13| \n        | \n".to_string())
    );
    assert_eq!(
        text_of("", &[&[6, 1000, 238]], &[]),
        Some("          \n 6  100  |8  \n".to_string())
    );
    assert_eq!(
        text_of("EX", &[&[21]], &[&[0], &[]]),
        Some("      0   \n    ------\n 21|  .  /\n".to_string())
    );
    assert_eq!(
        text_of("XFFEFFEFFXXXFXFE", &[&[4, 1, 6], &[4, 3], &[], &[0, 11, 1]], &[&[64], &[6], &[7, 6], &[765]]),
        Some("                  7   \n            64 6  6  75\n         ------------ \n4  1  6 |  /  0  0  . \n   4  3 |  0  0  .  0 \n        |  0  /  /  / \n0  11 1 |  0  /  0  . \n".to_string())
    );
    assert_eq!(
        text_of("", &[&[0], &[702]], &[]),
        Some("    \n 0 |\n 72| \n".to_string())
    );
}

#[test]
fn rendered_texts_2() {
    assert_eq!(
        text_of("XEEEXEEFFEEEEXEE", &[&[], &[], &[], &[2]], &[&[8, 84], &[4, 7, 10], &[], &[29, 8, 178]]),
        Some("         4     29      8  7     8\n      84 10    18\n   ------------ \n  |  /  .  .  . \n  |  /  .  .  0 \n  |  0  .  .  . \n2 |  .  /  .  . \n".to_string())
    );
    assert_eq!(
        text_of("FFF", &[&[3, 9], &[495, 81, 61], &[]], &[&[93]]),
        Some("            93          ---\n    3  9 |  0\n 45  81 6|  0 \n        |  0 \n".to_string())
    );
    assert_eq!(
        text_of("XEF", &[&[37, 3], &[2], &[7, 7]], &[&[22]]),
        Some("         22       ---\n 37 3 |  /\n    2 |  .\n 7  7 |  0\n".to_string())
    );
    assert_eq!(
        text_of("XE", &[&[], &[6, 9]], &[&[23, 79, 7]]),
        Some("         23         79         7\n       ---\n      |  /\n 6  9 |  .\n".to_string())
    );
    assert_eq!(
        text_of("FFFEFEEFX", &[&[43, 9, 4], &[7, 12, 6], &[482, 86]], &[&[], &[1, 2], &[9]]),
        Some("               1   \n               2  9\n          ---------\n 43 9  4 |  0  0  0\n 7  12 6 |  .  0  .\n    42  8|  .  0  / \n".to_string())
    );
    assert_eq!(
        text_of("", &[], &[&[], &[9, 7, 6], &[]]),
        Some("      9   \n      7   \n      6   \n ---------\n".to_string())
    );
    assert_eq!(
        text_of("", &[], &[]),
        Some(" \n".to_string())
    );
    assert_eq!(
        text_of("", &[], &[&[6, 3, 8], &[0]]),
        Some("   6   \n   3   \n   8  0\n ------\n".to_string())
    );
}

#[test]
fn rendered_texts_3() {
    assert_eq!(
        text_of("XEFE", &[&[37], &[4, 8], &[], &[7]], &[&[217, 7, 62]]),
        Some("         27\n         7\n         62      --- \n   37|  / \n4  8 |  . \n     |  0 \n   7 |  . \n".to_string())
    );
    assert_eq!(
        text_of("", &[], &[&[8], &[52, 474], &[0, 8]]),
        Some("      52 0\n   8  44 8 \n--------- \n".to_string())
    );
    assert_eq!(
        text_of("FXFX", &[&[]], &[&[310, 96, 12345], &[41, 3, 219], &[9, 6], &[255, 0, 0]]),
        Some("   30 41    25 \n   963  9  0 \n   152946  0 ------------ |  0 \n/  0  /      \n".to_string())
    );
    assert_eq!(
        text_of("", &[&[8, 7], &[], &[572], &[2]], &[]),
        Some("       \n 8  7 |\n      |\n    52| \n   2 | \n".to_string())
    );
    assert_eq!(
        text_of("XXEXEEFE", &[&[217, 10000000000000000000], &[4, 3], &[5, 0, 7], &[95]], &[&[], &[]]),
        Some("          ------\n    27  1|00/00/0000040030|  .  /  5  0  7 |  .  .  \n     95|  0  .  \n                \n".to_string())
    );
    assert_eq!(
        text_of("EEEF", &[&[69], &[6]], &[&[], &[13]]),
        Some("         13    ------\n 69|  .  .\n 6 |  .  0\n".to_string())
    );
    assert_eq!(
        text_of("", &[&[2, 8, 7], &[], &[76, 6]], &[]),
        Some("          \n 2  8  7 |\n         |\n    76 6 |\n".to_string())
    );
    assert_eq!(
        text_of("EEEEEXFXF", &[&[12345, 9, 6], &[], &[]], &[&[9], &[74, 2], &[18446744073709551615]]),
        Some("               74  \n            9  2  154467440737---------  1534  9 |6 .  .  . \n        |  .  .  / \n        |  0  /  0 \n                   \n".to_string())
    );
}
