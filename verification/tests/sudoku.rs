use fldemos::sudoku::Model;

fn board(rows: [&str; 9]) -> Model {
    let mut m = Model::new();
    for (r, row) in rows.iter().enumerate() {
        for (c, ch) in row.chars().enumerate() {
            let v = if ch == '.' { 0 } else { ch.to_digit(10).unwrap() as i32 };
            m.set(r, c, v);
        }
    }
    m
}

fn valid_solution(g: &[[i32; 9]; 9]) -> bool {
    for i in 0..9 {
        let mut row = [false; 10];
        let mut col = [false; 10];
        let mut bx = [false; 10];
        for k in 0..9 {
            for (seen, v) in [
                (&mut row, g[i][k]),
                (&mut col, g[k][i]),
                (&mut bx, g[(i / 3) * 3 + k / 3][(i % 3) * 3 + k % 3]),
            ] {
                if !(1..=9).contains(&v) || seen[v as usize] {
                    return false;
                }
                seen[v as usize] = true;
            }
        }
    }
    true
}

const PUZZLE: [&str; 9] = [
    "53..7....",
    "6..195...",
    ".98....6.",
    "8...6...3",
    "4..8.3..1",
    "7...2...6",
    ".6....28.",
    "...419..5",
    "....8..79",
];

#[test]
fn solves_a_classic_puzzle() {
    let mut m = board(PUZZLE);
    assert!(m.solvable());
    assert!(m.solve());
    assert!(valid_solution(&m.grid));
    assert_eq!(m.grid[0], [5, 3, 4, 6, 7, 8, 9, 1, 2]);
    assert_eq!(m.grid[8], [3, 4, 5, 2, 8, 6, 1, 7, 9]);
}

#[test]
fn given_cells_are_kept() {
    let before = board(PUZZLE);
    let mut m = before;
    assert!(m.solve());
    for r in 0..9 {
        for c in 0..9 {
            if before.grid[r][c] != 0 {
                assert_eq!(m.grid[r][c], before.grid[r][c]);
            }
        }
    }
}

#[test]
fn empty_board_gets_the_first_solution_in_reading_order() {
    let mut m = Model::new();
    assert!(m.solve());
    assert!(valid_solution(&m.grid));
    assert_eq!(m.grid[0], [1, 2, 3, 4, 5, 6, 7, 8, 9]);
    assert_eq!(m.grid[1], [4, 5, 6, 7, 8, 9, 1, 2, 3]);
}

#[test]
fn repeated_digit_is_not_solvable() {
    let mut m = Model::new();
    m.set(0, 0, 5);
    m.set(0, 8, 5);
    assert!(!m.solvable());
    let mut n = Model::new();
    n.set(0, 0, 5);
    n.set(8, 0, 5);
    assert!(!n.solvable());
    let mut b = Model::new();
    b.set(0, 0, 5);
    b.set(2, 2, 5);
    assert!(!b.solvable());
    let mut ok = Model::new();
    ok.set(0, 0, 5);
    ok.set(4, 4, 5);
    assert!(ok.solvable());
}

#[test]
fn unsolvable_board_is_left_unchanged() {
    // The first row leaves only 9 for its last cell, but column 8 has a 9.
    let mut m = board([
        "12345678.",
        "........9",
        ".........",
        ".........",
        ".........",
        ".........",
        ".........",
        ".........",
        ".........",
    ]);
    assert!(m.solvable());
    let before = m.grid;
    assert!(!m.solve());
    assert_eq!(m.grid, before);
}

#[test]
fn possible_checks_row_column_and_box() {
    let mut m = Model::new();
    m.set(0, 5, 7);
    m.set(6, 1, 3);
    m.set(2, 2, 9);
    assert!(!m.possible(0, 0, 7));
    assert!(!m.possible(3, 1, 3));
    assert!(!m.possible(1, 1, 9));
    assert!(m.possible(1, 1, 4));
    assert!(m.possible(4, 4, 7));
}

#[test]
fn next_cell_is_the_first_empty_one() {
    let mut m = Model::new();
    assert_eq!(m.find_next_cell2fill(), (0, 0));
    m.set(0, 0, 1);
    assert_eq!(m.find_next_cell2fill(), (0, 1));
    let full = {
        let mut f = Model::new();
        assert!(f.solve());
        f
    };
    assert_eq!(full.find_next_cell2fill(), (99, 99));
}

#[test]
fn solve_button_reports_alerts() {
    let mut bad = Model::new();
    bad.set(0, 0, 5);
    bad.set(0, 1, 5);
    let before = bad.grid;
    assert_eq!(bad.solve_pressed(), 1);
    assert_eq!(bad.grid, before);

    let mut stuck = board([
        "12345678.",
        "........9",
        ".........",
        ".........",
        ".........",
        ".........",
        ".........",
        ".........",
        ".........",
    ]);
    assert_eq!(stuck.solve_pressed(), 9);

    let mut fine = board(PUZZLE);
    assert_eq!(fine.solve_pressed(), 0);
    assert!(valid_solution(&fine.grid));
}

#[test]
fn clear_empties_the_board() {
    let mut m = board(PUZZLE);
    m.clear();
    assert_eq!(m.grid, [[0; 9]; 9]);
}
