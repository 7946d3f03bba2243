use connect4::bitboards::{BitBoard, COLS, ROWS};

fn store(cells: &[(usize, usize)]) -> BitBoard {
    let mut bb = BitBoard::default();
    for &(row, col) in cells {
        bb.set(row, col, true);
    }
    bb
}

#[test]
fn default_store_is_empty() {
    let bb = BitBoard::default();
    for row in 0..ROWS {
        for col in 0..COLS {
            assert!(!bb.get(row, col));
        }
    }
    for col in 0..COLS {
        assert_eq!(bb.height(col), 0);
    }
    assert!(!bb.has_four());
}

#[test]
fn set_marks_one_cell_only() {
    let mut bb = BitBoard::default();
    bb.set(2, 3, true);
    for row in 0..ROWS {
        for col in 0..COLS {
            assert_eq!(bb.get(row, col), (row, col) == (2, 3));
        }
    }
}

#[test]
fn set_false_clears_the_cell() {
    let mut bb = store(&[(0, 0), (1, 0), (0, 6)]);
    bb.set(1, 0, false);
    assert!(bb.get(0, 0));
    assert!(!bb.get(1, 0));
    assert!(bb.get(0, 6));
    assert_eq!(bb, store(&[(0, 0), (0, 6)]));
}

#[test]
fn set_twice_is_set_once() {
    let mut bb = store(&[(4, 5)]);
    bb.set(4, 5, true);
    assert_eq!(bb, store(&[(4, 5)]));
}

#[test]
fn height_is_one_above_the_highest_piece() {
    let bb = store(&[(0, 1), (2, 1), (5, 6), (0, 0)]);
    assert_eq!(bb.height(0), 1);
    assert_eq!(bb.height(1), 3);
    assert_eq!(bb.height(2), 0);
    assert_eq!(bb.height(6), 6);
}

#[test]
fn height_of_a_full_column() {
    let bb = store(&[(0, 3), (1, 3), (2, 3), (3, 3), (4, 3), (5, 3)]);
    assert_eq!(bb.height(3), 6);
    assert_eq!(bb.height(2), 0);
    assert_eq!(bb.height(4), 0);
}

#[test]
fn four_along_a_row() {
    assert!(store(&[(0, 0), (0, 1), (0, 2), (0, 3)]).has_four());
    assert!(store(&[(5, 3), (5, 4), (5, 5), (5, 6)]).has_four());
}

#[test]
fn four_up_a_column() {
    assert!(store(&[(0, 0), (1, 0), (2, 0), (3, 0)]).has_four());
    assert!(store(&[(2, 6), (3, 6), (4, 6), (5, 6)]).has_four());
}

#[test]
fn four_along_the_rising_diagonal() {
    assert!(store(&[(0, 0), (1, 1), (2, 2), (3, 3)]).has_four());
    assert!(store(&[(2, 3), (3, 4), (4, 5), (5, 6)]).has_four());
}

#[test]
fn four_along_the_falling_diagonal() {
    assert!(store(&[(3, 0), (2, 1), (1, 2), (0, 3)]).has_four());
    assert!(store(&[(5, 3), (4, 4), (3, 5), (2, 6)]).has_four());
}

#[test]
fn three_in_a_line_are_not_four() {
    assert!(!store(&[(0, 0), (0, 1), (0, 2)]).has_four());
    assert!(!store(&[(0, 0), (1, 0), (2, 0)]).has_four());
    assert!(!store(&[(0, 0), (1, 1), (2, 2)]).has_four());
    assert!(!store(&[(0, 0), (0, 1), (0, 2), (0, 4)]).has_four());
}

#[test]
fn a_line_does_not_run_on_into_the_next_column() {
    // The top of one column and the bottom of the next are no neighbours.
    assert!(!store(&[(3, 0), (4, 0), (5, 0), (0, 1)]).has_four());
    assert!(!store(&[(4, 0), (5, 0), (0, 1), (1, 1)]).has_four());
    // Nor does a diagonal go on from the top row to the bottom row.
    assert!(!store(&[(4, 0), (5, 1), (0, 3), (1, 4)]).has_four());
    assert!(!store(&[(1, 0), (0, 1), (5, 1), (4, 2)]).has_four());
}

#[test]
fn a_full_store_has_four() {
    let mut bb = BitBoard::default();
    for row in 0..ROWS {
        for col in 0..COLS {
            bb.set(row, col, true);
        }
    }
    assert!(bb.has_four());
    for col in 0..COLS {
        assert_eq!(bb.height(col), 6);
    }
}

#[test]
fn has_four_agrees_with_a_scan_of_the_cells() {
    let mut seed: u64 = 0x2545_f491_4f6c_dd1d;
    for _ in 0..2000 {
        let mut bb = BitBoard::default();
        let mut cells = [[false; 7]; 6];
        for row in 0..ROWS {
            for col in 0..COLS {
                seed = seed.wrapping_mul(6364136223846793005).wrapping_add(1442695040888963407);
                if (seed >> 33) % 3 == 0 {
                    bb.set(row, col, true);
                    cells[row][col] = true;
                }
            }
        }
        let at = |row: i32, col: i32| -> bool {
            row >= 0 && row < 6 && col >= 0 && col < 7 && cells[row as usize][col as usize]
        };
        let mut found = false;
        for row in 0..6i32 {
            for col in 0..7i32 {
                for (dr, dc) in [(0, 1), (1, 0), (1, 1), (1, -1)] {
                    if (0..4).all(|k| at(row + k * dr, col + k * dc)) {
                        found = true;
                    }
                }
            }
        }
        assert_eq!(bb.has_four(), found);
    }
}
