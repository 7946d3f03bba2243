use connect4::grid_patterns::four_in_a_row_patterns;
use connect4::{find_four_in_a_row, Board, Grid, Move, Pattern, Player};

fn grid(text: &str) -> [[char; 7]; 6] {
    let mut cells = text.parse::<Grid>().unwrap().0;
    for row in cells.iter_mut() {
        for cell in row.iter_mut() {
            if *cell == '\0' {
                *cell = '.';
            }
        }
    }
    cells
}

#[test]
fn the_four_patterns_are_the_four_directions() {
    let patterns = four_in_a_row_patterns();
    assert_eq!(patterns[0], Pattern::new([[0, 0], [1, 1], [2, 2], [3, 3]]));
    assert_eq!(patterns[1], Pattern::new([[0, 3], [1, 2], [2, 1], [3, 0]]));
    assert_eq!(patterns[2], Pattern::new([[0, 0], [0, 1], [0, 2], [0, 3]]));
    assert_eq!(patterns[3], Pattern::new([[0, 0], [1, 0], [2, 0], [3, 0]]));
    assert_ne!(patterns[2], patterns[3]);
}

#[test]
fn matches_finds_the_first_place_column_by_column() {
    let cells = grid("XX.XX..|.......|XX.....");
    let pair = Pattern::new([[0, 0], [0, 1]]);
    assert_eq!(pair.matches(&cells, |ch| ch == 'X'), Some([[0, 0], [0, 1]]));
    let cells = grid("...XX..|.......|XX.....");
    assert_eq!(pair.matches(&cells, |ch| ch == 'X'), Some([[2, 0], [2, 1]]));
    let cells = grid("...XX..|.......|.XX....");
    assert_eq!(pair.matches(&cells, |ch| ch == 'X'), Some([[2, 1], [2, 2]]));
    assert_eq!(pair.matches(&cells, |ch| ch == 'O'), None);
}

#[test]
fn matches_keeps_the_order_of_the_cells_of_the_pattern() {
    let cells = grid("..X....|.X.....");
    let falling = Pattern::new([[0, 1], [1, 0]]);
    assert_eq!(falling.matches(&cells, |ch| ch == 'X'), Some([[0, 2], [1, 1]]));
}

#[test]
fn matches_reaches_the_last_place_of_the_grid() {
    let cells = grid("|||||......X");
    let single = Pattern::new([[0, 0]]);
    assert_eq!(single.matches(&cells, |ch| ch == 'X'), Some([[5, 6]]));
    let pair = Pattern::new([[0, 0], [0, 1]]);
    let cells = grid("|||||.....XX");
    assert_eq!(pair.matches(&cells, |ch| ch == 'X'), Some([[5, 5], [5, 6]]));
}

#[test]
fn a_pattern_larger_than_the_grid_matches_nowhere() {
    let cells = [['X'; 7]; 6];
    let wide = Pattern::new([[0, 0], [0, 7]]);
    assert_eq!(wide.matches(&cells, |ch| ch == 'X'), None);
    let tall = Pattern::new([[6, 0], [0, 0]]);
    assert_eq!(tall.matches(&cells, |ch| ch == 'X'), None);
    let fitting = Pattern::new([[5, 0], [0, 6]]);
    assert_eq!(fitting.matches(&cells, |ch| ch == 'X'), Some([[5, 0], [0, 6]]));
}

#[test]
fn matches_works_on_grids_of_other_sizes() {
    let cells = [['a', 'b', 'c'], ['d', 'b', 'f']];
    let column = Pattern::new([[0, 0], [1, 0]]);
    assert_eq!(column.matches(&cells, |ch| ch == 'b'), Some([[0, 1], [1, 1]]));
    assert_eq!(column.matches(&cells, |ch| ch == 'a'), None);
}

#[test]
fn no_line_on_an_empty_grid() {
    assert_eq!(find_four_in_a_row(&grid("")), None);
    assert_eq!(find_four_in_a_row(&[['\0'; 7]; 6]), None);
    assert_eq!(find_four_in_a_row(&grid("XXX.XXX|OOO.OOO")), None);
}

#[test]
fn finds_a_line_in_each_direction() {
    assert_eq!(
        find_four_in_a_row(&grid("|..XXXX.")),
        Some([[1, 2], [1, 3], [1, 4], [1, 5]])
    );
    assert_eq!(
        find_four_in_a_row(&grid("||......O|......O|......O|......O")),
        Some([[2, 6], [3, 6], [4, 6], [5, 6]])
    );
    assert_eq!(
        find_four_in_a_row(&grid("X|.X|..X|...X")),
        Some([[0, 0], [1, 1], [2, 2], [3, 3]])
    );
    assert_eq!(
        find_four_in_a_row(&grid("||......O|.....O|....O|...O")),
        Some([[2, 6], [3, 5], [4, 4], [5, 3]])
    );
}

#[test]
fn x_is_found_before_o_and_diagonals_before_rows() {
    // O has a diagonal, X a row: X is looked for first.
    let cells = grid("O..XXXX|.O.....|..O....|...O...");
    assert_eq!(find_four_in_a_row(&cells), Some([[0, 3], [0, 4], [0, 5], [0, 6]]));
    // X has a row and a diagonal: the diagonal is looked for first.
    let cells = grid("XXXX...|.X.....|..X....|...X...");
    assert_eq!(find_four_in_a_row(&cells), Some([[0, 0], [1, 1], [2, 2], [3, 3]]));
    // Two rows of X: the one that starts in the lower column.
    let cells = grid("...XXXX|XXXX...");
    assert_eq!(find_four_in_a_row(&cells), Some([[1, 0], [1, 1], [1, 2], [1, 3]]));
    // A row before a column.
    let cells = grid("XXXX..O|......O|......O|......O");
    assert_eq!(find_four_in_a_row(&cells), Some([[0, 0], [0, 1], [0, 2], [0, 3]]));
}

#[test]
fn the_scan_of_a_board_agrees_with_its_state() {
    let mut seed: u64 = 0x9e37_79b9_7f4a_7c15;
    for _ in 0..300 {
        let mut board = Board::default();
        loop {
            let cells: [[char; 7]; 6] = (&board).into();
            let found = find_four_in_a_row(&cells);
            let won = matches!(board.state(), Some(Some(_)));
            assert_eq!(found.is_some(), won);
            if let Some(line) = found {
                let owner = board.cell(line[0][0], line[0][1]);
                assert!(owner.is_some());
                for cell in line.iter() {
                    assert_eq!(board.cell(cell[0], cell[1]), owner);
                }
            }
            if board.state().is_some() {
                break;
            }
            let moves = board.moves();
            seed = seed.wrapping_mul(6364136223846793005).wrapping_add(1442695040888963407);
            let mv: Move = moves[((seed >> 33) % moves.len() as u64) as usize];
            board = board.play(&mv).unwrap();
        }
    }
    let _ = Player::X;
}
