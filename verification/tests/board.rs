use connect4::bitboards::{BitBoard, COLS, ROWS};
use connect4::{Board, InvalidMove, Move, Player};

fn play_columns(columns: &[usize]) -> Board {
    let mut board = Board::default();
    for &column in columns {
        let mv = Move::new(board.turn, column);
        board = board.play(&mv).unwrap();
    }
    board
}

const DRAWN_GAME: [usize; 42] = [
    5, 4, 5, 0, 6, 2, 4, 5, 5, 0, 4, 1, 1, 0, 4, 5, 6, 5, 3, 1, 1, 2, 2, 6, 2, 6, 6, 3, 6, 2, 0, 3,
    0, 3, 3, 4, 3, 1, 4, 2, 1, 0,
];

#[test]
fn player_default_is_x() {
    assert_eq!(Player::default(), Player::X);
}

#[test]
fn not_gives_the_other_player() {
    assert_eq!(!Player::X, Player::O);
    assert_eq!(!Player::O, Player::X);
    assert_eq!(Player::X.index(), 0);
    assert_eq!(Player::O.index(), 1);
}

#[test]
fn move_default_is_x_into_column_zero() {
    assert_eq!(Move::default(), Move::new(Player::X, 0));
}

#[test]
fn move_new_keeps_player_and_column() {
    let mv = Move::new(Player::O, 4);
    assert_eq!(mv.player, Player::O);
    assert_eq!(mv.column, 4);
}

#[test]
fn empty_board_has_seven_moves_and_goes_on() {
    let board = Board::default();
    let moves = board.moves();
    assert_eq!(moves.len(), 7);
    for (column, mv) in moves.iter().enumerate() {
        assert_eq!(*mv, Move::new(Player::X, column));
    }
    assert_eq!(board.state(), None);
    assert_eq!(board.turn, Player::X);
    for column in 0..COLS {
        assert_eq!(board.height(column), 0);
    }
}

#[test]
fn indices_go_row_by_row() {
    let cells = Board::indices();
    assert_eq!(cells.len(), 42);
    assert_eq!(cells[0], [0, 0]);
    assert_eq!(cells[6], [0, 6]);
    assert_eq!(cells[7], [1, 0]);
    assert_eq!(cells[41], [5, 6]);
    for (k, cell) in cells.iter().enumerate() {
        assert_eq!(*cell, [k / 7, k % 7]);
    }
}

#[test]
fn six_drops_fill_column_zero() {
    let mut board = Board::default();
    let players = [Player::X, Player::O, Player::X, Player::O, Player::X, Player::O];
    for (n, player) in players.iter().enumerate() {
        assert_eq!(board.turn, *player);
        board = board.play(&Move::new(*player, 0)).unwrap();
        assert_eq!(board.height(0), n + 1);
    }
    assert_eq!(board.height(0), 6);
    for column in 1..COLS {
        assert_eq!(board.height(column), 0);
    }
    for row in 0..ROWS {
        assert_eq!(board.cell(row, 0), Some(players[row]));
        for column in 1..COLS {
            assert_eq!(board.cell(row, column), None);
        }
    }
    let columns: Vec<usize> = board.moves().iter().map(|mv| mv.column).collect();
    assert_eq!(columns, vec![1, 2, 3, 4, 5, 6]);
    assert_eq!(board.state(), None);
}

#[test]
fn a_full_column_takes_no_move() {
    let board = play_columns(&[0, 0, 0, 0, 0, 0]);
    assert_eq!(board.play(&Move::new(Player::X, 0)), Err(InvalidMove));
    assert!(board.play(&Move::new(Player::X, 1)).is_ok());
}

#[test]
fn a_column_off_the_grid_takes_no_move() {
    let board = Board::default();
    assert_eq!(board.play(&Move::new(Player::X, 7)), Err(InvalidMove));
    assert_eq!(board.play(&Move::new(Player::X, 8)), Err(InvalidMove));
    assert_eq!(board.play(&Move::new(Player::X, usize::MAX)), Err(InvalidMove));
    assert!(board.play(&Move::new(Player::X, 6)).is_ok());
}

#[test]
fn four_drops_of_one_player_along_the_bottom_row_win() {
    let mut board = Board::default();
    for column in 0..4 {
        assert_eq!(board.state(), None);
        board = board.play(&Move::new(Player::X, column)).unwrap();
    }
    assert_eq!(board.state(), Some(Some(Player::X)));
}

#[test]
fn x_wins_along_the_bottom_row_in_turn() {
    let board = play_columns(&[0, 0, 1, 1, 2, 2]);
    assert_eq!(board.state(), None);
    let board = board.play(&Move::new(Player::X, 3)).unwrap();
    assert_eq!(board.state(), Some(Some(Player::X)));
}

#[test]
fn o_wins_up_a_column() {
    let board = play_columns(&[0, 6, 1, 6, 0, 6, 1, 6]);
    assert_eq!(board.state(), Some(Some(Player::O)));
}

#[test]
fn x_wins_along_a_diagonal() {
    // X: (0,0) (1,1) (2,2) (3,3)
    let board = play_columns(&[0, 1, 1, 2, 3, 2, 2, 3, 6, 3, 3]);
    assert_eq!(board.cell(3, 3), Some(Player::X));
    assert_eq!(board.state(), Some(Some(Player::X)));
}

#[test]
fn a_full_board_without_a_line_is_a_draw() {
    let mut board = Board::default();
    for (n, &column) in DRAWN_GAME.iter().enumerate() {
        assert_eq!(board.state(), None, "after {} moves", n);
        board = board.play(&Move::new(board.turn, column)).unwrap();
    }
    assert_eq!(board.state(), Some(None));
    assert_eq!(board.moves().len(), 0);
    for column in 0..COLS {
        assert_eq!(board.height(column), 6);
    }
    let rows = ["OOOXOXX", "OXOOXXX", "OOXOXOO", "XXXOXXO", "XOOXOOX", "OXOXXOX"];
    let grid: [[char; 7]; 6] = (&board).into();
    for row in 0..ROWS {
        let text: String = grid[row].iter().collect();
        assert_eq!(text, rows[row]);
    }
}

#[test]
fn where_both_have_a_line_the_win_is_named_for_o() {
    let mut x = BitBoard::default();
    let mut o = BitBoard::default();
    for column in 0..4 {
        x.set(0, column, true);
        o.set(1, column, true);
    }
    let board = Board { boards: [x, o], turn: Player::X };
    assert_eq!(board.state(), Some(Some(Player::O)));
    let only_x = Board { boards: [x, BitBoard::default()], turn: Player::X };
    assert_eq!(only_x.state(), Some(Some(Player::X)));
}

#[test]
fn moves_list_the_open_columns_in_ascending_order() {
    let board = play_columns(&[1, 1, 1, 1, 1, 1, 4, 4, 4, 4, 4, 4, 6]);
    let moves = board.moves();
    let expected: Vec<Move> = [0usize, 2, 3, 5, 6].iter().map(|&c| Move::new(Player::O, c)).collect();
    assert_eq!(moves, expected);
}

#[test]
fn play_gives_a_new_board_and_leaves_the_old_one() {
    let board = play_columns(&[3, 3, 2]);
    let before = board;
    let mv = Move::new(Player::O, 2);
    let first = board.play(&mv);
    let second = board.play(&mv);
    assert_eq!(first, second);
    assert_eq!(board, before);
    let next = first.unwrap();
    assert_ne!(next, board);
    assert_eq!(next.cell(1, 2), Some(Player::O));
    assert_eq!(board.cell(1, 2), None);
    assert_eq!(next.turn, Player::X);
}

#[test]
fn play_puts_the_piece_of_the_move_whoever_is_to_move() {
    let board = Board::default();
    let next = board.play(&Move::new(Player::O, 5)).unwrap();
    assert_eq!(next.cell(0, 5), Some(Player::O));
    assert_eq!(next.turn, Player::O);
    assert!(next.boards[1].get(0, 5));
    assert!(!next.boards[0].get(0, 5));
}

#[test]
fn turn_alternates_with_each_move() {
    let mut board = Board::default();
    for (n, &column) in DRAWN_GAME.iter().enumerate() {
        let expected = if n % 2 == 0 { Player::X } else { Player::O };
        assert_eq!(board.turn, expected);
        board = board.play(&Move::new(board.turn, column)).unwrap();
    }
    assert_eq!(board.turn, Player::X);
}

#[test]
fn heights_never_fall_and_stay_within_the_grid() {
    let mut board = Board::default();
    for &column in DRAWN_GAME.iter() {
        let next = board.play(&Move::new(board.turn, column)).unwrap();
        for c in 0..COLS {
            let expected = if c == column { board.height(c) + 1 } else { board.height(c) };
            assert_eq!(next.height(c), expected);
            assert!(next.height(c) <= 6);
        }
        board = next;
    }
}

#[test]
fn no_cell_belongs_to_both_players() {
    let mut board = Board::default();
    for &column in DRAWN_GAME.iter() {
        board = board.play(&Move::new(board.turn, column)).unwrap();
        for row in 0..ROWS {
            for col in 0..COLS {
                assert!(!(board.boards[0].get(row, col) && board.boards[1].get(row, col)));
                let filled = board.boards[0].get(row, col) || board.boards[1].get(row, col);
                assert_eq!(filled, row < board.height(col));
            }
        }
    }
}

#[test]
fn index_names_the_owner_of_a_cell() {
    let board = play_columns(&[3, 3, 4]);
    assert_eq!(board[[0, 3]], Some(Player::X));
    assert_eq!(board[[1, 3]], Some(Player::O));
    assert_eq!(board[[0, 4]], Some(Player::X));
    assert_eq!(board[[1, 4]], None);
    assert_eq!(board[[5, 6]], None);
}

#[test]
fn grid_of_characters_shows_the_pieces() {
    let board = play_columns(&[3, 3, 4]);
    let grid = <[[char; 7]; 6]>::from(&board);
    for row in 0..ROWS {
        for col in 0..COLS {
            let expected = match (row, col) {
                (0, 3) | (0, 4) => 'X',
                (1, 3) => 'O',
                _ => '.',
            };
            assert_eq!(grid[row][col], expected);
        }
    }
}

fn scan(board: &Board, player: Player) -> bool {
    let at = |row: i32, col: i32| -> bool {
        row >= 0 && row < 6 && col >= 0 && col < 7
            && board.cell(row as usize, col as usize) == Some(player)
    };
    for row in 0..6i32 {
        for col in 0..7i32 {
            for (dr, dc) in [(0, 1), (1, 0), (1, 1), (1, -1)] {
                if (0..4).all(|k| at(row + k * dr, col + k * dc)) {
                    return true;
                }
            }
        }
    }
    false
}

#[test]
fn state_agrees_with_a_scan_of_the_cells() {
    let mut seed: u64 = 88172645463325252;
    let mut wins = 0;
    let mut draws = 0;
    for _ in 0..500 {
        let mut board = Board::default();
        loop {
            let expected = if scan(&board, Player::O) {
                Some(Some(Player::O))
            } else if scan(&board, Player::X) {
                Some(Some(Player::X))
            } else if (0..COLS).all(|c| board.height(c) >= 6) {
                Some(None)
            } else {
                None
            };
            assert_eq!(board.state(), expected);
            match expected {
                Some(Some(_)) => {
                    wins += 1;
                    break;
                }
                Some(None) => {
                    draws += 1;
                    break;
                }
                None => {}
            }
            let moves = board.moves();
            assert!(!moves.is_empty());
            seed ^= seed << 13;
            seed ^= seed >> 7;
            seed ^= seed << 17;
            let mv = moves[(seed % moves.len() as u64) as usize];
            board = board.play(&mv).unwrap();
        }
    }
    assert_eq!(wins + draws, 500);
    assert!(wins > 0);
}
