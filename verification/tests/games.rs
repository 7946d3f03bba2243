use connect4::games::{play_out, Played};
use connect4::{Board, Move, Player, RandomStrategy, Strategy};

/// Picks the first move, up to a number of times.
struct First {
    left: usize,
}

impl Strategy for First {
    fn pick<'a>(&mut self, moves: &'a [Move]) -> Option<&'a Move> {
        if self.left == 0 {
            return None;
        }
        self.left -= 1;
        moves.first()
    }
}

#[test]
fn first_moves_fill_column_zero_then_x_wins_in_the_bottom_row() {
    let mut strategies = [First { left: 42 }, First { left: 42 }];
    let played = play_out(Board::default(), &mut strategies);
    // X O X O X O fill column 0, then X O X O X O column 1, and so on:
    // X holds the even rows; the first line of four is X's along row 0.
    assert_eq!(played.state, played.board.state());
    assert_eq!(played.state, Some(Some(Player::X)));
    assert_eq!(played.moves, 19);
    assert_eq!(played.board.height(0), 6);
    assert_eq!(played.board.height(3), 1);
    assert_eq!(played.board.height(4), 0);
}

#[test]
fn a_strategy_that_gives_up_stops_the_game() {
    let mut strategies = [First { left: 2 }, First { left: 42 }];
    let played = play_out(Board::default(), &mut strategies);
    assert_eq!(played.state, None);
    assert_eq!(played.moves, 4);
    assert_eq!(played.board.turn, Player::X);
    assert_eq!(played.board.height(0), 4);
}

#[test]
fn a_game_that_has_ended_is_left_as_it_is() {
    let mut board = Board::default();
    for column in 0..4 {
        board = board.play(&Move::new(Player::O, column)).unwrap();
    }
    let mut strategies = [RandomStrategy::new(), RandomStrategy::new()];
    let played = play_out(board, &mut strategies);
    assert_eq!(played, Played { board, state: Some(Some(Player::O)), moves: 0 });
}

#[test]
fn random_players_always_reach_the_end() {
    let mut strategies = [RandomStrategy::new(), RandomStrategy::new()];
    for _ in 0..200 {
        let played = play_out(Board::default(), &mut strategies);
        assert!(played.state.is_some());
        assert_eq!(played.state, played.board.state());
        assert!(played.moves >= 7 && played.moves <= 42);
        let filled: usize = (0..7).map(|c| played.board.height(c)).sum();
        assert_eq!(filled, played.moves);
    }
}
