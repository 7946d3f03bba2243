use connect4::{Board, Move, Player, RandomStrategy, Strategy};

#[test]
fn random_strategy_picks_one_of_the_moves() {
    let mut strategy = RandomStrategy::new();
    let moves = vec![Move::new(Player::X, 1), Move::new(Player::X, 4), Move::new(Player::X, 6)];
    for _ in 0..200 {
        let choice = strategy.pick(&moves);
        assert!(choice.is_some());
        assert!(moves.contains(choice.unwrap()));
    }
}

#[test]
fn random_strategy_picks_nothing_from_no_moves() {
    let mut strategy = RandomStrategy::new();
    let moves: Vec<Move> = Vec::new();
    assert_eq!(strategy.pick(&moves), None);
}

#[test]
fn random_strategy_picks_the_only_move() {
    let mut strategy = RandomStrategy::new();
    let moves = [Move::new(Player::O, 3)];
    assert_eq!(strategy.pick(&moves), Some(&Move::new(Player::O, 3)));
}

#[test]
fn random_strategy_reaches_every_move() {
    let mut strategy = RandomStrategy::new();
    let moves = Board::default().moves();
    let mut seen = [false; 7];
    for _ in 0..2000 {
        seen[strategy.pick(&moves).unwrap().column] = true;
    }
    assert_eq!(seen, [true; 7]);
}

#[test]
fn two_random_strategies_play_a_game_to_its_end() {
    let mut strategies = [RandomStrategy::new(), RandomStrategy::new()];
    for _ in 0..50 {
        let mut board = Board::default();
        let mut played = 0;
        while board.state().is_none() {
            let moves = board.moves();
            let mv = *strategies[board.turn.index()].pick(&moves).unwrap();
            assert_eq!(mv.player, board.turn);
            board = board.play(&mv).unwrap();
            played += 1;
        }
        assert!(played >= 7 && played <= 42);
    }
}
