//! A game played out between two strategies.
use crate::bitboards::{COLS, ROWS};
use crate::board::{Board, InvalidMove, Move, Player};
use crate::strategies::Strategy;
use vstd::prelude::*;

verus! {

/// How a game went.
#[derive(Clone, Copy, Debug, PartialEq, Eq)]
pub struct Played {
    /// The board when the game stopped.
    pub board: Board,
    /// The state of that board. `None` says that the player to move found
    /// no move.
    pub state: Option<Option<Player>>,
    /// The number of moves that were played.
    pub moves: usize,
}

impl Board {
    /// The heights of the seven columns, added up.
    pub open spec fn filled(self) -> int {
        self.spec_height(0) + self.spec_height(1) + self.spec_height(2) + self.spec_height(3)
            + self.spec_height(4) + self.spec_height(5) + self.spec_height(6)
    }

    /// A move fills one cell more, and there are 42 cells.
    pub proof fn lemma_play_fills(self, mv: Move)
        requires
            self.spec_play(mv) is Ok,
        ensures
            self.spec_play(mv).unwrap().filled() == self.filled() + 1,
            0 <= self.filled() <= ROWS * COLS,
    {
        self.lemma_play_height(mv, 0);
        self.lemma_play_height(mv, 1);
        self.lemma_play_height(mv, 2);
        self.lemma_play_height(mv, 3);
        self.lemma_play_height(mv, 4);
        self.lemma_play_height(mv, 5);
        self.lemma_play_height(mv, 6);
        self.lemma_filled_bounds();
    }

    /// Between no cell and all 42 are filled.
    pub proof fn lemma_filled_bounds(self)
        ensures
            0 <= self.filled() <= ROWS * COLS,
    {
        self.lemma_height_bounds(0);
        self.lemma_height_bounds(1);
        self.lemma_height_bounds(2);
        self.lemma_height_bounds(3);
        self.lemma_height_bounds(4);
        self.lemma_height_bounds(5);
        self.lemma_height_bounds(6);
    }
}

/// Plays from `board` until the game has ended or the player to move finds
/// no move: in turn the strategy of the player to move picks among the legal
/// moves, `strategies[0]` for `X` and `strategies[1]` for `O`.
pub fn play_out<S: Strategy>(board: Board, strategies: &mut [S; 2]) -> (played: Played)
    ensures
        played.state == played.board.spec_state(),
        exists|moves: Seq<Move>|
            moves.len() == played.moves && #[trigger] board.legal_game(moves) && board.play_all(
                moves,
            ) == Ok::<Board, InvalidMove>(played.board),
        played.board.filled() == board.filled() + played.moves,
        old(strategies)[0].resolute() && old(strategies)[1].resolute() ==> played.state is Some,
{
    let mut current = board;
    let mut count: usize = 0;
    let ghost mut played: Seq<Move> = Seq::empty();
    proof {
        board.lemma_filled_bounds();
    }
    loop
        invariant
            played.len() == count,
            board.legal_game(played),
            board.play_all(played) == Ok::<Board, InvalidMove>(current),
            current.filled() == board.filled() + count,
            0 <= board.filled(),
            current.filled() <= ROWS * COLS,
            old(strategies)[0].resolute() ==> strategies[0].resolute(),
            old(strategies)[1].resolute() ==> strategies[1].resolute(),
        decreases ROWS * COLS - current.filled(),
    {
        let state = current.state();
        if state.is_some() {
            return Played { board: current, state, moves: count };
        }
        let moves = current.moves();
        let i = current.turn.index();
        match strategies[i].pick(moves.as_slice()) {
            Some(mv) => {
                proof {
                    current.lemma_legal_move(*mv);
                    current.lemma_play_fills(*mv);
                    current.spec_play(*mv).unwrap().lemma_filled_bounds();
                    assert(played.push(*mv).drop_last() =~= played);
                    played = played.push(*mv);
                }
                current = current.play(mv).unwrap();
                count += 1;
            },
            None => {
                proof {
                    current.lemma_no_moves();
                }
                return Played { board: current, state, moves: count };
            },
        }
    }
}

} // verus!
