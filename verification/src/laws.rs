//! What holds of the rules: of the legal moves, of the boards that play can
//! reach, and of the end of the game.
use crate::bitboards::{BitBoard, COLS, ROWS};
use crate::board::{piece, Board, InvalidMove, Move, Player};
use crate::grid_patterns::{four_hold, four_in_a_row, holds, lemma_run_at, piece_of, run_at};
use vstd::prelude::*;

verus! {

impl Board {
    /// The stores share no cell, hold pieces on the grid only, and each
    /// column is filled from the bottom up to its height, without a gap.
    pub open spec fn wf(self) -> bool {
        &&& self.store(Player::X).wf()
        &&& self.store(Player::O).wf()
        &&& forall|row: int, col: int|
            !(#[trigger] self.store(Player::X)@.contains((row, col)) && self.store(
                Player::O,
            )@.contains((row, col)))
        &&& forall|row: int, col: int|
            0 <= row < ROWS && 0 <= col < COLS ==> (#[trigger] self.spec_cell(row, col) is Some
                <==> row < self.spec_height(col))
    }

    /// The board after the moves were played in turn, or the error of the
    /// first that was invalid.
    pub open spec fn play_all(self, moves: Seq<Move>) -> Result<Board, InvalidMove>
        decreases moves.len(),
    {
        if moves.len() == 0 {
            Ok(self)
        } else {
            match self.play_all(moves.drop_last()) {
                Ok(board) => board.spec_play(moves.last()),
                Err(e) => Err(e),
            }
        }
    }

    /// Each of the moves, played in turn, is one of the legal moves of the
    /// board it is played on.
    pub open spec fn legal_game(self, moves: Seq<Move>) -> bool
        decreases moves.len(),
    {
        moves.len() == 0 || (self.legal_game(moves.drop_last()) && match self.play_all(
            moves.drop_last(),
        ) {
            Ok(board) => board.spec_moves().contains(moves.last()),
            Err(_) => false,
        })
    }

    /// Some sequence of moves leads from the empty board to this one.
    pub open spec fn reachable(self) -> bool {
        exists|moves: Seq<Move>| #[trigger]
            Board::spec_default().play_all(moves) == Ok::<Board, InvalidMove>(self)
    }

    /// The four cells that start at `(row, col)` and go on by `(dr, dc)` all
    /// belong to `player`.
    pub open spec fn four_of(self, player: Player, row: int, col: int, dr: int, dc: int) -> bool {
        &&& self.spec_cell(row, col) == Some(player)
        &&& self.spec_cell(row + dr, col + dc) == Some(player)
        &&& self.spec_cell(row + 2 * dr, col + 2 * dc) == Some(player)
        &&& self.spec_cell(row + 3 * dr, col + 3 * dc) == Some(player)
    }

    /// Four cells of `player` in a line start at `(row, col)`: along the row,
    /// up the column, or along one of the two diagonals.
    pub open spec fn line_of(self, player: Player, row: int, col: int) -> bool {
        ||| self.four_of(player, row, col, 0, 1)
        ||| self.four_of(player, row, col, 1, 0)
        ||| self.four_of(player, row, col, 1, 1)
        ||| self.four_of(player, row, col, 1, -1)
    }

    /// Somewhere on the grid `player` holds four cells in a line.
    pub open spec fn has_four_of(self, player: Player) -> bool {
        exists|row: int, col: int| #[trigger] self.line_of(player, row, col)
    }

    /// The empty board is well formed.
    pub proof fn lemma_default_wf()
        ensures
            Board::spec_default().wf(),
    {
        let board = Board::spec_default();
        BitBoard::lemma_empty();
        assert forall|row: int, col: int| 0 <= row < ROWS && 0 <= col < COLS implies (
        #[trigger] board.spec_cell(row, col) is Some <==> row < board.spec_height(col)) by {
            BitBoard::empty().lemma_top_unique(col, ROWS as int, 0);
        }
    }

    /// A column's height lies between 0 and the number of rows.
    pub proof fn lemma_height_bounds(self, column: int)
        ensures
            0 <= self.spec_height(column) <= ROWS,
    {
        self.store(Player::X).lemma_top_is_highest(column, ROWS as int);
        self.store(Player::O).lemma_top_is_highest(column, ROWS as int);
    }

    /// A move raises the height of its column by one and leaves the other
    /// columns as they were: no height ever falls.
    pub proof fn lemma_play_height(self, mv: Move, column: int)
        requires
            self.spec_play(mv) is Ok,
        ensures
            self.spec_play(mv).unwrap().spec_height(column) == if column == mv.column {
                self.spec_height(column) + 1
            } else {
                self.spec_height(column)
            },
            self.spec_height(column) <= self.spec_play(mv).unwrap().spec_height(column),
    {
        let next = self.spec_play(mv).unwrap();
        let h = self.spec_height(mv.column as int);
        let mover = self.store(mv.player);
        let moved = next.store(mv.player);
        self.lemma_height_bounds(mv.column as int);
        mover.lemma_set(h, mv.column as int, true);
        assert(next.store(mv.player.other()) == self.store(mv.player.other()));
        mover.lemma_top_is_highest(column, ROWS as int);
        if column == mv.column {
            moved.lemma_top_unique(column, ROWS as int, h + 1);
            self.store(mv.player.other()).lemma_top_is_highest(column, ROWS as int);
        } else {
            moved.lemma_top_unique(column, ROWS as int, mover.spec_height(column));
        }
    }

    /// A move on a well-formed board gives a well-formed board.
    pub proof fn lemma_play_wf(self, mv: Move)
        requires
            self.wf(),
            self.spec_play(mv) is Ok,
        ensures
            self.spec_play(mv).unwrap().wf(),
    {
        let next = self.spec_play(mv).unwrap();
        let col = mv.column as int;
        let h = self.spec_height(col);
        let mover = self.store(mv.player);
        let rival = self.store(mv.player.other());
        self.lemma_height_bounds(col);
        mover.lemma_set(h, col, true);
        assert(next.store(mv.player.other()) == rival);
        assert(next.store(mv.player)@ == mover@.insert((h, col)));
        rival.lemma_top_is_highest(col, ROWS as int);
        mover.lemma_top_is_highest(col, ROWS as int);
        assert forall|row: int, c: int|
            0 <= row < ROWS && 0 <= c < COLS implies (#[trigger] next.spec_cell(row, c) is Some
            <==> row < next.spec_height(c)) by {
            self.lemma_play_height(mv, c);
            assert(self.spec_cell(row, c) is Some <==> row < self.spec_height(c));
        }
    }

    /// Every board that play can reach is well formed.
    pub proof fn lemma_play_all_wf(self, moves: Seq<Move>)
        requires
            self.wf(),
            self.play_all(moves) is Ok,
        ensures
            self.play_all(moves).unwrap().wf(),
        decreases moves.len(),
    {
        if moves.len() > 0 {
            self.lemma_play_all_wf(moves.drop_last());
            self.play_all(moves.drop_last()).unwrap().lemma_play_wf(moves.last());
        }
    }

    /// On a board that play can reach, no cell belongs to both players, each
    /// column is filled from the bottom up to its height, and no height
    /// exceeds the number of rows.
    pub proof fn lemma_reachable(self)
        requires
            self.reachable(),
        ensures
            self.wf(),
            forall|row: int, col: int|
                !(#[trigger] self.store(Player::X)@.contains((row, col)) && self.store(
                    Player::O,
                )@.contains((row, col))),
            forall|col: int| 0 <= #[trigger] self.spec_height(col) <= ROWS,
    {
        let moves = choose|moves: Seq<Move>| #[trigger]
            Board::spec_default().play_all(moves) == Ok::<Board, InvalidMove>(self);
        Self::lemma_default_wf();
        Board::spec_default().lemma_play_all_wf(moves);
        assert forall|col: int| 0 <= #[trigger] self.spec_height(col) <= ROWS by {
            self.lemma_height_bounds(col);
        }
    }

    /// The turn alternates: after an even number of moves it is with the
    /// player who began, after an odd number with the other.
    pub proof fn lemma_turns_alternate(self, moves: Seq<Move>)
        requires
            self.play_all(moves) is Ok,
        ensures
            self.play_all(moves).unwrap().turn == if moves.len() % 2 == 0 {
                self.turn
            } else {
                self.turn.other()
            },
        decreases moves.len(),
    {
        if moves.len() > 0 {
            self.lemma_turns_alternate(moves.drop_last());
        }
    }

    /// On a well-formed board a player has won exactly where four of the
    /// player's cells lie in a line; where both players have such a line, the
    /// win is `O`'s.
    pub proof fn lemma_winner(self, player: Player)
        requires
            self.wf(),
        ensures
            self.store(player).has_line() <==> self.has_four_of(player),
            self.spec_state() == Some(Some(player)) <==> self.has_four_of(player) && (player
                == Player::X ==> !self.has_four_of(Player::O)),
    {
        self.lemma_lines(Player::X);
        self.lemma_lines(Player::O);
    }

    proof fn lemma_lines(self, player: Player)
        requires
            self.wf(),
        ensures
            self.store(player).has_line() <==> self.has_four_of(player),
    {
        let store = self.store(player);
        assert forall|row: int, col: int|
            store@.contains((row, col)) <==> self.spec_cell(row, col) == Some(player) by {}
        if store.has_line() {
            let (row, col) = choose|row: int, col: int| #[trigger] store.line_at(row, col);
            assert(self.line_of(player, row, col));
        }
        if self.has_four_of(player) {
            let (row, col) = choose|row: int, col: int| #[trigger] self.line_of(player, row, col);
            assert(store.line_at(row, col));
        }
    }

    /// A move takes no piece away: a player who has four in a line keeps
    /// them.
    pub proof fn lemma_line_stays(self, mv: Move, player: Player)
        requires
            self.spec_play(mv) is Ok,
            self.store(player).has_line(),
        ensures
            self.spec_play(mv).unwrap().store(player).has_line(),
    {
        let next = self.spec_play(mv).unwrap();
        let store = self.store(player);
        self.lemma_height_bounds(mv.column as int);
        self.store(mv.player).lemma_set(self.spec_height(mv.column as int), mv.column as int, true);
        let (row, col) = choose|row: int, col: int| #[trigger] store.line_at(row, col);
        assert(next.store(player).line_at(row, col));
    }

    /// A move on a board without a win can only make its own player win: the
    /// two players never come to a line of four at once.
    pub proof fn lemma_one_winner(self, mv: Move)
        requires
            !self.store(Player::X).has_line(),
            !self.store(Player::O).has_line(),
            self.spec_play(mv) is Ok,
        ensures
            !self.spec_play(mv).unwrap().store(mv.player.other()).has_line(),
            self.spec_play(mv).unwrap().spec_state() matches Some(Some(winner)) ==> winner
                == mv.player,
    {
        let next = self.spec_play(mv).unwrap();
        assert(next.store(mv.player.other()) == self.store(mv.player.other()));
    }

    /// A game that has ended stays ended: after a win every further board
    /// shows a win, and a full board takes no move.
    pub proof fn lemma_end_stays(self, mv: Move)
        requires
            self.spec_state() is Some,
        ensures
            self.is_full() ==> self.spec_play(mv) is Err,
            self.spec_play(mv) matches Ok(next) ==> next.spec_state() matches Some(Some(_)),
            self.spec_state() == Some(Some(Player::O)) ==> (self.spec_play(mv) matches Ok(next)
                ==> next.spec_state() == Some(Some(Player::O))),
    {
        if self.spec_play(mv) is Ok {
            if self.store(Player::O).has_line() {
                self.lemma_line_stays(mv, Player::O);
            } else {
                self.lemma_line_stays(mv, Player::X);
            }
        }
    }

    /// Each cell of the grid of characters shows who holds the cell.
    pub proof fn lemma_grid_cell(self, row: int, col: int)
        requires
            0 <= row < ROWS,
            0 <= col < COLS,
        ensures
            self.spec_grid()[row][col] == piece(self.spec_cell(row, col)),
    {
        let grid = self.spec_grid();
        assert(grid[row] == self.grid_row(row));
    }

    /// Four cells of the grid of characters hold a player's piece exactly
    /// where the player holds the four cells.
    proof fn lemma_four_hold(self, player: Player, row: int, col: int, dr: int, dc: int)
        requires
            self.store(Player::X).wf(),
            self.store(Player::O).wf(),
        ensures
            four_hold(&self.spec_grid(), row, col, dr, dc, piece_of(player.spec_index()))
                <==> self.four_of(player, row, col, dr, dc),
    {
        self.lemma_holds(player, row, col);
        self.lemma_holds(player, row + dr, col + dc);
        self.lemma_holds(player, row + 2 * dr, col + 2 * dc);
        self.lemma_holds(player, row + 3 * dr, col + 3 * dc);
    }

    proof fn lemma_holds(self, player: Player, row: int, col: int)
        requires
            self.store(Player::X).wf(),
            self.store(Player::O).wf(),
        ensures
            holds(&self.spec_grid(), row, col, piece_of(player.spec_index())) <==> self.spec_cell(
                row,
                col,
            ) == Some(player),
    {
        self.store(Player::X).lemma_cells_on_grid();
        self.store(Player::O).lemma_cells_on_grid();
        if 0 <= row < ROWS && 0 <= col < COLS {
            self.lemma_grid_cell(row, col);
        }
    }

    /// The scan of the grid of characters comes to a line of four exactly
    /// where a player holds four cells in a line.
    pub proof fn lemma_grid_four(self)
        requires
            self.store(Player::X).wf(),
            self.store(Player::O).wf(),
        ensures
            four_in_a_row(&self.spec_grid()) <==> self.has_four_of(Player::X) || self.has_four_of(
                Player::O,
            ),
    {
        let grid = self.spec_grid();
        if four_in_a_row(&grid) {
            let (a, p, h, w) = choose|a: int, p: int, h: int, w: int|
                0 <= a < 2 && 0 <= p < 4 && #[trigger] run_at(&grid, a, p, h, w);
            let player = if a == 0 {
                Player::X
            } else {
                Player::O
            };
            lemma_run_at(&grid, a, p, h, w);
            if p == 0 {
                self.lemma_four_hold(player, h, w, 1, 1);
                assert(self.line_of(player, h, w));
            } else if p == 1 {
                self.lemma_four_hold(player, h, w + 3, 1, -1);
                assert(self.line_of(player, h, w + 3));
            } else if p == 2 {
                self.lemma_four_hold(player, h, w, 0, 1);
                assert(self.line_of(player, h, w));
            } else {
                self.lemma_four_hold(player, h, w, 1, 0);
                assert(self.line_of(player, h, w));
            }
            assert(self.has_four_of(player));
        }
        assert forall|player: Player| self.has_four_of(player) implies four_in_a_row(&grid) by {
            let (row, col) = choose|row: int, col: int| #[trigger] self.line_of(player, row, col);
            let a = player.spec_index();
            if self.four_of(player, row, col, 1, 1) {
                self.lemma_four_hold(player, row, col, 1, 1);
                lemma_run_at(&grid, a, 0, row, col);
                assert(run_at(&grid, a, 0, row, col));
            } else if self.four_of(player, row, col, 1, -1) {
                self.lemma_four_hold(player, row, col, 1, -1);
                lemma_run_at(&grid, a, 1, row, col - 3);
                assert(run_at(&grid, a, 1, row, col - 3));
            } else if self.four_of(player, row, col, 0, 1) {
                self.lemma_four_hold(player, row, col, 0, 1);
                lemma_run_at(&grid, a, 2, row, col);
                assert(run_at(&grid, a, 2, row, col));
            } else {
                self.lemma_four_hold(player, row, col, 1, 0);
                lemma_run_at(&grid, a, 3, row, col);
                assert(run_at(&grid, a, 3, row, col));
            }
        }
    }

    /// The moves into the columns below `limit` are those of the player to
    /// move into the columns with a free row, each once, in ascending order.
    pub proof fn lemma_moves(self, limit: int)
        requires
            0 <= limit <= COLS,
        ensures
            forall|k: int|
                0 <= k < self.moves_below(limit).len() ==> {
                    let mv = #[trigger] self.moves_below(limit)[k];
                    mv.player == self.turn && mv.column < limit && self.spec_height(
                        mv.column as int,
                    ) < ROWS
                },
            forall|k: int, m: int|
                0 <= k < m < self.moves_below(limit).len() ==> (#[trigger] self.moves_below(
                    limit,
                )[k]).column < (#[trigger] self.moves_below(limit)[m]).column,
            forall|column: int|
                0 <= column < limit && self.spec_height(column) < ROWS ==> self.moves_below(
                    limit,
                ).contains(#[trigger] self.move_into(column)),
        decreases limit,
    {
        if limit == 0 {
            self.lemma_moves_below(0);
        } else {
            self.lemma_moves(limit - 1);
            self.lemma_moves_below(limit - 1);
            let before = self.moves_below(limit - 1);
            let after = self.moves_below(limit);
            let last = self.move_into(limit - 1);
            assert forall|column: int|
                0 <= column < limit && self.spec_height(column) < ROWS implies after.contains(
                #[trigger] self.move_into(column),
            ) by {
                let mv = self.move_into(column);
                if column < limit - 1 {
                    let k = choose|k: int| 0 <= k < before.len() && before[k] == mv;
                    assert(after[k] == mv);
                } else {
                    assert(after[after.len() - 1] == last);
                }
            }
        }
    }

    /// A legal move can be played.
    pub proof fn lemma_legal_move(self, mv: Move)
        requires
            self.spec_moves().contains(mv),
        ensures
            self.spec_play(mv) is Ok,
            mv.player == self.turn,
    {
        self.lemma_moves(COLS as int);
    }

    /// A game of legal moves can be played to its end.
    pub proof fn lemma_legal_game(self, moves: Seq<Move>)
        requires
            self.legal_game(moves),
        ensures
            self.play_all(moves) is Ok,
        decreases moves.len(),
    {
        if moves.len() > 0 {
            self.lemma_legal_game(moves.drop_last());
            self.play_all(moves.drop_last()).unwrap().lemma_legal_move(moves.last());
        }
    }

    /// There is no legal move exactly where the board is full, and then the
    /// game has ended.
    pub proof fn lemma_no_moves(self)
        ensures
            self.spec_moves().len() == 0 <==> self.is_full(),
            self.spec_moves().len() == 0 ==> self.spec_state() is Some,
    {
        let columns = Seq::new(COLS as nat, |column: int| column);
        let open = |column: int| self.spec_height(column) < ROWS;
        if self.is_full() {
            if columns.filter(open).len() > 0 {
                let c = columns.filter(open)[0];
                assert(columns.filter(open).contains(c));
                columns.lemma_filter_contains_rev(open, c);
            }
        } else {
            let c = choose|c: int| 0 <= c < COLS && self.spec_height(c) < ROWS;
            columns.lemma_filter_contains(open, c);
        }
    }
}

} // verus!
