use crate::bitboards::{BitBoard, COLS, ROWS};
use std::ops::{Index, Not};
use vstd::prelude::*;
use vstd::std_specs::convert::FromSpecImpl;
use vstd::std_specs::ops::NotSpecImpl;

verus! {

/// The two players. `X` moves first.
#[derive(Clone, Copy, Debug, PartialEq, Eq, Structural)]
pub enum Player {
    X,
    O,
}

impl Player {
    /// The other player.
    pub open spec fn other(self) -> Player {
        match self {
            Player::X => Player::O,
            Player::O => Player::X,
        }
    }

    /// The player's place among the stores of a board.
    pub open spec fn spec_index(self) -> int {
        match self {
            Player::X => 0,
            Player::O => 1,
        }
    }

    /// The player's place among the stores of a board.
    pub fn index(self) -> (i: usize)
        ensures
            i == self.spec_index(),
    {
        match self {
            Player::X => 0,
            Player::O => 1,
        }
    }
}

impl Default for Player {
    /// The player who moves first.
    fn default() -> (player: Player)
        ensures
            player == Player::X,
    {
        Player::X
    }
}

impl Not for Player {
    type Output = Player;

    /// The other player.
    fn not(self) -> (other: Player) {
        match self {
            Player::X => Player::O,
            Player::O => Player::X,
        }
    }
}

impl NotSpecImpl for Player {
    open spec fn obeys_not_spec() -> bool {
        true
    }

    open spec fn not_req(self) -> bool {
        true
    }

    open spec fn not_spec(self) -> Player {
        self.other()
    }
}

/// A piece of `player` dropped into `column`.
#[derive(Clone, Copy, Debug, PartialEq, Eq, Structural)]
pub struct Move {
    pub player: Player,
    pub column: usize,
}

impl Default for Move {
    /// The move of `X` into the first column.
    fn default() -> (mv: Move)
        ensures
            mv == (Move { player: Player::X, column: 0 }),
    {
        Move { player: Player::X, column: 0 }
    }
}

impl Move {
    /// The move of `player` into `column`.
    pub fn new(player: Player, column: usize) -> (mv: Move)
        ensures
            mv == (Move { player, column }),
    {
        Self { column, player }
    }
}

/// A move that cannot be played: its column does not exist or has no free
/// row.
#[derive(Clone, Copy, Debug, PartialEq, Eq, Structural)]
pub struct InvalidMove;

/// The two stores, that of `X` first, and the player who moves next.
#[derive(Clone, Copy, Debug, PartialEq, Eq)]
pub struct Board {
    pub boards: [BitBoard; 2],
    pub turn: Player,
}

/// The character that stands for what a cell holds.
pub open spec fn piece(cell: Option<Player>) -> char {
    match cell {
        Some(Player::X) => 'X',
        Some(Player::O) => 'O',
        None => '.',
    }
}

impl Board {
    /// The board before the first move.
    pub open spec fn spec_default() -> Board {
        Board { boards: [BitBoard::empty(), BitBoard::empty()], turn: Player::X }
    }

    /// The store of `player`.
    pub open spec fn store(self, player: Player) -> BitBoard {
        self.boards[player.spec_index()]
    }

    /// The board with `store` in the place of the store of `player`.
    pub open spec fn with_store(self, player: Player, store: BitBoard) -> Board {
        Board {
            boards: match player {
                Player::X => [store, self.boards[1]],
                Player::O => [self.boards[0], store],
            },
            turn: self.turn,
        }
    }

    /// Who holds the cell `(row, col)`.
    pub open spec fn spec_cell(self, row: int, col: int) -> Option<Player> {
        if self.store(Player::X)@.contains((row, col)) {
            Some(Player::X)
        } else if self.store(Player::O)@.contains((row, col)) {
            Some(Player::O)
        } else {
            None
        }
    }

    /// The height of `column`: that of the higher of the two stores.
    pub open spec fn spec_height(self, column: int) -> int {
        let x = self.store(Player::X).spec_height(column);
        let o = self.store(Player::O).spec_height(column);
        if x >= o {
            x
        } else {
            o
        }
    }

    /// The columns below `limit` that have a free row, in ascending order.
    pub open spec fn open_columns(self, limit: int) -> Seq<int> {
        Seq::new(limit as nat, |column: int| column).filter(
            |column: int| self.spec_height(column) < ROWS,
        )
    }

    /// The move of the player to move into `column`.
    pub open spec fn move_into(self, column: int) -> Move {
        Move { player: self.turn, column: column as usize }
    }

    /// The moves of the player to move into the columns below `limit` that
    /// have a free row, in ascending order.
    pub open spec fn moves_below(self, limit: int) -> Seq<Move> {
        self.open_columns(limit).map_values(
            |column: int| self.move_into(column),
        )
    }

    /// The legal moves: one for each column with a free row, in ascending
    /// order, each for the player to move.
    pub open spec fn spec_moves(self) -> Seq<Move> {
        self.moves_below(COLS as int)
    }

    /// The board after `player` dropped a piece into `column`.
    pub open spec fn dropped(self, column: int, player: Player) -> Board {
        self.with_store(
            player,
            self.store(player).spec_set(self.spec_height(column), column, true),
        )
    }

    /// The board after the move: the piece lies on the lowest free row of its
    /// column and the turn has passed on. A move into a column that does not
    /// exist or is full is invalid.
    pub open spec fn spec_play(self, mv: Move) -> Result<Board, InvalidMove> {
        if mv.column < COLS && self.spec_height(mv.column as int) < ROWS {
            let after = self.dropped(mv.column as int, mv.player);
            Ok(Board { boards: after.boards, turn: self.turn.other() })
        } else {
            Err(InvalidMove)
        }
    }

    /// Row `row` of the grid, as characters.
    pub open spec fn grid_row(self, row: int) -> [char; 7] {
        [
            piece(self.spec_cell(row, 0)),
            piece(self.spec_cell(row, 1)),
            piece(self.spec_cell(row, 2)),
            piece(self.spec_cell(row, 3)),
            piece(self.spec_cell(row, 4)),
            piece(self.spec_cell(row, 5)),
            piece(self.spec_cell(row, 6)),
        ]
    }

    /// The grid as characters, the bottom row first: `'X'`, `'O'`, or `'.'`
    /// for a free cell.
    pub open spec fn spec_grid(self) -> [[char; 7]; 6] {
        [
            self.grid_row(0),
            self.grid_row(1),
            self.grid_row(2),
            self.grid_row(3),
            self.grid_row(4),
            self.grid_row(5),
        ]
    }

    /// No column has a free row.
    pub open spec fn is_full(self) -> bool {
        forall|column: int| 0 <= column < COLS ==> self.spec_height(column) >= ROWS
    }

    /// The state of the game: `Some(Some(player))` where `player` has won,
    /// `Some(None)` for a draw, `None` while the game goes on. Where both
    /// players have four in a line, `O` is named.
    pub open spec fn spec_state(self) -> Option<Option<Player>> {
        if self.store(Player::O).has_line() {
            Some(Some(Player::O))
        } else if self.store(Player::X).has_line() {
            Some(Some(Player::X))
        } else if self.is_full() {
            Some(None)
        } else {
            None
        }
    }

    /// Going one column further adds its move where it has a free row.
    pub(crate) proof fn lemma_moves_below(self, limit: int)
        requires
            0 <= limit,
        ensures
            self.moves_below(0) == Seq::<Move>::empty(),
            self.moves_below(limit + 1) == if self.spec_height(limit) < ROWS {
                self.moves_below(limit).push(self.move_into(limit))
            } else {
                self.moves_below(limit)
            },
    {
        reveal(Seq::filter);
        let next = Seq::new((limit + 1) as nat, |column: int| column);
        assert(next.drop_last() =~= Seq::new(limit as nat, |column: int| column));
        assert(self.moves_below(0) =~= Seq::<Move>::empty());
        if self.spec_height(limit) < ROWS {
            assert(self.open_columns(limit + 1) == self.open_columns(limit).push(limit));
            assert(self.moves_below(limit + 1) =~= self.moves_below(limit).push(
                self.move_into(limit),
            ));
        }
    }

    /// The cells of the grid as `[row, col]`, row by row from the bottom.
    pub fn indices() -> (cells: Vec<[usize; 2]>)
        ensures
            cells@.len() == ROWS * COLS,
            forall|k: int|
                0 <= k < ROWS * COLS ==> (#[trigger] cells@[k])@ == seq![
                    (k / COLS as int) as usize,
                    (k % COLS as int) as usize,
                ],
    {
        let mut cells: Vec<[usize; 2]> = Vec::new();
        let mut row: usize = 0;
        while row < ROWS
            invariant
                row <= ROWS,
                cells@.len() == row * COLS,
                forall|k: int|
                    0 <= k < row * COLS ==> (#[trigger] cells@[k])@ == seq![
                        (k / COLS as int) as usize,
                        (k % COLS as int) as usize,
                    ],
            decreases ROWS - row,
        {
            let mut col: usize = 0;
            while col < COLS
                invariant
                    row < ROWS,
                    col <= COLS,
                    cells@.len() == row * COLS + col,
                    forall|k: int|
                        0 <= k < row * COLS + col ==> (#[trigger] cells@[k])@ == seq![
                            (k / COLS as int) as usize,
                            (k % COLS as int) as usize,
                        ],
                decreases COLS - col,
            {
                let cell = [row, col];
                assert(cell@ =~= seq![row, col]);
                cells.push(cell);
                col += 1;
            }
            row += 1;
        }
        cells
    }

    /// The height of `column`, counted from the bottom up to its highest
    /// piece.
    pub fn height(&self, column: usize) -> (h: usize)
        requires
            column < COLS,
        ensures
            h == self.spec_height(column as int),
            h <= ROWS,
    {
        let x = self.boards[0].height(column);
        let o = self.boards[1].height(column);
        if x >= o {
            x
        } else {
            o
        }
    }

    /// Who holds the cell `(row, col)`, if anyone.
    pub fn cell(&self, row: usize, col: usize) -> (owner: Option<Player>)
        requires
            row < ROWS,
            col < COLS,
        ensures
            owner == self.spec_cell(row as int, col as int),
    {
        if self.boards[0].get(row, col) {
            Some(Player::X)
        } else if self.boards[1].get(row, col) {
            Some(Player::O)
        } else {
            None
        }
    }

    /// The legal moves of the player to move.
    pub fn moves(&self) -> (moves: Vec<Move>)
        ensures
            moves@ == self.spec_moves(),
    {
        let player = self.turn;
        let mut moves: Vec<Move> = Vec::new();
        let mut column: usize = 0;
        proof {
            self.lemma_moves_below(0);
        }
        while column < COLS
            invariant
                column <= COLS,
                player == self.turn,
                moves@ == self.moves_below(column as int),
            decreases COLS - column,
        {
            proof {
                self.lemma_moves_below(column as int);
            }
            if self.height(column) < ROWS {
                moves.push(Move::new(player, column));
            }
            column += 1;
        }
        moves
    }

    fn drop_into(&mut self, column: usize, player: Player)
        requires
            column < COLS,
            old(self).spec_height(column as int) < ROWS,
        ensures
            *final(self) == old(self).dropped(column as int, player),
    {
        let h = self.height(column);
        let i = player.index();
        self.boards[i].set(h, column, true);
        proof {
            assert(self.boards =~= old(self).dropped(column as int, player).boards);
        }
    }

    /// Plays the move on a copy of the board.
    pub fn play(&self, mv: &Move) -> (next: Result<Board, InvalidMove>)
        ensures
            next == self.spec_play(*mv),
    {
        if mv.column >= COLS || self.height(mv.column) >= ROWS {
            return Err(InvalidMove);
        }
        let mut board = *self;
        board.drop_into(mv.column, mv.player);
        board.turn = board.turn.not();
        Ok(board)
    }

    /// The state of the game, if it has ended: `Some(Some(player))` where
    /// `player` has won, `Some(None)` for a draw.
    pub fn state(&self) -> (state: Option<Option<Player>>)
        ensures
            state == self.spec_state(),
    {
        if self.boards[1].has_four() {
            return Some(Some(Player::O));
        }
        if self.boards[0].has_four() {
            return Some(Some(Player::X));
        }
        let mut column: usize = 0;
        while column < COLS
            invariant
                column <= COLS,
                !self.store(Player::O).has_line(),
                !self.store(Player::X).has_line(),
                forall|c: int| 0 <= c < column ==> self.spec_height(c) >= ROWS,
            decreases COLS - column,
        {
            if self.height(column) < ROWS {
                return None;
            }
            column += 1;
        }
        Some(None)
    }
}

impl From<&Board> for [[char; 7]; 6] {
    /// The grid as characters, the bottom row first.
    fn from(board: &Board) -> (grid: [[char; 7]; 6]) {
        let mut grid = [['.'; 7]; 6];
        let mut row: usize = 0;
        while row < ROWS
            invariant
                row <= ROWS,
                forall|r: int, c: int|
                    0 <= r < row && 0 <= c < COLS ==> grid[r][c] == piece(board.spec_cell(r, c)),
            decreases ROWS - row,
        {
            let mut col: usize = 0;
            while col < COLS
                invariant
                    row < ROWS,
                    col <= COLS,
                    forall|r: int, c: int|
                        0 <= r < row && 0 <= c < COLS ==> grid[r][c] == piece(
                            board.spec_cell(r, c),
                        ),
                    forall|c: int| 0 <= c < col ==> grid[row as int][c] == piece(
                        board.spec_cell(row as int, c),
                    ),
                decreases COLS - col,
            {
                grid[row][col] = match board.cell(row, col) {
                    Some(Player::X) => 'X',
                    Some(Player::O) => 'O',
                    None => '.',
                };
                col += 1;
            }
            row += 1;
        }
        proof {
            assert forall|r: int| 0 <= r < ROWS implies grid[r] == board.grid_row(r) by {
                assert(grid[r] =~= board.grid_row(r));
            }
            assert(grid =~= board.spec_grid());
        }
        grid
    }
}

impl FromSpecImpl<&Board> for [[char; 7]; 6] {
    open spec fn obeys_from_spec() -> bool {
        true
    }

    open spec fn from_spec(board: &Board) -> [[char; 7]; 6] {
        board.spec_grid()
    }
}

impl Index<[usize; 2]> for Board {
    type Output = Option<Player>;

    /// Who holds the cell `[row, col]`, if anyone.
    fn index(&self, index: [usize; 2]) -> (owner: &Option<Player>)
        ensures
            *owner == self.spec_cell(index[0] as int, index[1] as int),
    {
        match self.cell(index[0], index[1]) {
            Some(Player::X) => &Some(Player::X),
            Some(Player::O) => &Some(Player::O),
            None => &None,
        }
    }
}

impl vstd::std_specs::core::IndexSpecImpl<[usize; 2]> for Board {
    open spec fn index_req(&self, index: &[usize; 2]) -> bool {
        index[0] < ROWS && index[1] < COLS
    }
}

impl Default for Board {
    /// The board before the first move: no piece, and `X` to move.
    fn default() -> (board: Board)
        ensures
            board == Board::spec_default(),
    {
        Board { boards: [BitBoard::default(), BitBoard::default()], turn: Player::X }
    }
}

} // verus!
