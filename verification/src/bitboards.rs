//! The column store: one player's pieces, packed into a single `u64`.
//!
//! The word is cut into eight byte lanes, one per column (the eighth is
//! padding). Bit `row` of lane `col` stands for the cell `(row, col)`, row 0
//! being the bottom of the grid, so the cell `(row, col)` is bit
//! `8 * col + row` of the word.
use vstd::prelude::*;
use vstd::std_specs::bits::{
    axiom_u64_trailing_zeros, axiom_u8_leading_zeros, u64_trailing_zeros, u8_leading_zeros,
};

verus! {

/// Number of rows of the grid.
pub const ROWS: usize = 6;

/// Number of columns of the grid.
pub const COLS: usize = 7;

/// The bits of the 42 cells of the grid: rows 0..6 of the lanes 0..7.
const PLAYABLE: u64 = 0x003f_3f3f_3f3f_3f3f;

/// Whether bit `i` of `bits` is set.
spec fn bit(bits: u64, i: u64) -> bool {
    (bits >> i) & 1 == 1
}

/// The byte lane of column `col`.
spec fn lane(bits: u64, col: u64) -> u8 {
    ((bits >> ((8 * col) as u64)) & 0xff) as u8
}

/// The bits that end a run of four set bits that lie `stride` apart.
spec fn runs(bits: u64, stride: u64) -> u64 {
    bits & (bits << stride) & (bits << ((2 * stride) as u64)) & (bits << ((3 * stride) as u64))
}

proof fn lemma_lane_bit(bits: u64, row: u64, col: u64)
    by (bit_vector)
    requires
        row < 8,
        col < 8,
    ensures
        (lane(bits, col) & (1u8 << row) != 0) == bit(bits, (8 * col + row) as u64),
        ((lane(bits, col) >> (row as u8)) & 1u8 != 0u8) == bit(bits, (8 * col + row) as u64),
{
}

proof fn lemma_playable_bit(bits: u64, i: u64)
    by (bit_vector)
    requires
        bits & !PLAYABLE == 0,
        i < 64,
        bit(bits, i),
    ensures
        i % 8 < 6,
        i / 8 < 7,
{
}

proof fn lemma_write_bit(bits: u64, i: u64, j: u64)
    by (bit_vector)
    requires
        i < 64,
        j < 64,
    ensures
        bit(bits | (1u64 << j), i) == (i == j || bit(bits, i)),
        bit(bits & !(1u64 << j), i) == (i != j && bit(bits, i)),
{
}

proof fn lemma_write_playable(bits: u64, j: u64)
    by (bit_vector)
    requires
        bits & !PLAYABLE == 0,
        j % 8 < 6,
        j / 8 < 7,
    ensures
        (bits | (1u64 << j)) & !PLAYABLE == 0,
        (bits & !(1u64 << j)) & !PLAYABLE == 0,
{
}

proof fn lemma_runs_bit(bits: u64, stride: u64, i: u64)
    by (bit_vector)
    requires
        i < 64,
        1 <= stride <= 9,
    ensures
        bit(runs(bits, stride), i) == (i >= 3 * stride && bit(bits, i) && bit(
            bits,
            (i - stride) as u64,
        ) && bit(bits, (i - 2 * stride) as u64) && bit(bits, (i - 3 * stride) as u64)),
{
}

proof fn lemma_bit_nonzero(bits: u64, i: u64)
    by (bit_vector)
    requires
        i < 64,
        bit(bits, i),
    ensures
        bits != 0,
{
}

/// One player's pieces on the grid.
#[derive(Clone, Copy, Debug, PartialEq, Eq, Structural)]
pub struct BitBoard(u64);

impl View for BitBoard {
    type V = Set<(int, int)>;

    /// The cells `(row, col)` that hold a piece.
    closed spec fn view(&self) -> Set<(int, int)> {
        Set::new(
            |cell: (int, int)|
                0 <= cell.0 < 8 && 0 <= cell.1 < 8 && bit(self.0, (8 * cell.1 + cell.0) as u64),
        )
    }
}

impl Default for BitBoard {
    /// A store without a piece.
    fn default() -> (store: BitBoard)
        ensures
            store == BitBoard::empty(),
            store@ == Set::<(int, int)>::empty(),
    {
        proof {
            BitBoard::lemma_empty();
        }
        BitBoard(0)
    }
}

impl BitBoard {
    /// Every piece lies on the grid. Each executable `BitBoard` is such.
    #[verifier::type_invariant]
    pub closed spec fn wf(self) -> bool {
        self.0 & !PLAYABLE == 0
    }

    /// The store without a piece.
    pub closed spec fn empty() -> BitBoard {
        BitBoard(0)
    }

    /// The store after the cell `(row, col)` was set (`val`) or cleared.
    pub closed spec fn spec_set(self, row: int, col: int, val: bool) -> BitBoard {
        let mask = 1u64 << ((8 * col + row) as u64);
        if val {
            BitBoard(self.0 | mask)
        } else {
            BitBoard(self.0 & !mask)
        }
    }

    /// One more than the highest row below `limit` that holds a piece in
    /// column `col`; 0 where there is none.
    pub open spec fn top(self, col: int, limit: int) -> int
        decreases limit,
    {
        if limit <= 0 {
            0
        } else if self@.contains((limit - 1, col)) {
            limit
        } else {
            self.top(col, limit - 1)
        }
    }

    /// The height of column `col`: one more than its highest row that holds
    /// a piece of this player.
    pub open spec fn spec_height(self, col: int) -> int {
        self.top(col, ROWS as int)
    }

    /// The four cells that start at `(row, col)` and go on by `(dr, dc)` all
    /// hold a piece.
    pub open spec fn four_from(self, row: int, col: int, dr: int, dc: int) -> bool {
        &&& self@.contains((row, col))
        &&& self@.contains((row + dr, col + dc))
        &&& self@.contains((row + 2 * dr, col + 2 * dc))
        &&& self@.contains((row + 3 * dr, col + 3 * dc))
    }

    /// Four pieces in a line start at `(row, col)`: along the row, up the
    /// column, or along one of the two diagonals.
    pub open spec fn line_at(self, row: int, col: int) -> bool {
        ||| self.four_from(row, col, 0, 1)
        ||| self.four_from(row, col, 1, 0)
        ||| self.four_from(row, col, 1, 1)
        ||| self.four_from(row, col, 1, -1)
    }

    /// The player has four pieces in a line somewhere.
    pub open spec fn has_line(self) -> bool {
        exists|row: int, col: int| #[trigger] self.line_at(row, col)
    }

    /// A store holds pieces on the grid only.
    pub proof fn lemma_cells_on_grid(self)
        requires
            self.wf(),
        ensures
            forall|row: int, col: int| #[trigger]
                self@.contains((row, col)) ==> 0 <= row < ROWS && 0 <= col < COLS,
    {
        assert forall|row: int, col: int| #[trigger] self@.contains((row, col)) implies 0 <= row
            < ROWS && 0 <= col < COLS by {
            lemma_playable_bit(self.0, (8 * col + row) as u64);
        }
    }

    /// The store without a piece is well formed.
    pub proof fn lemma_empty()
        ensures
            Self::empty().wf(),
            Self::empty()@ == Set::<(int, int)>::empty(),
    {
        assert(0u64 & !PLAYABLE == 0) by (bit_vector);
        assert forall|cell: (int, int)| !Self::empty()@.contains(cell) by {
            if 0 <= cell.0 < 8 && 0 <= cell.1 < 8 {
                let i = (8 * cell.1 + cell.0) as u64;
                assert(!bit(0u64, i)) by (bit_vector);
            }
        }
        assert(Self::empty()@ =~= Set::<(int, int)>::empty());
    }

    /// Writing a cell of the grid adds it to, or takes it from, the cells that
    /// hold a piece, and keeps the store well formed.
    pub proof fn lemma_set(self, row: int, col: int, val: bool)
        requires
            0 <= row < ROWS,
            0 <= col < COLS,
        ensures
            self.spec_set(row, col, val)@ == if val {
                self@.insert((row, col))
            } else {
                self@.remove((row, col))
            },
            self.wf() ==> self.spec_set(row, col, val).wf(),
    {
        let j = (8 * col + row) as u64;
        let after = self.spec_set(row, col, val);
        let expected = if val {
            self@.insert((row, col))
        } else {
            self@.remove((row, col))
        };
        assert forall|cell: (int, int)| after@.contains(cell) == expected.contains(cell) by {
            if 0 <= cell.0 < 8 && 0 <= cell.1 < 8 {
                lemma_write_bit(self.0, (8 * cell.1 + cell.0) as u64, j);
            }
        }
        assert(after@ =~= expected);
        if self.wf() {
            lemma_write_playable(self.0, j);
        }
    }

    /// The height of a column tops its pieces: the row below it holds one,
    /// and no row from it up does.
    pub proof fn lemma_top_is_highest(self, col: int, limit: int)
        requires
            0 <= limit,
        ensures
            0 <= self.top(col, limit) <= limit,
            self.top(col, limit) > 0 ==> self@.contains((self.top(col, limit) - 1, col)),
            forall|row: int| self.top(col, limit) <= row < limit ==> !self@.contains((row, col)),
        decreases limit,
    {
        if limit > 0 && !self@.contains((limit - 1, col)) {
            self.lemma_top_is_highest(col, limit - 1);
        }
    }

    /// The height of a column is the one number that tops its pieces.
    pub proof fn lemma_top_unique(self, col: int, limit: int, h: int)
        requires
            0 <= h <= limit,
            h > 0 ==> self@.contains((h - 1, col)),
            forall|row: int| h <= row < limit ==> !self@.contains((row, col)),
        ensures
            self.top(col, limit) == h,
        decreases limit,
    {
        if limit > h {
            self.lemma_top_unique(col, limit - 1, h);
        }
    }

    proof fn lemma_height(self, col: int)
        requires
            self.wf(),
            0 <= col < 8,
        ensures
            self.spec_height(col) == 8 - u8_leading_zeros(lane(self.0, col as u64)),
            0 <= self.spec_height(col) <= ROWS,
    {
        let byte = lane(self.0, col as u64);
        let h = 8 - u8_leading_zeros(byte);
        axiom_u8_leading_zeros(byte);
        self.lemma_cells_on_grid();
        assert forall|row: int| 0 <= row < 8 implies (self@.contains((row, col)) == ((byte >> (
        row as u8)) & 1u8 != 0u8)) by {
            lemma_lane_bit(self.0, row as u64, col as u64);
        }
        if h > 0 {
            assert(self@.contains((h - 1, col)));
        }
        assert forall|row: int| h <= row < ROWS implies !self@.contains((row, col)) by {
            assert((byte >> (row as u8)) & 1u8 == 0u8);
        }
        self.lemma_top_unique(col, ROWS as int, h);
    }

    /// Where a run of four bits ends at bit `i`, four pieces lie in a line.
    proof fn lemma_run_is_line(self, stride: u64, i: u64)
        requires
            self.wf(),
            stride == 1 || stride == 7 || stride == 8 || stride == 9,
            i < 64,
            bit(runs(self.0, stride), i),
        ensures
            self.has_line(),
    {
        let bits = self.0;
        lemma_runs_bit(bits, stride, i);
        lemma_playable_bit(bits, i);
        lemma_playable_bit(bits, (i - stride) as u64);
        lemma_playable_bit(bits, (i - 2 * stride) as u64);
        lemma_playable_bit(bits, (i - 3 * stride) as u64);
        let row = (i % 8) as int;
        let col = (i / 8) as int;
        if stride == 1 {
            assert(self.four_from(row - 3, col, 1, 0));
            assert(self.line_at(row - 3, col));
        } else if stride == 8 {
            assert(self.four_from(row, col - 3, 0, 1));
            assert(self.line_at(row, col - 3));
        } else if stride == 9 {
            assert(self.four_from(row - 3, col - 3, 1, 1));
            assert(self.line_at(row - 3, col - 3));
        } else {
            assert(self.four_from(row, col, 1, -1));
            assert(self.line_at(row, col));
        }
    }

    /// Four pieces in a line make a run of four bits.
    proof fn lemma_line_is_run(self)
        requires
            self.has_line(),
        ensures
            runs(self.0, 1) != 0 || runs(self.0, 7) != 0 || runs(self.0, 8) != 0 || runs(
                self.0,
                9,
            ) != 0,
    {
        let bits = self.0;
        let (row, col) = choose|row: int, col: int| #[trigger] self.line_at(row, col);
        if self.four_from(row, col, 0, 1) {
            let i = (8 * (col + 3) + row) as u64;
            lemma_runs_bit(bits, 8, i);
            lemma_bit_nonzero(runs(bits, 8), i);
        } else if self.four_from(row, col, 1, 0) {
            let i = (8 * col + row + 3) as u64;
            lemma_runs_bit(bits, 1, i);
            lemma_bit_nonzero(runs(bits, 1), i);
        } else if self.four_from(row, col, 1, 1) {
            let i = (8 * (col + 3) + row + 3) as u64;
            lemma_runs_bit(bits, 9, i);
            lemma_bit_nonzero(runs(bits, 9), i);
        } else {
            let i = (8 * col + row) as u64;
            lemma_runs_bit(bits, 7, i);
            lemma_bit_nonzero(runs(bits, 7), i);
        }
    }

    proof fn lemma_has_line(self)
        requires
            self.wf(),
        ensures
            self.has_line() == (runs(self.0, 8) != 0 || runs(self.0, 1) != 0 || runs(self.0, 7)
                != 0 || runs(self.0, 9) != 0),
    {
        if self.has_line() {
            self.lemma_line_is_run();
        }
        let strides = seq![1u64, 7u64, 8u64, 9u64];
        assert forall|k: int| 0 <= k < 4 && runs(self.0, #[trigger] strides[k]) != 0 implies
            self.has_line() by {
            let word = runs(self.0, strides[k]);
            axiom_u64_trailing_zeros(word);
            self.lemma_run_is_line(strides[k], u64_trailing_zeros(word) as u64);
        }
        assert(strides[0] == 1 && strides[1] == 7 && strides[2] == 8 && strides[3] == 9);
    }

    fn column(&self, col: usize) -> (byte: u8)
        requires
            col < 8,
        ensures
            byte == lane(self.0, col as u64),
    {
        ((self.0 >> (8 * col)) & 0xff) as u8
    }

    /// Whether the player has a piece on the cell `(row, col)`.
    pub fn get(&self, row: usize, col: usize) -> (b: bool)
        requires
            row < ROWS,
            col < COLS,
        ensures
            b == self@.contains((row as int, col as int)),
    {
        proof {
            lemma_lane_bit(self.0, row as u64, col as u64);
        }
        self.column(col) & (1u8 << row) != 0
    }

    /// The height of column `col`, counted from the bottom up to the player's
    /// highest piece in it.
    pub fn height(&self, col: usize) -> (h: usize)
        requires
            col < COLS,
        ensures
            h == self.spec_height(col as int),
            h <= ROWS,
    {
        proof {
            use_type_invariant(self);
            self.lemma_height(col as int);
        }
        8 - self.column(col).leading_zeros() as usize
    }

    /// Puts a piece on the cell `(row, col)`, or takes it away.
    pub fn set(&mut self, row: usize, col: usize, val: bool)
        requires
            row < ROWS,
            col < COLS,
        ensures
            *final(self) == old(self).spec_set(row as int, col as int, val),
            final(self)@ == if val {
                old(self)@.insert((row as int, col as int))
            } else {
                old(self)@.remove((row as int, col as int))
            },
    {
        proof {
            use_type_invariant(&*self);
            self.lemma_set(row as int, col as int, val);
        }
        let mask = 1u64 << (8 * col + row);
        if val {
            self.0 = self.0 | mask;
        } else {
            self.0 = self.0 & !mask;
        }
    }

    /// Whether the player has four pieces in a line: along a row, up a
    /// column, or along a diagonal.
    pub fn has_four(&self) -> (b: bool)
        ensures
            b == self.has_line(),
    {
        proof {
            use_type_invariant(self);
            self.lemma_has_line();
        }
        let bb = self.0;
        let h = bb & (bb << 8u64) & (bb << 16u64) & (bb << 24u64);
        let v = bb & (bb << 1u64) & (bb << 2u64) & (bb << 3u64);
        let d = bb & (bb << 9u64) & (bb << 18u64) & (bb << 27u64);
        let a = bb & (bb << 7u64) & (bb << 14u64) & (bb << 21u64);
        h != 0 || v != 0 || d != 0 || a != 0
    }
}

} // verus!
