//! A grid of characters: its text form, and its lines of four cells.
use crate::grid_patterns::{cells_of, place};
use std::ops::Index;
use vstd::prelude::*;

verus! {

/// Six rows of seven characters.
#[derive(Debug)]
pub struct Grid(pub [[char; 7]; 6]);

/// For each direction the largest `[row, col]` offset and the offsets of the
/// four cells of a line: along a row, up a column, and along the two
/// diagonals.
pub const PATTERNS: [([usize; 2], [[usize; 2]; 4]); 4] = [
    ([0, 3], [[0, 0], [0, 1], [0, 2], [0, 3]]),
    ([3, 0], [[0, 0], [1, 0], [2, 0], [3, 0]]),
    ([3, 3], [[0, 0], [1, 1], [2, 2], [3, 3]]),
    ([3, 3], [[3, 0], [2, 1], [1, 2], [0, 3]]),
];

/// The offsets of the four cells of a line in `direction`.
pub open spec fn four_offsets(direction: int) -> Seq<(int, int)> {
    if direction == 0 {
        seq![(0, 0), (0, 1), (0, 2), (0, 3)]
    } else if direction == 1 {
        seq![(0, 0), (1, 0), (2, 0), (3, 0)]
    } else if direction == 2 {
        seq![(0, 0), (1, 1), (2, 2), (3, 3)]
    } else {
        seq![(3, 0), (2, 1), (1, 2), (0, 3)]
    }
}

/// The `k`-th line of four cells of the grid. First come the 24 lines along
/// the rows, then the 21 up the columns, then the 12 along each diagonal;
/// within a direction they go row by row.
pub open spec fn four_at(k: int) -> Seq<(int, int)> {
    if k < 24 {
        place(four_offsets(0), k / 4, k % 4)
    } else if k < 45 {
        place(four_offsets(1), (k - 24) / 7, (k - 24) % 7)
    } else if k < 57 {
        place(four_offsets(2), (k - 45) / 4, (k - 45) % 4)
    } else {
        place(four_offsets(3), (k - 57) / 4, (k - 57) % 4)
    }
}

/// The place in the list of the line of `direction` whose corner is
/// `(i, j)`.
pub open spec fn four_index(direction: int, i: int, j: int) -> int {
    if direction <= 0 {
        4 * i + j
    } else if direction == 1 {
        24 + 7 * i + j
    } else if direction == 2 {
        45 + 4 * i + j
    } else if direction == 3 {
        57 + 4 * i + j
    } else {
        69
    }
}

/// The largest `(row, col)` offset of a line in `direction`.
pub open spec fn four_extent(direction: int) -> (int, int) {
    if direction == 0 {
        (0, 3)
    } else if direction == 1 {
        (3, 0)
    } else {
        (3, 3)
    }
}

/// What the table holds for `direction`.
proof fn lemma_patterns(direction: int)
    requires
        0 <= direction < 4,
    ensures
        PATTERNS[direction].0[0] == four_extent(direction).0,
        PATTERNS[direction].0[1] == four_extent(direction).1,
        cells_of(PATTERNS[direction].1) == four_offsets(direction),
{
    assert(cells_of(PATTERNS[direction].1) =~= four_offsets(direction));
}

/// Every line of four cells that lies on the grid is listed, at the place
/// that `four_index` gives.
pub proof fn lemma_fours_complete(direction: int, i: int, j: int)
    requires
        0 <= direction < 4,
        0 <= i < 6 - four_extent(direction).0,
        0 <= j < 7 - four_extent(direction).1,
    ensures
        0 <= four_index(direction, i, j) < 69,
        four_at(four_index(direction, i, j)) == place(four_offsets(direction), i, j),
{
}

/// Every listed line lies on the grid.
pub proof fn lemma_fours_on_grid(k: int, n: int)
    requires
        0 <= k < 69,
        0 <= n < 4,
    ensures
        four_at(k).len() == 4,
        0 <= four_at(k)[n].0 < 6,
        0 <= four_at(k)[n].1 < 7,
{
}

impl Grid {
    /// All lines of four cells of the grid, in every direction, each as its
    /// four cells `[row, col]`.
    pub fn indices_of_four_connected(&self) -> (lines: Vec<[[usize; 2]; 4]>)
        ensures
            lines@.len() == 69,
            forall|k: int| 0 <= k < 69 ==> cells_of(#[trigger] lines@[k]) == four_at(k),
    {
        let mut lines: Vec<[[usize; 2]; 4]> = Vec::new();
        let mut d: usize = 0;
        while d < 4
            invariant
                d <= 4,
                lines@.len() == four_index(d as int, 0, 0),
                forall|k: int|
                    0 <= k < lines@.len() ==> cells_of(#[trigger] lines@[k]) == four_at(k),
            decreases 4 - d,
        {
            let pat = PATTERNS[d];
            proof {
                lemma_patterns(d as int);
            }
            let rows = 6 - pat.0[0];
            let cols = 7 - pat.0[1];
            let mut i: usize = 0;
            while i < rows
                invariant
                    d < 4,
                    i <= rows,
                    pat == PATTERNS[d as int],
                    rows == 6 - four_extent(d as int).0,
                    cols == 7 - four_extent(d as int).1,
                    lines@.len() == four_index(d as int, i as int, 0),
                    forall|k: int|
                        0 <= k < lines@.len() ==> cells_of(#[trigger] lines@[k]) == four_at(k),
                decreases rows - i,
            {
                let mut j: usize = 0;
                while j < cols
                    invariant
                        d < 4,
                        i < rows,
                        j <= cols,
                        pat == PATTERNS[d as int],
                        rows == 6 - four_extent(d as int).0,
                        cols == 7 - four_extent(d as int).1,
                        lines@.len() == four_index(d as int, i as int, j as int),
                        forall|k: int|
                            0 <= k < lines@.len() ==> cells_of(#[trigger] lines@[k]) == four_at(k),
                    decreases cols - j,
                {
                    let off = pat.1;
                    proof {
                        lemma_patterns(d as int);
                        let offsets = cells_of(off);
                        assert(offsets[0] == (off[0][0] as int, off[0][1] as int));
                        assert(offsets[1] == (off[1][0] as int, off[1][1] as int));
                        assert(offsets[2] == (off[2][0] as int, off[2][1] as int));
                        assert(offsets[3] == (off[3][0] as int, off[3][1] as int));
                    }
                    let ix = [
                        [i + off[0][0], j + off[0][1]],
                        [i + off[1][0], j + off[1][1]],
                        [i + off[2][0], j + off[2][1]],
                        [i + off[3][0], j + off[3][1]],
                    ];
                    proof {
                        assert(cells_of(ix) =~= place(cells_of(off), i as int, j as int));
                        assert(four_at(lines@.len() as int) == place(
                            four_offsets(d as int),
                            i as int,
                            j as int,
                        ));
                    }
                    lines.push(ix);
                    j += 1;
                }
                i += 1;
            }
            d += 1;
        }
        lines
    }
}

/// Why a text is not a grid.
#[derive(Clone, Copy, Debug, PartialEq, Eq)]
pub enum ParseGridError {
    /// The text holds a character that stands for nothing.
    UnknownCharacter(char),
    /// A cell lies beyond the sixth row or the seventh column.
    OutOfGrid,
}

/// `ch` ends a row.
pub open spec fn is_separator(ch: char) -> bool {
    ch == '|' || ch == '\n'
}

/// What a cell written as `ch` holds: `'X'`, `'O'`, or `'.'` for a free
/// cell.
pub open spec fn cell_of(ch: char) -> Option<char> {
    if ch == 'X' || ch == 'x' {
        Some('X')
    } else if ch == 'O' || ch == 'o' {
        Some('O')
    } else if ch == ' ' || ch == '.' || ch == '_' {
        Some('.')
    } else {
        None
    }
}

/// The row that the character at `n` belongs to: the number of separators
/// before it.
pub open spec fn row_at(text: Seq<char>, n: int) -> int
    decreases n,
{
    if n <= 0 {
        0
    } else if is_separator(text[n - 1]) {
        row_at(text, n - 1) + 1
    } else {
        row_at(text, n - 1)
    }
}

/// The column that the character at `n` belongs to: the number of
/// characters between it and the separator before it.
pub open spec fn col_at(text: Seq<char>, n: int) -> int
    decreases n,
{
    if n <= 0 {
        0
    } else if is_separator(text[n - 1]) {
        0
    } else {
        col_at(text, n - 1) + 1
    }
}

/// What is wrong with the character at `i`, if anything.
pub open spec fn fault_at(text: Seq<char>, i: int) -> Option<ParseGridError> {
    if is_separator(text[i]) {
        None
    } else if cell_of(text[i]) is None {
        Some(ParseGridError::UnknownCharacter(text[i]))
    } else if row_at(text, i) >= 6 || col_at(text, i) >= 7 {
        Some(ParseGridError::OutOfGrid)
    } else {
        None
    }
}

/// None of the first `n` characters stands for the cell `(row, col)`.
pub open spec fn unwritten(text: Seq<char>, n: int, row: int, col: int) -> bool {
    forall|i: int|
        0 <= i < n && !is_separator(text[i]) ==> !(#[trigger] row_at(text, i) == row && col_at(
            text,
            i,
        ) == col)
}

/// The first `n` characters of `text` are without fault, and `cells` holds
/// what they stand for: each cell what its character says, and `'\0'` where
/// there is no character for it.
pub open spec fn parsed(text: Seq<char>, n: int, cells: [[char; 7]; 6]) -> bool {
    &&& forall|i: int| 0 <= i < n ==> #[trigger] fault_at(text, i) is None
    &&& forall|i: int|
        0 <= i < n && !is_separator(text[i]) ==> Some(
            cells[#[trigger] row_at(text, i)][col_at(text, i)],
        ) == cell_of(text[i])
    &&& forall|row: int, col: int|
        0 <= row < 6 && 0 <= col < 7 && #[trigger] unwritten(text, n, row, col)
            ==> cells[row][col] == '\0'
}

/// Rows and columns are counted from 0.
pub proof fn lemma_position(text: Seq<char>, n: int)
    ensures
        0 <= row_at(text, n),
        0 <= col_at(text, n),
    decreases n,
{
    if n > 0 {
        lemma_position(text, n - 1);
    }
}

/// A character that is no separator lies before every later one, by row and
/// then by column: no two stand for the same cell.
pub proof fn lemma_cells_apart(text: Seq<char>, i: int, n: int)
    requires
        0 <= i < n,
        !is_separator(text[i]),
    ensures
        row_at(text, i) < row_at(text, n) || (row_at(text, i) == row_at(text, n) && col_at(
            text,
            i,
        ) < col_at(text, n)),
    decreases n,
{
    if i < n - 1 {
        lemma_cells_apart(text, i, n - 1);
    }
}

impl std::str::FromStr for Grid {
    type Err = ParseGridError;

    /// Reads a grid from its text: the rows from the first to the last, each
    /// ended by `'|'` or a line feed, a cell being `X`, `O` (in either case)
    /// or one of `' '`, `'.'`, `'_'` for a free cell. Cells that the text does
    /// not reach hold `'\0'`.
    fn from_str(s: &str) -> (result: Result<Grid, ParseGridError>)
        ensures
            match result {
                Ok(grid) => parsed(s@, s@.len() as int, grid.0),
                Err(e) => exists|i: int|
                    0 <= i < s@.len() && #[trigger] fault_at(s@, i) == Some(e) && forall|j: int|
                        0 <= j < i ==> #[trigger] fault_at(s@, j) is None,
            },
    {
        let mut grid = [['\0';7];6];
        let mut row: usize = 0;
        let mut col: usize = 0;
        for ch in it: s.chars()
            invariant
                it.seq() == s@,
                row <= 6,
                col <= 7,
                row == if row_at(s@, it.index() as int) < 6 {
                    row_at(s@, it.index() as int)
                } else {
                    6
                },
                col == col_at(s@, it.index() as int),
                parsed(s@, it.index() as int, grid),
        {
            let ghost n = it.index() as int;
            let ghost before = grid;
            match ch {
                'X' | 'x' | 'O' | 'o' | ' ' | '.' | '_' => {
                    if row >= 6 || col >= 7 {
                        assert(fault_at(s@, n) == Some(ParseGridError::OutOfGrid));
                        return Err(ParseGridError::OutOfGrid);
                    }
                    grid[row][col] = match ch {
                        'X' | 'x' => 'X',
                        'O' | 'o' => 'O',
                        _ => '.',
                    };
                    col += 1;
                    proof {
                        assert forall|i: int| 0 <= i < n && !is_separator(s@[i]) implies Some(
                            grid[#[trigger] row_at(s@, i)][col_at(s@, i)],
                        ) == cell_of(s@[i]) by {
                            lemma_cells_apart(s@, i, n);
                            lemma_position(s@, i);
                            assert(fault_at(s@, i) is None);
                            assert(Some(before[row_at(s@, i)][col_at(s@, i)]) == cell_of(s@[i]));
                        }
                        assert forall|r: int, c: int|
                            0 <= r < 6 && 0 <= c < 7 && #[trigger] unwritten(
                                s@,
                                n + 1,
                                r,
                                c,
                            ) implies grid[r][c] == '\0' by {
                            assert(unwritten(s@, n, r, c));
                            assert(!(row_at(s@, n) == r && col_at(s@, n) == c));
                        }
                    }
                },
                '|' | '\n' => {
                    if row < 6 {
                        row += 1;
                    }
                    col = 0;
                    proof {
                        assert forall|r: int, c: int|
                            0 <= r < 6 && 0 <= c < 7 && #[trigger] unwritten(
                                s@,
                                n + 1,
                                r,
                                c,
                            ) implies grid[r][c] == '\0' by {
                            assert(unwritten(s@, n, r, c));
                        }
                    }
                },
                _ => {
                    assert(fault_at(s@, n) == Some(ParseGridError::UnknownCharacter(ch)));
                    return Err(ParseGridError::UnknownCharacter(ch));
                },
            }
        }
        Ok(Grid(grid))
    }
}

impl Default for Grid {
    /// The grid whose cells all hold `'\0'`.
    fn default() -> (grid: Grid)
        ensures
            forall|row: int, col: int|
                0 <= row < 6 && 0 <= col < 7 ==> #[trigger] grid.0[row][col] == '\0',
    {
        Grid([['\0';7];6])
    }
}

impl Index<[usize; 2]> for Grid {
    type Output = char;

    /// The character in the cell `[row, col]`.
    fn index(&self, index: [usize; 2]) -> (ch: &char)
        ensures
            *ch == self.0[index[0] as int][index[1] as int],
    {
        &self.0[index[0]][index[1]]
    }
}

impl vstd::std_specs::core::IndexSpecImpl<[usize; 2]> for Grid {
    open spec fn index_req(&self, index: &[usize; 2]) -> bool {
        index[0] < 6 && index[1] < 7
    }
}

/// The piece that fills all four cells, if one does.
pub fn is_four_equal(four: &[char; 4]) -> (piece: Option<char>)
    ensures
        piece == if four[0] != '.' && four[0] == four[1] && four[1] == four[2] && four[2]
            == four[3] {
            Some(four[0])
        } else {
            None
        },
{
    let a = four[0];
    if a != '.' && a == four[1] && four[1] == four[2] && four[2] == four[3] {
        Some(a)
    } else {
        None
    }
}

/// The piece that fills three cells in a row beside a free cell at either
/// end, if one does.
pub fn is_three_of_four_equal(four: &[char; 4]) -> (piece: Option<char>)
    ensures
        piece == if four[3] == '.' && four[0] != '.' && four[0] == four[1] && four[1] == four[2] {
            Some(four[0])
        } else if four[0] == '.' && four[1] != '.' && four[1] == four[2] && four[2] == four[3] {
            Some(four[1])
        } else {
            None
        },
{
    if four[3] == '.' && four[0] != '.' && four[0] == four[1] && four[1] == four[2] {
        Some(four[0])
    } else if four[0] == '.' && four[1] != '.' && four[1] == four[2] && four[2] == four[3] {
        Some(four[1])
    } else {
        None
    }
}

/// The eight colours of a terminal.
#[derive(Clone, Copy, Debug, PartialEq, Eq, Structural)]
pub enum Color {
    Black,
    Red,
    Green,
    Yellow,
    Blue,
    Purple,
    Cyan,
    White,
}

impl Color {
    /// The digits that select the colour as foreground in an escape
    /// sequence: `30` for black up to `37` for white.
    pub open spec fn spec_foreground_code(self) -> Seq<char> {
        match self {
            Color::Black => "30"@,
            Color::Red => "31"@,
            Color::Green => "32"@,
            Color::Yellow => "33"@,
            Color::Blue => "34"@,
            Color::Purple => "35"@,
            Color::Cyan => "36"@,
            Color::White => "37"@,
        }
    }

    /// The digits that select the colour as foreground in an escape
    /// sequence.
    pub fn foreground_code(&self) -> (code: &'static str)
        ensures
            code@ == self.spec_foreground_code(),
    {
        match *self {
            Color::Black => "30",
            Color::Red => "31",
            Color::Green => "32",
            Color::Yellow => "33",
            Color::Blue => "34",
            Color::Purple => "35",
            Color::Cyan => "36",
            Color::White => "37",
        }
    }
}

/// A grid with some of its cells marked, to be shown in a colour.
#[derive(Debug)]
pub struct HighlightedGrid<'a> {
    pub grid: &'a Grid,
    pub color: Color,
    pub highlights: Vec<[usize; 2]>,
}

impl<'a> HighlightedGrid<'a> {
    /// The grid with the cells `highlights` marked, to be shown in `color`.
    pub fn new(grid: &'a Grid, highlights: Vec<[usize; 2]>, color: Color) -> (marked: Self)
        ensures
            marked.grid == grid,
            marked.color == color,
            marked.highlights@ == highlights@,
    {
        HighlightedGrid { grid, color, highlights }
    }
}

} // verus!
