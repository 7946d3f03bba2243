//! Boards and grids as text for a terminal.
use crate::bitboards::{BitBoard, COLS, ROWS};
use crate::board::Board;
use crate::grid_patterns::{
    cells_of, find_four_in_a_row, first_run, four_in_a_row, line_offsets, place,
};
use crate::grids::{Grid, HighlightedGrid};
use vstd::prelude::*;
use vstd::string::StringExecFns;

verus! {

/// `String::push` appends the character to the end of the string.
pub assume_specification[ String::push ](text: &mut String, ch: char)
    ensures
        final(text)@ == old(text)@.push(ch),
;

/// The cells `[row, col]` as pairs.
pub open spec fn pairs(cells: Seq<[usize; 2]>) -> Seq<(int, int)> {
    Seq::new(cells.len(), |k: int| (cells[k][0] as int, cells[k][1] as int))
}

/// The text of a cell that holds `ch`: `ch` and a space, or, for a marked
/// cell, `ch` between `open` and `close`.
pub open spec fn cell_text(ch: char, marked: bool, open: Seq<char>, close: Seq<char>) -> Seq<char> {
    if marked {
        open + seq![ch] + close
    } else {
        seq![ch, ' ']
    }
}

/// The text of the first `upto` cells of row `row`.
pub open spec fn cells_text<const W: usize, const H: usize>(
    grid: &[[char; W]; H],
    marks: Seq<(int, int)>,
    open: Seq<char>,
    close: Seq<char>,
    row: int,
    upto: int,
) -> Seq<char>
    decreases upto,
{
    if upto <= 0 {
        Seq::empty()
    } else {
        cells_text(grid, marks, open, close, row, upto - 1) + cell_text(
            grid[row][upto - 1],
            marks.contains((row, upto - 1)),
            open,
            close,
        )
    }
}

/// The text of the first `upto` lines: each the cells of a row and a line
/// feed. The rows come from the first to the last, or, if `reversed`, from
/// the last to the first.
pub open spec fn rows_text<const W: usize, const H: usize>(
    grid: &[[char; W]; H],
    marks: Seq<(int, int)>,
    open: Seq<char>,
    close: Seq<char>,
    reversed: bool,
    upto: int,
) -> Seq<char>
    decreases upto,
{
    if upto <= 0 {
        Seq::empty()
    } else {
        let row = if reversed {
            H - upto
        } else {
            upto - 1
        };
        rows_text(grid, marks, open, close, reversed, upto - 1) + cells_text(
            grid,
            marks,
            open,
            close,
            row,
            W as int,
        ) + seq!['\n']
    }
}

/// The grid as text, one line for each row: a cell is its character and a
/// space, a cell among `marks` its character between `open` and `close`.
pub open spec fn grid_text<const W: usize, const H: usize>(
    grid: &[[char; W]; H],
    marks: Seq<(int, int)>,
    open: Seq<char>,
    close: Seq<char>,
    reversed: bool,
) -> Seq<char> {
    rows_text(grid, marks, open, close, reversed, H as int)
}

/// The grid as text without a marked cell.
pub open spec fn plain_text<const W: usize, const H: usize>(
    grid: &[[char; W]; H],
    reversed: bool,
) -> Seq<char> {
    grid_text(grid, Seq::empty(), Seq::empty(), Seq::empty(), reversed)
}

/// Whether the cell `[row, col]` is among `cells`.
pub fn contains_cell(cells: &[[usize; 2]], row: usize, col: usize) -> (found: bool)
    ensures
        found == pairs(cells@).contains((row as int, col as int)),
{
    let mut k: usize = 0;
    while k < cells.len()
        invariant
            k <= cells@.len(),
            forall|m: int| 0 <= m < k ==> pairs(cells@)[m] != (row as int, col as int),
        decreases cells@.len() - k,
    {
        let cell = cells[k];
        if cell[0] == row && cell[1] == col {
            assert(pairs(cells@)[k as int] == (row as int, col as int));
            return true;
        }
        k += 1;
    }
    false
}

/// The grid as text, one line for each row, a cell being its character and
/// a space, and a cell among `marks` its character between `open` and
/// `close`.
pub fn render<const W: usize, const H: usize>(
    grid: &[[char; W]; H],
    marks: &[[usize; 2]],
    open: &str,
    close: &str,
    reversed: bool,
) -> (text: String)
    ensures
        text@ == grid_text(grid, pairs(marks@), open@, close@, reversed),
{
    let mut text = String::new();
    let mut line: usize = 0;
    while line < H
        invariant
            line <= H,
            text@ == rows_text(grid, pairs(marks@), open@, close@, reversed, line as int),
        decreases H - line,
    {
        let row = if reversed {
            H - 1 - line
        } else {
            line
        };
        let ghost start = text@;
        let mut col: usize = 0;
        while col < W
            invariant
                row < H,
                col <= W,
                text@ == start + cells_text(
                    grid,
                    pairs(marks@),
                    open@,
                    close@,
                    row as int,
                    col as int,
                ),
            decreases W - col,
        {
            let ch = grid[row][col];
            if contains_cell(marks, row, col) {
                text.append(open);
                text.push(ch);
                text.append(close);
            } else {
                text.push(ch);
                text.push(' ');
            }
            col += 1;
            proof {
                assert(text@ =~= start + cells_text(
                    grid,
                    pairs(marks@),
                    open@,
                    close@,
                    row as int,
                    col as int,
                ));
            }
        }
        text.push('\n');
        line += 1;
        proof {
            assert(text@ =~= rows_text(
                grid,
                pairs(marks@),
                open@,
                close@,
                reversed,
                line as int,
            ));
        }
    }
    text
}

/// The text without a marked cell, whatever `open` and `close` are.
proof fn lemma_plain<const W: usize, const H: usize>(
    grid: &[[char; W]; H],
    marks: Seq<(int, int)>,
    open: Seq<char>,
    close: Seq<char>,
    reversed: bool,
    row: int,
    upto: int,
)
    requires
        marks.len() == 0,
    ensures
        cells_text(grid, marks, open, close, row, upto) == cells_text(
            grid,
            Seq::empty(),
            Seq::empty(),
            Seq::empty(),
            row,
            upto,
        ),
        rows_text(grid, marks, open, close, reversed, upto) == rows_text(
            grid,
            Seq::empty(),
            Seq::empty(),
            Seq::empty(),
            reversed,
            upto,
        ),
    decreases upto, row + 1 - row,
{
    if upto > 0 {
        lemma_plain(grid, marks, open, close, reversed, row, upto - 1);
        let r = if reversed {
            H - upto
        } else {
            upto - 1
        };
        lemma_plain_cells(grid, marks, open, close, r, W as int);
    }
}

proof fn lemma_plain_cells<const W: usize, const H: usize>(
    grid: &[[char; W]; H],
    marks: Seq<(int, int)>,
    open: Seq<char>,
    close: Seq<char>,
    row: int,
    upto: int,
)
    requires
        marks.len() == 0,
    ensures
        cells_text(grid, marks, open, close, row, upto) == cells_text(
            grid,
            Seq::empty(),
            Seq::empty(),
            Seq::empty(),
            row,
            upto,
        ),
    decreases upto,
{
    if upto > 0 {
        lemma_plain_cells(grid, marks, open, close, row, upto - 1);
    }
}

/// The grid as text without a marked cell.
fn render_plain<const W: usize, const H: usize>(grid: &[[char; W]; H], reversed: bool) -> (text:
    String)
    ensures
        text@ == plain_text(grid, reversed),
{
    let none: Vec<[usize; 2]> = Vec::new();
    proof {
        lemma_plain(grid, pairs(none@), ""@, ""@, reversed, 0, H as int);
    }
    render(grid, none.as_slice(), "", "", reversed)
}

/// Turns the terminal to red.
pub const RED: &'static str = "\x1b[31m";

/// Turns the terminal back to its own colour.
pub const CLR: &'static str = "\x1b[39m";

impl Grid {
    /// The grid as text: a line for each row from the first, each cell its
    /// character and a space.
    pub fn to_string(&self) -> (text: String)
        ensures
            text@ == plain_text(&self.0, false),
    {
        render_plain(&self.0, false)
    }
}

impl Board {
    /// The board as text: a line for each row from the top, each cell `X`,
    /// `O` or `.` and a space.
    pub fn to_string(&self) -> (text: String)
        ensures
            text@ == plain_text(&self.spec_grid(), true),
    {
        let grid: [[char; 7]; 6] = <[[char; 7]; 6]>::from(self);
        render_plain(&grid, true)
    }

    /// The board as text with the first line of four that the scan of the
    /// grid comes to shown in red: each of its cells stands between `RED`
    /// and `CLR`, before its space. `None` where no player has four in a
    /// line.
    pub fn to_string_highlighted(&self) -> (text: Option<String>)
        ensures
            text is Some <==> four_in_a_row(&self.spec_grid()),
            text matches Some(shown) ==> exists|player: int, direction: int, h: int, w: int|
                #[trigger] first_run(&self.spec_grid(), player, direction, h, w) && shown@
                    == grid_text(
                    &self.spec_grid(),
                    place(line_offsets(direction), h, w),
                    RED@,
                    CLR@.push(' '),
                    true,
                ),
    {
        let grid: [[char; 7]; 6] = <[[char; 7]; 6]>::from(self);
        match find_four_in_a_row(&grid) {
            Some(cells) => {
                let mut close = String::new();
                close.append(CLR);
                close.push(' ');
                proof {
                    assert(pairs(cells@) =~= cells_of(cells));
                    assert(close@ =~= CLR@.push(' '));
                }
                Some(render(&grid, cells.as_slice(), RED, close.as_str(), true))
            },
            None => None,
        }
    }
}

impl<'a> HighlightedGrid<'a> {
    /// The text that turns the terminal to the colour.
    pub open spec fn spec_open(self) -> Seq<char> {
        "\x1b["@ + self.color.spec_foreground_code() + "m"@
    }

    /// Whether the cell `[row, col]` is among the marked ones.
    pub fn is_highlighted(&self, row: usize, col: usize) -> (found: bool)
        ensures
            found == pairs(self.highlights@).contains((row as int, col as int)),
    {
        contains_cell(self.highlights.as_slice(), row, col)
    }

    /// The grid as text: a line for each row from the first, each cell its
    /// character and a space, those of a marked cell in the colour.
    pub fn to_string(&self) -> (text: String)
        ensures
            text@ == grid_text(
                &self.grid.0,
                pairs(self.highlights@),
                self.spec_open(),
                " \x1b[0m"@,
                false,
            ),
    {
        let mut open = String::new();
        open.append("\x1b[");
        open.append(self.color.foreground_code());
        open.append("m");
        proof {
            assert(open@ =~= self.spec_open());
        }
        render(&self.grid.0, self.highlights.as_slice(), open.as_str(), " \x1b[0m", false)
    }
}

impl BitBoard {
    /// The character at place `p` of the store in binary digits: the eight
    /// lanes from the first, each from its highest bit to its lowest and
    /// followed by a space.
    pub open spec fn binary_digit(self, p: int) -> char {
        if p % 9 == 8 {
            ' '
        } else if self@.contains((7 - p % 9, p / 9)) {
            '1'
        } else {
            '0'
        }
    }

    /// The store in binary digits: the eight lanes from the first, each from
    /// its highest bit to its lowest and followed by a space.
    pub fn to_binary_string(&self) -> (text: String)
        ensures
            text@ == Seq::new(72, |p: int| self.binary_digit(p)),
    {
        let mut text = String::new();
        let mut col: usize = 0;
        proof {
            use_type_invariant(self);
            self.lemma_cells_on_grid();
        }
        while col < 8
            invariant
                col <= 8,
                forall|row: int, col: int| #[trigger]
                    self@.contains((row, col)) ==> 0 <= row < ROWS && 0 <= col < COLS,
                text@ == Seq::new((9 * col) as nat, |p: int| self.binary_digit(p)),
            decreases 8 - col,
        {
            let mut n: usize = 0;
            while n < 8
                invariant
                    col < 8,
                    n <= 8,
                    forall|row: int, col: int| #[trigger]
                        self@.contains((row, col)) ==> 0 <= row < ROWS && 0 <= col < COLS,
                    text@ == Seq::new((9 * col + n) as nat, |p: int| self.binary_digit(p)),
                decreases 8 - n,
            {
                let row = 7 - n;
                let set = row < ROWS && col < COLS && self.get(row, col);
                let ghost before = text@;
                text.push(if set { '1' } else { '0' });
                proof {
                    let p = (9 * col + n) as int;
                    assert(p % 9 == n && p / 9 == col);
                    assert(text@ =~= Seq::new((p + 1) as nat, |p: int| self.binary_digit(p)));
                }
                n += 1;
            }
            text.push(' ');
            proof {
                let p = (9 * col + 8) as int;
                assert(p % 9 == 8);
                assert(text@ =~= Seq::new((p + 1) as nat, |p: int| self.binary_digit(p)));
            }
            col += 1;
        }
        text
    }
}

} // verus!
