//! Patterns of cells, and the scan of a grid of characters for four equal
//! pieces in a line.
use vstd::prelude::*;

verus! {

/// The cells `[row, col]` of `line` as pairs.
pub open spec fn cells_of<const N: usize>(line: [[usize; 2]; N]) -> Seq<(int, int)> {
    Seq::new(N as nat, |i: int| (line[i][0] as int, line[i][1] as int))
}

/// A shape of `N` cells, each given by its offset `[row, col]` from the
/// corner where the shape is placed.
#[derive(Debug, PartialEq, Eq)]
pub struct Pattern<const N: usize> {
    cells: [[usize; 2]; N],
    sz: [usize; 2],
}

impl<const N: usize> Pattern<N> {
    /// The offsets `(row, col)` of the cells.
    pub closed spec fn offsets(self) -> Seq<(int, int)> {
        cells_of(self.cells)
    }

    /// The largest row offset and the largest column offset.
    pub closed spec fn extent(self) -> (int, int) {
        (self.sz[0] as int, self.sz[1] as int)
    }

    /// The extent is the largest offset in each direction. Each executable
    /// `Pattern` is such.
    #[verifier::type_invariant]
    pub closed spec fn wf(self) -> bool {
        spans(self.offsets(), self.extent())
    }

    /// Placed at `(h, w)`, the shape lies on a grid of `rows` by `cols`.
    pub open spec fn fits(self, h: int, w: int, rows: int, cols: int) -> bool {
        0 <= h < rows - self.extent().0 && 0 <= w < cols - self.extent().1
    }

    /// The cells that the shape covers when placed at `(h, w)`.
    pub open spec fn placed(self, h: int, w: int) -> Seq<(int, int)> {
        place(self.offsets(), h, w)
    }

    /// A well-formed pattern has `N` offsets, none beyond its extent.
    pub proof fn lemma_extent(self)
        requires
            self.wf(),
        ensures
            self.offsets().len() == N,
            spans(self.offsets(), self.extent()),
    {
    }

    /// The pattern of the given cells. There must be a cell.
    pub fn new(cells: [[usize; 2]; N]) -> (pattern: Self)
        requires
            N > 0,
        ensures
            pattern.offsets() == cells_of(cells),
            spans(pattern.offsets(), pattern.extent()),
    {
        let mut h: usize = cells[0][0];
        let mut w: usize = cells[0][1];
        let ghost mut at_h: int = 0;
        let ghost mut at_w: int = 0;
        let mut i: usize = 1;
        while i < N
            invariant
                1 <= i <= N,
                0 <= at_h < i,
                0 <= at_w < i,
                cells[at_h][0] == h,
                cells[at_w][1] == w,
                forall|j: int| 0 <= j < i ==> (#[trigger] cells[j])[0] <= h && cells[j][1] <= w,
            decreases N - i,
        {
            if cells[i][0] > h {
                h = cells[i][0];
                proof {
                    at_h = i as int;
                }
            }
            if cells[i][1] > w {
                w = cells[i][1];
                proof {
                    at_w = i as int;
                }
            }
            i += 1;
        }
        let sz = [h, w];
        proof {
            let offsets = cells_of(cells);
            assert(offsets[at_h].0 == h);
            assert(offsets[at_w].1 == w);
        }
        Self { cells, sz }
    }

    /// The first place, going column by column and down each column row by
    /// row, where `predicate` accepts every cell that the shape covers, as
    /// the cells covered there; `None` where there is no such place.
    pub fn matches<const W: usize, const H: usize, P>(
        &self,
        grid: &[[char; W]; H],
        predicate: P,
    ) -> (found: Option<[[usize; 2]; N]>) where P: Fn(char) -> bool
        requires
            forall|ch: char| predicate.requires((ch,)),
        ensures
            match found {
                Some(cells) => exists|h: int, w: int|
                    {
                        &&& #[trigger] self.fits(h, w, H as int, W as int)
                        &&& cells_of(cells) == self.placed(h, w)
                        &&& accepted(grid, predicate, self.placed(h, w))
                        &&& forall|h2: int, w2: int|
                            #[trigger] self.fits(h2, w2, H as int, W as int) && (w2 < w || (w2
                                == w && h2 < h)) ==> refused(grid, predicate, self.placed(h2, w2))
                    },
                None => forall|h: int, w: int| #[trigger]
                    self.fits(h, w, H as int, W as int) ==> refused(
                        grid,
                        predicate,
                        self.placed(h, w),
                    ),
            },
    {
        proof {
            use_type_invariant(self);
        }
        if self.sz[0] >= H || self.sz[1] >= W {
            return None;
        }
        let mut w: usize = 0;
        while w < W - self.sz[1]
            invariant
                self.wf(),
                self.sz[0] < H,
                self.sz[1] < W,
                w <= W - self.sz[1],
                forall|ch: char| predicate.requires((ch,)),
                forall|h2: int, w2: int|
                    #[trigger] self.fits(h2, w2, H as int, W as int) && w2 < w ==> refused(
                        grid,
                        predicate,
                        self.placed(h2, w2),
                    ),
            decreases W - self.sz[1] - w,
        {
            let mut h: usize = 0;
            while h < H - self.sz[0]
                invariant
                    self.wf(),
                    self.sz[0] < H,
                    self.sz[1] < W,
                    w < W - self.sz[1],
                    h <= H - self.sz[0],
                    forall|ch: char| predicate.requires((ch,)),
                    forall|h2: int, w2: int|
                        #[trigger] self.fits(h2, w2, H as int, W as int) && (w2 < w || (w2 == w
                            && h2 < h)) ==> refused(grid, predicate, self.placed(h2, w2)),
                decreases H - self.sz[0] - h,
            {
                let pat = self.place_at(h, w);
                let mut all = true;
                let mut i: usize = 0;
                while all && i < N
                    invariant
                        i <= N,
                        cells_of(pat) == self.placed(h as int, w as int),
                        self.placed(h as int, w as int).len() == N,
                        forall|j: int|
                            0 <= j < N ==> 0 <= (#[trigger] self.placed(h as int, w as int)[j]).0
                                < H && 0 <= self.placed(h as int, w as int)[j].1 < W,
                        forall|ch: char| predicate.requires((ch,)),
                        all ==> forall|j: int|
                            0 <= j < i ==> predicate.ensures(
                                (at(grid, #[trigger] self.placed(h as int, w as int)[j]),),
                                true,
                            ),
                        !all ==> refused(grid, predicate, self.placed(h as int, w as int)),
                    decreases N - i + if all { 1int } else { 0int },
                {
                    let ghost cell = self.placed(h as int, w as int)[i as int];
                    assert(cells_of(pat)[i as int] == cell);
                    if !predicate(grid[pat[i][0]][pat[i][1]]) {
                        all = false;
                        assert(predicate.ensures((at(grid, cell),), false));
                    } else {
                        i += 1;
                    }
                }
                if all {
                    assert(self.fits(h as int, w as int, H as int, W as int));
                    return Some(pat);
                }
                h += 1;
            }
            w += 1;
        }
        None
    }

    /// The cells that the shape covers when placed at `(h, w)`.
    fn place_at(&self, h: usize, w: usize) -> (cells: [[usize; 2]; N])
        requires
            h + self.extent().0 <= usize::MAX,
            w + self.extent().1 <= usize::MAX,
        ensures
            cells_of(cells) == self.placed(h as int, w as int),
            self.placed(h as int, w as int).len() == N,
            forall|j: int|
                0 <= j < N ==> h <= (#[trigger] self.placed(h as int, w as int)[j]).0 <= h
                    + self.extent().0 && w <= self.placed(h as int, w as int)[j].1 <= w
                    + self.extent().1,
    {
        proof {
            use_type_invariant(self);
        }
        let mut cells = self.cells;
        let mut i: usize = 0;
        while i < N
            invariant
                i <= N,
                self.wf(),
                h + self.extent().0 <= usize::MAX,
                w + self.extent().1 <= usize::MAX,
                forall|j: int|
                    0 <= j < i ==> (#[trigger] cells[j])[0] == h + self.cells[j][0] && cells[j][1]
                        == w + self.cells[j][1],
                forall|j: int| i <= j < N ==> #[trigger] cells[j] == self.cells[j],
            decreases N - i,
        {
            assert(self.offsets()[i as int].0 <= self.extent().0);
            assert(self.offsets()[i as int].1 <= self.extent().1);
            let cell = [h + self.cells[i][0], w + self.cells[i][1]];
            cells[i] = cell;
            i += 1;
        }
        proof {
            assert(cells_of(cells) =~= self.placed(h as int, w as int));
        }
        cells
    }
}

/// `extent` holds the largest row offset and the largest column offset
/// among `offsets`.
pub open spec fn spans(offsets: Seq<(int, int)>, extent: (int, int)) -> bool {
    &&& forall|i: int|
        0 <= i < offsets.len() ==> 0 <= (#[trigger] offsets[i]).0 <= extent.0 && 0
            <= offsets[i].1 <= extent.1
    &&& exists|i: int| 0 <= i < offsets.len() && (#[trigger] offsets[i]).0 == extent.0
    &&& exists|i: int| 0 <= i < offsets.len() && (#[trigger] offsets[i]).1 == extent.1
}

/// The cells at the given offsets from `(h, w)`.
pub open spec fn place(offsets: Seq<(int, int)>, h: int, w: int) -> Seq<(int, int)> {
    Seq::new(offsets.len(), |i: int| (h + offsets[i].0, w + offsets[i].1))
}

/// The character in the cell `(row, col)` of the grid.
pub open spec fn at<const W: usize, const H: usize>(grid: &[[char; W]; H], cell: (int, int)) -> char {
    grid[cell.0][cell.1]
}

/// `predicate` has accepted each of the cells.
pub open spec fn accepted<const W: usize, const H: usize, P: Fn(char) -> bool>(
    grid: &[[char; W]; H],
    predicate: P,
    cells: Seq<(int, int)>,
) -> bool {
    forall|i: int|
        0 <= i < cells.len() ==> predicate.ensures((at(grid, #[trigger] cells[i]),), true)
}

/// `predicate` has refused one of the cells.
pub open spec fn refused<const W: usize, const H: usize, P: Fn(char) -> bool>(
    grid: &[[char; W]; H],
    predicate: P,
    cells: Seq<(int, int)>,
) -> bool {
    exists|i: int|
        0 <= i < cells.len() && predicate.ensures((at(grid, #[trigger] cells[i]),), false)
}

/// The offsets of the four cells of a line: for `direction` 0 along the
/// rising diagonal, for 1 along the falling diagonal, for 2 along a row,
/// else up a column.
pub open spec fn line_offsets(direction: int) -> Seq<(int, int)> {
    if direction == 0 {
        seq![(0, 0), (1, 1), (2, 2), (3, 3)]
    } else if direction == 1 {
        seq![(0, 3), (1, 2), (2, 1), (3, 0)]
    } else if direction == 2 {
        seq![(0, 0), (0, 1), (0, 2), (0, 3)]
    } else {
        seq![(0, 0), (1, 0), (2, 0), (3, 0)]
    }
}

/// The character of a player's pieces: `'X'` for player 0, else `'O'`.
pub open spec fn piece_of(player: int) -> char {
    if player == 0 {
        'X'
    } else {
        'O'
    }
}

/// The line in `direction` whose corner is `(h, w)` lies on the grid, and
/// its four cells hold the piece of `player`.
pub open spec fn run_at<const W: usize, const H: usize>(
    grid: &[[char; W]; H],
    player: int,
    direction: int,
    h: int,
    w: int,
) -> bool {
    let cells = place(line_offsets(direction), h, w);
    &&& 0 <= h
    &&& 0 <= w
    &&& forall|i: int|
        0 <= i < 4 ==> (#[trigger] cells[i]).0 < H && cells[i].1 < W && at(grid, cells[i])
            == piece_of(player)
}

/// The cell `(row, col)` lies on the grid and holds `ch`.
pub open spec fn holds<const W: usize, const H: usize>(
    grid: &[[char; W]; H],
    row: int,
    col: int,
    ch: char,
) -> bool {
    0 <= row < H && 0 <= col < W && grid[row][col] == ch
}

/// The four cells that start at `(row, col)` and go on by `(dr, dc)` lie on
/// the grid and hold `ch`.
pub open spec fn four_hold<const W: usize, const H: usize>(
    grid: &[[char; W]; H],
    row: int,
    col: int,
    dr: int,
    dc: int,
    ch: char,
) -> bool {
    &&& holds(grid, row, col, ch)
    &&& holds(grid, row + dr, col + dc, ch)
    &&& holds(grid, row + 2 * dr, col + 2 * dc, ch)
    &&& holds(grid, row + 3 * dr, col + 3 * dc, ch)
}

/// A line of the scan, told by the cell it starts from and its step.
pub proof fn lemma_run_at<const W: usize, const H: usize>(
    grid: &[[char; W]; H],
    player: int,
    direction: int,
    h: int,
    w: int,
)
    requires
        0 <= direction < 4,
    ensures
        run_at(grid, player, direction, h, w) <==> if direction == 0 {
            four_hold(grid, h, w, 1, 1, piece_of(player))
        } else if direction == 1 {
            four_hold(grid, h, w + 3, 1, -1, piece_of(player))
        } else if direction == 2 {
            four_hold(grid, h, w, 0, 1, piece_of(player))
        } else {
            four_hold(grid, h, w, 1, 0, piece_of(player))
        },
{
    let offsets = line_offsets(direction);
    let cells = place(offsets, h, w);
    assert(offsets.len() == 4);
    assert(cells[0] == (h + offsets[0].0, w + offsets[0].1));
    assert(cells[1] == (h + offsets[1].0, w + offsets[1].1));
    assert(cells[2] == (h + offsets[2].0, w + offsets[2].1));
    assert(cells[3] == (h + offsets[3].0, w + offsets[3].1));
}

/// Some player has four pieces in a line on the grid.
pub open spec fn four_in_a_row<const W: usize, const H: usize>(grid: &[[char; W]; H]) -> bool {
    exists|player: int, direction: int, h: int, w: int|
        0 <= player < 2 && 0 <= direction < 4 && #[trigger] run_at(grid, player, direction, h, w)
}

/// The scan comes to the line `(player2, direction2, h2, w2)` before the
/// line `(player, direction, h, w)`: it goes player by player, for each
/// direction by direction, for each column by column, and down each column
/// row by row.
pub open spec fn scanned_before(
    player2: int,
    direction2: int,
    h2: int,
    w2: int,
    player: int,
    direction: int,
    h: int,
    w: int,
) -> bool {
    player2 < player || (player2 == player && (direction2 < direction || (direction2 == direction
        && (w2 < w || (w2 == w && h2 < h)))))
}

/// The line `(player, direction, h, w)` is the first in the scan whose four
/// cells hold the player's piece.
pub open spec fn first_run<const W: usize, const H: usize>(
    grid: &[[char; W]; H],
    player: int,
    direction: int,
    h: int,
    w: int,
) -> bool {
    &&& 0 <= player < 2
    &&& 0 <= direction < 4
    &&& run_at(grid, player, direction, h, w)
    &&& forall|player2: int, direction2: int, h2: int, w2: int|
        0 <= player2 < 2 && 0 <= direction2 < 4 && scanned_before(
            player2,
            direction2,
            h2,
            w2,
            player,
            direction,
            h,
            w,
        ) ==> !#[trigger] run_at(grid, player2, direction2, h2, w2)
}

/// The four patterns of a line of four, in the order of `line_offsets`.
pub fn four_in_a_row_patterns() -> (patterns: [Pattern<4>; 4])
    ensures
        forall|direction: int|
            0 <= direction < 4 ==> (#[trigger] patterns[direction]).offsets() == line_offsets(
                direction,
            ),
{
    let diagonal = [[0, 0], [1, 1], [2, 2], [3, 3]];
    let anti_diagonal = [[0, 3], [1, 2], [2, 1], [3, 0]];
    let horizontal = [[0, 0], [0, 1], [0, 2], [0, 3]];
    let vertical = [[0, 0], [1, 0], [2, 0], [3, 0]];
    proof {
        assert(cells_of(diagonal) =~= line_offsets(0));
        assert(cells_of(anti_diagonal) =~= line_offsets(1));
        assert(cells_of(horizontal) =~= line_offsets(2));
        assert(cells_of(vertical) =~= line_offsets(3));
    }
    [
        Pattern::new(diagonal),
        Pattern::new(anti_diagonal),
        Pattern::new(horizontal),
        Pattern::new(vertical),
    ]
}

/// A line pattern fits exactly where its four cells lie on the grid.
proof fn lemma_line_fits(pattern: Pattern<4>, direction: int, h: int, w: int, rows: int, cols: int)
    requires
        pattern.wf(),
        0 <= direction < 4,
        pattern.offsets() == line_offsets(direction),
    ensures
        pattern.placed(h, w).len() == 4,
        pattern.fits(h, w, rows, cols) <==> 0 <= h && 0 <= w && forall|i: int|
            0 <= i < 4 ==> (#[trigger] pattern.placed(h, w)[i]).0 < rows && pattern.placed(
                h,
                w,
            )[i].1 < cols,
{
    pattern.lemma_extent();
    let offsets = line_offsets(direction);
    let cells = pattern.placed(h, w);
    assert(offsets[0].0 <= 3 && offsets[1].0 <= 3 && offsets[2].0 <= 3 && offsets[3].0 <= 3);
    assert(offsets[0].1 <= 3 && offsets[1].1 <= 3 && offsets[2].1 <= 3 && offsets[3].1 <= 3);
    assert(pattern.extent() == (3int, 3int) || pattern.extent() == (0int, 3int) || pattern.extent()
        == (3int, 0int));
    if pattern.fits(h, w, rows, cols) {
        assert forall|i: int| 0 <= i < 4 implies (#[trigger] cells[i]).0 < rows && cells[i].1
            < cols by {
            assert(offsets[i].0 <= pattern.extent().0);
        }
    }
    if 0 <= h && 0 <= w && forall|i: int|
        0 <= i < 4 ==> (#[trigger] cells[i]).0 < rows && cells[i].1 < cols {
        let i = choose|i: int| 0 <= i < offsets.len() && (#[trigger] offsets[i]).0 == pattern.extent().0;
        let j = choose|j: int| 0 <= j < offsets.len() && (#[trigger] offsets[j]).1 == pattern.extent().1;
        assert(cells[i].0 < rows);
        assert(cells[j].1 < cols);
    }
}

/// The first line of four equal pieces that the scan of the grid comes to,
/// as its four cells `[row, col]`; `None` where no player has four in a
/// line. The scan looks for `'X'` before `'O'`, and for each along the
/// rising diagonal, the falling diagonal, the rows, and then the columns.
pub fn find_four_in_a_row<const W: usize, const H: usize>(grid: &[[char; W]; H]) -> (found: Option<
    [[usize; 2]; 4],
>)
    ensures
        found is Some <==> four_in_a_row(grid),
        found matches Some(cells) ==> exists|player: int, direction: int, h: int, w: int|
            #[trigger] first_run(grid, player, direction, h, w) && cells_of(cells) == place(
                line_offsets(direction),
                h,
                w,
            ),
{
    let patterns = four_in_a_row_patterns();
    let pieces = ['X', 'O'];
    let mut a: usize = 0;
    while a < 2
        invariant
            a <= 2,
            pieces[0] == 'X',
            pieces[1] == 'O',
            forall|direction: int|
                0 <= direction < 4 ==> (#[trigger] patterns[direction]).offsets() == line_offsets(
                    direction,
                ),
            forall|player2: int, direction2: int, h2: int, w2: int|
                0 <= player2 < a && 0 <= direction2 < 4 ==> !#[trigger] run_at(
                    grid,
                    player2,
                    direction2,
                    h2,
                    w2,
                ),
        decreases 2 - a,
    {
        let piece = pieces[a];
        let mut p: usize = 0;
        while p < 4
            invariant
                a < 2,
                p <= 4,
                piece == piece_of(a as int),
                forall|direction: int|
                    0 <= direction < 4 ==> (#[trigger] patterns[direction]).offsets()
                        == line_offsets(direction),
                forall|player2: int, direction2: int, h2: int, w2: int|
                    0 <= player2 < 2 && 0 <= direction2 < 4 && (player2 < a || (player2 == a
                        && direction2 < p)) ==> !#[trigger] run_at(
                        grid,
                        player2,
                        direction2,
                        h2,
                        w2,
                    ),
            decreases 4 - p,
        {
            let pattern = &patterns[p];
            let accept = |ch: char| -> (b: bool)
                ensures
                    b == (ch == piece),
                { ch == piece };
            let found = pattern.matches(grid, accept);
            proof {
                use_type_invariant(pattern);
                assert forall|h: int, w: int| #[trigger]
                    run_at(grid, a as int, p as int, h, w) implies pattern.fits(
                    h,
                    w,
                    H as int,
                    W as int,
                ) && !refused(grid, accept, pattern.placed(h, w)) by {
                    lemma_line_fits(*pattern, p as int, h, w, H as int, W as int);
                }
            }
            if let Some(cells) = found {
                proof {
                    let (h, w) = choose|h: int, w: int|
                        {
                            &&& #[trigger] pattern.fits(h, w, H as int, W as int)
                            &&& cells_of(cells) == pattern.placed(h, w)
                            &&& accepted(grid, accept, pattern.placed(h, w))
                            &&& forall|h2: int, w2: int|
                                #[trigger] pattern.fits(h2, w2, H as int, W as int) && (w2 < w || (
                                w2 == w && h2 < h)) ==> refused(
                                    grid,
                                    accept,
                                    pattern.placed(h2, w2),
                                )
                        };
                    lemma_line_fits(*pattern, p as int, h, w, H as int, W as int);
                    assert(run_at(grid, a as int, p as int, h, w));
                    assert(first_run(grid, a as int, p as int, h, w));
                }
                return Some(cells);
            }
            p += 1;
        }
        a += 1;
    }
    None
}

} // verus!
