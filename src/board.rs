use vstd::prelude::*;
use crate::disk::{Disk, Turn, owner_of};

verus! {

/// The mathematical picture of a board: its size and its cells, held
/// column by column (`cells[col][row]`). Row 0 is the top; disks settle
/// towards the highest row index.
pub struct Grid {
    pub rows: int,
    pub cols: int,
    pub cells: Seq<Seq<Option<Disk>>>,
}

/// A winning line as the scan reports it: the owner of the line, the cell
/// where the scan found it, and the far end of the four.
pub type WinLine = (Turn, (int, int), (int, int));

/// The eight directions, in the order in which a line is looked for.
pub open spec fn direction(i: int) -> (int, int) {
    if i == 0 {
        (1, 0)
    } else if i == 1 {
        (-1, 0)
    } else if i == 2 {
        (0, 1)
    } else if i == 3 {
        (0, -1)
    } else if i == 4 {
        (1, 1)
    } else if i == 5 {
        (-1, -1)
    } else if i == 6 {
        (1, -1)
    } else {
        (-1, 1)
    }
}

/// The highest index of the column that holds no disk, or -1 when every
/// cell is taken.
pub open spec fn last_empty(column: Seq<Option<Disk>>) -> int
    decreases column.len(),
{
    if column.len() == 0 {
        -1
    } else if column.last() is None {
        column.len() - 1
    } else {
        last_empty(column.drop_last())
    }
}

impl Grid {
    pub open spec fn in_bounds(self, r: int, c: int) -> bool {
        0 <= r < self.rows && 0 <= c < self.cols
    }

    pub open spec fn cell(self, r: int, c: int) -> Option<Disk> {
        self.cells[c][r]
    }

    /// `cols` columns of `rows` cells each.
    pub open spec fn well_shaped(self) -> bool {
        &&& 0 <= self.rows
        &&& 0 <= self.cols
        &&& self.cells.len() == self.cols
        &&& forall|c: int| 0 <= c < self.cols ==> #[trigger] self.cells[c].len() == self.rows
    }

    /// Below every disk each cell of its column is taken: no gaps.
    pub open spec fn settled(self) -> bool {
        forall|c: int, r1: int, r2: int|
            0 <= c < self.cols && 0 <= r1 <= r2 < self.rows && (#[trigger] self.cells[c][r1]) is Some
                ==> (#[trigger] self.cells[c][r2]) is Some
    }

    /// At least one row and one column, well shaped and settled.
    pub open spec fn wf(self) -> bool {
        &&& 0 < self.rows
        &&& 0 < self.cols
        &&& self.well_shaped()
        &&& self.settled()
    }

    /// Every cell empty.
    pub open spec fn is_empty(self) -> bool {
        forall|r: int, c: int| self.in_bounds(r, c) ==> #[trigger] self.cell(r, c) is None
    }

    /// The row that a disk dropped into column `c` comes to rest on: the
    /// lowest free cell, or -1 when the column is full.
    pub open spec fn landing_row(self, c: int) -> int {
        last_empty(self.cells[c])
    }

    /// The grid with disk `d` put at `(r, c)`.
    pub open spec fn with_disk(self, r: int, c: int, d: Disk) -> Grid {
        Grid { cells: self.cells.update(c, self.cells[c].update(r, Some(d))), ..self }
    }

    /// Cell `(r, c)` lies on the board and holds `d`.
    pub open spec fn holds(self, r: int, c: int, d: Disk) -> bool {
        self.in_bounds(r, c) && self.cell(r, c) == Some(d)
    }

    /// The three cells that follow `(r, c)` in direction `dir` all hold `d`.
    pub open spec fn line(self, r: int, c: int, dir: (int, int), d: Disk) -> bool {
        &&& self.holds(r + dir.0, c + dir.1, d)
        &&& self.holds(r + 2 * dir.0, c + 2 * dir.1, d)
        &&& self.holds(r + 3 * dir.0, c + 3 * dir.1, d)
    }

    /// The far end of the first line of `d` from `(r, c)`, trying the
    /// directions from the `i`-th on.
    pub open spec fn win_in_dirs(self, r: int, c: int, d: Disk, i: int) -> Option<(int, int)>
        decreases 8 - i,
    {
        if i >= 8 || i < 0 {
            None
        } else if self.line(r, c, direction(i), d) {
            Some((r + 3 * direction(i).0, c + 3 * direction(i).1))
        } else {
            self.win_in_dirs(r, c, d, i + 1)
        }
    }

    pub open spec fn win_from(self, r: int, c: int, d: Disk) -> Option<(int, int)> {
        self.win_in_dirs(r, c, d, 0)
    }

    /// The line that starts at the disk in `(r, c)`, if any.
    pub open spec fn win_at(self, r: int, c: int) -> Option<WinLine> {
        match self.cell(r, c) {
            Some(d) => match self.win_from(r, c, d) {
                Some(end) => Some((owner_of(d), (r, c), end)),
                None => None,
            },
            None => None,
        }
    }

    /// The first line found in row `r`, from column `c` on.
    pub open spec fn first_win_in_row(self, r: int, c: int) -> Option<WinLine>
        decreases self.cols - c,
    {
        if c < 0 || c >= self.cols {
            None
        } else {
            match self.win_at(r, c) {
                Some(w) => Some(w),
                None => self.first_win_in_row(r, c + 1),
            }
        }
    }

    /// The first line found scanning row by row, from row `r` on.
    pub open spec fn first_win_from(self, r: int) -> Option<WinLine>
        decreases self.rows - r,
    {
        if r < 0 || r >= self.rows {
            None
        } else {
            match self.first_win_in_row(r, 0) {
                Some(w) => Some(w),
                None => self.first_win_from(r + 1),
            }
        }
    }

    /// The first line that a row-major scan of the whole board meets.
    pub open spec fn first_win(self) -> Option<WinLine> {
        self.first_win_from(0)
    }
}

/// In the column no empty cell lies below a disk.
pub open spec fn no_gaps(column: Seq<Option<Disk>>) -> bool {
    forall|i: int, j: int|
        0 <= i <= j < column.len() && (#[trigger] column[i]) is Some ==> (#[trigger] column[j]) is Some
}

/// The grid made of `rows`, `cols` and the cells of `columns`.
pub open spec fn grid_of(rows: int, cols: int, columns: Seq<Vec<Option<Disk>>>) -> Grid {
    Grid { rows, cols, cells: columns.map_values(|c: Vec<Option<Disk>>| c@) }
}

fn column_has_no_gaps(column: &Vec<Option<Disk>>) -> (b: bool)
    ensures
        b == no_gaps(column@),
{
    let mut seen = false;
    let mut r: usize = 0;
    while r < column.len()
        invariant
            r <= column@.len(),
            seen ==> r > 0 && column@[r - 1] is Some,
            !seen ==> forall|j: int| 0 <= j < r ==> (#[trigger] column@[j]) is None,
            forall|i: int, j: int|
                0 <= i <= j < r && (#[trigger] column@[i]) is Some ==> (#[trigger] column@[j]) is Some,
        decreases column@.len() - r,
    {
        match column[r] {
            Some(_) => {
                seen = true;
            },
            None => {
                if seen {
                    assert(!no_gaps(column@)) by {
                        assert(column@[r - 1] is Some && column@[r as int] is None);
                    }
                    return false;
                }
            },
        }
        r = r + 1;
    }
    true
}

/// The `i`-th direction of the search order.
fn direction_at(i: usize) -> (r: (i64, i64))
    requires
        i < 8,
    ensures
        r.0 as int == direction(i as int).0,
        r.1 as int == direction(i as int).1,
{
    match i {
        0 => (1, 0),
        1 => (-1, 0),
        2 => (0, 1),
        3 => (0, -1),
        4 => (1, 1),
        5 => (-1, -1),
        6 => (1, -1),
        _ => (-1, 1),
    }
}

/// Why a disk could not be dropped.
#[derive(Clone, Copy, Debug, PartialEq, Eq, Structural)]
pub enum DropError {
    /// The column lies outside the board.
    InvalidColumn,
    /// Every cell of the column is taken.
    ColumnFull,
}

/// Why a board could not be made.
#[derive(Clone, Copy, Debug, PartialEq, Eq, Structural)]
pub enum BoardError {
    /// Rows or columns not positive.
    InvalidDimensions,
    /// The cells do not have the stated shape.
    InvalidShape,
    /// A column holds an empty cell below a disk.
    FloatingDisk,
}

/// A Connect Four board of `rows` by `cols` cells.
#[derive(Debug)]
pub struct Board {
    rows: i32,
    cols: i32,
    disks: Vec<Vec<Option<Disk>>>,
}

impl View for Board {
    type V = Grid;

    closed spec fn view(&self) -> Grid {
        Grid {
            rows: self.rows as int,
            cols: self.cols as int,
            cells: self.disks@.map_values(|c: Vec<Option<Disk>>| c@),
        }
    }
}

proof fn lemma_last_empty(s: Seq<Option<Disk>>)
    ensures
        -1 <= last_empty(s) < s.len(),
        last_empty(s) >= 0 ==> s[last_empty(s)] is None,
        forall|j: int| last_empty(s) < j < s.len() ==> (#[trigger] s[j]) is Some,
    decreases s.len(),
{
    if s.len() > 0 && s.last() is Some {
        lemma_last_empty(s.drop_last());
        assert forall|j: int| last_empty(s) < j < s.len() implies (#[trigger] s[j]) is Some by {
            if j < s.len() - 1 {
                assert(s[j] == s.drop_last()[j]);
            }
        }
    }
}

impl Board {
    pub open spec fn wf(&self) -> bool {
        self@.wf()
    }

    /// An empty board of `rows` by `cols` cells; both must be positive.
    pub fn new(rows: i32, cols: i32) -> (r: Result<Board, BoardError>)
        ensures
            (rows <= 0 || cols <= 0) ==> r == Err::<Board, BoardError>(BoardError::InvalidDimensions),
            (rows > 0 && cols > 0) ==> r is Ok,
            r matches Ok(b) ==> b.wf() && b@.rows == rows && b@.cols == cols && b@.is_empty(),
    {
        if rows <= 0 || cols <= 0 {
            return Err(BoardError::InvalidDimensions);
        }
        Ok(Board::empty(rows, cols))
    }

    /// An empty board of `rows` by `cols` cells.
    pub(crate) fn empty(rows: i32, cols: i32) -> (b: Board)
        requires
            rows > 0,
            cols > 0,
        ensures
            b.wf(),
            b@.rows == rows,
            b@.cols == cols,
            b@.is_empty(),
    {
        let mut disks: Vec<Vec<Option<Disk>>> = Vec::new();
        let mut c: i32 = 0;
        while c < cols
            invariant
                0 <= c <= cols,
                rows > 0,
                disks@.len() == c,
                forall|i: int| 0 <= i < c ==> (#[trigger] disks@[i])@.len() == rows,
                forall|i: int, j: int| 0 <= i < c && 0 <= j < rows ==> (#[trigger] disks@[i]@[j]) is None,
            decreases cols - c,
        {
            let mut column: Vec<Option<Disk>> = Vec::new();
            let mut r: i32 = 0;
            while r < rows
                invariant
                    0 <= r <= rows,
                    column@.len() == r,
                    forall|j: int| 0 <= j < r ==> (#[trigger] column@[j]) is None,
                decreases rows - r,
            {
                column.push(None);
                r = r + 1;
            }
            disks.push(column);
            c = c + 1;
        }
        let b = Board { rows, cols, disks };
        assert(b@.cells.len() == cols);
        assert forall|i: int| 0 <= i < cols implies #[trigger] b@.cells[i].len() == rows by {
            assert(b@.cells[i] == disks@[i]@);
        }
        assert forall|r: int, c: int| b@.in_bounds(r, c) implies #[trigger] b@.cell(r, c) is None by {
            assert(b@.cells[c] == disks@[c]@);
        }
        b
    }

    /// Number of rows.
    pub fn rows(&self) -> (r: i32)
        ensures
            r == self@.rows,
    {
        self.rows
    }

    /// Number of columns.
    pub fn cols(&self) -> (r: i32)
        ensures
            r == self@.cols,
    {
        self.cols
    }

    /// What cell `(row, col)` holds; `None` for an empty cell or one off the board.
    pub fn get(&self, row: i32, col: i32) -> (r: Option<Disk>)
        requires
            self.wf(),
        ensures
            self@.in_bounds(row as int, col as int) ==> r == self@.cell(row as int, col as int),
            !self@.in_bounds(row as int, col as int) ==> r is None,
    {
        if row < 0 || row >= self.rows || col < 0 || col >= self.cols {
            return None;
        }
        let column = &self.disks[col as usize];
        assert(self@.cells[col as int] == column@);
        column[row as usize]
    }

    /// The cells column by column, `columns[col][row]`.
    pub fn columns(&self) -> (r: Vec<Vec<Option<Disk>>>)
        ensures
            r@.map_values(|c: Vec<Option<Disk>>| c@) == self@.cells,
    {
        let mut out: Vec<Vec<Option<Disk>>> = Vec::new();
        let mut c: usize = 0;
        while c < self.disks.len()
            invariant
                c <= self.disks@.len(),
                out@.len() == c,
                forall|i: int| 0 <= i < c ==> (#[trigger] out@[i])@ == self.disks@[i]@,
            decreases self.disks@.len() - c,
        {
            let column = &self.disks[c];
            let mut copy: Vec<Option<Disk>> = Vec::new();
            let mut r: usize = 0;
            while r < column.len()
                invariant
                    r <= column@.len(),
                    copy@ == column@.subrange(0, r as int),
                decreases column@.len() - r,
            {
                copy.push(column[r]);
                r = r + 1;
                assert(copy@ =~= column@.subrange(0, r as int));
            }
            assert(copy@ =~= column@);
            out.push(copy);
            c = c + 1;
        }
        assert(out@.map_values(|c: Vec<Option<Disk>>| c@) =~= self@.cells);
        out
    }

    /// Drops `disk` into column `col`. It comes to rest on the lowest free
    /// cell of the column, whose row is returned. A column off the board or
    /// a full column leaves the board as it was.
    pub fn drop_disk(&mut self, col: i32, disk: Disk) -> (r: Result<i32, DropError>)
        requires
            old(self).wf(),
        ensures
            final(self).wf(),
            !(0 <= col < old(self)@.cols) ==> r == Err::<i32, DropError>(DropError::InvalidColumn)
                && final(self)@ == old(self)@,
            0 <= col < old(self)@.cols && old(self)@.landing_row(col as int) < 0 ==> r == Err::<
                i32,
                DropError,
            >(DropError::ColumnFull) && final(self)@ == old(self)@,
            0 <= col < old(self)@.cols && old(self)@.landing_row(col as int) >= 0 ==> {
                &&& r matches Ok(row) && row == old(self)@.landing_row(col as int)
                &&& final(self)@ == old(self)@.with_disk(old(self)@.landing_row(col as int), col as int, disk)
            },
    {
        if col < 0 || col >= self.cols {
            return Err(DropError::InvalidColumn);
        }
        let c = col as usize;
        let ghost column = self@.cells[c as int];
        assert(column == self.disks@[c as int]@);
        let n = self.disks[c].len();
        let mut i: usize = n;
        assert(column.subrange(0, n as int) =~= column);
        while i > 0
            invariant
                i <= n,
                n == column.len(),
                column == self.disks@[c as int]@,
                c < self.disks@.len(),
                0 <= col < self@.cols,
                c == col as usize,
                self@ == old(self)@,
                old(self)@.wf(),
                last_empty(column) == last_empty(column.subrange(0, i as int)),
            decreases i,
        {
            if self.disks[c][i - 1].is_none() {
                assert(column.subrange(0, i as int).last() == column[i - 1]);
                assert(last_empty(column) == i - 1);
                proof {
                    lemma_last_empty(column);
                }
                assert(column.len() == old(self)@.cells[c as int].len());
                let ghost before = self@;
                self.disks[c][i - 1] = Some(disk);
                assert(self@ =~= before.with_disk(i - 1, c as int, disk)) by {
                    assert(self@.cells =~= before.cells.update(
                        c as int,
                        before.cells[c as int].update(i - 1, Some(disk)),
                    ));
                }
                assert(self@.well_shaped()) by {
                    assert forall|cc: int| 0 <= cc < self@.cols implies #[trigger] self@.cells[cc].len()
                        == self@.rows by {
                        assert(before.cells[cc].len() == before.rows);
                    }
                }
                assert(self@.settled()) by {
                    assert forall|cc: int, r1: int, r2: int|
                        0 <= cc < self@.cols && 0 <= r1 <= r2 < self@.rows && (
                        #[trigger] self@.cells[cc][r1]) is Some implies (
                        #[trigger] self@.cells[cc][r2]) is Some by {
                        if cc != c as int {
                            assert(self@.cells[cc] == before.cells[cc]);
                            assert(before.cells[cc][r1] is Some);
                            assert(before.cells[cc][r2] is Some);
                        } else if r2 == i - 1 {
                            assert(self@.cells[cc][r2] == Some(disk));
                        } else if r2 > i - 1 {
                            assert(self@.cells[cc][r2] == column[r2]);
                            assert(column[r2] is Some);
                        } else if r2 < i - 1 {
                            assert(self@.cells[cc][r1] == before.cells[cc][r1]);
                            if before.cells[cc][r1] is Some {
                                assert(before.cells[cc][i - 1] is Some);
                            }
                        }
                    }
                }
                return Ok((i - 1) as i32);
            }
            assert(column.subrange(0, i - 1) =~= column.subrange(0, i as int).drop_last());
            i = i - 1;
        }
        assert(column.subrange(0, 0) =~= Seq::<Option<Disk>>::empty());
        Err(DropError::ColumnFull)
    }

    /// An exact copy of the board.
    pub fn duplicate(&self) -> (r: Board)
        requires
            self.wf(),
        ensures
            r.wf(),
            r@ == self@,
    {
        let disks = self.columns();
        let r = Board { rows: self.rows, cols: self.cols, disks };
        assert(r@.cells == self@.cells);
        r
    }

    /// Cell `(r, c)` lies on the board and holds `d`.
    fn holds(&self, r: i64, c: i64, d: Disk) -> (b: bool)
        requires
            self.wf(),
        ensures
            b == self@.holds(r as int, c as int, d),
    {
        if r < 0 || r >= self.rows as i64 || c < 0 || c >= self.cols as i64 {
            return false;
        }
        let column = &self.disks[c as usize];
        assert(self@.cells[c as int] == column@);
        match column[r as usize] {
            Some(d2) => d2 == d,
            None => false,
        }
    }

    /// Looks for four disks `d` in a line from `(row, col)`, trying the eight
    /// directions in a fixed order (down, up, right, left, down-right,
    /// up-left, down-left, up-right). Returns the far end of the first line
    /// found.
    pub fn check_for_win(&self, row: i32, col: i32, disk: Disk) -> (r: Option<(i32, i32)>)
        requires
            self.wf(),
        ensures
            r is None <==> self@.win_from(row as int, col as int, disk) is None,
            r matches Some(end) ==> self@.win_from(row as int, col as int, disk) == Some(
                (end.0 as int, end.1 as int),
            ),
    {
        let mut i: usize = 0;
        while i < 8
            invariant
                i <= 8,
                self.wf(),
                self@.win_from(row as int, col as int, disk) == self@.win_in_dirs(
                    row as int,
                    col as int,
                    disk,
                    i as int,
                ),
            decreases 8 - i,
        {
            let (dr, dc) = direction_at(i);
            let r0 = row as i64;
            let c0 = col as i64;
            if self.holds(r0 + dr, c0 + dc, disk) && self.holds(r0 + 2 * dr, c0 + 2 * dc, disk)
                && self.holds(r0 + 3 * dr, c0 + 3 * dc, disk) {
                return Some(((r0 + 3 * dr) as i32, (c0 + 3 * dc) as i32));
            }
            i = i + 1;
        }
        None
    }

    /// Scans the board row by row, and each row column by column, for a
    /// disk that starts a line of four. Returns the owner of the first such
    /// disk, its cell and the far end of its line.
    pub fn check_for_wins(&self) -> (r: Option<(Turn, (i32, i32), (i32, i32))>)
        requires
            self.wf(),
        ensures
            r is None <==> self@.first_win() is None,
            r matches Some(w) ==> self@.first_win() == Some(
                (w.0, (w.1.0 as int, w.1.1 as int), (w.2.0 as int, w.2.1 as int)),
            ),
    {
        let mut row: i32 = 0;
        while row < self.rows
            invariant
                0 <= row <= self.rows,
                self.wf(),
                self@.first_win() == self@.first_win_from(row as int),
            decreases self.rows - row,
        {
            let mut col: i32 = 0;
            while col < self.cols
                invariant
                    0 <= row < self.rows,
                    0 <= col <= self.cols,
                    self.wf(),
                    self@.first_win() == self@.first_win_from(row as int),
                    self@.first_win_in_row(row as int, 0) == self@.first_win_in_row(
                        row as int,
                        col as int,
                    ),
                decreases self.cols - col,
            {
                let column = &self.disks[col as usize];
                assert(self@.cells[col as int] == column@);
                assert(column@.len() == self@.rows);
                if let Some(disk) = column[row as usize] {
                    if let Some(end) = self.check_for_win(row, col, disk) {
                        assert(self@.win_at(row as int, col as int) == Some(
                            (owner_of(disk), (row as int, col as int), (end.0 as int, end.1 as int)),
                        ));
                        assert(self@.first_win_in_row(row as int, col as int) == self@.win_at(
                            row as int,
                            col as int,
                        ));
                        return Some((disk.to_turn(), (row, col), end));
                    }
                }
                col = col + 1;
            }
            row = row + 1;
        }
        None
    }

    /// A board of `rows` by `cols` cells whose contents are `columns`
    /// (`columns[col][row]`). The sizes must be positive, each of the
    /// `cols` columns must hold `rows` cells, and no column may hold an
    /// empty cell below a disk.
    pub fn from_columns(rows: i32, cols: i32, columns: Vec<Vec<Option<Disk>>>) -> (r: Result<
        Board,
        BoardError,
    >)
        ensures
            (rows <= 0 || cols <= 0) ==> r == Err::<Board, BoardError>(BoardError::InvalidDimensions),
            rows > 0 && cols > 0 && !grid_of(rows as int, cols as int, columns@).well_shaped() ==> r
                == Err::<Board, BoardError>(BoardError::InvalidShape),
            rows > 0 && cols > 0 && grid_of(rows as int, cols as int, columns@).well_shaped() && !grid_of(
                rows as int,
                cols as int,
                columns@,
            ).settled() ==> r == Err::<Board, BoardError>(BoardError::FloatingDisk),
            r is Ok <==> grid_of(rows as int, cols as int, columns@).wf(),
            r matches Ok(b) ==> b.wf() && b@ == grid_of(rows as int, cols as int, columns@),
    {
        if rows <= 0 || cols <= 0 {
            return Err(BoardError::InvalidDimensions);
        }
        let ghost g = grid_of(rows as int, cols as int, columns@);
        if columns.len() != cols as usize {
            return Err(BoardError::InvalidShape);
        }
        let mut c: usize = 0;
        while c < columns.len()
            invariant
                c <= columns@.len(),
                columns@.len() == cols,
                rows > 0,
                g == grid_of(rows as int, cols as int, columns@),
                forall|i: int| 0 <= i < c ==> (#[trigger] g.cells[i]).len() == rows,
            decreases columns@.len() - c,
        {
            assert(g.cells[c as int] == columns@[c as int]@);
            if columns[c].len() != rows as usize {
                return Err(BoardError::InvalidShape);
            }
            c = c + 1;
        }
        assert(g.well_shaped());
        let mut c: usize = 0;
        while c < columns.len()
            invariant
                c <= columns@.len(),
                columns@.len() == cols,
                rows > 0,
                g == grid_of(rows as int, cols as int, columns@),
                g.well_shaped(),
                forall|i: int| 0 <= i < c ==> no_gaps(#[trigger] g.cells[i]),
            decreases columns@.len() - c,
        {
            assert(g.cells[c as int] == columns@[c as int]@);
            if !column_has_no_gaps(&columns[c]) {
                assert(!g.settled()) by {
                    let column = g.cells[c as int];
                    let (i, j) = choose|i: int, j: int|
                        0 <= i <= j < column.len() && (#[trigger] column[i]) is Some && (
                        #[trigger] column[j]) is None;
                    assert(g.cells[c as int][i] is Some && g.cells[c as int][j] is None);
                }
                return Err(BoardError::FloatingDisk);
            }
            c = c + 1;
        }
        assert(g.settled()) by {
            assert forall|cc: int, r1: int, r2: int|
                0 <= cc < g.cols && 0 <= r1 <= r2 < g.rows && (#[trigger] g.cells[cc][r1]) is Some implies (
                #[trigger] g.cells[cc][r2]) is Some by {
                assert(no_gaps(g.cells[cc]));
            }
        }
        let b = Board { rows, cols, disks: columns };
        assert(b@ == g);
        Ok(b)
    }
}


proof fn lemma_last_empty_is(s: Seq<Option<Disk>>, k: int)
    requires
        -1 <= k < s.len(),
        k >= 0 ==> s[k] is None,
        forall|j: int| k < j < s.len() ==> (#[trigger] s[j]) is Some,
    ensures
        last_empty(s) == k,
    decreases s.len(),
{
    if s.len() > 0 && k < s.len() - 1 {
        assert(s.last() is Some);
        let t = s.drop_last();
        assert forall|j: int| k < j < t.len() implies (#[trigger] t[j]) is Some by {
            assert(t[j] == s[j]);
        }
        lemma_last_empty_is(t, k);
    }
}

/// The landing row of a column is its lowest free cell: that cell is empty
/// and every cell below it holds a disk; it is -1 only when the column is
/// full.
pub proof fn lemma_landing_is_lowest_free(g: Grid, c: int)
    requires
        g.wf(),
        0 <= c < g.cols,
    ensures
        -1 <= g.landing_row(c) < g.rows,
        g.landing_row(c) >= 0 ==> g.cell(g.landing_row(c), c) is None,
        forall|r: int| g.landing_row(c) < r < g.rows ==> #[trigger] g.cell(r, c) is Some,
        g.landing_row(c) == -1 <==> forall|r: int| 0 <= r < g.rows ==> #[trigger] g.cell(r, c) is Some,
{
    lemma_last_empty(g.cells[c]);
    assert(g.cells[c].len() == g.rows);
}

/// In an empty column of a well-formed grid with at least one row, a
/// dropped disk comes to rest on the bottom row.
pub proof fn lemma_empty_column_lands_at_bottom(g: Grid, c: int)
    requires
        g.wf(),
        0 <= c < g.cols,
        g.rows > 0,
        forall|r: int| 0 <= r < g.rows ==> #[trigger] g.cell(r, c) is None,
    ensures
        g.landing_row(c) == g.rows - 1,
{
    assert(g.cells[c].len() == g.rows);
    assert(g.cell(g.rows - 1, c) is None);
}

/// Once a disk has come to rest in a column, the column's lowest free cell is
/// the row above it: the next disk into that column lands one row higher.
pub proof fn lemma_drop_stacks(g: Grid, c: int, d: Disk)
    requires
        g.wf(),
        0 <= c < g.cols,
        g.landing_row(c) >= 0,
    ensures
        g.with_disk(g.landing_row(c), c, d).landing_row(c) == g.landing_row(c) - 1,
{
    let s = g.cells[c];
    let k = g.landing_row(c);
    lemma_last_empty(s);
    assert(s.len() == g.rows);
    let t = s.update(k, Some(d));
    assert(g.with_disk(k, c, d).cells[c] == t);
    assert forall|j: int| 0 <= j < k implies (#[trigger] t[j]) is None by {
        if s[j] is Some {
            assert(g.cells[c][j] is Some);
            assert(g.cells[c][k] is Some);
        }
    }
    assert forall|j: int| k - 1 < j < t.len() implies (#[trigger] t[j]) is Some by {
        if j > k {
            assert(s[j] is Some);
        }
    }
    lemma_last_empty_is(t, k - 1);
}

proof fn lemma_cols_skip(g: Grid, r: int, c0: int, c1: int)
    requires
        0 <= c0 <= c1 <= g.cols,
        forall|c: int| c0 <= c < c1 ==> #[trigger] g.win_at(r, c) is None,
    ensures
        g.first_win_in_row(r, c0) == g.first_win_in_row(r, c1),
    decreases c1 - c0,
{
    if c0 < c1 {
        assert(g.win_at(r, c0) is None);
        lemma_cols_skip(g, r, c0 + 1, c1);
    }
}

proof fn lemma_rows_skip(g: Grid, r0: int, r1: int)
    requires
        0 <= r0 <= r1 <= g.rows,
        forall|r: int| r0 <= r < r1 ==> #[trigger] g.first_win_in_row(r, 0) is None,
    ensures
        g.first_win_from(r0) == g.first_win_from(r1),
    decreases r1 - r0,
{
    if r0 < r1 {
        assert(g.first_win_in_row(r0, 0) is None);
        lemma_rows_skip(g, r0 + 1, r1);
    }
}

/// When no cell before `(row, col)` in row-major order starts a line, the
/// scan reports the line that starts at `(row, col)`, if there is one.
proof fn lemma_scan_reaches(g: Grid, row: int, col: int)
    requires
        g.in_bounds(row, col),
        forall|r: int, c: int|
            g.in_bounds(r, c) && (r < row || (r == row && c < col)) ==> #[trigger] g.win_at(r, c)
                is None,
    ensures
        g.win_at(row, col) is Some ==> g.first_win() == g.win_at(row, col),
{
    assert forall|r: int| 0 <= r < row implies #[trigger] g.first_win_in_row(r, 0) is None by {
        assert forall|c: int| 0 <= c < g.cols implies #[trigger] g.win_at(r, c) is None by {
            assert(g.in_bounds(r, c));
        }
        lemma_cols_skip(g, r, 0, g.cols);
    }
    lemma_rows_skip(g, 0, row);
    assert forall|c: int| 0 <= c < col implies #[trigger] g.win_at(row, c) is None by {
        assert(g.in_bounds(row, c));
    }
    lemma_cols_skip(g, row, 0, col);
}

/// A grid in which no disk starts a line has no win.
proof fn lemma_no_win(g: Grid)
    requires
        0 <= g.rows,
        forall|r: int, c: int| g.in_bounds(r, c) ==> #[trigger] g.win_at(r, c) is None,
    ensures
        g.first_win() is None,
{
    assert forall|r: int| 0 <= r < g.rows implies #[trigger] g.first_win_in_row(r, 0) is None by {
        assert forall|c: int| 0 <= c < g.cols implies #[trigger] g.win_at(r, c) is None by {
            assert(g.in_bounds(r, c));
        }
        if g.cols >= 0 {
            lemma_cols_skip(g, r, 0, g.cols);
        }
    }
    lemma_rows_skip(g, 0, g.rows);
}

proof fn lemma_no_line(g: Grid, r: int, c: int, d: Disk, i: int)
    requires
        0 <= i <= 8,
        forall|k: int| i <= k < 8 ==> !g.line(r, c, #[trigger] direction(k), d),
    ensures
        g.win_in_dirs(r, c, d, i) is None,
    decreases 8 - i,
{
    if i < 8 {
        assert(!g.line(r, c, direction(i), d));
        lemma_no_line(g, r, c, d, i + 1);
    }
}

/// Four disks of one colour side by side in a row, on an otherwise empty
/// grid, are reported as a win of their owner, from the leftmost disk to
/// the rightmost one.
pub proof fn lemma_horizontal_four_wins(g: Grid, row: int, col: int, d: Disk)
    requires
        g.well_shaped(),
        0 <= row < g.rows,
        0 <= col,
        col + 3 < g.cols,
        forall|r: int, c: int|
            g.in_bounds(r, c) ==> #[trigger] g.cell(r, c) == (if r == row && col <= c <= col + 3 {
                Some(d)
            } else {
                None
            }),
    ensures
        g.first_win() == Some((owner_of(d), (row, col), (row, col + 3))),
{
    assert forall|r: int, c: int|
        g.in_bounds(r, c) && (r < row || (r == row && c < col)) implies #[trigger] g.win_at(r, c)
        is None by {
        assert(g.cell(r, c) is None);
    }
    assert(g.cell(row, col) == Some(d));
    assert(!g.holds(row + 1, col, d));
    assert(!g.holds(row - 1, col, d));
    assert(g.holds(row, col + 1, d));
    assert(g.holds(row, col + 2, d));
    assert(g.holds(row, col + 3, d));
    assert(g.win_in_dirs(row, col, d, 0) == g.win_in_dirs(row, col, d, 1));
    assert(g.win_in_dirs(row, col, d, 1) == g.win_in_dirs(row, col, d, 2));
    assert(g.win_from(row, col, d) == Some((row, col + 3)));
    lemma_scan_reaches(g, row, col);
}

/// Three disks of one colour side by side in a row, on an otherwise empty
/// grid, are no win.
pub proof fn lemma_three_in_a_row_no_win(g: Grid, row: int, col: int, d: Disk)
    requires
        g.well_shaped(),
        0 <= row < g.rows,
        0 <= col,
        col + 2 < g.cols,
        forall|r: int, c: int|
            g.in_bounds(r, c) ==> #[trigger] g.cell(r, c) == (if r == row && col <= c <= col + 2 {
                Some(d)
            } else {
                None
            }),
    ensures
        g.first_win() is None,
{
    assert forall|r: int, c: int| g.in_bounds(r, c) implies #[trigger] g.win_at(r, c) is None by {
        if let Some(d1) = g.cell(r, c) {
            assert forall|k: int| 0 <= k < 8 implies !g.line(r, c, #[trigger] direction(k), d1) by {
                let (dr, dc) = direction(k);
                if g.line(r, c, direction(k), d1) {
                    assert(g.cell(r + dr, c + dc) == Some(d1));
                    assert(g.cell(r + 3 * dr, c + 3 * dc) == Some(d1));
                }
            }
            lemma_no_line(g, r, c, d1, 0);
        }
    }
    lemma_no_win(g);
}

/// Four disks side by side in a row, not all of one colour, on an
/// otherwise empty grid, are no win.
pub proof fn lemma_mixed_four_no_win(g: Grid, row: int, col: int, ds: Seq<Disk>)
    requires
        g.well_shaped(),
        0 <= row < g.rows,
        0 <= col,
        col + 3 < g.cols,
        ds.len() == 4,
        !(ds[0] == ds[1] && ds[1] == ds[2] && ds[2] == ds[3]),
        forall|r: int, c: int|
            g.in_bounds(r, c) ==> #[trigger] g.cell(r, c) == (if r == row && col <= c <= col + 3 {
                Some(ds[c - col])
            } else {
                None
            }),
    ensures
        g.first_win() is None,
{
    assert forall|r: int, c: int| g.in_bounds(r, c) implies #[trigger] g.win_at(r, c) is None by {
        if let Some(d1) = g.cell(r, c) {
            assert forall|k: int| 0 <= k < 8 implies !g.line(r, c, #[trigger] direction(k), d1) by {
                let (dr, dc) = direction(k);
                if g.line(r, c, direction(k), d1) {
                    assert(g.cell(r + dr, c + dc) == Some(d1));
                    assert(g.cell(r + 2 * dr, c + 2 * dc) == Some(d1));
                    assert(g.cell(r + 3 * dr, c + 3 * dc) == Some(d1));
                }
            }
            lemma_no_line(g, r, c, d1, 0);
        }
    }
    lemma_no_win(g);
}

} // verus!
