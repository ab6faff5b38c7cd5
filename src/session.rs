use vstd::prelude::*;
use crate::board::{Board, BoardError, DropError, Grid, grid_of};
use crate::disk::{Disk, Turn, disk_of, other};

verus! {

/// The moves played so far, oldest first: the column of each drop and the
/// player who made it.
#[derive(Debug)]
pub struct MoveHistory {
    pub moves: Vec<(i32, Turn)>,
}

impl MoveHistory {
    /// No moves yet.
    pub fn new() -> (r: MoveHistory)
        ensures
            r.moves@ == Seq::<(i32, Turn)>::empty(),
    {
        MoveHistory { moves: Vec::new() }
    }

    /// An exact copy of the history.
    pub fn duplicate(&self) -> (r: MoveHistory)
        ensures
            r.moves@ == self.moves@,
    {
        let mut moves: Vec<(i32, Turn)> = Vec::new();
        let mut i: usize = 0;
        while i < self.moves.len()
            invariant
                i <= self.moves@.len(),
                moves@ == self.moves@.subrange(0, i as int),
            decreases self.moves@.len() - i,
        {
            moves.push(self.moves[i]);
            i = i + 1;
            assert(moves@ =~= self.moves@.subrange(0, i as int));
        }
        assert(moves@ =~= self.moves@);
        MoveHistory { moves }
    }
}

/// What a game in progress is made of: the board, whose turn it is and the
/// moves played.
pub struct GameView {
    pub grid: Grid,
    pub turn: Turn,
    pub moves: Seq<(i32, Turn)>,
}

/// A complete snapshot of a game, as it is saved and loaded.
#[derive(Debug)]
pub struct GameData {
    pub board: Board,
    pub turn: Turn,
    pub history: MoveHistory,
}

/// The game that a saved board size, columns, turn and moves describe, or
/// `None` when they describe no valid board.
pub open spec fn restored(
    rows: int,
    cols: int,
    columns: Seq<Vec<Option<Disk>>>,
    turn: Turn,
    moves: Seq<(i32, Turn)>,
) -> Option<GameView> {
    if grid_of(rows, cols, columns).wf() {
        Some(GameView { grid: grid_of(rows, cols, columns), turn, moves })
    } else {
        None
    }
}

/// Why saving or loading failed.
#[derive(Clone, Copy, Debug, PartialEq, Eq, Structural)]
pub enum PersistError {
    /// The save file could not be created, opened, read or written.
    IoError,
    /// The game could not be encoded.
    SerializationError,
    /// The save file's content does not match the expected schema.
    DeserializationError,
    /// The save file describes a board that cannot occur.
    InvalidBoard(BoardError),
}

impl View for GameData {
    type V = GameView;

    open spec fn view(&self) -> GameView {
        GameView { grid: self.board@, turn: self.turn, moves: self.history.moves@ }
    }
}

impl GameData {
    pub open spec fn wf(&self) -> bool {
        self.board.wf()
    }

    /// A snapshot rebuilt from plain parts: the board size, its columns
    /// (`columns[col][row]`), whose turn it is and the moves. Parts that
    /// describe no valid board are refused with the board's error.
    pub fn from_parts(
        rows: i32,
        cols: i32,
        columns: Vec<Vec<Option<Disk>>>,
        turn: Turn,
        moves: Vec<(i32, Turn)>,
    ) -> (r: Result<GameData, PersistError>)
        ensures
            r is Ok <==> restored(rows as int, cols as int, columns@, turn, moves@) is Some,
            r matches Ok(d) ==> d.wf() && Some(d@) == restored(
                rows as int,
                cols as int,
                columns@,
                turn,
                moves@,
            ),
            (rows <= 0 || cols <= 0) ==> r matches Err(
                PersistError::InvalidBoard(BoardError::InvalidDimensions),
            ),
            rows > 0 && cols > 0 && !grid_of(rows as int, cols as int, columns@).well_shaped() ==> r matches Err(
                PersistError::InvalidBoard(BoardError::InvalidShape),
            ),
            rows > 0 && cols > 0 && grid_of(rows as int, cols as int, columns@).well_shaped() && !grid_of(
                rows as int,
                cols as int,
                columns@,
            ).settled() ==> r matches Err(PersistError::InvalidBoard(BoardError::FloatingDisk)),
    {
        match Board::from_columns(rows, cols, columns) {
            Ok(board) => Ok(GameData { board, turn, history: MoveHistory { moves } }),
            Err(e) => Err(PersistError::InvalidBoard(e)),
        }
    }
}

/// Saving a game and rebuilding it from the parts that were saved gives
/// back the same game: the board's size and columns are accepted again, and
/// board, turn and moves come back unchanged.
pub proof fn lemma_save_load_round_trip(g: GameView, columns: Seq<Vec<Option<Disk>>>)
    requires
        g.grid.wf(),
        columns.map_values(|c: Vec<Option<Disk>>| c@) == g.grid.cells,
    ensures
        restored(g.grid.rows, g.grid.cols, columns, g.turn, g.moves) == Some(g),
{
    assert(grid_of(g.grid.rows, g.grid.cols, columns) == g.grid);
}

/// A request from the menu to change the game.
#[derive(Clone, Copy, Debug, PartialEq, Eq, Structural)]
pub enum GameChange {
    /// Start a new game on a board of the given size.
    New { rows: i32, cols: i32 },
    /// Save the game in progress.
    Save,
    /// Replace the game in progress by the saved one.
    Load,
}

/// Storage work that a game change leaves to the caller.
#[derive(Debug)]
pub enum StorageRequest {
    /// Nothing to store or fetch.
    Nothing,
    /// Write this snapshot to the save file.
    Write(GameData),
    /// Read the save file and hand the result to `Session::finish_load`.
    Read,
}

/// A game in progress: the board, whose turn it is, and the moves so far.
#[derive(Debug)]
pub struct Session {
    pub board: Board,
    pub turn: Turn,
    pub history: MoveHistory,
}

impl View for Session {
    type V = GameView;

    open spec fn view(&self) -> GameView {
        GameView { grid: self.board@, turn: self.turn, moves: self.history.moves@ }
    }
}

impl Session {
    pub open spec fn wf(&self) -> bool {
        self.board.wf()
    }

    /// A fresh game on a board of six rows and seven columns, Red to move.
    pub fn new() -> (r: Session)
        ensures
            r.wf(),
            r@.grid.rows == 6,
            r@.grid.cols == 7,
            r@.grid.is_empty(),
            r@.turn == Turn::Red,
            r@.moves == Seq::<(i32, Turn)>::empty(),
    {
        let board = Board::empty(6, 7);
        Session { board, turn: Turn::Red, history: MoveHistory::new() }
    }

    /// Throws the current game away and starts a new one on an empty board
    /// of `rows` by `cols` cells, Red to move. Sizes that are not positive
    /// are refused and leave the game as it was.
    pub fn new_game(&mut self, rows: i32, cols: i32) -> (r: Result<(), BoardError>)
        requires
            old(self).wf(),
        ensures
            final(self).wf(),
            (rows <= 0 || cols <= 0) ==> r == Err::<(), BoardError>(BoardError::InvalidDimensions)
                && final(self)@ == old(self)@,
            (rows > 0 && cols > 0) ==> r is Ok,
            r is Ok ==> {
                &&& final(self)@.grid.rows == rows
                &&& final(self)@.grid.cols == cols
                &&& final(self)@.grid.is_empty()
                &&& final(self)@.turn == Turn::Red
                &&& final(self)@.moves == Seq::<(i32, Turn)>::empty()
            },
    {
        match Board::new(rows, cols) {
            Ok(board) => {
                self.board = board;
                self.turn = Turn::Red;
                self.history = MoveHistory::new();
                Ok(())
            },
            Err(e) => Err(e),
        }
    }

    /// The current player drops a disk into column `col`. On success the
    /// move is added to the history, the turn passes to the other player
    /// and the row where the disk came to rest is returned. A column off
    /// the board or a full column changes nothing.
    pub fn drop_disk(&mut self, col: i32) -> (r: Result<i32, DropError>)
        requires
            old(self).wf(),
        ensures
            final(self).wf(),
            r is Ok <==> 0 <= col < old(self)@.grid.cols && old(self)@.grid.landing_row(col as int)
                >= 0,
            r matches Ok(row) ==> {
                &&& row == old(self)@.grid.landing_row(col as int)
                &&& final(self)@.grid == old(self)@.grid.with_disk(
                    row as int,
                    col as int,
                    disk_of(old(self)@.turn),
                )
                &&& final(self)@.moves == old(self)@.moves.push((col, old(self)@.turn))
                &&& final(self)@.turn == other(old(self)@.turn)
            },
            r matches Err(e) ==> {
                &&& final(self)@ == old(self)@
                &&& (e == DropError::InvalidColumn <==> !(0 <= col < old(self)@.grid.cols))
            },
    {
        let row = self.board.drop_disk(col, self.turn.to_disk())?;
        self.history.moves.push((col, self.turn));
        self.turn.next();
        Ok(row)
    }

    /// Looks for a line of four on the board; see `Board::check_for_wins`.
    pub fn check_for_wins(&self) -> (r: Option<(Turn, (i32, i32), (i32, i32))>)
        requires
            self.wf(),
        ensures
            r is None <==> self@.grid.first_win() is None,
            r matches Some(w) ==> self@.grid.first_win() == Some(
                (w.0, (w.1.0 as int, w.1.1 as int), (w.2.0 as int, w.2.1 as int)),
            ),
    {
        self.board.check_for_wins()
    }

    /// A snapshot of the game, to be saved.
    pub fn save(&self) -> (r: GameData)
        requires
            self.wf(),
        ensures
            r.wf(),
            r@ == self@,
    {
        GameData { board: self.board.duplicate(), turn: self.turn, history: self.history.duplicate() }
    }

    /// Replaces the whole game by a loaded snapshot.
    pub fn load(&mut self, data: GameData)
        requires
            data.wf(),
        ensures
            final(self).wf(),
            final(self)@ == data@,
    {
        self.board = data.board;
        self.turn = data.turn;
        self.history = data.history;
    }

    /// Ends a load: a snapshot that was read replaces the game; a failure
    /// leaves the game exactly as it was and is handed back.
    pub fn finish_load(&mut self, loaded: Result<GameData, PersistError>) -> (r: Result<(), PersistError>)
        requires
            old(self).wf(),
            loaded matches Ok(d) ==> d.wf(),
        ensures
            final(self).wf(),
            loaded matches Ok(d) ==> r is Ok && final(self)@ == d@,
            loaded matches Err(e) ==> r == Err::<(), PersistError>(e) && final(self)@ == old(self)@,
    {
        match loaded {
            Ok(data) => {
                self.load(data);
                Ok(())
            },
            Err(e) => Err(e),
        }
    }

    /// Applies a request of the menu. `New` starts a new game (sizes that
    /// are not positive are refused and change nothing); `Save` hands back
    /// the snapshot to write; `Load` asks the caller to read the save file
    /// and leaves the game as it is until `finish_load`.
    pub fn handle_change(&mut self, change: GameChange) -> (r: Result<StorageRequest, BoardError>)
        requires
            old(self).wf(),
        ensures
            final(self).wf(),
            change matches GameChange::New { rows, cols } ==> {
                &&& (rows <= 0 || cols <= 0) ==> (r matches Err(BoardError::InvalidDimensions))
                &&& (rows <= 0 || cols <= 0) ==> final(self)@ == old(self)@
                &&& (rows > 0 && cols > 0) ==> (r matches Ok(StorageRequest::Nothing))
                &&& (rows > 0 && cols > 0) ==> {
                    &&& final(self)@.grid.rows == rows
                    &&& final(self)@.grid.cols == cols
                    &&& final(self)@.grid.is_empty()
                    &&& final(self)@.turn == Turn::Red
                    &&& final(self)@.moves == Seq::<(i32, Turn)>::empty()
                }
            },
            change is Save ==> final(self)@ == old(self)@,
            change is Save ==> (r matches Ok(StorageRequest::Write(d)) && d.wf() && d@ == old(self)@),
            change is Load ==> final(self)@ == old(self)@,
            change is Load ==> (r matches Ok(StorageRequest::Read)),
    {
        match change {
            GameChange::New { rows, cols } => {
                match self.new_game(rows, cols) {
                    Ok(()) => Ok(StorageRequest::Nothing),
                    Err(e) => Err(e),
                }
            },
            GameChange::Save => Ok(StorageRequest::Write(self.save())),
            GameChange::Load => Ok(StorageRequest::Read),
        }
    }
}

} // verus!
