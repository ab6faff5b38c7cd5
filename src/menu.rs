use vstd::prelude::*;
use crate::disk::Turn;
use crate::session::GameChange;

verus! {

/// Which screen is active.
#[derive(Clone, Copy, Debug, PartialEq, Eq, Structural)]
pub enum GameState {
    Playing,
    Menu,
}

/// What the main menu shows: whether the game can be resumed (and saved),
/// and who won the game that just ended.
#[derive(Clone, Copy, Debug, PartialEq, Eq, Structural)]
pub struct MainMenuInfo {
    pub allow_resume: bool,
    pub winner: Option<Turn>,
}

/// The buttons of the main menu.
#[derive(Clone, Copy, Debug, PartialEq, Eq, Structural)]
pub enum ButtonType {
    Resume,
    NewGame,
    IncreaseRows,
    DecreaseRows,
    IncreaseCols,
    DecreaseCols,
    Save,
    Load,
    Exit,
}

/// What a press of a menu button asks for.
#[derive(Clone, Copy, Debug, PartialEq, Eq, Structural)]
pub enum MenuAction {
    /// Stay in the menu.
    Stay,
    /// Go back to the game as it is.
    Play,
    /// Send this change to the game, then go back to it.
    PlayAfter(GameChange),
    /// Quit the program.
    Exit,
}

/// The board size chosen in the menu for the next new game.
#[derive(Clone, Copy, Debug, PartialEq, Eq, Structural)]
pub struct BoardSize {
    pub rows: i32,
    pub cols: i32,
}

pub open spec fn abs(x: int) -> int {
    if x < 0 {
        -x
    } else {
        x
    }
}

/// Another row keeps the two sizes within 2 of each other.
pub open spec fn can_add_row(s: BoardSize) -> bool {
    abs(s.cols - (s.rows + 1)) <= 2 && s.rows < i32::MAX
}

/// A row fewer keeps at least 6 rows, and the sizes within 2 of each other.
pub open spec fn can_remove_row(s: BoardSize) -> bool {
    s.rows > 6 && abs(s.cols - (s.rows - 1)) <= 2
}

/// Another column keeps the two sizes within 2 of each other.
pub open spec fn can_add_col(s: BoardSize) -> bool {
    abs((s.cols + 1) - s.rows) <= 2 && s.cols < i32::MAX
}

/// A column fewer keeps at least 7 columns, and the sizes within 2 of each
/// other.
pub open spec fn can_remove_col(s: BoardSize) -> bool {
    s.cols > 7 && abs((s.cols - 1) - s.rows) <= 2
}

/// The menu's buttons, from top to bottom: Resume and Save only when there
/// is a game to go back to.
pub open spec fn menu_buttons(allow_resume: bool) -> Seq<ButtonType> {
    let middle = seq![
        ButtonType::NewGame,
        ButtonType::IncreaseRows,
        ButtonType::DecreaseRows,
        ButtonType::IncreaseCols,
        ButtonType::DecreaseCols,
    ];
    if allow_resume {
        seq![ButtonType::Resume] + middle + seq![ButtonType::Save, ButtonType::Load, ButtonType::Exit]
    } else {
        middle + seq![ButtonType::Load, ButtonType::Exit]
    }
}

fn abs_i64(x: i64) -> (r: i64)
    requires
        x > i64::MIN,
    ensures
        r == abs(x as int),
{
    if x < 0 {
        -x
    } else {
        x
    }
}

impl MainMenuInfo {
    /// Before any game: nothing to resume, no winner.
    pub fn new() -> (r: MainMenuInfo)
        ensures
            r == (MainMenuInfo { allow_resume: false, winner: None }),
    {
        MainMenuInfo { allow_resume: false, winner: None }
    }

    /// The player leaves the game for the menu: the game can be resumed.
    pub fn pause(&mut self) -> (r: GameState)
        ensures
            *final(self) == (MainMenuInfo { allow_resume: true, winner: None }),
            r == GameState::Menu,
    {
        self.allow_resume = true;
        self.winner = None;
        GameState::Menu
    }

    /// A line of four ended the game: the menu announces the winner, and the
    /// finished game can be neither resumed nor saved.
    pub fn game_won(&mut self, winner: Turn) -> (r: GameState)
        ensures
            *final(self) == (MainMenuInfo { allow_resume: false, winner: Some(winner) }),
            r == GameState::Menu,
    {
        self.allow_resume = false;
        self.winner = Some(winner);
        GameState::Menu
    }

    /// The buttons the menu shows, from top to bottom.
    pub fn buttons(&self) -> (r: Vec<ButtonType>)
        ensures
            r@ == menu_buttons(self.allow_resume),
    {
        let mut r: Vec<ButtonType> = Vec::new();
        if self.allow_resume {
            r.push(ButtonType::Resume);
        }
        r.push(ButtonType::NewGame);
        r.push(ButtonType::IncreaseRows);
        r.push(ButtonType::DecreaseRows);
        r.push(ButtonType::IncreaseCols);
        r.push(ButtonType::DecreaseCols);
        if self.allow_resume {
            r.push(ButtonType::Save);
        }
        r.push(ButtonType::Load);
        r.push(ButtonType::Exit);
        assert(r@ =~= menu_buttons(self.allow_resume));
        r
    }
}

impl BoardSize {
    /// At least 6 rows and 7 columns, the two within 2 of each other.
    pub open spec fn wf(self) -> bool {
        self.rows >= 6 && self.cols >= 7 && abs(self.cols - self.rows) <= 2
    }

    /// Six rows and seven columns.
    pub fn new() -> (r: BoardSize)
        ensures
            r.wf(),
            r == (BoardSize { rows: 6, cols: 7 }),
    {
        BoardSize { rows: 6, cols: 7 }
    }

    /// Handles a press of `button`. The size buttons change the size by one
    /// where the rules allow it and stay in the menu; New Game asks for a
    /// game of the chosen size; Save and Load ask for those changes; Resume
    /// goes back to the game and Exit quits.
    pub fn press(&mut self, button: ButtonType) -> (r: MenuAction)
        ensures
            old(self).wf() ==> final(self).wf(),
            button is IncreaseRows ==> *final(self) == (if can_add_row(*old(self)) {
                BoardSize { rows: (old(self).rows + 1) as i32, ..*old(self) }
            } else {
                *old(self)
            }),
            button is DecreaseRows ==> *final(self) == (if can_remove_row(*old(self)) {
                BoardSize { rows: (old(self).rows - 1) as i32, ..*old(self) }
            } else {
                *old(self)
            }),
            button is IncreaseCols ==> *final(self) == (if can_add_col(*old(self)) {
                BoardSize { cols: (old(self).cols + 1) as i32, ..*old(self) }
            } else {
                *old(self)
            }),
            button is DecreaseCols ==> *final(self) == (if can_remove_col(*old(self)) {
                BoardSize { cols: (old(self).cols - 1) as i32, ..*old(self) }
            } else {
                *old(self)
            }),
            !(button is IncreaseRows || button is DecreaseRows || button is IncreaseCols
                || button is DecreaseCols) ==> *final(self) == *old(self),
            r == (match button {
                ButtonType::Resume => MenuAction::Play,
                ButtonType::NewGame => MenuAction::PlayAfter(
                    GameChange::New { rows: old(self).rows, cols: old(self).cols },
                ),
                ButtonType::Save => MenuAction::PlayAfter(GameChange::Save),
                ButtonType::Load => MenuAction::PlayAfter(GameChange::Load),
                ButtonType::Exit => MenuAction::Exit,
                _ => MenuAction::Stay,
            }),
    {
        let rows = self.rows as i64;
        let cols = self.cols as i64;
        match button {
            ButtonType::Resume => MenuAction::Play,
            ButtonType::NewGame => MenuAction::PlayAfter(
                GameChange::New { rows: self.rows, cols: self.cols },
            ),
            ButtonType::IncreaseRows => {
                if abs_i64(cols - (rows + 1)) <= 2 && self.rows < i32::MAX {
                    self.rows = self.rows + 1;
                }
                MenuAction::Stay
            },
            ButtonType::DecreaseRows => {
                if self.rows > 6 && abs_i64(cols - (rows - 1)) <= 2 {
                    self.rows = self.rows - 1;
                }
                MenuAction::Stay
            },
            ButtonType::IncreaseCols => {
                if abs_i64((cols + 1) - rows) <= 2 && self.cols < i32::MAX {
                    self.cols = self.cols + 1;
                }
                MenuAction::Stay
            },
            ButtonType::DecreaseCols => {
                if self.cols > 7 && abs_i64((cols - 1) - rows) <= 2 {
                    self.cols = self.cols - 1;
                }
                MenuAction::Stay
            },
            ButtonType::Save => MenuAction::PlayAfter(GameChange::Save),
            ButtonType::Load => MenuAction::PlayAfter(GameChange::Load),
            ButtonType::Exit => MenuAction::Exit,
        }
    }
}

/// Swallows the click that chose a menu button, so that it does not also
/// drop a disk once the game is back on screen.
#[derive(Clone, Copy, Debug, PartialEq, Eq, Structural)]
pub struct SkipClick {
    pub skip: bool,
}

impl SkipClick {
    /// Nothing to swallow yet.
    pub fn new() -> (r: SkipClick)
        ensures
            !r.skip,
    {
        SkipClick { skip: false }
    }

    /// The game comes back on screen: the next click is the menu's.
    pub fn arm(&mut self)
        ensures
            final(self).skip,
    {
        self.skip = true;
    }

    /// A click on the board: tells whether it is a move, and consumes the
    /// pending skip when it is not.
    pub fn accept(&mut self) -> (r: bool)
        ensures
            r == !old(self).skip,
            !final(self).skip,
    {
        if self.skip {
            self.skip = false;
            false
        } else {
            true
        }
    }
}

} // verus!
