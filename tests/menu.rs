use connect4::disk::Turn;
use connect4::menu::{BoardSize, ButtonType, GameState, MainMenuInfo, MenuAction, SkipClick};
use connect4::session::GameChange;

#[test]
fn size_buttons_follow_the_rules() {
    let mut size = BoardSize::new();
    assert_eq!(size, BoardSize { rows: 6, cols: 7 });
    assert_eq!(size.press(ButtonType::DecreaseRows), MenuAction::Stay);
    assert_eq!(size.press(ButtonType::DecreaseCols), MenuAction::Stay);
    assert_eq!(size, BoardSize { rows: 6, cols: 7 });
    size.press(ButtonType::IncreaseCols);
    size.press(ButtonType::IncreaseCols);
    assert_eq!(size, BoardSize { rows: 6, cols: 8 });
    size.press(ButtonType::IncreaseRows);
    size.press(ButtonType::IncreaseRows);
    size.press(ButtonType::IncreaseRows);
    size.press(ButtonType::IncreaseRows);
    assert_eq!(size, BoardSize { rows: 10, cols: 8 });
    size.press(ButtonType::IncreaseRows);
    assert_eq!(size, BoardSize { rows: 10, cols: 8 });
    size.press(ButtonType::DecreaseCols);
    assert_eq!(size, BoardSize { rows: 10, cols: 8 });
    size.press(ButtonType::DecreaseRows);
    assert_eq!(size, BoardSize { rows: 9, cols: 8 });
}

#[test]
fn menu_buttons_ask_for_changes() {
    let mut size = BoardSize { rows: 7, cols: 8 };
    assert_eq!(
        size.press(ButtonType::NewGame),
        MenuAction::PlayAfter(GameChange::New { rows: 7, cols: 8 })
    );
    assert_eq!(size.press(ButtonType::Save), MenuAction::PlayAfter(GameChange::Save));
    assert_eq!(size.press(ButtonType::Load), MenuAction::PlayAfter(GameChange::Load));
    assert_eq!(size.press(ButtonType::Resume), MenuAction::Play);
    assert_eq!(size.press(ButtonType::Exit), MenuAction::Exit);
    assert_eq!(size, BoardSize { rows: 7, cols: 8 });
}

#[test]
fn menu_info_tracks_pause_and_win() {
    let mut info = MainMenuInfo::new();
    assert!(!info.allow_resume);
    assert_eq!(info.winner, None);
    assert_eq!(info.pause(), GameState::Menu);
    assert!(info.allow_resume);
    assert_eq!(info.game_won(Turn::Blue), GameState::Menu);
    assert!(!info.allow_resume);
    assert_eq!(info.winner, Some(Turn::Blue));
    assert_eq!(info.pause(), GameState::Menu);
    assert_eq!(info.winner, None);
}

#[test]
fn buttons_depend_on_resume() {
    let info = MainMenuInfo::new();
    assert_eq!(
        info.buttons(),
        vec![
            ButtonType::NewGame,
            ButtonType::IncreaseRows,
            ButtonType::DecreaseRows,
            ButtonType::IncreaseCols,
            ButtonType::DecreaseCols,
            ButtonType::Load,
            ButtonType::Exit,
        ]
    );
    let info = MainMenuInfo { allow_resume: true, winner: None };
    let b = info.buttons();
    assert_eq!(b.len(), 9);
    assert_eq!(b[0], ButtonType::Resume);
    assert_eq!(b[6], ButtonType::Save);
}

#[test]
fn first_click_after_menu_is_swallowed() {
    let mut gate = SkipClick::new();
    assert!(gate.accept());
    gate.arm();
    assert!(!gate.accept());
    assert!(gate.accept());
}
