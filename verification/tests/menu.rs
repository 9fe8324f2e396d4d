use strategy::input::Key;
use strategy::menu::{MainMenu, MenuAction, MenuOption};

#[test]
fn menu_starts_without_highlight() {
    let m = MainMenu::new();
    assert_eq!(m.selected_option, None);
}

#[test]
fn arrows_move_the_highlight_and_wrap() {
    let mut m = MainMenu::new();
    assert_eq!(m.handle_key(Key::ArrowDown), None);
    assert_eq!(m.selected_option, Some(MenuOption::LoadGame));
    m.handle_key(Key::KeyS);
    m.handle_key(Key::KeyS);
    assert_eq!(m.selected_option, Some(MenuOption::Quit));
    m.handle_key(Key::ArrowDown);
    assert_eq!(m.selected_option, Some(MenuOption::NewGame));
    m.handle_key(Key::KeyW);
    assert_eq!(m.selected_option, Some(MenuOption::Quit));
    let mut fresh = MainMenu::new();
    fresh.handle_key(Key::ArrowUp);
    assert_eq!(fresh.selected_option, Some(MenuOption::Quit));
}

#[test]
fn down_then_up_returns_to_the_start() {
    for o in [MenuOption::NewGame, MenuOption::LoadGame, MenuOption::Settings, MenuOption::Quit] {
        let mut m = MainMenu { selected_option: Some(o) };
        m.handle_key(Key::ArrowDown);
        m.handle_key(Key::ArrowUp);
        assert_eq!(m.selected_option, Some(o));
    }
}

#[test]
fn confirm_chooses_the_highlight() {
    let mut m = MainMenu { selected_option: Some(MenuOption::Settings) };
    assert_eq!(m.handle_key(Key::Enter), Some(MenuAction::Settings));
    assert_eq!(m.handle_key(Key::Space), Some(MenuAction::Settings));
    let mut none = MainMenu::new();
    assert_eq!(none.handle_key(Key::Enter), None);
    assert_eq!(none.handle_key(Key::Escape), Some(MenuAction::Quit));
    assert_eq!(none.handle_key(Key::KeyQ), None);
    assert_eq!(none.selected_option, None);
    assert_eq!(MenuAction::from(MenuOption::LoadGame), MenuAction::LoadGame);
}
