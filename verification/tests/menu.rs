use terminal_hacking::events::{Key, MouseButton, MouseEvent, MouseEventKind};
use terminal_hacking::menu::{Menu, MenuResult};

fn moved(column: u16, row: u16) -> MouseEvent {
    MouseEvent { kind: MouseEventKind::Moved, column, row }
}

fn click(button: MouseButton) -> MouseEvent {
    MouseEvent { kind: MouseEventKind::Down(button), column: 0, row: 0 }
}

#[test]
fn the_difficulty_menu() {
    let m = Menu::new();
    assert_eq!(m.options(), &vec!["Novice", "Advanced", "Expert", "Master"].iter().map(|s| s.to_string()).collect::<Vec<_>>());
    assert_eq!(m.text(), "Choose a difficulty:");
    assert_eq!(m.head_line(), "Welcome to ROBCO Industries (TM) Termlink\nFallout 4 Hacking Minigame");
    assert_eq!(m.selected(), 0);
    assert_eq!(m.should_exit(), None);
    assert_eq!(m.option_line(1), "[Advanced]");
}

#[test]
fn keys_move_the_selection_within_bounds() {
    let mut m = Menu::new();
    m.handle_key_event(Key::Up);
    assert_eq!(m.selected(), 0);
    m.handle_key_event(Key::Down);
    m.handle_key_event(Key::Char('s'));
    assert_eq!(m.selected(), 2);
    m.handle_key_event(Key::Char('w'));
    assert_eq!(m.selected(), 1);
    for _ in 0..10 {
        m.handle_key_event(Key::Down);
    }
    // down stops one past the last option
    assert_eq!(m.selected(), 4);
    m.handle_key_event(Key::Char('x'));
    assert_eq!(m.selected(), 4);
    assert_eq!(m.should_exit(), None);
}

#[test]
fn e_chooses_and_tab_leaves() {
    let mut m = Menu::new();
    m.handle_key_event(Key::Down);
    m.handle_key_event(Key::Char('e'));
    assert_eq!(m.should_exit(), Some(MenuResult::Selected("Advanced".to_string())));
    let mut m = Menu::new();
    m.handle_key_event(Key::Tab);
    assert_eq!(m.should_exit(), Some(MenuResult::Exit));
}

#[test]
fn with_options_preselects() {
    let m = Menu::with_options(vec!["a".to_string(), "b".to_string()], "Pick:", 1);
    assert_eq!(m.selected(), 1);
    assert_eq!(m.text(), "Pick:");
}

#[test]
fn the_mouse_selects_the_option_under_it() {
    let mut m = Menu::new();
    // one text line: the options start on row 3 + 1
    m.handle_mouse_event(moved(5, 6));
    assert_eq!(m.selected(), 2);
    m.handle_mouse_event(click(MouseButton::Middle));
    assert_eq!(m.should_exit(), None);
    m.handle_mouse_event(click(MouseButton::Left));
    assert_eq!(m.should_exit(), Some(MenuResult::Selected("Expert".to_string())));
}

#[test]
fn the_mouse_elsewhere_makes_nothing_clickable() {
    let mut m = Menu::new();
    m.handle_mouse_event(moved(5, 4));
    assert_eq!(m.selected(), 0);
    // below the last option
    m.handle_mouse_event(moved(5, 8));
    assert_eq!(m.selected(), 0);
    m.handle_mouse_event(click(MouseButton::Right));
    assert_eq!(m.should_exit(), None);
    // on the text line and right of the menu
    m.handle_mouse_event(moved(5, 3));
    m.handle_mouse_event(click(MouseButton::Left));
    m.handle_mouse_event(moved(54, 5));
    m.handle_mouse_event(click(MouseButton::Left));
    assert_eq!(m.should_exit(), None);
    m.handle_mouse_event(moved(53, 7));
    m.handle_mouse_event(click(MouseButton::Right));
    assert_eq!(m.should_exit(), Some(MenuResult::Selected("Master".to_string())));
}

#[test]
fn a_menu_never_needs_redrawing_on_a_tick() {
    let mut m = Menu::new();
    assert!(!m.tick());
}

#[test]
fn a_selection_past_the_options_comes_back_with_down_and_up() {
    let options: Vec<String> = vec!["a".to_string(), "b".to_string()];
    let mut m = Menu::with_options(options.clone(), "Pick:", 7);
    assert_eq!(m.selected(), 7);
    m.handle_key_event(Key::Down);
    assert_eq!(m.selected(), 2);
    let mut m = Menu::with_options(options, "Pick:", 7);
    m.handle_key_event(Key::Up);
    assert_eq!(m.selected(), 6);
}
