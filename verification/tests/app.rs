use terminal_hacking::app::{check_word_lists, ActiveScene, App, WordCountMenu, WordLengthMenu};
use terminal_hacking::main_widget::can_draw;
use terminal_hacking::events::{Event, Key, MouseButton, MouseEvent, MouseEventKind};
use terminal_hacking::game::{Difficulty, GameResult};
use terminal_hacking::geometry::Area;
use terminal_hacking::wordlists::WordLists;

fn synthetic_words(len: usize, n: usize) -> Vec<String> {
    (0..n)
        .map(|i| {
            let mut k = i * 11 + 5;
            let mut w = String::new();
            for _ in 0..len {
                w.push((b'a' + (k % 26) as u8) as char);
                k /= 26;
            }
            w
        })
        .collect()
}

fn lists() -> WordLists {
    vec![(4, synthetic_words(4, 25)), (6, synthetic_words(6, 25)), (8, synthetic_words(8, 25)), (10, synthetic_words(10, 25))]
}

fn key(app: &mut App, k: Key) -> Option<GameResult> {
    let e = Event::Key(k);
    assert!(app.accepts(e));
    app.handle_event(e);
    app.handle_scene_transition()
}

fn menu_options(app: &App) -> Vec<String> {
    match app.active_scene() {
        ActiveScene::MainMenu(m) | ActiveScene::WordLengthMenu(m) | ActiveScene::WordCountMenu(m) => m.options().clone(),
        ActiveScene::Game(_) => panic!("not a menu"),
    }
}

#[test]
fn option_texts_to_values() {
    assert_eq!(WordLengthMenu::option_to_word_length("Novice (4)"), Some(4));
    assert_eq!(WordLengthMenu::option_to_word_length("Master (10)"), Some(10));
    assert_eq!(WordLengthMenu::option_to_word_length("Master"), None);
    assert_eq!(WordCountMenu::option_to_word_count("17"), Some(17));
    assert_eq!(WordCountMenu::option_to_word_count("seventeen"), None);
}

#[test]
fn menus_open_on_the_current_value() {
    match WordLengthMenu::create(8) {
        ActiveScene::WordLengthMenu(m) => {
            assert_eq!(m.selected(), 2);
            assert_eq!(m.options()[2], "Expert (8)");
        }
        _ => panic!("word length menu expected"),
    }
    match WordCountMenu::create(12) {
        ActiveScene::WordCountMenu(m) => {
            assert_eq!(m.options().len(), 16);
            assert_eq!(m.options()[0], "5");
            assert_eq!(m.options()[15], "20");
            assert_eq!(m.selected(), 7);
            assert_eq!(m.text(), "Choose the number of words:");
        }
        _ => panic!("word count menu expected"),
    }
}

#[test]
fn the_program_starts_in_the_main_menu() {
    let app = App::new(lists());
    assert!(!app.should_exit());
    assert_eq!(app.layout_areas(), None);
    assert_eq!(app.current_difficulty(), Difficulty::novice());
    assert_eq!(menu_options(&app), vec!["Play", "Change Difficulty: Word Length", "Change Difficulty: Word Count"]);
}

#[test]
fn the_layout_follows_the_terminal_size() {
    let mut app = App::new(lists());
    app.handle_event(Event::Resize(40, 30));
    assert_eq!(app.layout_areas(), None);
    app.handle_event(Event::Resize(54, 22));
    assert_eq!(app.layout_areas(), Some((None, Area { x: 0, y: 0, width: 54, height: 22 })));
    app.handle_event(Event::Resize(56, 30));
    assert_eq!(app.layout_areas(), Some((None, Area { x: 1, y: 4, width: 54, height: 22 })));
    app.handle_event(Event::Resize(100, 50));
    assert_eq!(
        app.layout_areas(),
        Some((Some(Area { x: 21, y: 13, width: 58, height: 24 }), Area { x: 23, y: 14, width: 54, height: 22 }))
    );
}

#[test]
fn without_a_layout_keys_do_nothing() {
    let mut app = App::new(lists());
    key(&mut app, Key::Char('e'));
    assert_eq!(menu_options(&app).len(), 3);
    assert_eq!(key(&mut app, Key::Char('q')), None);
    assert!(app.should_exit());
}

#[test]
fn escape_and_q_quit() {
    for k in [Key::Esc, Key::Char('Q'), Key::Char('q')] {
        let mut app = App::new(lists());
        app.handle_event(Event::Resize(80, 30));
        key(&mut app, k);
        assert!(app.should_exit());
    }
}

#[test]
fn changing_the_word_length_and_count() {
    let mut app = App::new(lists());
    app.handle_event(Event::Resize(80, 30));
    key(&mut app, Key::Down);
    key(&mut app, Key::Char('e'));
    assert_eq!(menu_options(&app)[3], "Master (10)");
    key(&mut app, Key::Down);
    key(&mut app, Key::Down);
    key(&mut app, Key::Down);
    key(&mut app, Key::Char('e'));
    assert_eq!(app.current_difficulty(), Difficulty::new(10, 15));
    assert_eq!(menu_options(&app)[0], "Play");
    key(&mut app, Key::Down);
    key(&mut app, Key::Down);
    key(&mut app, Key::Char('e'));
    assert_eq!(menu_options(&app).len(), 16);
    key(&mut app, Key::Up);
    key(&mut app, Key::Char('e'));
    assert_eq!(app.current_difficulty(), Difficulty::new(10, 14));
    // leaving a difficulty menu with Tab keeps the difficulty
    key(&mut app, Key::Down);
    key(&mut app, Key::Char('e'));
    key(&mut app, Key::Tab);
    assert_eq!(app.current_difficulty(), Difficulty::new(10, 14));
    assert_eq!(menu_options(&app)[0], "Play");
}

#[test]
fn playing_and_leaving_a_game() {
    let mut app = App::new(lists());
    app.handle_event(Event::Resize(54, 22));
    key(&mut app, Key::Char('e'));
    match app.active_scene() {
        ActiveScene::Game(g) => assert_eq!(g.main_widget().hidden_words().len(), 15),
        _ => panic!("a game expected"),
    }
    assert_eq!(key(&mut app, Key::Tab), None);
    assert_eq!(menu_options(&app)[0], "Play");
}

#[test]
fn winning_a_game_ends_the_program_with_hacked() {
    let mut app = App::new(lists());
    app.handle_event(Event::Resize(100, 50));
    key(&mut app, Key::Char('e'));
    let (column, row) = match app.active_scene() {
        ActiveScene::Game(g) => {
            let solution = g.main_widget().solution_text().to_string();
            let pos = g.main_widget().hidden_words().iter().find(|(w, _)| *w == solution).unwrap().1;
            let p = terminal_hacking::cursor::CursorPosition::from_index(pos);
            ((7 + 20 * p.block + p.column) as u16, (5 + p.row) as u16)
        }
        _ => panic!("a game expected"),
    };
    // the game area starts at (23, 14) on this terminal
    let moved = Event::Mouse(MouseEvent { kind: MouseEventKind::Moved, column: 23 + column, row: 14 + row });
    assert!(app.accepts(moved));
    app.handle_event(moved);
    assert_eq!(app.handle_scene_transition(), None);
    app.handle_event(Event::Mouse(MouseEvent { kind: MouseEventKind::Down(MouseButton::Left), column: 23 + column, row: 14 + row }));
    assert_eq!(app.handle_scene_transition(), Some(GameResult::Hacked));
}

#[test]
fn choosing_past_the_last_option_is_refused() {
    let mut app = App::new(lists());
    app.handle_event(Event::Resize(80, 30));
    for _ in 0..5 {
        key(&mut app, Key::Down);
    }
    assert!(!app.accepts(Event::Key(Key::Char('e'))));
    assert!(app.accepts(Event::Key(Key::Char('q'))));
}

#[test]
fn mouse_events_outside_the_game_area_are_ignored() {
    let mut app = App::new(lists());
    app.handle_event(Event::Resize(100, 50));
    // the main menu's first option is on row 4 of the game area
    app.handle_event(Event::Mouse(MouseEvent { kind: MouseEventKind::Moved, column: 5, row: 18 }));
    app.handle_event(Event::Mouse(MouseEvent { kind: MouseEventKind::Down(MouseButton::Left), column: 5, row: 18 }));
    assert_eq!(app.handle_scene_transition(), None);
    assert_eq!(menu_options(&app)[0], "Play");
    // inside: row 14 + 4 + 2 is the third option
    app.handle_event(Event::Mouse(MouseEvent { kind: MouseEventKind::Moved, column: 30, row: 20 }));
    app.handle_event(Event::Mouse(MouseEvent { kind: MouseEventKind::Down(MouseButton::Left), column: 30, row: 20 }));
    app.handle_scene_transition();
    assert_eq!(menu_options(&app).len(), 16);
}

#[test]
fn a_scene_ticks() {
    let mut app = App::new(lists());
    app.handle_event(Event::Resize(80, 30));
    key(&mut app, Key::Char('e'));
    match app.active_scene() {
        ActiveScene::Game(_) => {}
        _ => panic!("a game expected"),
    }
}

#[test]
fn word_lists_are_checked() {
    assert!(check_word_lists(&lists()));
    // a missing length
    let mut missing = lists();
    missing.remove(2);
    assert!(!check_word_lists(&missing));
    assert!(!can_draw(&missing, 8, 20));
    // a word that is not ASCII
    let mut accented = lists();
    accented[0].1[3] = "äbcd".to_string();
    assert!(!check_word_lists(&accented));
    // a word of another length
    let mut long = lists();
    long[1].1[0] = "abcdefg".to_string();
    assert!(!can_draw(&long, 6, 20));
    // repeated words count once
    let repeated: WordLists = vec![(4, (0..40).map(|i| synthetic_words(4, 19)[i % 19].clone()).collect())];
    assert!(!can_draw(&repeated, 4, 20));
    assert!(can_draw(&repeated, 4, 19));
}

#[test]
fn the_game_area_is_always_54_by_22_inside_the_terminal() {
    let mut app = App::new(lists());
    for columns in [54u16, 55, 57, 58, 59, 80, 200, 65535] {
        for rows in [22u16, 23, 24, 25, 60, 65535] {
            app.resize(columns, rows);
            let (border, game) = app.layout_areas().expect("the terminal is big enough");
            assert_eq!((game.width, game.height), (54, 22));
            assert!(game.x as u32 + 54 <= columns as u32 && game.y as u32 + 22 <= rows as u32);
            if let Some(b) = border {
                assert_eq!((b.width, b.height), (58, 24));
            }
        }
    }
}
