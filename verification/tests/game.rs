use terminal_hacking::cursor::CursorPosition;
use terminal_hacking::events::{Key, MouseButton, MouseEvent, MouseEventKind};
use terminal_hacking::game::{Difficulty, Game, GameResult};
use terminal_hacking::wordlists::WordLists;

fn synthetic_words(len: usize, n: usize) -> Vec<String> {
    (0..n)
        .map(|i| {
            let mut k = i * 7 + 3;
            let mut w = String::new();
            for _ in 0..len {
                w.push((b'a' + (k % 26) as u8) as char);
                k /= 26;
            }
            w
        })
        .collect()
}

fn lists() -> WordLists {
    vec![(4, synthetic_words(4, 40)), (6, synthetic_words(6, 40)), (8, synthetic_words(8, 40)), (10, synthetic_words(10, 40))]
}

fn screen_cell(index: usize) -> (u16, u16) {
    let p = CursorPosition::from_index(index);
    ((7 + 20 * p.block + p.column) as u16, (5 + p.row) as u16)
}

fn point_at(game: &mut Game, index: usize) {
    let (column, row) = screen_cell(index);
    game.handle_mouse_event(MouseEvent { kind: MouseEventKind::Moved, column, row });
}

fn click(game: &mut Game) {
    game.handle_mouse_event(MouseEvent { kind: MouseEventKind::Down(MouseButton::Left), column: 0, row: 0 });
}

#[test]
fn difficulties_by_name() {
    assert_eq!(Difficulty::from_name("Novice"), Ok(Difficulty::new(4, 15)));
    assert_eq!(Difficulty::from_name("Advanced"), Ok(Difficulty::new(6, 15)));
    assert_eq!(Difficulty::from_name("Expert"), Ok(Difficulty::new(8, 15)));
    assert_eq!(Difficulty::from_name("Master"), Ok(Difficulty::new(10, 15)));
    assert_eq!(Difficulty::from_name("master"), Err(()));
    assert_eq!("Expert".parse::<Difficulty>(), Ok(Difficulty::expert()));
    assert_eq!("".parse::<Difficulty>(), Err(()));
}

#[test]
fn a_new_game() {
    let game = Game::new(Difficulty::novice(), &lists()).unwrap();
    assert_eq!(game.should_exit(), None);
    assert_eq!(game.top_widget().remaining_attempts(), 4);
    assert_eq!(game.main_widget().hidden_words().len(), 15);
    assert!(game.right_widget().history_lines().is_empty());
    let expected = format!(">{}", game.main_widget().get_highlighted_string());
    assert_eq!(game.right_widget().selected_string(), expected);
}

#[test]
fn every_difficulty_but_the_largest_always_starts() {
    for length in [4, 6, 8, 10] {
        for count in 5..=20 {
            if length == 10 && count == 20 {
                continue;
            }
            let game = Game::new(Difficulty::new(length, count), &lists()).expect("the words fit");
            assert_eq!(game.main_widget().hidden_words().len(), count);
        }
    }
}

#[test]
fn clicking_the_password_hacks_the_terminal() {
    let mut game = Game::new(Difficulty::advanced(), &lists()).unwrap();
    let solution = game.main_widget().solution_text().to_string();
    let pos = game.main_widget().hidden_words().iter().find(|(w, _)| *w == solution).unwrap().1;
    point_at(&mut game, pos + 2);
    assert_eq!(game.right_widget().selected_string(), format!(">{}", solution));
    click(&mut game);
    assert_eq!(game.should_exit(), Some(GameResult::Hacked));
    assert!(game.right_widget().history_lines().is_empty());
}

#[test]
fn four_wrong_words_lock_the_player_out() {
    let mut game = Game::new(Difficulty::novice(), &lists()).unwrap();
    let solution = game.main_widget().solution_text().to_string();
    let wrong: Vec<(String, usize)> =
        game.main_widget().hidden_words().iter().filter(|(w, _)| *w != solution).cloned().collect();
    for (i, (word, pos)) in wrong.iter().take(4).enumerate() {
        point_at(&mut game, *pos);
        click(&mut game);
        assert_eq!(game.top_widget().remaining_attempts(), 3 - i);
        let history = game.right_widget().history_lines();
        assert_eq!(history[history.len() - 3], format!(">{}", word));
        assert_eq!(history[history.len() - 2], ">Entry denied.");
        if i < 3 {
            let likeness = word.chars().zip(solution.chars()).filter(|(a, b)| a == b).count();
            assert_eq!(history[history.len() - 1], format!(">Likeness={}", likeness));
        } else {
            assert_eq!(history[history.len() - 1], ">Init Lockout");
        }
    }
    assert!(game.top_widget().locked_out());
    // locked out: the game is not over, but only Tab has an effect
    assert_eq!(game.should_exit(), None);
    let before = game.right_widget().history_lines().len();
    game.handle_key_event(Key::Char('e'));
    game.handle_key_event(Key::Right);
    point_at(&mut game, wrong[5].1);
    click(&mut game);
    assert_eq!(game.right_widget().history_lines().len(), before);
    game.handle_key_event(Key::Tab);
    assert_eq!(game.should_exit(), Some(GameResult::Terminated));
}

#[test]
fn a_background_character_is_an_error_and_costs_nothing() {
    let mut game = Game::new(Difficulty::novice(), &lists()).unwrap();
    let covered: Vec<bool> = (0..408)
        .map(|i| game.main_widget().hidden_words().iter().any(|(w, p)| *p <= i && i < p + w.len()))
        .collect();
    let free = (0..408).find(|i| !covered[*i] && CursorPosition::from_index(*i).block == 0).unwrap();
    point_at(&mut game, free);
    let shown = game.main_widget().get_highlighted_string();
    game.handle_key_event(Key::Char('e'));
    assert_eq!(game.top_widget().remaining_attempts(), 4);
    assert_eq!(game.right_widget().history_lines(), &vec![format!(">{}", shown), ">Error".to_string()]);
}

#[test]
fn keys_move_the_cursor_and_the_prompt_follows() {
    let mut game = Game::new(Difficulty::novice(), &lists()).unwrap();
    game.handle_key_event(Key::Char('d'));
    game.handle_key_event(Key::Down);
    assert_eq!(game.main_widget().cursor_position(), CursorPosition { block: 0, row: 1, column: 1 });
    let expected = format!(">{}", game.main_widget().get_highlighted_string());
    assert_eq!(game.right_widget().selected_string(), expected);
    // a click after a key move does nothing: nothing is clickable
    click(&mut game);
    assert!(game.right_widget().history_lines().is_empty());
}

#[test]
fn the_mouse_outside_the_grid_makes_nothing_clickable() {
    let mut game = Game::new(Difficulty::novice(), &lists()).unwrap();
    game.handle_mouse_event(MouseEvent { kind: MouseEventKind::Moved, column: 45, row: 10 });
    click(&mut game);
    game.handle_mouse_event(MouseEvent { kind: MouseEventKind::Moved, column: 2, row: 10 });
    click(&mut game);
    assert!(game.right_widget().history_lines().is_empty());
    assert_eq!(game.should_exit(), None);
}

#[test]
fn tab_leaves_the_game() {
    let mut game = Game::new(Difficulty::master(), &lists()).unwrap();
    game.handle_key_event(Key::Tab);
    assert_eq!(game.should_exit(), Some(GameResult::Terminated));
}

#[test]
fn a_game_ticks_like_its_prompt() {
    let mut game = Game::new(Difficulty::novice(), &lists()).unwrap();
    assert!(!game.tick());
    assert!(!game.tick());
    assert!(game.tick());
    assert!(!game.right_widget().show_cursor());
}
