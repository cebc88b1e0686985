use terminal_hacking::cursor::CursorPosition;
use terminal_hacking::main_widget::{ClickResultKind, CursorHighlight, MainWidget};
use terminal_hacking::wordlists::{by_word_length, WordLists};

fn background() -> Vec<char> {
    vec!['.'; 408]
}

fn words(list: &[(&str, usize)]) -> Vec<(String, usize)> {
    list.iter().map(|(w, p)| (w.to_string(), *p)).collect()
}

fn grid_text(w: &MainWidget) -> String {
    let mut s = String::new();
    for block in 0..2 {
        for row in 0..17 {
            s.push_str(&w.block_row(block, row));
        }
    }
    s
}

fn synthetic_words(len: usize, n: usize) -> Vec<String> {
    (0..n)
        .map(|i| {
            let mut k = i;
            let mut w = String::new();
            for _ in 0..len {
                w.push((b'a' + (k % 26) as u8) as char);
                k /= 26;
            }
            w
        })
        .collect()
}

#[test]
fn by_word_length_finds_the_first_list_of_that_length() {
    let lists: WordLists = vec![
        (4, vec!["love".to_string()]),
        (6, vec!["planet".to_string()]),
        (4, vec!["hate".to_string()]),
    ];
    assert_eq!(by_word_length(&lists, 4).unwrap(), &vec!["love".to_string()]);
    assert_eq!(by_word_length(&lists, 6).unwrap(), &vec!["planet".to_string()]);
    assert!(by_word_length(&lists, 8).is_none());
}

#[test]
fn from_layout_writes_words_over_rows_and_blocks() {
    let w = MainWidget::from_layout(
        24,
        background(),
        words(&[("LOVE", 0), ("HATE", 10), ("FEAR", 202)]),
        "LOVE".to_string(),
    );
    let g = grid_text(&w);
    assert_eq!(&g[0..4], "LOVE");
    // HATE starts at column 10 of row 0 and continues on row 1
    assert_eq!(w.block_row(0, 0), "LOVE......HA");
    assert_eq!(w.block_row(0, 1), "TE..........");
    // FEAR runs from the last row of the first block into the second block
    assert_eq!(w.block_row(0, 16), "..........FE");
    assert_eq!(w.block_row(1, 0), "AR..........");
    assert_eq!(w.first_row_offset(), 24);
    assert_eq!(w.row_offset(3), 24 + 36);
}

#[test]
fn the_cursor_starts_on_the_first_word() {
    let w = MainWidget::from_layout(0, background(), words(&[("LOVE", 0), ("HATE", 20)]), "HATE".to_string());
    assert_eq!(w.cursor_position(), CursorPosition { block: 0, row: 0, column: 0 });
    assert_eq!(w.current_highlight(), CursorHighlight::Word { start_index: 0, length: 4 });
    assert_eq!(w.get_highlighted_string(), "LOVE");
    assert_eq!(w.highlight_cells(0), vec![(0, 0), (1, 0), (2, 0), (3, 0)]);
    assert!(w.highlight_cells(1).is_empty());
}

#[test]
fn clicking_the_password_gives_solution() {
    let mut w = MainWidget::from_layout(0, background(), words(&[("LOVE", 0), ("HATE", 20)]), "LOVE".to_string());
    let r = w.click();
    assert_eq!(r.kind, ClickResultKind::Solution);
    assert_eq!(r.string, "LOVE");
}

#[test]
fn clicking_another_word_gives_its_likeness() {
    let mut w = MainWidget::from_layout(0, background(), words(&[("LOVE", 0), ("HATE", 20)]), "LOVE".to_string());
    // index 20: row 1, column 8 of the first block; on screen column 7 + 8
    assert!(w.move_cursor(15, 1));
    assert_eq!(w.cursor_position(), CursorPosition { block: 0, row: 1, column: 8 });
    assert_eq!(w.current_highlight(), CursorHighlight::Word { start_index: 20, length: 4 });
    assert_eq!(w.get_highlighted_string(), "HATE");
    let r = w.click();
    assert_eq!(r.kind, ClickResultKind::Word { likeness: 1 });
    assert_eq!(r.string, "HATE");
}

#[test]
fn a_word_agrees_with_itself_everywhere_and_likeness_is_symmetric() {
    let mut w = MainWidget::from_layout(0, background(), words(&[("LOVE", 0), ("LOSE", 20)]), "LOSE".to_string());
    assert!(w.move_cursor(7, 0));
    assert_eq!(w.click().kind, ClickResultKind::Word { likeness: 3 });
    let mut v = MainWidget::from_layout(0, background(), words(&[("LOVE", 0), ("LOSE", 20)]), "LOVE".to_string());
    assert!(v.move_cursor(15, 1));
    assert_eq!(v.click().kind, ClickResultKind::Word { likeness: 3 });
    assert!(v.move_cursor(7, 0));
    assert_eq!(v.click().kind, ClickResultKind::Solution);
}

#[test]
fn clicking_a_background_character_gives_that_character() {
    let mut bg = background();
    bg[30] = '#';
    let mut w = MainWidget::from_layout(0, bg, words(&[("LOVE", 0)]), "LOVE".to_string());
    // index 30: row 2, column 6 of the first block
    assert!(w.move_cursor(13, 2));
    assert_eq!(w.current_highlight(), CursorHighlight::Char(30));
    assert_eq!(w.get_highlighted_string(), "#");
    let r = w.click();
    assert_eq!(r.kind, ClickResultKind::Char);
    assert_eq!(r.string, "#");
    assert_eq!(w.highlight_cells(0), vec![(6, 2)]);
}

#[test]
fn move_cursor_maps_screen_cells_to_the_grid() {
    let mut w = MainWidget::from_layout(0, background(), words(&[("LOVE", 0)]), "LOVE".to_string());
    // the address column and the space are no grid cells
    assert!(!w.move_cursor(3, 0));
    assert!(!w.move_cursor(19, 0));
    assert!(!w.move_cursor(26, 5));
    assert!(!w.move_cursor(39, 5));
    assert!(!w.move_cursor(10, 17));
    assert_eq!(w.cursor_position(), CursorPosition { block: 0, row: 0, column: 0 });
    assert!(w.move_cursor(27, 4));
    assert_eq!(w.cursor_position(), CursorPosition { block: 1, row: 4, column: 0 });
    assert!(w.move_cursor(38, 16));
    assert_eq!(w.cursor_position(), CursorPosition { block: 1, row: 16, column: 11 });
    assert_eq!(w.current_highlight(), CursorHighlight::Char(407));
}

#[test]
fn the_highlighted_character_is_read_from_the_row_within_the_block() {
    // the widget reads a highlighted character from the cursor's row within
    // its block: in the second block that is a row of the first block
    let mut bg = background();
    bg[12 + 3] = 'x';
    bg[204 + 12 + 3] = 'y';
    let mut w = MainWidget::from_layout(0, bg, words(&[("LOVE", 0)]), "LOVE".to_string());
    assert!(w.move_cursor(27 + 3, 1));
    assert_eq!(w.current_highlight(), CursorHighlight::Char(204 + 12 + 3));
    assert_eq!(w.get_highlighted_string(), "x");
}

#[test]
fn words_crossing_into_the_second_block_are_highlighted_in_both() {
    let mut w = MainWidget::from_layout(0, background(), words(&[("FEAR", 202)]), "FEAR".to_string());
    assert!(w.move_cursor(28, 0));
    assert_eq!(w.current_highlight(), CursorHighlight::Word { start_index: 202, length: 4 });
    assert_eq!(w.highlight_cells(0), vec![(10, 16), (11, 16)]);
    assert_eq!(w.highlight_cells(1), vec![(0, 0), (1, 0)]);
    assert_eq!(w.get_highlighted_string(), "FEAR");
}

#[test]
fn arrow_moves_stay_in_the_grid() {
    let mut w = MainWidget::from_layout(0, background(), words(&[("LOVE", 0)]), "LOVE".to_string());
    w.move_cursor_up();
    w.move_cursor_left();
    assert_eq!(w.cursor_position(), CursorPosition { block: 0, row: 0, column: 0 });
    for _ in 0..12 {
        w.move_cursor_right();
    }
    assert_eq!(w.cursor_position(), CursorPosition { block: 1, row: 0, column: 0 });
    w.move_cursor_left();
    assert_eq!(w.cursor_position(), CursorPosition { block: 0, row: 0, column: 11 });
    for _ in 0..20 {
        w.move_cursor_down();
    }
    assert_eq!(w.cursor_position(), CursorPosition { block: 0, row: 16, column: 11 });
}

#[test]
fn new_random_hides_ten_different_upper_case_words() {
    let lists: WordLists = vec![(4, synthetic_words(4, 30))];
    let w = MainWidget::new_random(&lists).expect("ten four-letter words always fit");
    let hidden = w.hidden_words();
    assert_eq!(hidden.len(), 10);
    let g = grid_text(&w);
    for (i, (word, pos)) in hidden.iter().enumerate() {
        assert_eq!(word.len(), 4);
        assert_eq!(word, &word.to_uppercase());
        assert!(lists[0].1.contains(&word.to_lowercase()));
        assert!(*pos + 4 < 408);
        assert_eq!(&g[*pos..*pos + 4], word.as_str());
        for (j, (other, q)) in hidden.iter().enumerate() {
            if i != j {
                assert_ne!(word, other);
                assert!(pos + 4 < *q || q + 4 < *pos);
            }
        }
    }
    assert!(hidden.iter().any(|(word, _)| word == w.solution_text()));
    assert_eq!(w.first_row_offset() % 12, 0);
    assert!(w.first_row_offset() < 5427 * 12);
    for c in g.chars() {
        assert!(c.is_ascii_uppercase() || ";$@:!%+_?/,.\"'-\\#*<>()[]{}^=`".contains(c));
    }
}

#[test]
fn new_draws_the_requested_number_of_words() {
    let lists: WordLists = vec![(4, synthetic_words(4, 12)), (8, synthetic_words(8, 25))];
    let mut rng = rand::rng();
    let w = MainWidget::new(&mut rng, &lists, 8, 17).expect("seventeen eight-letter words always fit");
    assert_eq!(w.hidden_words().len(), 17);
    assert!(w.hidden_words().iter().all(|(word, _)| word.len() == 8));
    // with exactly as many different words as needed, all of them are drawn
    let w = MainWidget::new(&mut rng, &lists, 4, 12).unwrap();
    let mut drawn: Vec<String> = w.hidden_words().iter().map(|(x, _)| x.to_lowercase()).collect();
    drawn.sort();
    let mut all = lists[0].1.clone();
    all.sort();
    assert_eq!(drawn, all);
}

#[test]
fn duplicates_in_the_list_are_drawn_once() {
    let mut list = synthetic_words(4, 10);
    list.extend(synthetic_words(4, 10));
    let lists: WordLists = vec![(4, list)];
    let w = MainWidget::new_random(&lists).unwrap();
    let mut drawn: Vec<&String> = w.hidden_words().iter().map(|(x, _)| x).collect();
    drawn.sort();
    drawn.dedup();
    assert_eq!(drawn.len(), 10);
}
