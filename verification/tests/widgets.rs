use terminal_hacking::right_widget::{RightWidget, Submission, SubmissionKind};
use terminal_hacking::top_widget::TopWidget;

fn submit(w: &mut RightWidget, s: &str, kind: SubmissionKind) {
    w.add_to_history(&Submission { string: s.to_string(), kind });
}

#[test]
fn top_widget_starts_with_four_attempts() {
    let t = TopWidget::default();
    assert_eq!(t.remaining_attempts(), 4);
    assert!(!t.locked_out());
    assert_eq!(t.head_line(), "Welcome to ROBCO Industries (TM) Termlink");
    assert_eq!(t.attempts_line(), "Attempts Remaining: ■ ■ ■ ■");
}

#[test]
fn attempts_never_drop_below_zero() {
    let mut t = TopWidget::default();
    t.remove_attempt();
    assert_eq!(t.attempts_line(), "Attempts Remaining: ■ ■ ■");
    t.remove_attempt();
    t.remove_attempt();
    assert_eq!(t.attempts_line(), "Attempts Remaining: ■");
    assert!(!t.locked_out());
    t.remove_attempt();
    assert!(t.locked_out());
    assert_eq!(t.attempts_line(), "Attempts Remaining: ");
    t.remove_attempt();
    assert_eq!(t.remaining_attempts(), 0);
    assert!(t.locked_out());
}

#[test]
fn the_prompt_shows_the_selected_text() {
    let mut w = RightWidget::default();
    assert_eq!(w.selected_string(), "");
    w.set_selected_string("HATE".to_string());
    assert_eq!(w.selected_string(), ">HATE");
    w.set_selected_string(String::new());
    assert_eq!(w.selected_string(), ">");
}

#[test]
fn history_lines_of_each_submission() {
    let mut w = RightWidget::default();
    submit(&mut w, "#", SubmissionKind::Error);
    submit(&mut w, "HATE", SubmissionKind::Word { likeness: 2, lockout: false });
    submit(&mut w, "FEAR", SubmissionKind::Word { likeness: 0, lockout: true });
    submit(&mut w, "[]", SubmissionKind::DudRemoved);
    submit(&mut w, "()", SubmissionKind::AttemptsReset);
    let expected = vec![
        ">#", ">Error",
        ">HATE", ">Entry denied.", ">Likeness=2",
        ">FEAR", ">Entry denied.", ">Init Lockout",
        ">[]", ">Dud Removed.",
        ">()", ">Tries Reset.",
    ];
    assert_eq!(w.history_lines(), &expected.iter().map(|s| s.to_string()).collect::<Vec<_>>());
}

#[test]
fn likeness_is_written_in_decimal() {
    let mut w = RightWidget::default();
    submit(&mut w, "WORD", SubmissionKind::Word { likeness: 10, lockout: false });
    assert_eq!(w.history_lines()[2], ">Likeness=10");
}

#[test]
fn the_cursor_blinks_every_third_tick() {
    let mut w = RightWidget::default();
    assert!(w.show_cursor());
    assert!(!w.tick());
    assert!(!w.tick());
    assert!(w.tick());
    assert!(!w.show_cursor());
    assert!(!w.tick());
    assert!(!w.tick());
    assert!(w.tick());
    assert!(w.show_cursor());
}

#[test]
fn history_rows_wrap_from_the_end_and_fill_from_the_bottom() {
    let mut w = RightWidget::default();
    submit(&mut w, "ABCDEFGHIJKLMNOPQRS", SubmissionKind::Error);
    // ">ABCDEFGHIJKLMNOPQRS" has 20 characters: 6 in the last row, 14 before
    let rows = w.history_rows(14, 16);
    assert_eq!(rows, vec![">Error", "NOPQRS", ">ABCDEFGHIJKLM"]);
}

#[test]
fn history_rows_stop_when_the_area_is_full() {
    let mut w = RightWidget::default();
    for i in 0..10 {
        submit(&mut w, &format!("W{}", i), SubmissionKind::Error);
    }
    let rows = w.history_rows(14, 5);
    assert_eq!(rows, vec![">Error", ">W9", ">Error", ">W8", ">Error"]);
    assert!(w.history_rows(14, 0).is_empty());
    assert!(RightWidget::default().history_rows(14, 16).is_empty());
}

#[test]
fn history_rows_give_back_every_entry() {
    let mut w = RightWidget::default();
    submit(&mut w, "HATE", SubmissionKind::Word { likeness: 12345, lockout: false });
    let rows = w.history_rows(5, 100);
    // read from the top row down, the rows give the history back
    let joined: String = rows.iter().rev().cloned().collect();
    assert_eq!(joined, w.history_lines().concat());
    assert!(rows.iter().all(|r| !r.is_empty() && r.len() <= 5));
}

#[test]
fn locked_out_exactly_after_four_removals_and_stays_so() {
    for k in 0..8 {
        let mut t = TopWidget::default();
        for _ in 0..k {
            t.remove_attempt();
        }
        assert_eq!(t.locked_out(), k >= 4);
        assert_eq!(t.remaining_attempts(), if k >= 4 { 0 } else { 4 - k });
    }
}

#[test]
fn any_text_goes_into_the_history() {
    let mut w = RightWidget::default();
    submit(&mut w, "ÄÖÜ", SubmissionKind::Error);
    submit(&mut w, "€uro", SubmissionKind::Word { likeness: 2, lockout: false });
    assert_eq!(
        w.history_lines(),
        &vec![">ÄÖÜ", ">Error", ">€uro", ">Entry denied.", ">Likeness=2"].iter().map(|s| s.to_string()).collect::<Vec<_>>()
    );
}

#[test]
fn a_short_line_of_any_text_is_one_row() {
    let mut w = RightWidget::default();
    submit(&mut w, "É", SubmissionKind::Error);
    submit(&mut w, "CAFÉ", SubmissionKind::Error);
    let rows = w.history_rows(14, 16);
    assert_eq!(rows, vec![">Error", ">CAFÉ", ">Error", ">É"].iter().map(|s| s.to_string()).collect::<Vec<_>>());
}
