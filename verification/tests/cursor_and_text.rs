use terminal_hacking::cursor::{CursorPosition, CHARACTERS_TOTAL};
use terminal_hacking::text::{decimal, line_count, parse_decimal};

#[test]
fn from_index_splits_into_block_row_column() {
    assert_eq!(CursorPosition::from_index(0), CursorPosition { block: 0, row: 0, column: 0 });
    assert_eq!(CursorPosition::from_index(13), CursorPosition { block: 0, row: 1, column: 1 });
    assert_eq!(CursorPosition::from_index(203), CursorPosition { block: 0, row: 16, column: 11 });
    assert_eq!(CursorPosition::from_index(204), CursorPosition { block: 1, row: 0, column: 0 });
    assert_eq!(CursorPosition::from_index(407), CursorPosition { block: 1, row: 16, column: 11 });
}

#[test]
fn index_round_trip_over_the_whole_grid() {
    for i in 0..CHARACTERS_TOTAL {
        let pos = CursorPosition::from_index(i);
        assert_eq!(pos.index(), i);
        assert_eq!(pos.row_index(), i / 12);
    }
}

#[test]
fn next_row_moves_down_and_into_the_next_block() {
    let p = CursorPosition { block: 0, row: 3, column: 7 };
    assert_eq!(p.next_row(), CursorPosition { block: 0, row: 4, column: 0 });
    let last = CursorPosition { block: 0, row: 16, column: 5 };
    assert_eq!(last.next_row(), CursorPosition { block: 1, row: 0, column: 0 });
}

#[test]
fn decimal_writes_numbers() {
    assert_eq!(decimal(0), "0");
    assert_eq!(decimal(7), "7");
    assert_eq!(decimal(10), "10");
    assert_eq!(decimal(1234), "1234");
    assert_eq!(decimal(usize::MAX), usize::MAX.to_string());
}

#[test]
fn parse_decimal_accepts_what_std_accepts() {
    for s in ["15", "+7", "0", "007", "", "+", "-1", "1a", " 1", "18446744073709551615", "18446744073709551616"] {
        assert_eq!(parse_decimal(s), s.parse::<usize>().ok(), "{:?}", s);
    }
    assert_eq!(parse_decimal("20"), Some(20));
    assert_eq!(parse_decimal("x"), None);
}

#[test]
fn decimal_then_parse_gives_the_number_back() {
    for n in [0usize, 1, 5, 9, 10, 20, 99, 100, 65535, 123456789, usize::MAX] {
        assert_eq!(parse_decimal(&decimal(n)), Some(n));
    }
}

#[test]
fn line_count_counts_like_std_lines() {
    for s in ["", "a", "a\n", "a\nb", "\n", "\n\n", "a\r\nb\r\n", "Welcome\nFallout 4 Hacking Minigame", "x\n\ny"] {
        assert_eq!(line_count(s), s.lines().count(), "{:?}", s);
    }
    assert_eq!(line_count("one\ntwo\nthree"), 3);
}
