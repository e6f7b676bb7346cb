use neowright::screen::{normalize_line, normalize_text, parser_for, snapshot_text};
use neowright::session::SizeRecord;

#[test]
fn parses_escape_sequences_to_fixed_plain_text() {
    let size = SizeRecord { cols: 5, rows: 2 };
    let mut parser = parser_for(size);

    let update = parser.process_output(b"hello\x1b[2D!!");

    assert_eq!(snapshot_text(&parser, size), "hel!!\n     ");
    assert_eq!(update.screen, "hel!!\n     ");
}

#[test]
fn normalizes_text_to_exact_dimensions() {
    let size = SizeRecord { cols: 4, rows: 3 };

    assert_eq!(normalize_text("abcdef\nx", size), "abcd\nx   \n    ");
}

#[test]
fn normalizes_wide_text_to_terminal_cell_dimensions() {
    let size = SizeRecord { cols: 4, rows: 2 };

    assert_eq!(normalize_text("ab表c\n表表x", size), "ab表\n表表");
}

#[test]
fn wide_character_that_would_overflow_is_replaced_by_padding() {
    assert_eq!(normalize_line("abc表", 4), "abc ");
}

#[test]
fn crlf_endings_and_extra_lines_are_dropped() {
    let size = SizeRecord { cols: 2, rows: 2 };
    assert_eq!(normalize_text("a\r\nb\r\nc", size), "a \nb ");
}

#[test]
fn control_characters_take_no_cells() {
    assert_eq!(normalize_line("a\u{7}b", 3), "a\u{7}b ");
}

#[test]
fn zero_rows_give_empty_text() {
    assert_eq!(normalize_text("abc", SizeRecord { cols: 3, rows: 0 }), "");
}

#[test]
fn terminal_status_queries_are_answered() {
    let size = SizeRecord { cols: 4, rows: 1 };
    let mut parser = parser_for(size);
    let quiet = parser.process_output(b"ab");
    assert_eq!(quiet.reply, None);
    assert_eq!(quiet.size, size);
    assert_eq!(quiet.screen, "ab  ");
    let asked = parser.process_output(b"\x1b[5n");
    assert_eq!(asked.reply, Some(b"\x1b[0n".to_vec()));
    assert_eq!(asked.screen, "ab  ");
}

#[test]
fn resizing_the_screen_changes_the_snapshot_grid() {
    let mut parser = parser_for(SizeRecord { cols: 4, rows: 1 });
    let same = SizeRecord { cols: 4, rows: 1 };
    let bigger = SizeRecord { cols: 6, rows: 2 };
    assert_eq!(parser.pending_size(None), None);
    assert_eq!(parser.pending_size(Some(same)), None);
    assert_eq!(parser.pending_size(Some(bigger)), Some(bigger));
    parser.resize_screen(bigger);
    assert_eq!(parser.pending_size(Some(bigger)), None);
    let update = parser.process_output(b"hi");
    assert_eq!(update.size, bigger);
    assert_eq!(update.screen, "hi    \n      ");
}

#[test]
fn normalized_text_is_already_normalized() {
    let size = SizeRecord { cols: 4, rows: 3 };
    let once = normalize_text("abcdef\nx", size);
    assert_eq!(normalize_text(&once, size), once);
    let empty_cols = SizeRecord { cols: 0, rows: 2 };
    let blank = normalize_text("abc", empty_cols);
    assert_eq!(blank, "\n");
    assert_eq!(normalize_text(&blank, empty_cols), blank);
}
