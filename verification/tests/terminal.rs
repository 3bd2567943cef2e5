use termpaper::refresh::{DirtyRect, TerminalColor};
use termpaper::terminal::{render_cell_or_blank, TerminalState, MAX_COLUMNS, MIN_COLUMNS, MIN_ROWS};

#[test]
fn parser_rewrites_existing_screen_content() {
    let mut terminal = TerminalState::new(2, 10);
    terminal.process_output(b"hello\rbye");
    assert!(terminal.contents().contains("byelo"));
}

#[test]
fn tracks_alternate_screen_mode() {
    let mut terminal = TerminalState::new(2, 10);
    terminal.process_output(b"\x1b[?1049h");
    assert!(terminal.snapshot().alternate_screen);
    terminal.process_output(b"\x1b[?1049l");
    assert!(!terminal.snapshot().alternate_screen);
}

#[test]
fn tracks_bracketed_paste_mode() {
    let mut terminal = TerminalState::new(2, 10);
    terminal.process_output(b"\x1b[?2004h");
    assert!(terminal.input_mode().bracketed_paste);
    terminal.process_output(b"\x1b[?2004l");
    assert!(!terminal.input_mode().bracketed_paste);
}

#[test]
fn tracks_cursor_visibility() {
    let mut terminal = TerminalState::new(2, 10);
    terminal.process_output(b"\x1b[?25l");
    assert!(!terminal.snapshot().cursor_visible);
    terminal.process_output(b"\x1b[?25h");
    assert!(terminal.snapshot().cursor_visible);
}

#[test]
fn tracks_text_attributes_and_colors() {
    let mut terminal = TerminalState::new(2, 10);
    terminal.process_output(b"\x1b[1;4;7;31;47mX");
    let snapshot = terminal.snapshot();
    let cell = &snapshot.cells[0];

    assert!(cell.bold);
    assert!(cell.underline);
    assert!(cell.inverse);
    assert_eq!(cell.foreground, TerminalColor::Indexed(1));
    assert_eq!(cell.background, TerminalColor::Indexed(7));
}

#[test]
fn clears_screen_content() {
    let mut terminal = TerminalState::new(2, 5);
    terminal.process_output(b"hello\x1b[2J\x1b[H");
    assert_eq!(terminal.contents().trim(), "");
}

#[test]
fn inserts_and_deletes_lines() {
    let mut terminal = TerminalState::new(4, 5);
    terminal.process_output(b"one\r\ntwo\r\nthree\x1b[2;1H\x1b[Lnew");
    assert!(terminal.contents().contains("new"));
    assert!(terminal.contents().contains("two"));

    terminal.process_output(b"\x1b[2;1H\x1b[M");
    assert!(!terminal.contents().contains("new"));
}

#[test]
fn scroll_region_limits_scrolling() {
    let mut terminal = TerminalState::new(4, 5);
    terminal.process_output(b"top\r\none\r\ntwo\r\nbot");
    terminal.process_output(b"\x1b[2;3r\x1b[3;1H\n");
    let contents = terminal.contents();

    assert!(contents.contains("top"));
    assert!(contents.contains("bot"));
}

#[test]
fn first_output_redraws_everything_then_only_changes() {
    let mut terminal = TerminalState::new(3, 6);
    assert_eq!(terminal.process_output(b"ab"), vec![DirtyRect::full(6, 3)]);
    assert_eq!(terminal.process_output(b"cd"), vec![DirtyRect { x: 2, y: 0, width: 2, height: 1 }]);
    assert!(terminal.process_output(b"").is_empty());
    terminal.resize(2, 4);
    assert_eq!(terminal.process_output(b"x"), vec![DirtyRect::full(4, 2)]);
}

#[test]
fn snapshot_has_a_full_grid_and_cursor() {
    let mut terminal = TerminalState::new(3, 7);
    terminal.process_output(b"hi\r\n\x1b[31mR");
    let snapshot = terminal.snapshot();
    assert_eq!((snapshot.rows, snapshot.columns), (3, 7));
    assert_eq!(snapshot.cells.len(), 21);
    assert_eq!(snapshot.cells[0].text, "h");
    assert_eq!(snapshot.cells[1].text, "i");
    assert_eq!(snapshot.cells[7].text, "R");
    assert_eq!(snapshot.cells[7].foreground, TerminalColor::Indexed(1));
    assert_eq!((snapshot.cursor_row, snapshot.cursor_column), (1, 1));
    assert!(snapshot.cursor_visible);
}

#[test]
fn application_cursor_mode_is_reported() {
    let mut terminal = TerminalState::new(2, 4);
    assert!(!terminal.input_mode().application_cursor);
    terminal.process_output(b"\x1b[?1h");
    assert!(terminal.input_mode().application_cursor);
}

#[test]
fn missing_cells_draw_blank() {
    let blank = render_cell_or_blank(None);
    assert_eq!(blank.text, " ");
    assert!(!blank.bold && !blank.underline && !blank.inverse);
    assert_eq!(blank.foreground, TerminalColor::Default);
    assert_eq!(blank.background, TerminalColor::Default);
}

#[test]
fn new_terminal_is_blank_with_cursor_home() {
    let terminal = TerminalState::new(3, 4);
    let snapshot = terminal.snapshot();
    assert_eq!((snapshot.rows, snapshot.columns), (3, 4));
    assert_eq!((snapshot.cursor_row, snapshot.cursor_column), (0, 0));
    assert!(snapshot.cursor_visible);
    assert!(!snapshot.alternate_screen);
    assert!(snapshot.cells.iter().all(|cell| cell.text.is_empty() && !cell.bold));
    assert!(!terminal.input_mode().application_cursor);
    assert!(!terminal.input_mode().bracketed_paste);
}

#[test]
fn resize_keeps_what_fits_and_clamps_cursor() {
    let mut terminal = TerminalState::new(3, 10);
    terminal.process_output(b"abc\r\ndef\r\nghi");
    terminal.resize(2, 2);
    let snapshot = terminal.snapshot();
    assert_eq!((snapshot.rows, snapshot.columns), (2, 2));
    let texts: Vec<&str> = snapshot.cells.iter().map(|c| c.text.as_str()).collect();
    assert_eq!(texts, vec!["a", "b", "d", "e"]);
    assert_eq!((snapshot.cursor_row, snapshot.cursor_column), (1, 1));
    terminal.resize(3, 3);
    let grown = terminal.snapshot();
    assert_eq!(grown.cells[2].text, "");
    assert_eq!(grown.cells[6].text, "");
}

#[test]
fn output_diffs_follow_successive_snapshots() {
    let mut terminal = TerminalState::new(2, 6);
    let first = terminal.process_output(b"hi");
    assert_eq!(first, vec![DirtyRect::full(6, 2)]);
    let before = terminal.snapshot();
    let second = terminal.process_output(b"\r\nyo");
    let after = terminal.snapshot();
    assert_eq!(second, before.diff(&after));
    assert!(!second.is_empty());
}

#[test]
fn narrowest_supported_screen_takes_wide_characters() {
    assert_eq!((MIN_ROWS, MIN_COLUMNS), (2, 2));
    let mut terminal = TerminalState::new(MIN_ROWS, MIN_COLUMNS);
    terminal.process_output("中中中".as_bytes());
    let snapshot = terminal.snapshot();
    assert_eq!(snapshot.cells[0].text, "中");
    assert_eq!(snapshot.cells[2].text, "中");
}

#[test]
fn widest_supported_screen_takes_a_tab_at_its_end() {
    assert_eq!(MAX_COLUMNS, 65527);
    let mut terminal = TerminalState::new(MIN_ROWS, MAX_COLUMNS);
    terminal.process_output(b"\x1b[1;65527Hx\t\t");
    let snapshot = terminal.snapshot();
    assert_eq!(snapshot.cells[65526].text, "x");
    assert_eq!(snapshot.cursor_column, 65526);
}
