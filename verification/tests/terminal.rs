use alacritty_terminal::event::VoidListener;
use alacritty_terminal::grid::Scroll;
use alacritty_terminal::term::Term;
use alacritty_terminal::vte::ansi::Processor;
use native_terminal::color::AnsiColor;
use native_terminal::emulator::{has_cursor_in_grid, is_readable, snapshot, CursorStyle};
use native_terminal::terminal::{
    ColoredSpan, CursorShape, GridContent, GridResize, PtyMessage, TerminalBackend,
};
use native_terminal::theme::TerminalTheme;

fn terminal(cols: u16, rows: u16, output: &[u8]) -> (TerminalBackend, Term<VoidListener>) {
    let (backend, mut term, _) = TerminalBackend::new(cols, rows, 9, 19, None, true);
    feed(&mut term, output);
    (backend, term)
}

fn feed(term: &mut Term<VoidListener>, output: &[u8]) {
    let mut parser: Processor = Processor::new();
    parser.advance(term, output);
}

fn content(cols: u16, rows: u16, output: &[u8]) -> GridContent {
    let (backend, term) = terminal(cols, rows, output);
    assert!(is_readable(&term));
    backend.grid_content(&term, &TerminalTheme::default())
}

fn texts(content: &GridContent) -> Vec<&str> {
    content.spans.iter().map(|span| span.text.as_str()).collect()
}

fn fg(span: &ColoredSpan) -> (u8, u8, u8) {
    (span.r, span.g, span.b)
}

#[test]
fn new_terminal_shows_its_cursor_cell_only() {
    let content = content(10, 3, b"");
    assert_eq!(texts(&content), [" ", "\n", "\n", "\n"]);
    assert_eq!(content.spans[0].cols, 1);
    assert_eq!(content.spans[1].cols, 0);
    assert_eq!((content.cursor_row, content.cursor_col), (0, 0));
    assert!(content.cursor_shape == CursorShape::Block);
}

#[test]
fn new_emulator_is_empty() {
    let (_, term) = terminal(4, 2, b"");
    let shown = snapshot(&term);
    assert_eq!((shown.columns, shown.lines), (4, 2));
    assert_eq!(shown.cells.len(), 8);
    for (i, cell) in shown.cells.iter().enumerate() {
        assert_eq!((cell.row, cell.col), (i / 4, i % 4));
        assert_eq!((cell.c, cell.flags), (' ', 0));
        assert!(matches!(cell.fg, AnsiColor::Named(256)));
        assert!(matches!(cell.bg, AnsiColor::Named(257)));
    }
    assert_eq!(shown.palette, vec![None; 256]);
    assert_eq!((shown.cursor_row, shown.cursor_col), (0, 0));
    assert!(matches!(shown.cursor_style, CursorStyle::Block));
}

#[test]
fn text_is_split_by_color() {
    let content = content(20, 2, b"ab\x1b[31mcd\x1b[0m e\r\n");
    let theme = TerminalTheme::default();
    assert_eq!(texts(&content), ["ab", "cd", " e", "\n", " ", "\n"]);
    assert_eq!(fg(&content.spans[0]), theme.foreground);
    assert_eq!(fg(&content.spans[1]), theme.ansi[1]);
    assert_eq!(fg(&content.spans[2]), theme.foreground);
    assert_eq!(content.spans[1].bg, None);
    assert_eq!(content.spans[1].cols, 2);
    assert_eq!((content.cursor_row, content.cursor_col), (1, 0));
}

#[test]
fn trailing_blanks_are_left_out() {
    let content = content(20, 2, b"a   \x1b[2;1H");
    assert_eq!(texts(&content), ["a", "\n", " ", "\n"]);
}

#[test]
fn row_reaches_up_to_the_cursor() {
    let content = content(20, 1, b"a\x1b[1;6H");
    assert_eq!(texts(&content), ["a     ", "\n"]);
    assert_eq!(content.spans[0].cols, 6);
    assert_eq!(content.cursor_col, 5);
}

#[test]
fn trailing_blanks_with_a_background_are_kept() {
    let content = content(20, 2, b"a\x1b[44m  \x1b[0m\x1b[2;1H");
    assert_eq!(texts(&content), ["a", "  ", "\n", " ", "\n"]);
    assert_eq!(content.spans[1].bg, Some((99, 176, 198)));
}

#[test]
fn styles_are_reported() {
    let content = content(20, 1, b"\x1b[1ma\x1b[0;3mb\x1b[0;4mc\x1b[0;9md\x1b[0;4:3me");
    let spans = &content.spans;
    assert_eq!(texts(&content), ["a", "b", "c", "d", "e", " ", "\n"]);
    let style = |s: &ColoredSpan| (s.bold, s.italic, s.underline, s.strikeout);
    assert_eq!(style(&spans[0]), (true, false, false, false));
    assert_eq!(style(&spans[1]), (false, true, false, false));
    assert_eq!(style(&spans[2]), (false, false, true, false));
    assert_eq!(style(&spans[3]), (false, false, false, true));
    assert_eq!(style(&spans[4]), (false, false, true, false));
    assert_eq!(style(&spans[5]), (false, false, false, false));
}

#[test]
fn inverse_video_swaps_and_shows_the_default_colors() {
    let content = content(20, 1, b"\x1b[7ma\x1b[0m");
    let theme = TerminalTheme::default();
    assert_eq!(fg(&content.spans[0]), theme.background);
    assert_eq!(content.spans[0].bg, Some(theme.foreground));
}

#[test]
fn inverse_video_shows_a_background_like_the_themes() {
    let content = content(20, 1, b"\x1b[7;38;2;22;22;22ma\x1b[0m");
    assert_eq!(content.spans[0].bg, Some((22, 22, 22)));
}

#[test]
fn background_like_the_themes_is_transparent() {
    let content = content(20, 1, b"\x1b[48;2;22;22;22ma\x1b[0m");
    assert_eq!(content.spans[0].bg, None);
}

#[test]
fn dim_text_is_darker() {
    let content = content(20, 1, b"\x1b[2;38;2;255;90;3ma\x1b[0m");
    assert_eq!(fg(&content.spans[0]), (170, 60, 2));
}

#[test]
fn dim_applies_after_inverse() {
    let content = content(20, 1, b"\x1b[2;7;38;2;255;90;3;48;2;30;60;90ma\x1b[0m");
    assert_eq!(fg(&content.spans[0]), (20, 40, 60));
    assert_eq!(content.spans[0].bg, Some((255, 90, 3)));
}

#[test]
fn concealed_text_is_blank() {
    let content = content(20, 1, b"\x1b[8;44mab\x1b[0m");
    assert_eq!(content.spans[0].text, "  ");
    assert_eq!(content.spans[0].bg, Some((99, 176, 198)));
}

#[test]
fn wide_characters_take_two_columns() {
    let content = content(20, 1, "a你好b".as_bytes());
    assert_eq!(texts(&content), ["a你好b ", "\n"]);
    assert_eq!(content.spans[0].cols, 7);
}

#[test]
fn wide_character_that_does_not_fit_leaves_a_spacer() {
    let content = content(3, 2, "ab你".as_bytes());
    assert_eq!(texts(&content), ["ab", "\n", "你 ", "\n"]);
    assert_eq!(content.spans[0].cols, 2);
    assert_eq!(content.spans[2].cols, 3);
}

#[test]
fn cursor_on_a_wide_character_is_on_its_first_half() {
    let content = content(20, 1, "你\x1b[1;2H".as_bytes());
    assert_eq!(content.cursor_col, 0);
}

#[test]
fn stray_second_half_in_the_first_column_cannot_be_read() {
    let (backend, term) = terminal(20, 1, "你\x1b[1;1H\x1b[1P".as_bytes());
    assert!(has_cursor_in_grid(&term));
    assert!(!is_readable(&term));
    assert!(backend.try_grid_content(&term, &TerminalTheme::default()).is_none());
}

#[test]
fn program_can_set_the_palette() {
    let content = content(20, 1, b"\x1b]4;100;#0a0b0c\x07\x1b[38;5;100ma\x1b[0m");
    assert_eq!(fg(&content.spans[0]), (10, 11, 12));
}

#[test]
fn indexed_and_direct_colors() {
    let content = content(20, 1, b"\x1b[38;5;196ma\x1b[38;5;232mb\x1b[38;2;1;2;3mc\x1b[91md");
    assert_eq!(fg(&content.spans[0]), (255, 0, 0));
    assert_eq!(fg(&content.spans[1]), (8, 8, 8));
    assert_eq!(fg(&content.spans[2]), (1, 2, 3));
    assert_eq!(fg(&content.spans[3]), (255, 173, 173));
}

#[test]
fn cursor_shapes() {
    assert!(content(5, 1, b"\x1b[2 q").cursor_shape == CursorShape::Block);
    assert!(content(5, 1, b"\x1b[4 q").cursor_shape == CursorShape::Underline);
    assert!(content(5, 1, b"\x1b[6 q").cursor_shape == CursorShape::Beam);
    assert!(content(5, 1, b"\x1b[?25l").cursor_shape == CursorShape::Hidden);
}

#[test]
fn scrolled_back_lines_are_not_shown() {
    let (backend, mut term) = terminal(5, 2, b"a\r\nb\r\nc\r\nd");
    term.scroll_display(Scroll::Delta(1));
    let content = backend.grid_content(&term, &TerminalTheme::default());
    assert_eq!(texts(&content), ["c", "\n", "  ", "\n"]);
}

#[test]
fn try_grid_content_is_grid_content() {
    let (backend, term) = terminal(5, 2, b"hi");
    let theme = TerminalTheme::default();
    let tried = backend.try_grid_content(&term, &theme).unwrap();
    assert_eq!(texts(&tried), texts(&backend.grid_content(&term, &theme)));
}

#[test]
fn vi_mode_cannot_be_read() {
    let (_, mut term) = terminal(5, 2, b"");
    term.toggle_vi_mode();
    assert!(!is_readable(&term));
}

#[test]
fn bracketed_paste_follows_the_program() {
    let (backend, mut term) = terminal(5, 2, b"");
    assert!(!backend.bracketed_paste_enabled(&term));
    feed(&mut term, b"\x1b[?2004h");
    assert!(backend.bracketed_paste_enabled(&term));
    feed(&mut term, b"\x1b[?2004l");
    assert!(!backend.bracketed_paste_enabled(&term));
}

#[test]
fn resize_tells_the_shell_once() {
    let (mut backend, _) = terminal(80, 24, b"");
    assert_eq!((backend.cols(), backend.rows()), (80, 24));
    assert!(backend.resize(80, 24, 10, 20).is_none());
    match backend.resize(100, 30, 10, 20) {
        Some(PtyMessage::Resize(size)) => {
            assert_eq!((size.num_cols, size.num_lines), (100, 30));
            assert_eq!((size.cell_width, size.cell_height), (10, 20));
        }
        _ => panic!("no size"),
    }
    assert_eq!((backend.cols(), backend.rows()), (100, 30));
    assert!(backend.resize(100, 30, 11, 21).is_none());
}

#[test]
fn grid_takes_the_size_of_the_backend() {
    let (mut backend, mut term) = terminal(10, 2, b"\x1b[?2004habc");
    backend.resize(5, 4, 10, 20);
    assert!(matches!(backend.resize_grid(&mut term), GridResize::Done));
    let shown = snapshot(&term);
    assert_eq!((shown.columns, shown.lines), (5, 4));
    assert!(backend.bracketed_paste_enabled(&term));
    assert_eq!(texts(&backend.grid_content(&term, &TerminalTheme::default()))[0], "abc ");
}

#[test]
fn grid_takes_a_single_column() {
    let (mut backend, mut term) = terminal(80, 24, b"");
    backend.resize(1, 24, 10, 20);
    assert!(matches!(backend.resize_grid(&mut term), GridResize::Done));
    assert_eq!((snapshot(&term).columns, snapshot(&term).lines), (1, 24));

    let (mut backend, mut term) = terminal(10, 4, b"abc");
    backend.resize(1, 4, 10, 20);
    assert!(matches!(backend.resize_grid(&mut term), GridResize::Done));
    let content = backend.grid_content(&term, &TerminalTheme::default());
    assert_eq!(texts(&content)[0], "c");
    assert_eq!(snapshot(&term).columns, 1);
    backend.resize(1, 2, 10, 20);
    assert!(matches!(backend.resize_grid(&mut term), GridResize::Done));
    backend.resize(9, 2, 10, 20);
    assert!(matches!(backend.resize_grid(&mut term), GridResize::Done));
    assert_eq!(snapshot(&term).columns, 9);
}

#[test]
fn wide_characters_do_not_go_into_a_single_column() {
    for output in ["你", "你\r\n\r\n\r\n\r\n\r\n"] {
        let (mut backend, mut term) = terminal(10, 2, output.as_bytes());
        backend.resize(1, 2, 10, 20);
        assert!(matches!(backend.resize_grid(&mut term), GridResize::Refused));
        assert_eq!(snapshot(&term).columns, 10);
    }
}

#[test]
fn grid_without_a_cell_is_refused() {
    let (mut backend, mut term) = terminal(10, 2, b"");
    backend.resize(10, 0, 10, 20);
    assert!(matches!(backend.resize_grid(&mut term), GridResize::Refused));
    backend.resize(0, 2, 10, 20);
    assert!(matches!(backend.resize_grid(&mut term), GridResize::Refused));
    assert_eq!((snapshot(&term).columns, snapshot(&term).lines), (10, 2));
}

#[test]
fn alternate_screen_hides_what_goes_into_a_single_column() {
    let (mut backend, mut term) = terminal(10, 2, "你\x1b[?1049h".as_bytes());
    backend.resize(1, 2, 10, 20);
    assert!(matches!(backend.resize_grid(&mut term), GridResize::Hidden));
    assert_eq!(snapshot(&term).columns, 10);
    backend.resize(2, 2, 10, 20);
    assert!(matches!(backend.resize_grid(&mut term), GridResize::Done));
    assert_eq!(snapshot(&term).columns, 2);
}

#[test]
fn terminal_without_lines_cannot_be_read() {
    let (backend, term, config) = TerminalBackend::new(80, 0, 9, 19, None, true);
    assert!(!has_cursor_in_grid(&term));
    assert!(backend.try_grid_content(&term, &TerminalTheme::default()).is_none());
    assert_eq!((config.window_size.num_cols, config.window_size.num_lines), (80, 0));
}

#[test]
fn wide_character_at_the_end_of_a_row_keeps_its_second_column() {
    let content = content(4, 2, "你\x1b[2;1H".as_bytes());
    assert_eq!(texts(&content), ["你", "\n", " ", "\n"]);
    assert_eq!(content.spans[0].cols, 2);
    let under_cursor = self::content(4, 2, "你\x1b[1;1H".as_bytes());
    assert_eq!(under_cursor.spans[0].cols, 2);
    assert_eq!(under_cursor.cursor_col, 0);
}

#[test]
fn characters_know_their_columns() {
    let content = content(20, 2, "a你\x1b[31m好b\x1b[0m\x1b[2;1H".as_bytes());
    let places = |span: &ColoredSpan| -> Vec<(usize, usize)> {
        span.places.iter().map(|place| (place.start, place.end)).collect()
    };
    assert_eq!(places(&content.spans[0]), [(0, 1), (1, 3)]);
    assert_eq!(places(&content.spans[1]), [(0, 2), (2, 3)]);
    assert_eq!((content.spans[0].cols, content.spans[1].cols), (3, 3));
}

#[test]
fn input_is_handed_on() {
    let (backend, _) = terminal(10, 2, b"");
    match backend.write(b"ls\r\x00\xff") {
        PtyMessage::Input(bytes) => assert_eq!(bytes, b"ls\r\x00\xff"),
        _ => panic!("no input"),
    }
    assert!(matches!(backend.shutdown(), PtyMessage::Shutdown));
}

#[test]
fn shell_and_environment() {
    let pair = |a: &str, b: &str| (a.to_string(), b.to_string());
    let (_, _, config) = TerminalBackend::new(80, 24, 9, 19, None, false);
    assert_eq!(config.shell, "/bin/zsh");
    assert_eq!(
        config.env,
        vec![
            pair("TERM", "xterm-256color"),
            pair("COLORTERM", "truecolor"),
            pair("LANG", "en_US.UTF-8"),
        ]
    );
    assert!(!config.drain_on_exit);
    let size = config.window_size;
    assert_eq!((size.num_cols, size.num_lines), (80, 24));
    assert_eq!((size.cell_width, size.cell_height), (9, 19));

    let own = Some("/bin/fish".to_string());
    let (_, _, config) = TerminalBackend::new(80, 24, 9, 19, own, true);
    assert_eq!(config.shell, "/bin/fish");
    assert_eq!(
        config.env,
        vec![pair("TERM", "xterm-256color"), pair("COLORTERM", "truecolor")]
    );
}

#[test]
fn resizing_to_the_same_size_changes_nothing() {
    let (backend, mut term) = terminal(10, 2, b"abc\x1b[31md");
    let theme = TerminalTheme::default();
    let before = backend.grid_content(&term, &theme);
    assert!(matches!(backend.resize_grid(&mut term), GridResize::Done));
    let after = backend.grid_content(&term, &theme);
    assert_eq!(texts(&after), texts(&before));
    assert_eq!(fg(&after.spans[1]), theme.ansi[1]);
    assert_eq!((after.cursor_row, after.cursor_col), (0, 4));
}

#[test]
fn display_behind_the_scrollback_cannot_be_read() {
    let (backend, mut term) = terminal(10, 5, b"1\r\n2\r\n3\r\n4\r\n5\r\n6");
    term.scroll_display(Scroll::Delta(1));
    assert!(is_readable(&term));
    feed(&mut term, b"\x1b[2;5r\x1b[5;1H\n");
    assert!(!is_readable(&term));
    assert!(backend.try_grid_content(&term, &TerminalTheme::default()).is_none());
    term.scroll_display(Scroll::Bottom);
    assert!(is_readable(&term));
}

#[test]
fn grid_behind_the_alternate_screen_takes_a_single_column() {
    let (mut backend, mut term) = terminal(10, 2, b"ab\x1b[?1049h");
    backend.resize(1, 2, 10, 20);
    assert!(matches!(backend.resize_grid(&mut term), GridResize::Hidden));
    backend.apply_size(&mut term);
    assert_eq!((snapshot(&term).columns, snapshot(&term).lines), (1, 2));
    feed(&mut term, b"\x1b[?1049l");
    assert_eq!((snapshot(&term).columns, snapshot(&term).lines), (1, 2));
}
