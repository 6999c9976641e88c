use alacritty_terminal::event::VoidListener;
use alacritty_terminal::term::Term;
use alacritty_terminal::vte::ansi::Processor;
use native_terminal::frame::{cursor_visible, Frame, PixelMetrics};
use native_terminal::surface::{grid_count, preferred_format, ResizeOutcome};
use native_terminal::terminal::{CursorShape, PtyMessage};
use native_terminal::theme::TerminalTheme;
use native_terminal::TerminalSurface;

const METRICS: PixelMetrics = PixelMetrics { padding: 8, thin_bar: 2, line_thickness: 1 };

fn surface(output: &[u8]) -> (TerminalSurface, Term<VoidListener>) {
    let (surface, mut term, _) = TerminalSurface::new(200, 100, 9, 19, None, true);
    let mut parser: Processor = Processor::new();
    parser.advance(&mut term, output);
    (surface, term)
}

fn rects(batches: &[native_terminal::cursor::RectBatch]) -> Vec<(u32, u32, u32, u32, (u8, u8, u8))> {
    let mut all: Vec<_> = batches
        .iter()
        .flat_map(|batch| batch.rects.iter())
        .map(|r| (r.x, r.y, r.width, r.height, r.color))
        .collect();
    all.sort();
    all
}

fn draw(output: &[u8], elapsed_ms: u64) -> (TerminalSurface, Frame) {
    let (mut surface, term) = surface(output);
    let frame = surface.try_render(&term, elapsed_ms, METRICS).unwrap();
    (surface, frame)
}

fn bytes(message: &PtyMessage) -> &[u8] {
    match message {
        PtyMessage::Input(bytes) => bytes,
        _ => panic!("no input"),
    }
}

#[test]
fn grid_of_a_new_surface() {
    let (surface, _, config) = TerminalSurface::new(200, 100, 9, 19, None, true);
    assert_eq!((surface.backend.cols(), surface.backend.rows()), (22, 5));
    assert_eq!((config.window_size.num_cols, config.window_size.num_lines), (22, 5));
    assert_eq!((config.window_size.cell_width, config.window_size.cell_height), (9, 19));
    assert_eq!(surface.font_family, "JetBrains Mono");
    assert_eq!(surface.theme.foreground, (191, 212, 225));
    assert!(surface.cursor_pos.is_none());
}

#[test]
fn surface_has_a_pixel_and_a_cell_at_least() {
    let (surface, _, _) = TerminalSurface::new(0, 0, 9, 19, None, true);
    assert_eq!((surface.width, surface.height), (1, 1));
    assert_eq!((surface.backend.cols(), surface.backend.rows()), (1, 1));
}

#[test]
fn grid_counts() {
    assert_eq!(grid_count(805, 9), 89);
    assert_eq!(grid_count(8, 9), 1);
    assert_eq!(grid_count(70000, 1), 4464);
}

#[test]
fn formats() {
    assert_eq!(preferred_format(&vec![false, true, true]), 1);
    assert_eq!(preferred_format(&vec![false, false]), 0);
}

#[test]
fn resize_without_extent_is_ignored() {
    let (mut surface, _) = surface(b"");
    let ignored = |outcome| matches!(outcome, ResizeOutcome::Ignored);
    assert!(ignored(surface.resize(0, 50, 0, 100, None)));
    assert!(ignored(surface.resize(50, 0, 100, 0, Some((5, 5)))));
    assert_eq!((surface.width, surface.height), (200, 100));
    assert_eq!((surface.cell_width, surface.cell_height), (9, 19));
}

#[test]
fn resize_updates_surface_and_grid() {
    let (mut surface, _) = surface(b"");
    match surface.resize(200, 100, 400, 200, Some((17, 37))) {
        ResizeOutcome::Applied(Some(PtyMessage::Resize(size))) => {
            assert_eq!((size.num_cols, size.num_lines), (23, 5));
            assert_eq!((size.cell_width, size.cell_height), (17, 37));
        }
        _ => panic!("no size"),
    }
    assert_eq!((surface.width, surface.height), (400, 200));
    assert_eq!((surface.cell_width, surface.cell_height), (17, 37));
    assert!(matches!(
        surface.resize(200, 100, 400, 200, None),
        ResizeOutcome::Applied(None)
    ));
}

#[test]
fn font_updates_the_grid() {
    let (mut surface, _) = surface(b"");
    match surface.set_font("Menlo".to_string(), 10, 20) {
        Some(PtyMessage::Resize(size)) => {
            assert_eq!((size.num_cols, size.num_lines), (20, 5));
        }
        _ => panic!("no size"),
    }
    assert_eq!(surface.font_family, "Menlo");
    assert!(surface.set_font("Menlo".to_string(), 10, 20).is_none());
}

#[test]
fn theme_is_taken_on() {
    let (mut surface, term) = surface(b"a");
    let mut theme = TerminalTheme::default();
    theme.foreground = (7, 7, 7);
    surface.set_theme(theme);
    let frame = surface.try_render(&term, 500, METRICS).unwrap();
    assert_eq!((frame.runs[0].r, frame.runs[0].g, frame.runs[0].b), (7, 7, 7));
}

#[test]
fn input_goes_to_the_shell() {
    let (surface, _) = surface(b"");
    assert_eq!(bytes(&surface.write_to_pty(b"ls\r")), b"ls\r");
}

#[test]
fn paste_is_plain_by_default() {
    let (surface, term) = surface(b"");
    let messages = surface.paste_to_pty(&term, "añ\n");
    assert_eq!(messages.len(), 1);
    assert_eq!(bytes(&messages[0]), "añ\n".as_bytes());
}

#[test]
fn paste_is_bracketed_where_asked_for() {
    let (surface, term) = surface(b"\x1b[?2004h");
    let messages = surface.paste_to_pty(&term, "ls");
    let writes: Vec<&[u8]> = messages.iter().map(bytes).collect();
    assert_eq!(writes, [b"\x1b[200~".as_slice(), b"ls".as_slice(), b"\x1b[201~".as_slice()]);
    assert_eq!(surface.paste_messages("ls", true).len(), 3);
    assert_eq!(surface.paste_messages("ls", false).len(), 1);
}

#[test]
fn cursor_blinks() {
    let on = |ms| cursor_visible(CursorShape::Beam, ms);
    assert!(on(0) && on(499) && !on(500) && !on(999) && on(1000));
    assert!(!cursor_visible(CursorShape::Hidden, 0));
}

#[test]
fn block_cursor_is_drawn_and_inverts() {
    let (surface, frame) = draw(b"ab\x1b[1;2H", 0);
    assert_eq!(frame.text, "ab\n\n\n\n\n");
    let theme = TerminalTheme::default();
    assert_eq!(rects(&frame.under), [(17, 8, 9, 19, theme.cursor)]);
    assert!(frame.over.is_empty());
    let run = frame.runs[1];
    assert_eq!(&frame.text[run.start..run.end], "b");
    assert_eq!((run.r, run.g, run.b), theme.background);
    assert!(surface.cursor_pos == Some((0, 1, CursorShape::Block)));
}

#[test]
fn cursor_that_is_off_is_not_drawn() {
    let (surface, frame) = draw(b"ab\x1b[1;2H", 500);
    assert!(frame.under.is_empty());
    assert!(surface.cursor_pos.is_none());
    let run = frame.runs[0];
    assert_eq!(&frame.text[run.start..run.end], "ab");
}

#[test]
fn blinking_keeps_the_hash() {
    let (_, on) = draw(b"ab", 0);
    let (_, off) = draw(b"ab", 500);
    let (_, other) = draw(b"abc", 0);
    assert_eq!(on.content_hash, off.content_hash);
    assert_ne!(on.content_hash, other.content_hash);
}

#[test]
fn beam_and_underline_cursors() {
    let cursor = TerminalTheme::default().cursor;
    let (_, beam) = draw(b"\x1b[6 q\x1b[2;3H", 0);
    assert_eq!(rects(&beam.under), [(26, 27, 2, 19, cursor)]);
    let (_, underline) = draw(b"\x1b[4 q\x1b[2;3H", 0);
    assert_eq!(rects(&underline.under), [(26, 44, 9, 2, cursor)]);
}

#[test]
fn backgrounds_and_lines() {
    let (_, frame) = draw(b"a\x1b[44mbc\x1b[0m\r\n\x1b[4;31mde\x1b[0m\x1b[9mf\x1b[0m", 500);
    let theme = TerminalTheme::default();
    assert_eq!(rects(&frame.under), [(17, 8, 18, 19, theme.ansi[4])]);
    assert_eq!(
        rects(&frame.over),
        [(8, 27 + 17, 18, 1, theme.ansi[1]), (26, 27 + 9, 9, 1, theme.foreground)]
    );
}

#[test]
fn same_colors_share_a_batch() {
    let (_, frame) = draw(b"\x1b[44ma\x1b[41mb\x1b[44mc\x1b[0m", 500);
    assert_eq!(frame.under.len(), 2);
    assert_eq!(frame.under.iter().map(|b| b.rects.len()).sum::<usize>(), 3);
}

#[test]
fn render_is_try_render() {
    let (mut surface, term) = surface(b"hello");
    let tried = surface.try_render(&term, 0, METRICS).unwrap();
    let frame = surface.render(&term, 0, METRICS);
    assert_eq!(frame.text, tried.text);
    assert_eq!(frame.content_hash, tried.content_hash);
}

#[test]
fn pixels_that_cannot_be_counted_are_not_drawn() {
    let (mut surface, term) = surface(b"\x1b[2;2Ha");
    let far = PixelMetrics { padding: u32::MAX - 10, thin_bar: 2, line_thickness: 1 };
    assert!(surface.try_render(&term, 0, far).is_none());
    assert!(surface.cursor_pos.is_none());
    assert!(surface.try_render(&term, 500, far).is_some());
}

#[test]
fn cursor_behind_wide_characters_inverts_its_own() {
    let (mut surface, term) = surface("你好x\x1b[1;5H".as_bytes());
    let frame = surface.try_render(&term, 0, METRICS).unwrap();
    let inverted: Vec<&str> = frame
        .runs
        .iter()
        .filter(|run| (run.r, run.g, run.b) == surface.theme.background)
        .map(|run| &frame.text[run.start..run.end])
        .collect();
    assert_eq!(inverted, ["x"]);
    assert_eq!(frame.text, "你好x\n\n\n\n\n");
    assert_eq!(rects(&frame.under), [(44, 8, 9, 19, surface.theme.cursor)]);
    assert!(surface.try_render(&term, 500, METRICS).is_some());
}

#[test]
fn wide_character_at_the_end_of_a_row_is_decorated_in_full() {
    let (_, frame) = draw("\x1b[44;4m你\x1b[0m\x1b[2;1H".as_bytes(), 500);
    let theme = TerminalTheme::default();
    assert_eq!(rects(&frame.under), [(8, 8, 18, 19, theme.ansi[4])]);
    assert_eq!(rects(&frame.over), [(8, 25, 18, 1, theme.foreground)]);
}

#[test]
fn wide_characters_are_drawn_with_other_cursors() {
    let (mut surface, term) = surface("你好x\x1b[6 q\x1b[1;5H".as_bytes());
    let frame = surface.try_render(&term, 0, METRICS).unwrap();
    assert_eq!(frame.text, "你好x\n\n\n\n\n");
    assert_eq!(rects(&frame.under), [(44, 8, 2, 19, surface.theme.cursor)]);
}

#[test]
fn block_cursor_at_the_start_of_wide_characters_is_drawn() {
    let (mut surface, term) = surface("你好\x1b[1;1H".as_bytes());
    let frame = surface.try_render(&term, 0, METRICS).unwrap();
    let run = frame.runs[0];
    assert_eq!(&frame.text[run.start..run.end], "你");
    assert_eq!((run.r, run.g, run.b), surface.theme.background);
}

#[test]
fn grid_fills_the_surface_whatever_the_look() {
    let (mut surface, _) = surface(b"");
    let mut theme = TerminalTheme::default();
    theme.foreground = (7, 7, 7);
    surface.set_theme(theme);
    surface.resize(300, 150, 805, 399, None);
    assert_eq!((surface.backend.cols(), surface.backend.rows()), (89, 21));
    surface.resize(300, 150, 805, 399, Some((10, 400)));
    assert_eq!((surface.backend.cols(), surface.backend.rows()), (80, 1));
    assert_eq!(surface.theme.foreground, (7, 7, 7));
    assert_eq!(surface.font_family, "JetBrains Mono");
}
