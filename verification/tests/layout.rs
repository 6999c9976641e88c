use native_terminal::layout::{check_layout, lay_out, CellRect, SpanRange, TextLayout};
use native_terminal::terminal::{CharCols, ColoredSpan, CursorShape, GridContent};
use native_terminal::theme::TerminalTheme;

/// A span whose characters take two columns each, as long as there are columns.
fn span(text: &str, cols: usize) -> ColoredSpan {
    let mut left = cols - text.trim_end_matches('\n').chars().count().min(cols);
    let mut places: Vec<CharCols> = Vec::new();
    for _ in text.trim_end_matches('\n').chars() {
        let start = places.last().map_or(0, |place| place.end);
        let width = if left > 0 { 2 } else { 1 };
        left = left.saturating_sub(1);
        places.push(CharCols { start, end: start + width });
    }
    ColoredSpan {
        text: text.to_string(),
        r: 1,
        g: 2,
        b: 3,
        bg: None,
        bold: true,
        italic: false,
        underline: false,
        strikeout: false,
        cols,
        places,
    }
}

fn grid(spans: Vec<ColoredSpan>, row: usize, col: usize) -> GridContent {
    GridContent { spans, cursor_row: row, cursor_col: col, cursor_shape: CursorShape::Block }
}

fn slices(layout: &TextLayout) -> Vec<&str> {
    layout.runs.iter().map(|run| &layout.text[run.start..run.end]).collect()
}

fn color(run: &SpanRange) -> (u8, u8, u8) {
    (run.r, run.g, run.b)
}

fn cells(rect: &CellRect) -> (usize, usize, usize, (u8, u8, u8)) {
    (rect.row, rect.col_start, rect.col_count, rect.color)
}

#[test]
fn text_without_a_cursor() {
    let theme = TerminalTheme::default();
    let content = grid(vec![span("añ", 2), span("\n", 0), span("你", 2), span("\n", 0)], 0, 0);
    let layout = lay_out(&content, &theme, false);
    assert_eq!(layout.text, "añ\n你\n");
    assert_eq!(slices(&layout), ["añ", "\n", "你", "\n"]);
    assert_eq!(color(&layout.runs[0]), (1, 2, 3));
    assert!(layout.runs[0].bold && !layout.runs[0].italic);
    assert_eq!(color(&layout.runs[1]), theme.foreground);
    assert!(!layout.runs[1].bold);
}

#[test]
fn block_cursor_splits_a_span() {
    let theme = TerminalTheme::default();
    let content = grid(vec![span("añb", 3), span("\n", 0)], 0, 1);
    let layout = lay_out(&content, &theme, true);
    assert_eq!(layout.text, "añb\n");
    assert_eq!(slices(&layout), ["a", "ñ", "b", "\n"]);
    assert_eq!(color(&layout.runs[1]), theme.background);
    assert!(!layout.runs[1].bold);
    assert_eq!(color(&layout.runs[2]), (1, 2, 3));
    assert!(layout.runs[2].bold);
}

#[test]
fn block_cursor_at_the_ends_of_a_span() {
    let theme = TerminalTheme::default();
    let first = lay_out(&grid(vec![span("ab", 2)], 0, 0), &theme, true);
    assert_eq!(slices(&first), ["a", "b"]);
    assert_eq!(color(&first.runs[0]), theme.background);
    let last = lay_out(&grid(vec![span("ab", 2)], 0, 1), &theme, true);
    assert_eq!(slices(&last), ["a", "b"]);
    assert_eq!(color(&last.runs[1]), theme.background);
}

#[test]
fn block_cursor_on_either_half_of_a_wide_character() {
    let theme = TerminalTheme::default();
    for (col, under) in [(0, 0), (1, 0), (2, 1), (3, 1)] {
        let layout = lay_out(&grid(vec![span("你好", 4)], 0, col), &theme, true);
        assert_eq!(slices(&layout), ["你", "好"]);
        assert_eq!(color(&layout.runs[under]), theme.background);
        assert_eq!(color(&layout.runs[1 - under]), (1, 2, 3));
    }
}

#[test]
fn block_cursor_on_a_blank_behind_wide_characters() {
    let theme = TerminalTheme::default();
    let content = grid(vec![span("你好 ", 5), span("\n", 0)], 0, 4);
    assert!(check_layout(&content));
    let layout = lay_out(&content, &theme, true);
    assert_eq!(slices(&layout), ["你好", " ", "\n"]);
    assert_eq!(color(&layout.runs[0]), (1, 2, 3));
    assert_eq!(color(&layout.runs[1]), (22, 22, 22));
    assert_eq!(color(&layout.runs[2]), (191, 212, 225));
}

#[test]
fn block_cursor_on_a_column_without_a_character_is_a_space() {
    let theme = TerminalTheme::default();
    let mut first = span("ab", 2);
    first.cols = 3;
    let layout = lay_out(&grid(vec![first], 0, 2), &theme, true);
    assert_eq!(slices(&layout), ["ab", " "]);
    assert_eq!(color(&layout.runs[1]), theme.background);
    let mut gap = span("ab", 2);
    gap.cols = 3;
    gap.places[1] = CharCols { start: 2, end: 3 };
    let layout = lay_out(&grid(vec![gap], 0, 1), &theme, true);
    assert_eq!(slices(&layout), ["a", " ", "b"]);
    assert_eq!(color(&layout.runs[1]), theme.background);
}

#[test]
fn columns_that_cannot_be_counted_cannot_be_laid_out() {
    let content = grid(vec![span("a", usize::MAX), span("b", 1)], 9, 0);
    assert!(!check_layout(&content));
}

#[test]
fn other_cursor_shapes_leave_the_text() {
    let theme = TerminalTheme::default();
    for shape in [CursorShape::Underline, CursorShape::Beam, CursorShape::Hidden] {
        let mut content = grid(vec![span("abc", 3)], 0, 1);
        content.cursor_shape = shape;
        let layout = lay_out(&content, &theme, true);
        assert_eq!(slices(&layout), ["abc"]);
        assert_eq!(color(&layout.runs[0]), (1, 2, 3));
    }
}

#[test]
fn cursor_in_a_later_row_and_span() {
    let theme = TerminalTheme::default();
    let content = grid(vec![span("abc", 3), span("\n", 0), span("de", 2), span("fg", 2)], 1, 3);
    let layout = lay_out(&content, &theme, true);
    assert_eq!(slices(&layout), ["abc", "\n", "de", "f", "g"]);
    assert_eq!(color(&layout.runs[4]), theme.background);
}

#[test]
fn decorations_have_the_cells_of_their_spans() {
    let theme = TerminalTheme::default();
    let mut plain = span("ab", 2);
    plain.bold = false;
    let mut marked = span("你", 2);
    marked.bg = Some((9, 8, 7));
    marked.underline = true;
    let mut struck = span("c", 1);
    struck.strikeout = true;
    let mut line_break = span("\n", 0);
    line_break.underline = true;
    let mut second = span("d", 1);
    second.bg = Some((4, 4, 4));
    let content = grid(vec![plain, marked, struck, line_break, second], 5, 5);
    let layout = lay_out(&content, &theme, true);
    let all = |rects: &Vec<CellRect>| rects.iter().map(cells).collect::<Vec<_>>();
    assert_eq!(all(&layout.backgrounds), [(0, 2, 2, (9, 8, 7)), (1, 0, 1, (4, 4, 4))]);
    assert_eq!(all(&layout.underlines), [(0, 2, 2, (1, 2, 3))]);
    assert_eq!(all(&layout.strikeouts), [(0, 4, 1, (1, 2, 3))]);
}
