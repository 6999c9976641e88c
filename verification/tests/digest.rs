use native_terminal::digest::content_hash;
use native_terminal::terminal::{CharCols, ColoredSpan, CursorShape, GridContent};
use std::collections::hash_map::DefaultHasher;
use std::hash::{Hash, Hasher};

fn span(text: &str, bg: Option<(u8, u8, u8)>) -> ColoredSpan {
    ColoredSpan {
        text: text.to_string(),
        r: 1,
        g: 2,
        b: 3,
        bg,
        bold: true,
        italic: false,
        underline: true,
        strikeout: false,
        cols: 4,
        places: Vec::new(),
    }
}

fn content() -> GridContent {
    GridContent {
        spans: vec![span("añ", None), span("b", Some((4, 5, 6))), span("\n", None)],
        cursor_row: 3,
        cursor_col: 70000,
        cursor_shape: CursorShape::Block,
    }
}

#[test]
fn hash_is_that_of_the_values() {
    let content = content();
    let mut hasher = DefaultHasher::new();
    for span in &content.spans {
        span.text.hash(&mut hasher);
        span.r.hash(&mut hasher);
        span.g.hash(&mut hasher);
        span.b.hash(&mut hasher);
        span.bg.hash(&mut hasher);
        span.bold.hash(&mut hasher);
        span.italic.hash(&mut hasher);
        span.underline.hash(&mut hasher);
        span.strikeout.hash(&mut hasher);
    }
    content.cursor_row.hash(&mut hasher);
    content.cursor_col.hash(&mut hasher);
    assert_eq!(content_hash(&content), hasher.finish());
}

#[test]
fn same_content_has_the_same_hash() {
    assert_eq!(content_hash(&content()), content_hash(&content()));
}

#[test]
fn widths_and_cursor_shape_make_no_difference() {
    let mut other = content();
    other.spans[0].cols = 9;
    other.spans[0].places = vec![CharCols { start: 0, end: 2 }];
    other.cursor_shape = CursorShape::Hidden;
    assert_eq!(content_hash(&content()), content_hash(&other));
}

#[test]
fn every_other_change_changes_the_hash() {
    let hash = content_hash(&content());
    let changed = |change: fn(&mut GridContent)| {
        let mut other = content();
        change(&mut other);
        content_hash(&other) != hash
    };
    assert!(changed(|c| c.spans[0].text.push('c')));
    assert!(changed(|c| c.spans[0].r = 9));
    assert!(changed(|c| c.spans[0].g = 9));
    assert!(changed(|c| c.spans[0].b = 9));
    assert!(changed(|c| c.spans[0].bg = Some((0, 0, 0))));
    assert!(changed(|c| c.spans[1].bg = None));
    assert!(changed(|c| c.spans[0].bold = false));
    assert!(changed(|c| c.spans[0].italic = true));
    assert!(changed(|c| c.spans[0].underline = false));
    assert!(changed(|c| c.spans[0].strikeout = true));
    assert!(changed(|c| c.cursor_row = 0));
    assert!(changed(|c| c.cursor_col = 0));
    assert!(changed(|c| {
        c.spans.pop();
    }));
}
