//! From spans to the text that is shaped and the cells that are decorated.
use crate::grid::total_text;
use crate::terminal::{CellAttrs, ColoredSpan, CursorShape, GridContent, Span};
use crate::text::{encoding_of_joined_text, parts_meet_at_char_boundary};
use crate::theme::{Rgb, TerminalTheme};
use vstd::prelude::*;
use vstd::string::{StrSliceExecFns, StringExecFns};
use vstd::utf8::{encode_utf8, is_char_boundary};

verus! {

/// A run of the text in one color and style, by its bytes.
#[derive(Clone, Copy)]
pub struct SpanRange {
    pub start: usize,
    pub end: usize,
    pub r: u8,
    pub g: u8,
    pub b: u8,
    pub bold: bool,
    pub italic: bool,
}

/// A run of cells in one color, in a row of the grid.
#[derive(Clone, Copy)]
pub struct CellRect {
    pub row: usize,
    pub col_start: usize,
    pub col_count: usize,
    pub color: Rgb,
}

/// The text of a screen and what is drawn around it.
pub struct TextLayout {
    pub text: String,
    pub runs: Vec<SpanRange>,
    pub backgrounds: Vec<CellRect>,
    pub underlines: Vec<CellRect>,
    pub strikeouts: Vec<CellRect>,
}

/// A piece of text in one color and style.
#[verifier::ext_equal]
pub struct Piece {
    pub text: Seq<char>,
    pub color: Rgb,
    pub bold: bool,
    pub italic: bool,
}

/// What is drawn around the text of a span.
#[derive(Clone, Copy)]
pub enum Decoration {
    Background,
    Underline,
    Strikeout,
}

/// Whether a span ends a row.
pub open spec fn is_break(span: Span) -> bool {
    span.text == seq!['\n']
}

/// The row that span `n` is in: one for each line break before it.
pub open spec fn line_of(spans: Seq<Span>, n: int) -> int
    decreases n,
{
    if n <= 0 {
        0
    } else if is_break(spans[n - 1]) {
        line_of(spans, n - 1) + 1
    } else {
        line_of(spans, n - 1)
    }
}

/// The column that span `n` starts in: the columns of the spans before it in
/// its row.
pub open spec fn col_of(spans: Seq<Span>, n: int) -> int
    decreases n,
{
    if n <= 0 || is_break(spans[n - 1]) {
        0
    } else {
        col_of(spans, n - 1) + spans[n - 1].cols
    }
}

/// How many columns into span `i` the block cursor is, where it is in it.
pub open spec fn cursor_offset(
    spans: Seq<Span>,
    i: int,
    cursor: Option<(usize, usize)>,
) -> Option<int> {
    match cursor {
        Some((row, col)) => if !is_break(spans[i]) && line_of(spans, i) == row && col_of(spans, i)
            <= col < col_of(spans, i) + spans[i].cols {
            Some(col - col_of(spans, i))
        } else {
            None
        },
        None => None,
    }
}

/// A piece of a span, in the span's own color and style.
pub open spec fn styled(text: Seq<char>, attrs: CellAttrs) -> Piece {
    Piece { text, color: attrs.fg, bold: attrs.bold, italic: attrs.italic }
}

/// The first character of a span, from the one at `from` on, that does not stand
/// left of a column; the number of characters where there is none.
pub open spec fn first_from(span: Span, offset: int, from: int) -> int
    decreases span.text.len() - from,
{
    if from >= span.text.len() || from >= span.places.len() || span.places[from].1 > offset {
        from
    } else {
        first_from(span, offset, from + 1)
    }
}

/// How many characters of a span stand left of one of its columns.
pub open spec fn chars_left_of(span: Span, offset: int) -> int {
    first_from(span, offset, 0)
}

/// Whether a character of a span stands on one of its columns.
pub open spec fn has_char_on(span: Span, offset: int) -> bool {
    let at = chars_left_of(span, offset);
    at < span.text.len() && at < span.places.len() && span.places[at].0 <= offset
}

/// The piece under the block cursor, in the color of the background: the character
/// on the cursor's column, or a space where there is none.
pub open spec fn cursor_piece(span: Span, offset: int, theme: TerminalTheme) -> Piece {
    Piece {
        text: seq![
            if has_char_on(span, offset) {
                span.text[chars_left_of(span, offset)]
            } else {
                ' '
            },
        ],
        color: theme.background,
        bold: false,
        italic: false,
    }
}

/// The pieces of span `i`: the whole span, or what is left of the block cursor,
/// under it and right of it.
pub open spec fn span_pieces(
    spans: Seq<Span>,
    i: int,
    cursor: Option<(usize, usize)>,
    theme: TerminalTheme,
) -> Seq<Piece> {
    let span = spans[i];
    if is_break(span) {
        seq![Piece { text: span.text, color: theme.foreground, bold: false, italic: false }]
    } else {
        match cursor_offset(spans, i, cursor) {
            None => seq![styled(span.text, span.attrs)],
            Some(offset) => {
                let left = chars_left_of(span, offset);
                let right = if has_char_on(span, offset) { left + 1 } else { left };
                let before = if left > 0 {
                    seq![styled(span.text.take(left), span.attrs)]
                } else {
                    Seq::empty()
                };
                let after = if right < span.text.len() {
                    seq![styled(span.text.skip(right), span.attrs)]
                } else {
                    Seq::empty()
                };
                before + seq![cursor_piece(span, offset, theme)] + after
            },
        }
    }
}

/// The pieces of the first `n` spans.
pub open spec fn pieces(
    spans: Seq<Span>,
    n: int,
    cursor: Option<(usize, usize)>,
    theme: TerminalTheme,
) -> Seq<Piece>
    decreases n,
{
    if n <= 0 {
        Seq::empty()
    } else {
        pieces(spans, n - 1, cursor, theme) + span_pieces(spans, n - 1, cursor, theme)
    }
}

/// The text of a sequence of pieces.
pub open spec fn joined(pieces: Seq<Piece>) -> Seq<char>
    decreases pieces.len(),
{
    if pieces.len() == 0 {
        Seq::empty()
    } else {
        joined(pieces.drop_last()) + pieces.last().text
    }
}

/// Whether `run` is piece `i`: its style, and the bytes that it takes up in the
/// text of all pieces.
pub open spec fn is_run(run: SpanRange, pieces: Seq<Piece>, i: int) -> bool {
    &&& run.start == encode_utf8(joined(pieces.take(i))).len()
    &&& run.end == encode_utf8(joined(pieces.take(i + 1))).len()
    &&& (run.r, run.g, run.b) == pieces[i].color
    &&& run.bold == pieces[i].bold
    &&& run.italic == pieces[i].italic
}

/// Whether `text` and `runs` are the given pieces.
pub open spec fn is_text(text: Seq<char>, runs: Seq<SpanRange>, pieces: Seq<Piece>) -> bool {
    &&& text == joined(pieces)
    &&& runs.len() == pieces.len()
    &&& forall|i: int| 0 <= i < runs.len() ==> is_run(#[trigger] runs[i], pieces, i)
}

/// The color of a decoration, where the span has it. Lines are drawn in the
/// color of the text.
pub open spec fn decoration_color(span: Span, decoration: Decoration) -> Option<Rgb> {
    match decoration {
        Decoration::Background => span.attrs.bg,
        Decoration::Underline => if span.attrs.underline {
            Some(span.attrs.fg)
        } else {
            None
        },
        Decoration::Strikeout => if span.attrs.strikeout {
            Some(span.attrs.fg)
        } else {
            None
        },
    }
}

/// The cells of span `i`.
pub open spec fn span_rect(spans: Seq<Span>, i: int, color: Rgb) -> CellRect {
    CellRect {
        row: line_of(spans, i) as usize,
        col_start: col_of(spans, i) as usize,
        col_count: spans[i].cols as usize,
        color,
    }
}

/// The cells of those of the first `n` spans that have a decoration.
pub open spec fn decorated(spans: Seq<Span>, n: int, decoration: Decoration) -> Seq<CellRect>
    decreases n,
{
    if n <= 0 {
        Seq::empty()
    } else {
        let before = decorated(spans, n - 1, decoration);
        match decoration_color(spans[n - 1], decoration) {
            Some(color) => if is_break(spans[n - 1]) {
                before
            } else {
                before.push(span_rect(spans, n - 1, color))
            },
            None => before,
        }
    }
}

/// The cell of the block cursor, where it is on and has that shape.
pub open spec fn block_cursor(
    row: usize,
    col: usize,
    shape: CursorShape,
    visible: bool,
) -> Option<(usize, usize)> {
    if visible && shape == CursorShape::Block {
        Some((row, col))
    } else {
        None
    }
}

/// Whether a screen can be laid out: its columns can be counted.
pub open spec fn can_lay_out(spans: Seq<Span>) -> bool {
    forall|i: int| 0 <= i <= spans.len() ==> #[trigger] col_of(spans, i) <= usize::MAX
}

/// Whether `layout` is how the spans are laid out.
pub open spec fn is_layout(
    layout: TextLayout,
    spans: Seq<Span>,
    cursor: Option<(usize, usize)>,
    theme: TerminalTheme,
) -> bool {
    let n = spans.len() as int;
    &&& is_text(layout.text@, layout.runs@, pieces(spans, n, cursor, theme))
    &&& layout.backgrounds@ == decorated(spans, n, Decoration::Background)
    &&& layout.underlines@ == decorated(spans, n, Decoration::Underline)
    &&& layout.strikeouts@ == decorated(spans, n, Decoration::Strikeout)
}

fn is_line_break(text: &str) -> (yes: bool)
    ensures
        yes == (text@ == seq!['\n']),
{
    if text.unicode_len() == 1 {
        let c = text.get_char(0);
        assert(text@ =~= seq![text@[0]]);
        assert(text@[0] == seq!['\n'][0] <==> text@ == seq!['\n']);
        c == '\n'
    } else {
        false
    }
}

/// The cell of the block cursor, where it is on and has that shape.
fn find_block_cursor(content: &GridContent, visible: bool) -> (cursor: Option<(usize, usize)>)
    ensures
        cursor == block_cursor(
            content.cursor_row,
            content.cursor_col,
            content.cursor_shape,
            visible,
        ),
{
    if visible && content.cursor_shape == CursorShape::Block {
        Some((content.cursor_row, content.cursor_col))
    } else {
        None
    }
}

/// How many columns into a span the block cursor is, where it is in it.
fn offset_in_span(
    cursor: Option<(usize, usize)>,
    line: usize,
    start: usize,
    end: usize,
) -> (offset: Option<usize>)
    ensures
        offset == (match cursor {
            Some((row, col)) => if line == row && start <= col < end {
                Some((col - start) as usize)
            } else {
                None
            },
            None => None,
        }),
{
    match cursor {
        Some((row, col)) => if line == row && start <= col && col < end {
            Some(col - start)
        } else {
            None
        },
        None => None,
    }
}

/// Tests whether a screen can be laid out.
pub fn check_layout(content: &GridContent) -> (ok: bool)
    ensures
        ok == can_lay_out(content@.spans),
{
    let ghost spans = content@.spans;
    let mut col: usize = 0;
    let mut i: usize = 0;
    while i < content.spans.len()
        invariant
            i <= content.spans@.len(),
            spans == content@.spans,
            col == col_of(spans, i as int),
            forall|j: int| 0 <= j <= i ==> #[trigger] col_of(spans, j) <= usize::MAX,
        decreases content.spans@.len() - i,
    {
        let span = &content.spans[i];
        assert(spans[i as int] == span@);
        if is_line_break(span.text.as_str()) {
            col = 0;
        } else {
            match col.checked_add(span.cols) {
                None => {
                    assert(col_of(spans, i + 1) > usize::MAX);
                    return false;
                },
                Some(end) => {
                    col = end;
                },
            }
        }
        i += 1;
    }
    true
}

fn push_piece(
    text: &mut String,
    runs: &mut Vec<SpanRange>,
    added: &str,
    color: Rgb,
    bold: bool,
    italic: bool,
    Ghost(pieces): Ghost<Seq<Piece>>,
)
    requires
        is_text(old(text)@, old(runs)@, pieces),
    ensures
        is_text(
            final(text)@,
            final(runs)@,
            pieces.push(Piece { text: added@, color, bold, italic }),
        ),
{
    let ghost piece = Piece { text: added@, color, bold, italic };
    let ghost longer = pieces.push(piece);
    let start = text.as_str().as_bytes().len();
    text.append(added);
    let end = text.as_str().as_bytes().len();
    runs.push(SpanRange { start, end, r: color.0, g: color.1, b: color.2, bold, italic });
    proof {
        assert(longer.drop_last() =~= pieces);
        let n = pieces.len() as int;
        assert(longer.take(n) =~= pieces);
        assert(longer.take(n + 1) =~= longer);
        assert forall|i: int| 0 <= i < runs@.len() implies is_run(#[trigger] runs@[i], longer, i) by {
            if i < n {
                assert(is_run(old(runs)@[i], pieces, i));
                assert(longer.take(i) =~= pieces.take(i));
                assert(longer.take(i + 1) =~= pieces.take(i + 1));
            }
        }
    }
}

/// How many characters of a span stand left of a column, and whether one stands on
/// it.
fn find_char(span: &ColoredSpan, offset: usize) -> (found: (usize, bool))
    ensures
        found.0 == chars_left_of(span@, offset as int),
        found.1 == has_char_on(span@, offset as int),
        found.0 <= span.text@.len(),
        found.1 ==> found.0 < span.text@.len(),
{
    let len = span.text.as_str().unicode_len();
    let mut at: usize = 0;
    while at < len && at < span.places.len() && span.places[at].end <= offset
        invariant
            len == span.text@.len(),
            at <= len,
            chars_left_of(span@, offset as int) == first_from(span@, offset as int, at as int),
        decreases len - at,
    {
        assert(span@.places[at as int].1 == span.places@[at as int].end);
        at += 1;
    }
    (at, at < len && at < span.places.len() && span.places[at].start <= offset)
}

/// Appends the pieces of a span that the block cursor is in.
fn push_split_span(
    text: &mut String,
    runs: &mut Vec<SpanRange>,
    span: &ColoredSpan,
    offset: usize,
    theme: &TerminalTheme,
    Ghost(before): Ghost<Seq<Piece>>,
    Ghost(spans): Ghost<Seq<Span>>,
    Ghost(i): Ghost<int>,
    Ghost(cursor): Ghost<Option<(usize, usize)>>,
)
    requires
        is_text(old(text)@, old(runs)@, before),
        spans[i] == span@,
        !is_break(span@),
        cursor_offset(spans, i, cursor) == Some(offset as int),
    ensures
        is_text(final(text)@, final(runs)@, before + span_pieces(spans, i, cursor, *theme)),
{
    let chars = span.text.as_str();
    let len = chars.unicode_len();
    let color = (span.r, span.g, span.b);
    let (left, found) = find_char(span, offset);
    let right: usize = if found {
        left + 1
    } else {
        left
    };
    let ghost mut done = before;
    if left > 0 {
        let part = chars.substring_char(0, left);
        push_piece(text, runs, part, color, span.bold, span.italic, Ghost(done));
        proof {
            assert(part@ =~= span@.text.take(left as int));
            done = done.push(styled(part@, span@.attrs));
        }
    }
    let mut under = String::new();
    under.push(
        if found {
            chars.get_char(left)
        } else {
            ' '
        },
    );
    assert(under@ =~= cursor_piece(span@, offset as int, *theme).text);
    push_piece(text, runs, under.as_str(), theme.background, false, false, Ghost(done));
    proof {
        done = done.push(cursor_piece(span@, offset as int, *theme));
    }
    if right < len {
        let part = chars.substring_char(right, len);
        push_piece(text, runs, part, color, span.bold, span.italic, Ghost(done));
        proof {
            assert(part@ =~= span@.text.skip(right as int));
            done = done.push(styled(part@, span@.attrs));
        }
    }
    assert(done =~= before + span_pieces(spans, i, cursor, *theme));
}

fn push_decoration(
    rects: &mut Vec<CellRect>,
    color: Option<Rgb>,
    row: usize,
    col_start: usize,
    col_count: usize,
)
    ensures
        final(rects)@ == (match color {
            Some(color) => old(rects)@.push(CellRect { row, col_start, col_count, color }),
            None => old(rects)@,
        }),
{
    if let Some(color) = color {
        rects.push(CellRect { row, col_start, col_count, color });
    }
}

/// Lays a screen out.
///
/// Only a block cursor inverts the character under it; a beam or an underline
/// is drawn beside the character.
pub fn lay_out(content: &GridContent, theme: &TerminalTheme, cursor_visible: bool) -> (layout:
    TextLayout)
    requires
        can_lay_out(content@.spans),
    ensures
        is_layout(
            layout,
            content@.spans,
            block_cursor(
                content.cursor_row,
                content.cursor_col,
                content.cursor_shape,
                cursor_visible,
            ),
            *theme,
        ),
{
    let cursor = find_block_cursor(content, cursor_visible);
    let ghost spans = content@.spans;
    let mut text = String::new();
    let mut runs: Vec<SpanRange> = Vec::new();
    let mut backgrounds: Vec<CellRect> = Vec::new();
    let mut underlines: Vec<CellRect> = Vec::new();
    let mut strikeouts: Vec<CellRect> = Vec::new();
    let mut line: usize = 0;
    let mut col: usize = 0;
    let mut i: usize = 0;
    while i < content.spans.len()
        invariant
            i <= content.spans@.len(),
            spans == content@.spans,
            can_lay_out(spans),
            line == line_of(spans, i as int),
            line <= i,
            col == col_of(spans, i as int),
            is_text(text@, runs@, pieces(spans, i as int, cursor, *theme)),
            backgrounds@ == decorated(spans, i as int, Decoration::Background),
            underlines@ == decorated(spans, i as int, Decoration::Underline),
            strikeouts@ == decorated(spans, i as int, Decoration::Strikeout),
        decreases content.spans@.len() - i,
    {
        let span = &content.spans[i];
        let ghost before = pieces(spans, i as int, cursor, *theme);
        assert(spans[i as int] == span@);
        assert(col_of(spans, i + 1) <= usize::MAX);
        if is_line_break(span.text.as_str()) {
            push_piece(
                &mut text,
                &mut runs,
                span.text.as_str(),
                theme.foreground,
                false,
                false,
                Ghost(before),
            );
            assert(pieces(spans, i + 1, cursor, *theme) =~= before.push(
                span_pieces(spans, i as int, cursor, *theme)[0],
            ));
            line += 1;
            col = 0;
        } else {
            let end = col + span.cols;
            let color = (span.r, span.g, span.b);
            push_decoration(&mut backgrounds, span.bg, line, col, span.cols);
            push_decoration(
                &mut underlines,
                if span.underline {
                    Some(color)
                } else {
                    None
                },
                line,
                col,
                span.cols,
            );
            push_decoration(
                &mut strikeouts,
                if span.strikeout {
                    Some(color)
                } else {
                    None
                },
                line,
                col,
                span.cols,
            );
            match offset_in_span(cursor, line, col, end) {
                Some(offset) => {
                    assert(cursor_offset(spans, i as int, cursor) == Some(offset as int));
                    push_split_span(
                        &mut text,
                        &mut runs,
                        span,
                        offset,
                        theme,
                        Ghost(before),
                        Ghost(spans),
                        Ghost(i as int),
                        Ghost(cursor),
                    );
                },
                None => {
                    push_piece(
                        &mut text,
                        &mut runs,
                        span.text.as_str(),
                        color,
                        span.bold,
                        span.italic,
                        Ghost(before),
                    );
                    assert(pieces(spans, i + 1, cursor, *theme) =~= before.push(
                        span_pieces(spans, i as int, cursor, *theme)[0],
                    ));
                },
            }
            col = end;
        }
        i += 1;
    }
    TextLayout { text, runs, backgrounds, underlines, strikeouts }
}

proof fn lemma_joined_split(pieces: Seq<Piece>, n: int)
    requires
        0 <= n <= pieces.len(),
    ensures
        joined(pieces) == joined(pieces.take(n)) + joined(pieces.skip(n)),
    decreases pieces.len(),
{
    if n == pieces.len() {
        assert(pieces.take(n) =~= pieces);
        assert(pieces.skip(n) =~= Seq::empty());
        assert(joined(pieces) =~= joined(pieces.take(n)) + joined(pieces.skip(n)));
    } else {
        let rest = pieces.drop_last();
        lemma_joined_split(rest, n);
        assert(rest.take(n) =~= pieces.take(n));
        assert(pieces.skip(n).drop_last() =~= rest.skip(n));
        assert(joined(pieces) =~= joined(pieces.take(n)) + joined(pieces.skip(n)));
    }
}

proof fn lemma_joined_concat(a: Seq<Piece>, b: Seq<Piece>)
    ensures
        joined(a + b) == joined(a) + joined(b),
{
    lemma_joined_split(a + b, a.len() as int);
    assert((a + b).take(a.len() as int) =~= a);
    assert((a + b).skip(a.len() as int) =~= b);
}

/// The runs cut the text into its pieces: the bytes of a run are those of its
/// piece, and both of its ends are between characters.
pub proof fn run_is_its_piece(
    text: Seq<char>,
    runs: Seq<SpanRange>,
    pieces: Seq<Piece>,
    i: int,
)
    requires
        is_text(text, runs, pieces),
        0 <= i < runs.len(),
    ensures
        runs[i].start <= runs[i].end <= encode_utf8(text).len(),
        encode_utf8(text).subrange(runs[i].start as int, runs[i].end as int) == encode_utf8(
            pieces[i].text,
        ),
        is_char_boundary(encode_utf8(text), runs[i].start as int),
        is_char_boundary(encode_utf8(text), runs[i].end as int),
{
    let before = joined(pieces.take(i));
    let upto = joined(pieces.take(i + 1));
    let after = joined(pieces.skip(i + 1));
    assert(is_run(runs[i], pieces, i));
    assert(pieces.take(i + 1).drop_last() =~= pieces.take(i));
    assert(upto == before + pieces[i].text);
    lemma_joined_split(pieces, i + 1);
    lemma_joined_split(pieces, i);
    encoding_of_joined_text(before, pieces[i].text);
    encoding_of_joined_text(upto, after);
    parts_meet_at_char_boundary(before, joined(pieces.skip(i)));
    parts_meet_at_char_boundary(upto, after);
    assert(encode_utf8(text).subrange(runs[i].start as int, runs[i].end as int) =~= encode_utf8(
        pieces[i].text,
    ));
}

/// The runs follow each other without a gap, from the first byte to the last.
pub proof fn runs_tile_text(text: Seq<char>, runs: Seq<SpanRange>, pieces: Seq<Piece>)
    requires
        is_text(text, runs, pieces),
        runs.len() > 0,
    ensures
        runs[0].start == 0,
        forall|i: int| 0 < i < runs.len() ==> (#[trigger] runs[i]).start == runs[i - 1].end,
        runs.last().end == encode_utf8(text).len(),
{
    assert(is_run(runs[0], pieces, 0));
    assert(pieces.take(0) =~= Seq::empty());
    assert forall|i: int| 0 < i < runs.len() implies (#[trigger] runs[i]).start == runs[i
        - 1].end by {
        assert(is_run(runs[i], pieces, i));
        assert(is_run(runs[i - 1], pieces, i - 1));
    }
    assert(is_run(runs.last(), pieces, runs.len() - 1));
    assert(pieces.take(pieces.len() as int) =~= pieces);
}

/// Where a character stands on the block cursor's column, the text is that of the
/// spans, as it is without a cursor.
pub proof fn cursor_keeps_text(
    spans: Seq<Span>,
    n: int,
    cursor: Option<(usize, usize)>,
    theme: TerminalTheme,
)
    requires
        0 <= n <= spans.len(),
        forall|i: int|
            0 <= i < n ==> (#[trigger] cursor_offset(spans, i, cursor) matches Some(offset)
                ==> has_char_on(spans[i], offset)),
    ensures
        joined(pieces(spans, n, cursor, theme)) == total_text(spans.take(n)),
    decreases n,
{
    if n > 0 {
        cursor_keeps_text(spans, n - 1, cursor, theme);
        let span = spans[n - 1];
        let parts = span_pieces(spans, n - 1, cursor, theme);
        assert(spans.take(n).drop_last() =~= spans.take(n - 1));
        lemma_joined_concat(pieces(spans, n - 1, cursor, theme), parts);
        assert(joined(parts) =~= span.text) by {
            reveal_with_fuel(joined, 4);
            match cursor_offset(spans, n - 1, cursor) {
                None => {},
                Some(offset) => {
                    lemma_first_from(span, offset, 0);
                    if chars_left_of(span, offset) > 0 {
                        if chars_left_of(span, offset) + 1 < span.text.len() {
                            assert(parts.drop_last().drop_last().drop_last() =~= Seq::empty());
                        } else {
                            assert(parts.drop_last().drop_last() =~= Seq::empty());
                        }
                    }
                },
            }
        }
    }
}

proof fn lemma_first_from(span: Span, offset: int, from: int)
    requires
        0 <= from <= span.text.len(),
    ensures
        from <= first_from(span, offset, from) <= span.text.len(),
    decreases span.text.len() - from,
{
    if from < span.text.len() && from < span.places.len() && span.places[from].1 <= offset {
        lemma_first_from(span, offset, from + 1);
    }
}

/// Whether the characters of a span have a column each at least, and stand on the
/// span's columns in their order.
pub open spec fn has_ordered_places(span: Span) -> bool {
    &&& span.places.len() == span.text.len()
    &&& forall|k: int|
        0 <= k < span.places.len() ==> 0 <= (#[trigger] span.places[k]).0 < span.places[k].1
            <= span.cols
    &&& forall|k: int, m: int|
        0 <= k < m < span.places.len() ==> (#[trigger] span.places[k]).1 <= (
        #[trigger] span.places[m]).0
}

/// A character is found on each of its columns.
pub proof fn char_is_found_on_its_columns(span: Span, k: int, offset: int)
    requires
        has_ordered_places(span),
        0 <= k < span.text.len(),
        span.places[k].0 <= offset < span.places[k].1,
    ensures
        has_char_on(span, offset),
        chars_left_of(span, offset) == k,
{
    lemma_first_is(span, k, offset, 0);
}

proof fn lemma_first_is(span: Span, k: int, offset: int, from: int)
    requires
        has_ordered_places(span),
        0 <= from <= k < span.text.len(),
        span.places[k].0 <= offset < span.places[k].1,
    ensures
        first_from(span, offset, from) == k,
    decreases k - from,
{
    if from < k {
        assert(span.places[from].1 <= span.places[k].0);
        lemma_first_is(span, k, offset, from + 1);
    }
}

/// A cursor of another shape than a block, or one that is off, leaves text and
/// colors alone: each span is one piece, in its own color and style.
pub proof fn only_block_cursor_inverts(
    spans: Seq<Span>,
    i: int,
    row: usize,
    col: usize,
    shape: CursorShape,
    visible: bool,
    theme: TerminalTheme,
)
    requires
        0 <= i < spans.len(),
        !is_break(spans[i]),
        shape != CursorShape::Block || !visible,
    ensures
        span_pieces(spans, i, block_cursor(row, col, shape, visible), theme) == seq![
            styled(spans[i].text, spans[i].attrs),
        ],
{
}

proof fn lemma_later_span(spans: Seq<Span>, i: int, j: int)
    requires
        0 <= i < j <= spans.len(),
        forall|k: int| 0 <= k < spans.len() ==> (#[trigger] spans[k]).cols >= 0,
    ensures
        line_of(spans, j) >= line_of(spans, i),
        !is_break(spans[i]) && line_of(spans, j) == line_of(spans, i) ==> col_of(spans, j)
            >= col_of(spans, i) + spans[i].cols,
    decreases j,
{
    if j > i + 1 {
        lemma_later_span(spans, i, j - 1);
        assert(spans[j - 1].cols >= 0);
    }
}

/// The block cursor is in one span at most, so one character is inverted.
pub proof fn cursor_is_in_one_span(
    spans: Seq<Span>,
    cursor: Option<(usize, usize)>,
    i: int,
    j: int,
)
    requires
        0 <= i < spans.len(),
        0 <= j < spans.len(),
        forall|k: int| 0 <= k < spans.len() ==> (#[trigger] spans[k]).cols >= 0,
        cursor_offset(spans, i, cursor) is Some,
        cursor_offset(spans, j, cursor) is Some,
    ensures
        i == j,
{
    if i < j {
        lemma_later_span(spans, i, j);
    } else if j < i {
        lemma_later_span(spans, j, i);
    }
}

/// Positions advance span by span: a line break starts the next row at its first
/// column, and any other span moves on by its own columns.
pub proof fn spans_stand_side_by_side(spans: Seq<Span>, n: int)
    requires
        0 <= n < spans.len(),
    ensures
        line_of(spans, 0) == 0,
        col_of(spans, 0) == 0,
        spans[n].text == seq!['\n'] ==> line_of(spans, n + 1) == line_of(spans, n) + 1 && col_of(
            spans,
            n + 1,
        ) == 0,
        spans[n].text != seq!['\n'] ==> line_of(spans, n + 1) == line_of(spans, n) && col_of(
            spans,
            n + 1,
        ) == col_of(spans, n) + spans[n].cols,
{
}

/// Any screen whose columns can be counted can be laid out.
pub proof fn countable_columns_can_be_laid_out(spans: Seq<Span>)
    requires
        forall|i: int| 0 <= i <= spans.len() ==> #[trigger] col_of(spans, i) <= usize::MAX,
    ensures
        can_lay_out(spans),
{
}

/// The block cursor is where the cursor is, as long as it is on and a block, and
/// nowhere else.
pub proof fn block_cursor_is_the_cursor(row: usize, col: usize, shape: CursorShape, visible: bool)
    ensures
        visible && shape == CursorShape::Block ==> block_cursor(row, col, shape, visible) == Some(
            (row, col),
        ),
        !visible || shape != CursorShape::Block ==> block_cursor(row, col, shape, visible) is None,
{
}

proof fn lemma_pieces_prefix(
    spans: Seq<Span>,
    j: int,
    n: int,
    cursor: Option<(usize, usize)>,
    theme: TerminalTheme,
)
    requires
        0 <= j <= n,
    ensures
        pieces(spans, j, cursor, theme).len() <= pieces(spans, n, cursor, theme).len(),
        pieces(spans, j, cursor, theme) == pieces(spans, n, cursor, theme).take(
            pieces(spans, j, cursor, theme).len() as int,
        ),
    decreases n,
{
    let part = pieces(spans, j, cursor, theme);
    let all = pieces(spans, n, cursor, theme);
    if j == n {
        assert(all.take(all.len() as int) =~= all);
    } else {
        lemma_pieces_prefix(spans, j, n - 1, cursor, theme);
        let most = pieces(spans, n - 1, cursor, theme);
        assert(all.take(part.len() as int) =~= most.take(part.len() as int));
    }
}

/// The pieces of span `j`, among those of all spans.
proof fn lemma_pieces_of_span(
    spans: Seq<Span>,
    j: int,
    cursor: Option<(usize, usize)>,
    theme: TerminalTheme,
)
    requires
        0 <= j < spans.len(),
    ensures
        ({
            let all = pieces(spans, spans.len() as int, cursor, theme);
            let start = pieces(spans, j, cursor, theme).len() as int;
            let own = span_pieces(spans, j, cursor, theme);
            &&& pieces(spans, j + 1, cursor, theme).len() == start + own.len() <= all.len()
            &&& forall|i: int| 0 <= i < own.len() ==> all[start + i] == #[trigger] own[i]
        }),
{
    let all = pieces(spans, spans.len() as int, cursor, theme);
    let start = pieces(spans, j, cursor, theme).len() as int;
    let own = span_pieces(spans, j, cursor, theme);
    let upto = pieces(spans, j + 1, cursor, theme);
    lemma_pieces_prefix(spans, j + 1, spans.len() as int, cursor, theme);
    assert forall|i: int| 0 <= i < own.len() implies all[start + i] == #[trigger] own[i] by {
        assert(upto[start + i] == own[i]);
        assert(all.take(upto.len() as int)[start + i] == all[start + i]);
    }
}

/// A span that the block cursor is not in is one run of the text, the next one
/// behind those of the spans before it. The run is the whole text of the span, in
/// the span's own color, bold where the span is bold and italic where it is italic;
/// a line break is in the theme's foreground and plain.
pub proof fn span_is_drawn_in_its_own_style(
    text: Seq<char>,
    runs: Seq<SpanRange>,
    spans: Seq<Span>,
    cursor: Option<(usize, usize)>,
    theme: TerminalTheme,
    j: int,
)
    requires
        is_text(text, runs, pieces(spans, spans.len() as int, cursor, theme)),
        0 <= j < spans.len(),
        spans[j].text == seq!['\n'] || (cursor matches Some((row, col)) ==> !(line_of(spans, j)
            == row && col_of(spans, j) <= col < col_of(spans, j) + spans[j].cols)),
    ensures
        ({
            let i = pieces(spans, j, cursor, theme).len() as int;
            &&& pieces(spans, 0, cursor, theme).len() == 0
            &&& pieces(spans, j + 1, cursor, theme).len() == i + 1
            &&& i < runs.len() == pieces(spans, spans.len() as int, cursor, theme).len()
            &&& encode_utf8(text).subrange(runs[i].start as int, runs[i].end as int)
                == encode_utf8(spans[j].text)
            &&& spans[j].text != seq!['\n'] ==> {
                &&& (runs[i].r, runs[i].g, runs[i].b) == spans[j].attrs.fg
                &&& runs[i].bold == spans[j].attrs.bold
                &&& runs[i].italic == spans[j].attrs.italic
            }
            &&& spans[j].text == seq!['\n'] ==> {
                &&& (runs[i].r, runs[i].g, runs[i].b) == theme.foreground
                &&& !runs[i].bold
                &&& !runs[i].italic
            }
        }),
{
    let all = pieces(spans, spans.len() as int, cursor, theme);
    let i = pieces(spans, j, cursor, theme).len() as int;
    lemma_pieces_of_span(spans, j, cursor, theme);
    assert(span_pieces(spans, j, cursor, theme).len() == 1);
    assert(all[i + 0] == span_pieces(spans, j, cursor, theme)[0]);
    run_is_its_piece(text, runs, all, i);
    assert(is_run(runs[i], all, i));
}

/// The span that the block cursor is in is drawn in up to three runs: what is left
/// of the cursor and what is right of it in the span's own color, bold and italic as
/// the span is, and the one character on the cursor's column in the color of the
/// theme's background, neither bold nor italic.
pub proof fn block_cursor_cuts_out_one_character(
    text: Seq<char>,
    runs: Seq<SpanRange>,
    spans: Seq<Span>,
    row: usize,
    col: usize,
    theme: TerminalTheme,
    j: int,
    k: int,
)
    requires
        is_text(text, runs, pieces(spans, spans.len() as int, Some((row, col)), theme)),
        0 <= j < spans.len(),
        spans[j].text != seq!['\n'],
        line_of(spans, j) == row,
        col_of(spans, j) <= col < col_of(spans, j) + spans[j].cols,
        has_ordered_places(spans[j]),
        0 <= k < spans[j].text.len(),
        spans[j].places[k].0 <= col - col_of(spans, j) < spans[j].places[k].1,
    ensures
        ({
            let span = spans[j];
            let first = pieces(spans, j, Some((row, col)), theme).len() as int;
            let under = if k > 0 { first + 1 } else { first };
            let more = k + 1 < span.text.len();
            let bytes = encode_utf8(text);
            &&& pieces(spans, j + 1, Some((row, col)), theme).len() == if more {
                under + 2
            } else {
                under + 1
            } <= runs.len()
            &&& bytes.subrange(runs[under].start as int, runs[under].end as int) == encode_utf8(
                seq![span.text[k]],
            )
            &&& (runs[under].r, runs[under].g, runs[under].b) == theme.background
            &&& !runs[under].bold && !runs[under].italic
            &&& k > 0 ==> {
                &&& bytes.subrange(runs[first].start as int, runs[first].end as int)
                    == encode_utf8(span.text.take(k))
                &&& (runs[first].r, runs[first].g, runs[first].b) == span.attrs.fg
                &&& runs[first].bold == span.attrs.bold
                &&& runs[first].italic == span.attrs.italic
            }
            &&& more ==> {
                &&& bytes.subrange(runs[under + 1].start as int, runs[under + 1].end as int)
                    == encode_utf8(span.text.skip(k + 1))
                &&& (runs[under + 1].r, runs[under + 1].g, runs[under + 1].b) == span.attrs.fg
                &&& runs[under + 1].bold == span.attrs.bold
                &&& runs[under + 1].italic == span.attrs.italic
            }
        }),
{
    let cursor = Some((row, col));
    let span = spans[j];
    let all = pieces(spans, spans.len() as int, cursor, theme);
    let first = pieces(spans, j, cursor, theme).len() as int;
    let own = span_pieces(spans, j, cursor, theme);
    let before = if k > 0 { 1int } else { 0int };
    let under = first + before;
    let offset = col - col_of(spans, j);
    char_is_found_on_its_columns(span, k, offset);
    lemma_pieces_of_span(spans, j, cursor, theme);
    assert(own[before] == cursor_piece(span, offset, theme));
    assert(all[first + before] == own[before]);
    run_is_its_piece(text, runs, all, under);
    assert(is_run(runs[under], all, under));
    if k > 0 {
        assert(all[first + 0] == own[0]);
        run_is_its_piece(text, runs, all, first);
        assert(is_run(runs[first], all, first));
    }
    if k + 1 < span.text.len() {
        assert(all[first + (before + 1)] == own[before + 1]);
        run_is_its_piece(text, runs, all, under + 1);
        assert(is_run(runs[under + 1], all, under + 1));
    }
}

/// Where no character stands on the block cursor's column, a space is put there, in
/// the color of the theme's background and plain, between the characters left of it
/// and those right of it, which keep the span's own color and style.
pub proof fn block_cursor_between_characters_is_a_space(
    text: Seq<char>,
    runs: Seq<SpanRange>,
    spans: Seq<Span>,
    row: usize,
    col: usize,
    theme: TerminalTheme,
    j: int,
    k: int,
)
    requires
        is_text(text, runs, pieces(spans, spans.len() as int, Some((row, col)), theme)),
        0 <= j < spans.len(),
        spans[j].text != seq!['\n'],
        line_of(spans, j) == row,
        col_of(spans, j) <= col < col_of(spans, j) + spans[j].cols,
        has_ordered_places(spans[j]),
        0 <= k <= spans[j].text.len(),
        forall|m: int|
            0 <= m < k ==> (#[trigger] spans[j].places[m]).1 <= col - col_of(spans, j),
        k < spans[j].text.len() ==> col - col_of(spans, j) < spans[j].places[k].0,
    ensures
        ({
            let span = spans[j];
            let first = pieces(spans, j, Some((row, col)), theme).len() as int;
            let under = if k > 0 { first + 1 } else { first };
            let more = k < span.text.len();
            let bytes = encode_utf8(text);
            &&& pieces(spans, j + 1, Some((row, col)), theme).len() == if more {
                under + 2
            } else {
                under + 1
            } <= runs.len()
            &&& bytes.subrange(runs[under].start as int, runs[under].end as int) == encode_utf8(
                seq![' '],
            )
            &&& (runs[under].r, runs[under].g, runs[under].b) == theme.background
            &&& !runs[under].bold && !runs[under].italic
            &&& k > 0 ==> {
                &&& bytes.subrange(runs[first].start as int, runs[first].end as int)
                    == encode_utf8(span.text.take(k))
                &&& (runs[first].r, runs[first].g, runs[first].b) == span.attrs.fg
                &&& runs[first].bold == span.attrs.bold
                &&& runs[first].italic == span.attrs.italic
            }
            &&& more ==> {
                &&& bytes.subrange(runs[under + 1].start as int, runs[under + 1].end as int)
                    == encode_utf8(span.text.skip(k))
                &&& (runs[under + 1].r, runs[under + 1].g, runs[under + 1].b) == span.attrs.fg
                &&& runs[under + 1].bold == span.attrs.bold
                &&& runs[under + 1].italic == span.attrs.italic
            }
        }),
{
    let cursor = Some((row, col));
    let span = spans[j];
    let all = pieces(spans, spans.len() as int, cursor, theme);
    let first = pieces(spans, j, cursor, theme).len() as int;
    let own = span_pieces(spans, j, cursor, theme);
    let before = if k > 0 { 1int } else { 0int };
    let under = first + before;
    let offset = col - col_of(spans, j);
    lemma_first_behind(span, k, offset, 0);
    lemma_pieces_of_span(spans, j, cursor, theme);
    assert(own[before] == cursor_piece(span, offset, theme));
    assert(all[first + before] == own[before]);
    run_is_its_piece(text, runs, all, under);
    assert(is_run(runs[under], all, under));
    if k > 0 {
        assert(all[first + 0] == own[0]);
        run_is_its_piece(text, runs, all, first);
        assert(is_run(runs[first], all, first));
    }
    if k < span.text.len() {
        assert(all[first + (before + 1)] == own[before + 1]);
        run_is_its_piece(text, runs, all, under + 1);
        assert(is_run(runs[under + 1], all, under + 1));
    }
}

proof fn lemma_first_behind(span: Span, k: int, offset: int, from: int)
    requires
        has_ordered_places(span),
        0 <= from <= k <= span.text.len(),
        forall|m: int| 0 <= m < k ==> (#[trigger] span.places[m]).1 <= offset,
        k < span.text.len() ==> offset < span.places[k].0,
    ensures
        first_from(span, offset, from) == k,
    decreases k - from,
{
    if from < k {
        assert(span.places[from].1 <= offset);
        lemma_first_behind(span, k, offset, from + 1);
    } else if k < span.text.len() {
        assert(span.places[k].0 < span.places[k].1);
    }
}

/// The runs of a laid-out screen have the fields of their spans: with the block
/// cursor not in it, a span is drawn in its own red, green and blue, bold where the
/// span is bold and italic where the span is italic.
pub proof fn runs_carry_the_fields_of_their_spans(
    layout: TextLayout,
    content: GridContent,
    visible: bool,
    theme: TerminalTheme,
    j: int,
)
    requires
        is_layout(
            layout,
            content@.spans,
            block_cursor(
                content.cursor_row,
                content.cursor_col,
                content.cursor_shape,
                visible,
            ),
            theme,
        ),
        0 <= j < content.spans@.len(),
        content.spans@[j].text@ != seq!['\n'],
        !(visible && content.cursor_shape == CursorShape::Block && line_of(content@.spans, j)
            == content.cursor_row && col_of(content@.spans, j) <= content.cursor_col < col_of(
            content@.spans,
            j,
        ) + content.spans@[j].cols),
    ensures
        ({
            let cursor = block_cursor(
                content.cursor_row,
                content.cursor_col,
                content.cursor_shape,
                visible,
            );
            let i = pieces(content@.spans, j, cursor, theme).len() as int;
            let run = layout.runs@[i];
            let span = content.spans@[j];
            &&& i < layout.runs@.len()
            &&& run.r == span.r && run.g == span.g && run.b == span.b
            &&& run.bold == span.bold
            &&& run.italic == span.italic
            &&& encode_utf8(layout.text@).subrange(run.start as int, run.end as int)
                == encode_utf8(span.text@)
        }),
{
    let cursor = block_cursor(
        content.cursor_row,
        content.cursor_col,
        content.cursor_shape,
        visible,
    );
    assert(content@.spans[j] == content.spans@[j]@);
    span_is_drawn_in_its_own_style(
        layout.text@,
        layout.runs@,
        content@.spans,
        cursor,
        theme,
        j,
    );
}

/// Every run comes from a span: it has the span's own color and style, or it is a
/// line break in the theme's foreground, or it is the one character under the block
/// cursor, in the theme's background.
pub proof fn every_run_comes_from_a_span(
    text: Seq<char>,
    runs: Seq<SpanRange>,
    spans: Seq<Span>,
    cursor: Option<(usize, usize)>,
    theme: TerminalTheme,
    i: int,
)
    requires
        is_text(text, runs, pieces(spans, spans.len() as int, cursor, theme)),
        0 <= i < runs.len(),
    ensures
        exists|j: int|
            #![trigger spans[j]]
            0 <= j < spans.len() && pieces(spans, j, cursor, theme).len() <= i < pieces(
                spans,
                j + 1,
                cursor,
                theme,
            ).len() && ({
                ||| spans[j].text != seq!['\n'] && (runs[i].r, runs[i].g, runs[i].b)
                    == spans[j].attrs.fg && runs[i].bold == spans[j].attrs.bold && runs[i].italic
                    == spans[j].attrs.italic
                ||| spans[j].text == seq!['\n'] && (runs[i].r, runs[i].g, runs[i].b)
                    == theme.foreground && !runs[i].bold && !runs[i].italic
                ||| (cursor matches Some((row, col)) && line_of(spans, j) == row && col_of(spans, j)
                    <= col < col_of(spans, j) + spans[j].cols) && (runs[i].r, runs[i].g, runs[i].b)
                    == theme.background && !runs[i].bold && !runs[i].italic && exists|c: char|
                    #[trigger] encode_utf8(seq![c]) == encode_utf8(text).subrange(
                        runs[i].start as int,
                        runs[i].end as int,
                    )
            }),
{
    let n = spans.len() as int;
    let all = pieces(spans, n, cursor, theme);
    lemma_span_of_piece(spans, n, cursor, theme, i);
    let j = choose|j: int|
        #![trigger spans[j]]
        0 <= j < n && pieces(spans, j, cursor, theme).len() <= i < pieces(
            spans,
            j + 1,
            cursor,
            theme,
        ).len();
    let start = pieces(spans, j, cursor, theme).len() as int;
    let own = span_pieces(spans, j, cursor, theme);
    lemma_pieces_of_span(spans, j, cursor, theme);
    assert(all[start + (i - start)] == own[i - start]);
    assert(is_run(runs[i], all, i));
    run_is_its_piece(text, runs, all, i);
    let c = own[i - start].text[0];
    if !is_break(spans[j]) && cursor_offset(spans, j, cursor) is Some {
        let offset = cursor_offset(spans, j, cursor)->0;
        if own[i - start] == cursor_piece(spans[j], offset, theme) {
            assert(own[i - start].text =~= seq![c]);
            assert(encode_utf8(seq![c]) == encode_utf8(text).subrange(
                runs[i].start as int,
                runs[i].end as int,
            ));
        }
    }
}

proof fn lemma_span_of_piece(
    spans: Seq<Span>,
    n: int,
    cursor: Option<(usize, usize)>,
    theme: TerminalTheme,
    i: int,
)
    requires
        0 <= n <= spans.len(),
        0 <= i < pieces(spans, n, cursor, theme).len(),
    ensures
        exists|j: int|
            #![trigger spans[j]]
            0 <= j < n && pieces(spans, j, cursor, theme).len() <= i < pieces(
                spans,
                j + 1,
                cursor,
                theme,
            ).len(),
    decreases n,
{
    if n > 0 {
        if i < pieces(spans, n - 1, cursor, theme).len() {
            lemma_span_of_piece(spans, n - 1, cursor, theme, i);
        } else {
            let last = spans[n - 1];
            assert(pieces(spans, n - 1, cursor, theme).len() <= i < pieces(
                spans,
                (n - 1) + 1,
                cursor,
                theme,
            ).len());
        }
    }
}

/// Span by span, a background is collected where the span has one, an underline
/// where it is underlined and a strikeout where it is struck out, over the span's own
/// cells and no others: a background in its own color, a line in the text's. A line
/// break has none of these.
pub proof fn decorations_follow_their_spans(spans: Seq<Span>, n: int)
    requires
        0 <= n < spans.len(),
    ensures
        ({
            let span = spans[n];
            let rect = |color: Rgb|
                CellRect {
                    row: line_of(spans, n) as usize,
                    col_start: col_of(spans, n) as usize,
                    col_count: span.cols as usize,
                    color,
                };
            let text = span.text != seq!['\n'];
            let backgrounds = decorated(spans, n, Decoration::Background);
            let underlines = decorated(spans, n, Decoration::Underline);
            let strikeouts = decorated(spans, n, Decoration::Strikeout);
            &&& decorated(spans, 0, Decoration::Background).len() == 0
            &&& decorated(spans, 0, Decoration::Underline).len() == 0
            &&& decorated(spans, 0, Decoration::Strikeout).len() == 0
            &&& decorated(spans, n + 1, Decoration::Background) == if text && span.attrs.bg is Some {
                backgrounds.push(rect(span.attrs.bg->0))
            } else {
                backgrounds
            }
            &&& decorated(spans, n + 1, Decoration::Underline) == if text && span.attrs.underline {
                underlines.push(rect(span.attrs.fg))
            } else {
                underlines
            }
            &&& decorated(spans, n + 1, Decoration::Strikeout) == if text && span.attrs.strikeout {
                strikeouts.push(rect(span.attrs.fg))
            } else {
                strikeouts
            }
        }),
{
}

proof fn lemma_decorated_grows(spans: Seq<Span>, j: int, n: int, decoration: Decoration)
    requires
        0 <= j <= n <= spans.len(),
    ensures
        decorated(spans, j, decoration).len() <= decorated(spans, n, decoration).len(),
        forall|k: int|
            0 <= k < decorated(spans, j, decoration).len() ==> decorated(spans, n, decoration)[k]
                == #[trigger] decorated(spans, j, decoration)[k],
    decreases n,
{
    if j < n {
        lemma_decorated_grows(spans, j, n - 1, decoration);
    }
}

/// A screen that was laid out has the background of each span that has one, the
/// underline of each that is underlined and the strikeout of each that is struck
/// out, on the span's row, from the span's column on and over all of its columns.
pub proof fn every_decoration_is_collected(
    layout: TextLayout,
    content: GridContent,
    cursor: Option<(usize, usize)>,
    theme: TerminalTheme,
    j: int,
)
    requires
        is_layout(layout, content@.spans, cursor, theme),
        0 <= j < content.spans@.len(),
        content.spans@[j].text@ != seq!['\n'],
    ensures
        ({
            let span = content.spans@[j];
            let rect = |color: Rgb|
                CellRect {
                    row: line_of(content@.spans, j) as usize,
                    col_start: col_of(content@.spans, j) as usize,
                    col_count: span.cols,
                    color,
                };
            &&& span.bg is Some ==> layout.backgrounds@.contains(rect(span.bg->0))
            &&& span.underline ==> layout.underlines@.contains(rect((span.r, span.g, span.b)))
            &&& span.strikeout ==> layout.strikeouts@.contains(rect((span.r, span.g, span.b)))
        }),
{
    let spans = content@.spans;
    let n = spans.len() as int;
    assert(spans[j] == content.spans@[j]@);
    lemma_decorated_grows(spans, j + 1, n, Decoration::Background);
    lemma_decorated_grows(spans, j + 1, n, Decoration::Underline);
    lemma_decorated_grows(spans, j + 1, n, Decoration::Strikeout);
    if content.spans@[j].bg is Some {
        let k = decorated(spans, j + 1, Decoration::Background).len() - 1;
        assert(layout.backgrounds@[k] == decorated(spans, j + 1, Decoration::Background)[k]);
    }
    if content.spans@[j].underline {
        let k = decorated(spans, j + 1, Decoration::Underline).len() - 1;
        assert(layout.underlines@[k] == decorated(spans, j + 1, Decoration::Underline)[k]);
    }
    if content.spans@[j].strikeout {
        let k = decorated(spans, j + 1, Decoration::Strikeout).len() - 1;
        assert(layout.strikeouts@[k] == decorated(spans, j + 1, Decoration::Strikeout)[k]);
    }
}

} // verus!
