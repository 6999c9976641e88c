//! What a frame shows of a screen, pixel by pixel.
use crate::cursor::{
    batched, nothing_else_is_drawn, rect_with_area_is_drawn, rects_are_drawn_as_often_as_asked,
    CursorRect, RectBatch,
};
use crate::digest::content_digest;
use crate::emulator::Screen;
use crate::frame::{
    cells_rects, cursor_is_on, cursor_rect, frame_fits, over_rects, strikeout_offset, under_rects,
    underline_offset, CellPixels, Frame, PixelMetrics,
};
use crate::grid::screen_content;
use crate::laws::{no_breaks, screen_can_be_drawn};
use crate::layout::{
    col_of, decorated, decorations_follow_their_spans, is_text, line_of, pieces,
    span_is_drawn_in_its_own_style, CellRect, Decoration,
};
use crate::surface::TerminalSurface;
use crate::terminal::{Content, CursorShape, GridContent, Span};
use crate::theme::{Rgb, TerminalTheme};
use vstd::prelude::*;
use vstd::utf8::encode_utf8;

verus! {

/// The cursor is on in the first half of every second and off in the second half,
/// unless it is hidden, which is always off.
pub proof fn cursor_is_on_for_half_of_each_second(shape: CursorShape, elapsed_ms: u64)
    ensures
        cursor_is_on(shape, elapsed_ms) <==> shape != CursorShape::Hidden && elapsed_ms % 1000
            < 500,
{
}

/// Whether a rectangle is drawn by one of a sequence of batches, in its own color.
pub open spec fn is_drawn(batches: Seq<RectBatch>, rect: CursorRect) -> bool {
    exists|i: int, m: int|
        #![trigger batches[i].rects@[m]]
        0 <= i < batches.len() && 0 <= m < batches[i].rects@.len() && batches[i].rects@[m] == rect
            && batches[i].color == rect.color
}

proof fn lemma_cells_rects(
    cells: CellPixels,
    runs: Seq<CellRect>,
    y_offset: u32,
    height: u32,
    k: int,
)
    requires
        0 <= k < runs.len(),
    ensures
        cells_rects(cells, runs, y_offset, height).len() == runs.len(),
        cells_rects(cells, runs, y_offset, height)[k] == (CursorRect {
            x: (cells.padding + (runs[k].col_start as u32) * cells.width) as u32,
            y: (cells.padding + (runs[k].row as u32) * cells.height + y_offset) as u32,
            width: ((runs[k].col_count as u32) * cells.width) as u32,
            height,
            color: runs[k].color,
        }),
{
}

/// Below the text there is a rectangle for each background, over its cells and as
/// high as they are, and one more for the cursor where that is on, whatever
/// backgrounds there are.
pub proof fn cursor_comes_on_top_of_all_backgrounds(
    cells: CellPixels,
    content: Content,
    on: bool,
    thin_bar: u32,
    theme: TerminalTheme,
    k: int,
)
    ensures
        ({
            let spans = content.spans;
            let runs = decorated(spans, spans.len() as int, Decoration::Background);
            let rects = under_rects(cells, content, on, thin_bar, theme);
            &&& on ==> rects.len() == runs.len() + 1
            &&& !on ==> rects.len() == runs.len()
            &&& 0 <= k < runs.len() ==> rects[k] == (CursorRect {
                x: (cells.padding + (runs[k].col_start as u32) * cells.width) as u32,
                y: (cells.padding + (runs[k].row as u32) * cells.height) as u32,
                width: ((runs[k].col_count as u32) * cells.width) as u32,
                height: cells.height,
                color: runs[k].color,
            })
            &&& on ==> rects[runs.len() as int].color == theme.cursor
        }),
{
    let spans = content.spans;
    let runs = decorated(spans, spans.len() as int, Decoration::Background);
    if 0 <= k < runs.len() {
        lemma_cells_rects(cells, runs, 0, cells.height, k);
    }
}

/// Over the text there is a line for each underline, a pixel above the bottom of its
/// cells, and one for each strikeout, half way down, all of them as thick as asked
/// for and as long as their cells.
pub proof fn lines_are_placed_in_their_cells(
    cells: CellPixels,
    content: Content,
    line_thickness: u32,
    k: int,
)
    ensures
        ({
            let spans = content.spans;
            let n = spans.len() as int;
            let underlines = decorated(spans, n, Decoration::Underline);
            let strikeouts = decorated(spans, n, Decoration::Strikeout);
            let rects = over_rects(cells, content, line_thickness);
            let below = if line_thickness + 1 <= cells.height {
                cells.height - line_thickness - 1
            } else {
                0
            };
            &&& rects.len() == underlines.len() + strikeouts.len()
            &&& 0 <= k < underlines.len() ==> rects[k] == (CursorRect {
                x: (cells.padding + (underlines[k].col_start as u32) * cells.width) as u32,
                y: (cells.padding + (underlines[k].row as u32) * cells.height + below) as u32,
                width: ((underlines[k].col_count as u32) * cells.width) as u32,
                height: line_thickness,
                color: underlines[k].color,
            })
            &&& 0 <= k < strikeouts.len() ==> rects[underlines.len() + k] == (CursorRect {
                x: (cells.padding + (strikeouts[k].col_start as u32) * cells.width) as u32,
                y: (cells.padding + (strikeouts[k].row as u32) * cells.height + cells.height
                    / 2) as u32,
                width: ((strikeouts[k].col_count as u32) * cells.width) as u32,
                height: line_thickness,
                color: strikeouts[k].color,
            })
        }),
{
    let spans = content.spans;
    let n = spans.len() as int;
    let underlines = decorated(spans, n, Decoration::Underline);
    let strikeouts = decorated(spans, n, Decoration::Strikeout);
    if 0 <= k < underlines.len() {
        lemma_cells_rects(
            cells,
            underlines,
            underline_offset(cells.height, line_thickness),
            line_thickness,
            k,
        );
    }
    if 0 <= k < strikeouts.len() {
        lemma_cells_rects(
            cells,
            strikeouts,
            strikeout_offset(cells.height),
            line_thickness,
            k,
        );
    }
}

/// A block covers its cell, a beam is a bar at the cell's left, and an underline is
/// one at its bottom; each is in the color that is asked for.
pub proof fn cursor_has_its_shape(
    cells: CellPixels,
    row: usize,
    col: usize,
    shape: CursorShape,
    thin_bar: u32,
    color: Rgb,
)
    ensures
        ({
            let rect = cursor_rect(cells, row, col, shape, thin_bar, color);
            let x = (cells.padding + (col as u32) * cells.width) as u32;
            let y = (cells.padding + (row as u32) * cells.height) as u32;
            let low = if thin_bar < cells.height {
                cells.height - thin_bar
            } else {
                0
            };
            &&& rect.color == color
            &&& shape == CursorShape::Block ==> rect.x == x && rect.y == y && rect.width
                == cells.width && rect.height == cells.height
            &&& shape == CursorShape::Beam ==> rect.x == x && rect.y == y && rect.width == thin_bar
                && rect.height == cells.height
            &&& shape == CursorShape::Underline ==> rect.x == x && rect.y == (cells.padding + (
            row as u32) * cells.height + low) as u32 && rect.width == cells.width && rect.height
                == thin_bar
            &&& shape == CursorShape::Hidden ==> rect.width == 0 && rect.height == 0
        }),
{
}

/// A cursor that is on is drawn on its cell, in the theme's color for it, whatever
/// else the screen shows: a block over the whole cell, a beam at its left, an
/// underline at its bottom.
pub proof fn cursor_is_drawn_whenever_it_is_on(
    surface: TerminalSurface,
    frame: Frame,
    content: Content,
    elapsed_ms: u64,
    metrics: PixelMetrics,
)
    requires
        surface.shows(frame, content, elapsed_ms, metrics),
        content.cursor_shape != CursorShape::Hidden,
        elapsed_ms % 1000 < 500,
        surface.cell_width > 0,
        surface.cell_height > 0,
        metrics.thin_bar > 0,
    ensures
        ({
            let x = (metrics.padding + (content.cursor_col as u32) * surface.cell_width) as u32;
            let y = metrics.padding + (content.cursor_row as u32) * surface.cell_height;
            let low = if metrics.thin_bar < surface.cell_height {
                surface.cell_height - metrics.thin_bar
            } else {
                0
            };
            let color = surface.theme.cursor;
            &&& content.cursor_shape == CursorShape::Block ==> is_drawn(
                frame.under@,
                CursorRect {
                    x,
                    y: y as u32,
                    width: surface.cell_width,
                    height: surface.cell_height,
                    color,
                },
            )
            &&& content.cursor_shape == CursorShape::Beam ==> is_drawn(
                frame.under@,
                CursorRect {
                    x,
                    y: y as u32,
                    width: metrics.thin_bar,
                    height: surface.cell_height,
                    color,
                },
            )
            &&& content.cursor_shape == CursorShape::Underline ==> is_drawn(
                frame.under@,
                CursorRect {
                    x,
                    y: (y + low) as u32,
                    width: surface.cell_width,
                    height: metrics.thin_bar,
                    color,
                },
            )
        }),
{
    let cells = surface.cells(metrics);
    let spans = content.spans;
    let runs = decorated(spans, spans.len() as int, Decoration::Background);
    let rects = under_rects(cells, content, true, metrics.thin_bar, surface.theme);
    cursor_is_on_for_half_of_each_second(content.cursor_shape, elapsed_ms);
    cursor_comes_on_top_of_all_backgrounds(
        cells,
        content,
        true,
        metrics.thin_bar,
        surface.theme,
        0,
    );
    cursor_has_its_shape(
        cells,
        content.cursor_row,
        content.cursor_col,
        content.cursor_shape,
        metrics.thin_bar,
        surface.theme.cursor,
    );
    rect_with_area_is_drawn(frame.under@, rects, runs.len() as int);
}

/// Whether a rectangle below the text is the background of one of the spans: over
/// the span's cells, and in its color.
pub open spec fn is_background_of(
    surface: TerminalSurface,
    content: Content,
    metrics: PixelMetrics,
    rect: CursorRect,
    j: int,
) -> bool {
    let spans = content.spans;
    &&& 0 <= j < spans.len()
    &&& spans[j].text != seq!['\n']
    &&& spans[j].attrs.bg == Some(rect.color)
    &&& rect.x == (metrics.padding + (col_of(spans, j) as usize as u32) * surface.cell_width) as u32
    &&& rect.y == (metrics.padding + (line_of(spans, j) as usize as u32)
        * surface.cell_height) as u32
    &&& rect.width == ((spans[j].cols as usize as u32) * surface.cell_width) as u32
    &&& rect.height == surface.cell_height
}

/// The backgrounds of the first `n` spans are those of spans that have one.
proof fn lemma_background_has_its_span(spans: Seq<Span>, n: int, k: int)
    requires
        0 <= n <= spans.len(),
        0 <= k < decorated(spans, n, Decoration::Background).len(),
    ensures
        exists|j: int|
            #![trigger spans[j]]
            0 <= j < n && spans[j].text != seq!['\n'] && spans[j].attrs.bg is Some && decorated(
                spans,
                n,
                Decoration::Background,
            )[k] == (CellRect {
                row: line_of(spans, j) as usize,
                col_start: col_of(spans, j) as usize,
                col_count: spans[j].cols as usize,
                color: spans[j].attrs.bg->0,
            }),
    decreases n,
{
    if n > 0 {
        decorations_follow_their_spans(spans, n - 1);
        if k < decorated(spans, n - 1, Decoration::Background).len() {
            lemma_background_has_its_span(spans, n - 1, k);
        } else {
            let j = n - 1;
            assert(spans[j].attrs.bg is Some);
        }
    }
}

proof fn lemma_background_is_listed(spans: Seq<Span>, n: int, j: int)
    requires
        0 <= j < n <= spans.len(),
        spans[j].text != seq!['\n'],
        spans[j].attrs.bg is Some,
    ensures
        exists|k: int|
            0 <= k < decorated(spans, n, Decoration::Background).len() && #[trigger] decorated(
                spans,
                n,
                Decoration::Background,
            )[k] == (CellRect {
                row: line_of(spans, j) as usize,
                col_start: col_of(spans, j) as usize,
                col_count: spans[j].cols as usize,
                color: spans[j].attrs.bg->0,
            }),
    decreases n,
{
    decorations_follow_their_spans(spans, n - 1);
    let before = decorated(spans, n - 1, Decoration::Background);
    let after = decorated(spans, n, Decoration::Background);
    if j < n - 1 {
        lemma_background_is_listed(spans, n - 1, j);
        let k = choose|k: int|
            0 <= k < before.len() && #[trigger] before[k] == (CellRect {
                row: line_of(spans, j) as usize,
                col_start: col_of(spans, j) as usize,
                col_count: spans[j].cols as usize,
                color: spans[j].attrs.bg->0,
            });
        assert(after[k] == before[k]);
    } else {
        assert(after[before.len() as int] == after.last());
    }
}

/// The background of a span is drawn, over all of the span's cells and in its own
/// color, wherever the cursor is and whatever else is drawn.
pub proof fn background_is_drawn_behind_its_span(
    surface: TerminalSurface,
    frame: Frame,
    content: Content,
    elapsed_ms: u64,
    metrics: PixelMetrics,
    j: int,
    rect: CursorRect,
)
    requires
        surface.shows(frame, content, elapsed_ms, metrics),
        is_background_of(surface, content, metrics, rect, j),
        rect.width > 0,
        rect.height > 0,
    ensures
        is_drawn(frame.under@, rect),
{
    let spans = content.spans;
    let n = spans.len() as int;
    let on = cursor_is_on(content.cursor_shape, elapsed_ms);
    let cells = surface.cells(metrics);
    let runs = decorated(spans, n, Decoration::Background);
    let rects = under_rects(cells, content, on, metrics.thin_bar, surface.theme);
    lemma_background_is_listed(spans, n, j);
    let k = choose|k: int|
        0 <= k < runs.len() && #[trigger] runs[k] == (CellRect {
            row: line_of(spans, j) as usize,
            col_start: col_of(spans, j) as usize,
            col_count: spans[j].cols as usize,
            color: spans[j].attrs.bg->0,
        });
    cursor_comes_on_top_of_all_backgrounds(
        cells,
        content,
        on,
        metrics.thin_bar,
        surface.theme,
        k,
    );
    assert(rects[k] == rect);
    rect_with_area_is_drawn(frame.under@, rects, k);
}

/// Nothing but backgrounds and the cursor is drawn below the text, and with the
/// cursor off or hidden the backgrounds alone.
pub proof fn only_backgrounds_and_cursor_are_below_the_text(
    surface: TerminalSurface,
    frame: Frame,
    content: Content,
    elapsed_ms: u64,
    metrics: PixelMetrics,
    i: int,
    m: int,
)
    requires
        surface.shows(frame, content, elapsed_ms, metrics),
        0 <= i < frame.under@.len(),
        0 <= m < frame.under@[i].rects@.len(),
    ensures
        ({
            let rect = frame.under@[i].rects@[m];
            ||| exists|j: int| is_background_of(surface, content, metrics, rect, j)
            ||| {
                &&& content.cursor_shape != CursorShape::Hidden
                &&& elapsed_ms % 1000 < 500
                &&& rect.color == surface.theme.cursor
            }
        }),
{
    let spans = content.spans;
    let n = spans.len() as int;
    let on = cursor_is_on(content.cursor_shape, elapsed_ms);
    let cells = surface.cells(metrics);
    let runs = decorated(spans, n, Decoration::Background);
    let rects = under_rects(cells, content, on, metrics.thin_bar, surface.theme);
    let rect = frame.under@[i].rects@[m];
    cursor_is_on_for_half_of_each_second(content.cursor_shape, elapsed_ms);
    nothing_else_is_drawn(frame.under@, rects, i, m);
    let k = choose|k: int| 0 <= k < rects.len() && rects[k] == rect;
    cursor_comes_on_top_of_all_backgrounds(
        cells,
        content,
        on,
        metrics.thin_bar,
        surface.theme,
        k,
    );
    if k < runs.len() {
        lemma_background_has_its_span(spans, n, k);
        let j = choose|j: int|
            #![trigger spans[j]]
            0 <= j < n && spans[j].text != seq!['\n'] && spans[j].attrs.bg is Some && runs[k] == (
            CellRect {
                row: line_of(spans, j) as usize,
                col_start: col_of(spans, j) as usize,
                col_count: spans[j].cols as usize,
                color: spans[j].attrs.bg->0,
            });
        assert(is_background_of(surface, content, metrics, rect, j));
    }
}

/// Whether a rectangle over the text is the underline of one of the spans, or its
/// strikeout: over the span's cells, and in the color of its text.
pub open spec fn is_line_of(
    surface: TerminalSurface,
    content: Content,
    metrics: PixelMetrics,
    rect: CursorRect,
    j: int,
    strikeout: bool,
) -> bool {
    let spans = content.spans;
    let down = if strikeout {
        (surface.cell_height / 2) as int
    } else if metrics.line_thickness + 1 <= surface.cell_height {
        surface.cell_height - metrics.line_thickness - 1
    } else {
        0
    };
    &&& 0 <= j < spans.len()
    &&& spans[j].text != seq!['\n']
    &&& strikeout ==> spans[j].attrs.strikeout
    &&& !strikeout ==> spans[j].attrs.underline
    &&& rect.color == spans[j].attrs.fg
    &&& rect.x == (metrics.padding + (col_of(spans, j) as usize as u32) * surface.cell_width) as u32
    &&& rect.y == (metrics.padding + (line_of(spans, j) as usize as u32) * surface.cell_height
        + down) as u32
    &&& rect.width == ((spans[j].cols as usize as u32) * surface.cell_width) as u32
    &&& rect.height == metrics.line_thickness
}

/// Whether span `j` has a line of the given kind.
spec fn has_line(span: Span, strikeout: bool) -> bool {
    span.text != seq!['\n'] && if strikeout {
        span.attrs.strikeout
    } else {
        span.attrs.underline
    }
}

spec fn lines(spans: Seq<Span>, n: int, strikeout: bool) -> Seq<CellRect> {
    if strikeout {
        decorated(spans, n, Decoration::Strikeout)
    } else {
        decorated(spans, n, Decoration::Underline)
    }
}

spec fn line_cells(spans: Seq<Span>, j: int) -> CellRect {
    CellRect {
        row: line_of(spans, j) as usize,
        col_start: col_of(spans, j) as usize,
        col_count: spans[j].cols as usize,
        color: spans[j].attrs.fg,
    }
}

proof fn lemma_line_is_listed(spans: Seq<Span>, n: int, j: int, strikeout: bool)
    requires
        0 <= j < n <= spans.len(),
        has_line(spans[j], strikeout),
    ensures
        exists|k: int|
            0 <= k < lines(spans, n, strikeout).len() && #[trigger] lines(spans, n, strikeout)[k]
                == line_cells(spans, j),
    decreases n,
{
    decorations_follow_their_spans(spans, n - 1);
    let before = lines(spans, n - 1, strikeout);
    let after = lines(spans, n, strikeout);
    if j < n - 1 {
        lemma_line_is_listed(spans, n - 1, j, strikeout);
        let k = choose|k: int|
            0 <= k < before.len() && #[trigger] before[k] == line_cells(spans, j);
        assert(after[k] == before[k]);
    } else {
        assert(after[before.len() as int] == after.last());
    }
}

proof fn lemma_line_has_its_span(spans: Seq<Span>, n: int, k: int, strikeout: bool)
    requires
        0 <= n <= spans.len(),
        0 <= k < lines(spans, n, strikeout).len(),
    ensures
        exists|j: int|
            #![trigger spans[j]]
            0 <= j < n && has_line(spans[j], strikeout) && lines(spans, n, strikeout)[k]
                == line_cells(spans, j),
    decreases n,
{
    if n > 0 {
        decorations_follow_their_spans(spans, n - 1);
        if k < lines(spans, n - 1, strikeout).len() {
            lemma_line_has_its_span(spans, n - 1, k, strikeout);
        } else {
            let j = n - 1;
            assert(has_line(spans[j], strikeout));
        }
    }
}

/// The underline of a span and its strikeout are drawn over all of the span's cells,
/// in the color of its text, a span that has both with both of them.
pub proof fn lines_are_drawn_over_their_span(
    surface: TerminalSurface,
    frame: Frame,
    content: Content,
    elapsed_ms: u64,
    metrics: PixelMetrics,
    j: int,
    strikeout: bool,
    rect: CursorRect,
)
    requires
        surface.shows(frame, content, elapsed_ms, metrics),
        is_line_of(surface, content, metrics, rect, j, strikeout),
        rect.width > 0,
        rect.height > 0,
    ensures
        is_drawn(frame.over@, rect),
{
    let spans = content.spans;
    let n = spans.len() as int;
    let cells = surface.cells(metrics);
    let found = lines(spans, n, strikeout);
    let rects = over_rects(cells, content, metrics.line_thickness);
    lemma_line_is_listed(spans, n, j, strikeout);
    let k = choose|k: int| 0 <= k < found.len() && #[trigger] found[k] == line_cells(spans, j);
    lines_are_placed_in_their_cells(cells, content, metrics.line_thickness, k);
    let at = if strikeout {
        decorated(spans, n, Decoration::Underline).len() + k
    } else {
        k
    };
    assert(rects[at] == rect);
    rect_with_area_is_drawn(frame.over@, rects, at);
}

/// Nothing but underlines and strikeouts is drawn over the text.
pub proof fn only_lines_are_over_the_text(
    surface: TerminalSurface,
    frame: Frame,
    content: Content,
    elapsed_ms: u64,
    metrics: PixelMetrics,
    i: int,
    m: int,
)
    requires
        surface.shows(frame, content, elapsed_ms, metrics),
        0 <= i < frame.over@.len(),
        0 <= m < frame.over@[i].rects@.len(),
    ensures
        exists|j: int, strikeout: bool|
            is_line_of(surface, content, metrics, frame.over@[i].rects@[m], j, strikeout),
{
    let spans = content.spans;
    let n = spans.len() as int;
    let cells = surface.cells(metrics);
    let rects = over_rects(cells, content, metrics.line_thickness);
    let rect = frame.over@[i].rects@[m];
    nothing_else_is_drawn(frame.over@, rects, i, m);
    let at = choose|at: int| 0 <= at < rects.len() && rects[at] == rect;
    let first = decorated(spans, n, Decoration::Underline).len() as int;
    let strikeout = at >= first;
    let k = if strikeout {
        at - first
    } else {
        at
    };
    lines_are_placed_in_their_cells(cells, content, metrics.line_thickness, k);
    lemma_line_has_its_span(spans, n, k, strikeout);
    let j = choose|j: int|
        #![trigger spans[j]]
        0 <= j < n && has_line(spans[j], strikeout) && lines(spans, n, strikeout)[k] == line_cells(
            spans,
            j,
        );
    assert(is_line_of(surface, content, metrics, rect, j, strikeout));
}

/// Each rectangle of a frame is drawn as often as the screen has it: one for each
/// background and one for the cursor while it is on.
pub proof fn nothing_is_drawn_twice(
    surface: TerminalSurface,
    frame: Frame,
    content: Content,
    elapsed_ms: u64,
    metrics: PixelMetrics,
    rect: CursorRect,
)
    requires
        surface.shows(frame, content, elapsed_ms, metrics),
        rect.width > 0,
        rect.height > 0,
    ensures
        ({
            let on = content.cursor_shape != CursorShape::Hidden && elapsed_ms % 1000 < 500;
            let cells = CellPixels {
                padding: metrics.padding,
                width: surface.cell_width,
                height: surface.cell_height,
            };
            &&& batched(frame.under@, frame.under@.len() as int).to_multiset().count(rect)
                == under_rects(
                cells,
                content,
                on,
                metrics.thin_bar,
                surface.theme,
            ).to_multiset().count(rect)
            &&& batched(frame.over@, frame.over@.len() as int).to_multiset().count(rect)
                == over_rects(cells, content, metrics.line_thickness).to_multiset().count(rect)
        }),
{
    let on = cursor_is_on(content.cursor_shape, elapsed_ms);
    let cells = surface.cells(metrics);
    cursor_is_on_for_half_of_each_second(content.cursor_shape, elapsed_ms);
    rects_are_drawn_as_often_as_asked(
        frame.under@,
        under_rects(cells, content, on, metrics.thin_bar, surface.theme),
        rect,
    );
    rects_are_drawn_as_often_as_asked(
        frame.over@,
        over_rects(cells, content, metrics.line_thickness),
        rect,
    );
}

/// A frame has the hash of its screen, and its text in the surface's own theme, cut
/// around the cursor only while that is a block and on.
pub proof fn frame_has_the_text_of_its_screen(
    surface: TerminalSurface,
    frame: Frame,
    content: Content,
    elapsed_ms: u64,
    metrics: PixelMetrics,
)
    requires
        surface.shows(frame, content, elapsed_ms, metrics),
    ensures
        frame.content_hash == content_digest(content),
        is_text(
            frame.text@,
            frame.runs@,
            pieces(
                content.spans,
                content.spans.len() as int,
                if content.cursor_shape == CursorShape::Block && elapsed_ms % 1000 < 500 {
                    Some((content.cursor_row, content.cursor_col))
                } else {
                    None
                },
                surface.theme,
            ),
        ),
{
    cursor_is_on_for_half_of_each_second(content.cursor_shape, elapsed_ms);
}

/// A frame draws each span that no block cursor is in with the span's own text, in
/// its own color, bold where it is bold and italic where it is italic.
pub proof fn frame_draws_spans_in_their_own_style(
    surface: TerminalSurface,
    frame: Frame,
    content: GridContent,
    elapsed_ms: u64,
    metrics: PixelMetrics,
    j: int,
)
    requires
        surface.shows(frame, content@, elapsed_ms, metrics),
        0 <= j < content.spans@.len(),
        content.spans@[j].text@ != seq!['\n'],
        !(content.cursor_shape == CursorShape::Block && elapsed_ms % 1000 < 500 && line_of(
            content@.spans,
            j,
        ) == content.cursor_row && col_of(content@.spans, j) <= content.cursor_col < col_of(
            content@.spans,
            j,
        ) + content.spans@[j].cols),
    ensures
        exists|i: int|
            0 <= i < frame.runs@.len() && ({
                let run = #[trigger] frame.runs@[i];
                let span = content.spans@[j];
                &&& encode_utf8(frame.text@).subrange(run.start as int, run.end as int)
                    == encode_utf8(span.text@)
                &&& run.r == span.r && run.g == span.g && run.b == span.b
                &&& run.bold == span.bold
                &&& run.italic == span.italic
            }),
{
    let cursor = if content.cursor_shape == CursorShape::Block && elapsed_ms % 1000 < 500 {
        Some((content.cursor_row, content.cursor_col))
    } else {
        None
    };
    frame_has_the_text_of_its_screen(surface, frame, content@, elapsed_ms, metrics);
    assert(content@.spans[j] == content.spans@[j]@);
    span_is_drawn_in_its_own_style(
        frame.text@,
        frame.runs@,
        content@.spans,
        cursor,
        surface.theme,
        j,
    );
    let i = pieces(content@.spans, j, cursor, surface.theme).len() as int;
    assert(frame.runs@[i].r == content.spans@[j].r);
}

/// Anything whose columns and pixels can be counted can be drawn: each background and
/// each line with its place and its length, and the cursor's place while it is on.
pub proof fn countable_pixels_can_be_drawn(
    cells: CellPixels,
    content: Content,
    on: bool,
    metrics: PixelMetrics,
)
    requires
        forall|i: int|
            0 <= i <= content.spans.len() ==> #[trigger] col_of(content.spans, i) <= usize::MAX,
        metrics.line_thickness < u32::MAX,
        forall|decoration: Decoration, k: int|
            #![trigger decorated(content.spans, content.spans.len() as int, decoration)[k]]
            0 <= k < decorated(content.spans, content.spans.len() as int, decoration).len() ==> {
                let run = decorated(content.spans, content.spans.len() as int, decoration)[k];
                &&& cells.padding + (run.col_start as u32) * cells.width <= u32::MAX
                &&& cells.padding + (run.row as u32) * cells.height + cells.height <= u32::MAX
                &&& (run.col_count as u32) * cells.width <= u32::MAX
            },
        cells.padding + (content.cursor_col as u32) * cells.width <= u32::MAX,
        cells.padding + (content.cursor_row as u32) * cells.height + cells.height <= u32::MAX,
    ensures
        frame_fits(cells, content, on, metrics),
{
}

/// A surface can draw any screen whose pixels can be counted, at any time.
pub proof fn surface_can_draw_any_screen(
    surface: TerminalSurface,
    screen: Screen,
    elapsed_ms: u64,
    metrics: PixelMetrics,
)
    requires
        screen.wf(),
        no_breaks(screen),
        screen.cursor_row < screen.lines,
        screen.columns <= u32::MAX,
        screen.lines <= u32::MAX,
        metrics.padding + screen.columns * surface.cell_width <= u32::MAX,
        metrics.padding + screen.lines * surface.cell_height <= u32::MAX,
        metrics.line_thickness < u32::MAX,
    ensures
        surface.can_draw(screen_content(screen, surface.theme), elapsed_ms, metrics),
{
    let content = screen_content(screen, surface.theme);
    screen_can_be_drawn(
        screen,
        surface.theme,
        surface.cells(metrics),
        cursor_is_on(content.cursor_shape, elapsed_ms),
        metrics,
    );
}

/// Drawing changes nothing of a surface but where its cursor was last seen: on its
/// cell while it is on, and nowhere while it is off.
pub proof fn drawing_remembers_the_cursor_alone(
    surface: TerminalSurface,
    content: Content,
    elapsed_ms: u64,
)
    ensures
        ({
            let after = surface.drawn(content, elapsed_ms);
            let on = content.cursor_shape != CursorShape::Hidden && elapsed_ms % 1000 < 500;
            &&& on ==> after.cursor_pos == Some(
                (content.cursor_row, content.cursor_col, content.cursor_shape),
            )
            &&& !on ==> after.cursor_pos is None
            &&& after.width == surface.width && after.height == surface.height
            &&& after.cell_width == surface.cell_width && after.cell_height == surface.cell_height
            &&& after.theme == surface.theme
            &&& after.font_family == surface.font_family
            &&& after.backend == surface.backend
        }),
{
    cursor_is_on_for_half_of_each_second(content.cursor_shape, elapsed_ms);
}

} // verus!
