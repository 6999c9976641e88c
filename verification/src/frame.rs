//! From what a terminal shows to what is drawn of it in pixels.
use crate::cursor::{batch_by_color, draws_all, CursorRect, RectBatch};
use crate::digest::{content_digest, content_hash};
use crate::layout::{
    block_cursor, can_lay_out, check_layout, decorated, is_text, lay_out, pieces, CellRect,
    Decoration, SpanRange,
};
use crate::terminal::{Content, CursorShape, GridContent};
use crate::theme::{Rgb, TerminalTheme};
use vstd::prelude::*;

verus! {

/// Lengths in pixels that follow from the display's scale.
#[derive(Clone, Copy)]
pub struct PixelMetrics {
    /// Space around the text.
    pub padding: u32,
    /// Thickness of a beam or underline cursor.
    pub thin_bar: u32,
    /// Thickness of the lines under and through text.
    pub line_thickness: u32,
}

/// What is drawn in one go.
pub struct Frame {
    /// Hash of the screen, by which an idle terminal can be told.
    pub content_hash: u64,
    pub text: String,
    pub runs: Vec<SpanRange>,
    /// What is drawn below the text: the cells' backgrounds and the cursor.
    pub under: Vec<RectBatch>,
    /// What is drawn over the text: underlines and strikeouts.
    pub over: Vec<RectBatch>,
}

/// The larger of two numbers.
pub open spec fn larger(a: int, b: int) -> int {
    if a < b {
        b
    } else {
        a
    }
}

/// Whether the cursor is on: it is on and off for half a second each, and never
/// on where it is hidden.
pub open spec fn cursor_is_on(shape: CursorShape, elapsed_ms: u64) -> bool {
    shape != CursorShape::Hidden && elapsed_ms / 500 % 2 == 0
}

/// Tells whether the cursor is on.
///
/// This goes by the time alone, so that the cursor blinks evenly whatever the
/// frame rate.
pub fn cursor_visible(shape: CursorShape, elapsed_ms: u64) -> (on: bool)
    ensures
        on == cursor_is_on(shape, elapsed_ms),
{
    shape != CursorShape::Hidden && (elapsed_ms / 500) % 2 == 0
}

/// Pixel position and size of the cells.
#[derive(Clone, Copy)]
pub struct CellPixels {
    pub padding: u32,
    pub width: u32,
    pub height: u32,
}

/// Where a column starts.
pub open spec fn column_x(cells: CellPixels, col: usize) -> int {
    cells.padding + (col as u32) * cells.width
}

/// Where a row starts.
pub open spec fn row_y(cells: CellPixels, row: usize) -> int {
    cells.padding + (row as u32) * cells.height
}

/// Whether the pixels of a run of cells can be counted.
pub open spec fn cells_fit(cells: CellPixels, run: CellRect, y_offset: u32) -> bool {
    &&& column_x(cells, run.col_start) <= u32::MAX
    &&& row_y(cells, run.row) + y_offset <= u32::MAX
    &&& (run.col_count as u32) * cells.width <= u32::MAX
}

/// The rectangle over a run of cells, from `y_offset` below their top on.
pub open spec fn cells_rect(
    cells: CellPixels,
    run: CellRect,
    y_offset: u32,
    height: u32,
) -> CursorRect {
    CursorRect {
        x: column_x(cells, run.col_start) as u32,
        y: (row_y(cells, run.row) + y_offset) as u32,
        width: ((run.col_count as u32) * cells.width) as u32,
        height,
        color: run.color,
    }
}

/// The rectangles over a sequence of runs of cells.
pub open spec fn cells_rects(
    cells: CellPixels,
    runs: Seq<CellRect>,
    y_offset: u32,
    height: u32,
) -> Seq<CursorRect> {
    runs.map_values(|run: CellRect| cells_rect(cells, run, y_offset, height))
}

/// Whether the pixels of all of a sequence of runs of cells can be counted.
pub open spec fn all_cells_fit(cells: CellPixels, runs: Seq<CellRect>, y_offset: u32) -> bool {
    forall|i: int| 0 <= i < runs.len() ==> cells_fit(cells, #[trigger] runs[i], y_offset)
}

/// `a - b`, or zero where that is less.
pub open spec fn minus(a: u32, b: int) -> u32 {
    larger(a - b, 0) as u32
}

/// Whether the pixels of a cursor can be counted.
pub open spec fn cursor_fits(
    cells: CellPixels,
    row: usize,
    col: usize,
    shape: CursorShape,
    thin_bar: u32,
) -> bool {
    &&& column_x(cells, col) <= u32::MAX
    &&& row_y(cells, row) <= u32::MAX
    &&& shape == CursorShape::Underline ==> row_y(cells, row) + minus(
        cells.height,
        thin_bar as int,
    ) <= u32::MAX
}

/// The rectangle of a cursor: the whole cell, a bar at its bottom or a bar at its
/// left.
pub open spec fn cursor_rect(
    cells: CellPixels,
    row: usize,
    col: usize,
    shape: CursorShape,
    thin_bar: u32,
    color: Rgb,
) -> CursorRect {
    let x = column_x(cells, col) as u32;
    let y = row_y(cells, row);
    match shape {
        CursorShape::Block => CursorRect {
            x,
            y: y as u32,
            width: cells.width,
            height: cells.height,
            color,
        },
        CursorShape::Underline => CursorRect {
            x,
            y: (y + minus(cells.height, thin_bar as int)) as u32,
            width: cells.width,
            height: thin_bar,
            color,
        },
        CursorShape::Beam => CursorRect {
            x,
            y: y as u32,
            width: thin_bar,
            height: cells.height,
            color,
        },
        CursorShape::Hidden => CursorRect { x: 0, y: 0, width: 0, height: 0, color },
    }
}

/// How far below the top of a cell its underline is: the line and one pixel
/// above the bottom.
pub open spec fn underline_offset(cell_height: u32, line_thickness: u32) -> u32 {
    minus(cell_height, line_thickness + 1)
}

/// How far below the top of a cell its strikeout is: half the cell.
pub open spec fn strikeout_offset(cell_height: u32) -> u32 {
    (cell_height / 2) as u32
}

/// What is below the text: the backgrounds, then the cursor where it is on.
pub open spec fn under_rects(
    cells: CellPixels,
    content: Content,
    on: bool,
    thin_bar: u32,
    theme: TerminalTheme,
) -> Seq<CursorRect> {
    let spans = content.spans;
    let backgrounds = cells_rects(
        cells,
        decorated(spans, spans.len() as int, Decoration::Background),
        0,
        cells.height,
    );
    if on {
        backgrounds.push(
            cursor_rect(
                cells,
                content.cursor_row,
                content.cursor_col,
                content.cursor_shape,
                thin_bar,
                theme.cursor,
            ),
        )
    } else {
        backgrounds
    }
}

/// What is over the text: the underlines, then the strikeouts.
pub open spec fn over_rects(cells: CellPixels, content: Content, line_thickness: u32) -> Seq<
    CursorRect,
> {
    let spans = content.spans;
    let n = spans.len() as int;
    cells_rects(
        cells,
        decorated(spans, n, Decoration::Underline),
        underline_offset(cells.height, line_thickness),
        line_thickness,
    ) + cells_rects(
        cells,
        decorated(spans, n, Decoration::Strikeout),
        strikeout_offset(cells.height),
        line_thickness,
    )
}

/// Whether a frame of a screen can be drawn up: its spans can be laid out and
/// the pixels of everything around the text can be counted.
pub open spec fn frame_fits(
    cells: CellPixels,
    content: Content,
    on: bool,
    metrics: PixelMetrics,
) -> bool {
    let spans = content.spans;
    let n = spans.len() as int;
    let underlines = decorated(spans, n, Decoration::Underline);
    let strikeouts = decorated(spans, n, Decoration::Strikeout);
    &&& can_lay_out(spans)
    &&& all_cells_fit(cells, decorated(spans, n, Decoration::Background), 0)
    &&& on ==> cursor_fits(
        cells,
        content.cursor_row,
        content.cursor_col,
        content.cursor_shape,
        metrics.thin_bar,
    )
    &&& underlines.len() + strikeouts.len() > 0 ==> metrics.line_thickness < u32::MAX
    &&& all_cells_fit(
        cells,
        underlines,
        underline_offset(cells.height, metrics.line_thickness),
    )
    &&& all_cells_fit(cells, strikeouts, strikeout_offset(cells.height))
}

/// Whether `frame` is the frame of a screen.
pub open spec fn is_frame(
    frame: Frame,
    cells: CellPixels,
    content: Content,
    on: bool,
    metrics: PixelMetrics,
    theme: TerminalTheme,
) -> bool {
    let spans = content.spans;
    let cursor = block_cursor(content.cursor_row, content.cursor_col, content.cursor_shape, on);
    &&& frame.content_hash == content_digest(content)
    &&& is_text(frame.text@, frame.runs@, pieces(spans, spans.len() as int, cursor, theme))
    &&& draws_all(frame.under@, under_rects(cells, content, on, metrics.thin_bar, theme))
    &&& draws_all(frame.over@, over_rects(cells, content, metrics.line_thickness))
}

fn place_cells(cells: CellPixels, run: &CellRect, y_offset: u32, height: u32) -> (rect: CursorRect)
    requires
        cells_fit(cells, *run, y_offset),
    ensures
        rect == cells_rect(cells, *run, y_offset, height),
{
    proof {
        lemma_pixels_nonnegative(cells, run.row, run.col_start);
    }
    CursorRect {
        x: cells.padding + run.col_start as u32 * cells.width,
        y: cells.padding + run.row as u32 * cells.height + y_offset,
        width: run.col_count as u32 * cells.width,
        height,
        color: run.color,
    }
}

proof fn lemma_pixels_nonnegative(cells: CellPixels, row: usize, col: usize)
    ensures
        0 <= (col as u32) * cells.width,
        0 <= (row as u32) * cells.height,
{
    let c = col as u32;
    let r = row as u32;
    assert(0 <= c * cells.width) by (nonlinear_arith);
    assert(0 <= r * cells.height) by (nonlinear_arith);
}

fn place_all(cells: CellPixels, runs: &Vec<CellRect>, y_offset: u32, height: u32, rects: &mut Vec<
    CursorRect,
>)
    requires
        all_cells_fit(cells, runs@, y_offset),
    ensures
        final(rects)@ == old(rects)@ + cells_rects(cells, runs@, y_offset, height),
{
    let mut i: usize = 0;
    while i < runs.len()
        invariant
            i <= runs@.len(),
            all_cells_fit(cells, runs@, y_offset),
            rects@ =~= old(rects)@ + cells_rects(cells, runs@, y_offset, height).take(i as int),
        decreases runs@.len() - i,
    {
        let rect = place_cells(cells, &runs[i], y_offset, height);
        rects.push(rect);
        i += 1;
    }
}

fn place_cursor(
    cells: CellPixels,
    row: usize,
    col: usize,
    shape: CursorShape,
    thin_bar: u32,
    color: Rgb,
) -> (rect: CursorRect)
    requires
        cursor_fits(cells, row, col, shape, thin_bar),
    ensures
        rect == cursor_rect(cells, row, col, shape, thin_bar, color),
{
    proof {
        lemma_pixels_nonnegative(cells, row, col);
    }
    let x: u32 = cells.padding + col as u32 * cells.width;
    let y: u32 = cells.padding + row as u32 * cells.height;
    match shape {
        CursorShape::Block => CursorRect {
            x,
            y,
            width: cells.width,
            height: cells.height,
            color,
        },
        CursorShape::Underline => CursorRect {
            x,
            y: y + cells.height.saturating_sub(thin_bar),
            width: cells.width,
            height: thin_bar,
            color,
        },
        CursorShape::Beam => CursorRect { x, y, width: thin_bar, height: cells.height, color },
        CursorShape::Hidden => CursorRect { x: 0, y: 0, width: 0, height: 0, color },
    }
}

fn check_cells(cells: CellPixels, run: &CellRect, y_offset: u32) -> (ok: bool)
    ensures
        ok == cells_fit(cells, *run, y_offset),
{
    let col: u32 = run.col_start as u32;
    let row: u32 = run.row as u32;
    let count: u32 = run.col_count as u32;
    let max: u128 = u32::MAX as u128;
    proof {
        lemma_product_bound(col, cells.width);
        lemma_product_bound(row, cells.height);
        lemma_product_bound(count, cells.width);
    }
    cells.padding as u128 + col as u128 * cells.width as u128 <= max && cells.padding as u128
        + row as u128 * cells.height as u128 + y_offset as u128 <= max && count as u128
        * cells.width as u128 <= max
}

proof fn lemma_product_bound(a: u32, b: u32)
    ensures
        0 <= a * b < 0x1_0000_0000_0000_0000,
{
    assert(0 <= a * b <= 0xffff_ffff * 0xffff_ffff) by (nonlinear_arith)
        requires
            a <= 0xffff_ffff,
            b <= 0xffff_ffff,
    ;
}

fn check_all_cells(cells: CellPixels, runs: &Vec<CellRect>, y_offset: u32) -> (ok: bool)
    ensures
        ok == all_cells_fit(cells, runs@, y_offset),
{
    let mut i: usize = 0;
    while i < runs.len()
        invariant
            i <= runs@.len(),
            forall|j: int| 0 <= j < i ==> cells_fit(cells, #[trigger] runs@[j], y_offset),
        decreases runs@.len() - i,
    {
        if !check_cells(cells, &runs[i], y_offset) {
            assert(!cells_fit(cells, runs@[i as int], y_offset));
            return false;
        }
        i += 1;
    }
    true
}

fn check_cursor(cells: CellPixels, row: usize, col: usize, shape: CursorShape, thin_bar: u32) -> (ok:
    bool)
    ensures
        ok == cursor_fits(cells, row, col, shape, thin_bar),
{
    let across: u32 = col as u32;
    let down: u32 = row as u32;
    let max: u128 = u32::MAX as u128;
    proof {
        lemma_product_bound(across, cells.width);
        lemma_product_bound(down, cells.height);
    }
    let y: u128 = cells.padding as u128 + down as u128 * cells.height as u128;
    let bar: u128 = cells.height.saturating_sub(thin_bar) as u128;
    cells.padding as u128 + across as u128 * cells.width as u128 <= max && y <= max && (shape
        != CursorShape::Underline || y + bar <= max)
}

fn find_underline(cell_height: u32, line_thickness: u32) -> (offset: u32)
    ensures
        offset == underline_offset(cell_height, line_thickness),
{
    if line_thickness < cell_height {
        cell_height - line_thickness - 1
    } else {
        0
    }
}

/// Tests whether a frame of a screen can be drawn up.
pub fn check_frame(cells: CellPixels, content: &GridContent, on: bool, metrics: PixelMetrics) -> (ok:
    bool)
    ensures
        ok == frame_fits(cells, content@, on, metrics),
{
    if !check_layout(content) {
        return false;
    }
    // The colors make no difference to what fits.
    let layout = lay_out(content, &TerminalTheme::default(), on);
    let lines_fit = (layout.underlines.len() == 0 && layout.strikeouts.len() == 0)
        || metrics.line_thickness < u32::MAX;
    lines_fit && check_all_cells(cells, &layout.backgrounds, 0) && (!on || check_cursor(
        cells,
        content.cursor_row,
        content.cursor_col,
        content.cursor_shape,
        metrics.thin_bar,
    )) && check_all_cells(
        cells,
        &layout.underlines,
        find_underline(cells.height, metrics.line_thickness),
    ) && check_all_cells(cells, &layout.strikeouts, cells.height / 2)
}

/// Draws up the frame of a screen.
pub fn compose_frame(
    cells: CellPixels,
    content: &GridContent,
    on: bool,
    metrics: PixelMetrics,
    theme: &TerminalTheme,
) -> (frame: Frame)
    requires
        frame_fits(cells, content@, on, metrics),
    ensures
        is_frame(frame, cells, content@, on, metrics, *theme),
{
    let hash = content_hash(content);
    let layout = lay_out(content, theme, on);
    let mut under: Vec<CursorRect> = Vec::new();
    place_all(cells, &layout.backgrounds, 0, cells.height, &mut under);
    if on {
        let rect = place_cursor(
            cells,
            content.cursor_row,
            content.cursor_col,
            content.cursor_shape,
            metrics.thin_bar,
            theme.cursor,
        );
        under.push(rect);
    }
    assert(under@ =~= under_rects(cells, content@, on, metrics.thin_bar, *theme));
    let mut over: Vec<CursorRect> = Vec::new();
    let underline = find_underline(cells.height, metrics.line_thickness);
    place_all(cells, &layout.underlines, underline, metrics.line_thickness, &mut over);
    place_all(cells, &layout.strikeouts, cells.height / 2, metrics.line_thickness, &mut over);
    assert(over@ =~= over_rects(cells, content@, metrics.line_thickness));
    Frame {
        content_hash: hash,
        text: layout.text,
        runs: layout.runs,
        under: batch_by_color(&mut under),
        over: batch_by_color(&mut over),
    }
}

} // verus!
