//! From the cells of a screen to the spans of text that are drawn.
use crate::color::{ansi_rgb, ansi_to_rgb, dim_color, dimmed, PALETTE_LEN};
use crate::emulator::{
    cell_flags, decoded_flags, CellFlags, CursorStyle, Screen, Snapshot, TermCell,
};
use crate::terminal::{
    place_views, span_views, CellAttrs, CharCols, ColoredSpan, Content, CursorShape, GridContent,
    Span,
};
use crate::theme::{Rgb, TerminalTheme};
use vstd::prelude::*;

verus! {

/// A cell with its colors resolved.
#[derive(Clone, Copy)]
pub struct CellData {
    pub c: char,
    pub attrs: CellAttrs,
    /// Takes up a column but shows nothing, because of a wide character.
    pub spacer: bool,
    /// Is a spacer for the character in the column before.
    pub second_half: bool,
}

/// The attributes of a cell that nothing was written to.
pub open spec fn plain_attrs(theme: TerminalTheme) -> CellAttrs {
    CellAttrs {
        fg: theme.foreground,
        bg: None,
        bold: false,
        italic: false,
        underline: false,
        strikeout: false,
    }
}

/// A cell that nothing was written to.
pub open spec fn blank_cell(theme: TerminalTheme) -> CellData {
    CellData { c: ' ', attrs: plain_attrs(theme), spacer: false, second_half: false }
}

/// A displayed cell with its colors resolved.
///
/// Concealed characters and the null character show as a space. Inverse video
/// swaps the colors, and its background always shows; any other background shows
/// where it is not the theme's. Dimming applies to the color that is left in
/// front.
pub open spec fn resolved_cell(
    cell: TermCell,
    palette: Seq<Option<Rgb>>,
    theme: TerminalTheme,
) -> CellData {
    let flags = decoded_flags(cell.flags);
    let front = ansi_rgb(if flags.inverse { cell.bg } else { cell.fg }, palette, theme);
    let back = ansi_rgb(if flags.inverse { cell.fg } else { cell.bg }, palette, theme);
    CellData {
        c: if flags.hidden || cell.c == '\0' { ' ' } else { cell.c },
        attrs: CellAttrs {
            fg: if flags.dim { dimmed(front) } else { front },
            bg: if flags.inverse || back != theme.background { Some(back) } else { None },
            bold: flags.bold,
            italic: flags.italic,
            underline: flags.underline,
            strikeout: flags.strikeout,
        },
        spacer: flags.spacer,
        second_half: flags.second_half,
    }
}

/// The cell in a row and column of the grid: the one that was displayed there
/// last, or a blank one.
pub open spec fn grid_cell(
    cells: Seq<TermCell>,
    palette: Seq<Option<Rgb>>,
    theme: TerminalTheme,
    row: int,
    col: int,
) -> CellData
    decreases cells.len(),
{
    if cells.len() == 0 {
        blank_cell(theme)
    } else if cells.last().row == row && cells.last().col == col {
        resolved_cell(cells.last(), palette, theme)
    } else {
        grid_cell(cells.drop_last(), palette, theme, row, col)
    }
}

/// One row of the grid.
pub open spec fn grid_row(screen: Screen, theme: TerminalTheme, row: int) -> Seq<CellData> {
    Seq::new(
        screen.columns as nat,
        |col: int| grid_cell(screen.cells, screen.palette, theme, row, col),
    )
}

/// Whether a cell shows anything.
pub open spec fn is_meaningful(cell: CellData, theme: TerminalTheme) -> bool {
    !cell.spacer && (cell.c != ' ' || cell.attrs != plain_attrs(theme))
}

/// Length of a row without the cells at its end that show nothing.
pub open spec fn meaningful_len(row: Seq<CellData>, theme: TerminalTheme) -> int
    decreases row.len(),
{
    if row.len() == 0 {
        0
    } else if is_meaningful(row.last(), theme) {
        row.len() as int
    } else {
        meaningful_len(row.drop_last(), theme)
    }
}

/// Whether the character in a column of a row is wide: it has a second half in the
/// column behind it.
pub open spec fn is_wide(row: Seq<CellData>, col: int) -> bool {
    &&& 0 <= col < row.len() - 1
    &&& !row[col].spacer
    &&& row[col + 1].spacer
    &&& row[col + 1].second_half
}

/// Length of a row up to the last cell that shows anything, and up to the cursor
/// at least.
pub open spec fn reached_len(screen: Screen, theme: TerminalTheme, row: int) -> int {
    let len = meaningful_len(grid_row(screen, theme, row), theme);
    if row == screen.cursor_row && len <= screen.cursor_col {
        screen.cursor_col + 1
    } else {
        len
    }
}

/// Length of the part of a row that is drawn: up to the last cell that shows
/// anything and up to the cursor at least, and with the second half of a wide
/// character at its end.
pub open spec fn drawn_len(screen: Screen, theme: TerminalTheme, row: int) -> int {
    let len = reached_len(screen, theme, row);
    if is_wide(grid_row(screen, theme, row), len - 1) {
        len + 1
    } else {
        len
    }
}

/// The part of a row that is drawn.
pub open spec fn drawn_row(screen: Screen, theme: TerminalTheme, row: int) -> Seq<CellData> {
    grid_row(screen, theme, row).take(drawn_len(screen, theme, row))
}

/// `places` with a column more for the last one.
pub open spec fn widened(places: Seq<(int, int)>) -> Seq<(int, int)> {
    places.drop_last().push((places.last().0, places.last().1 + 1))
}

/// The spans of a row: its cells in runs of equal attributes.
///
/// A spacer belongs to the span before it, or to the first one where there is
/// none before it. A character stands on its own column, and on the one behind it
/// where that is its second half.
pub open spec fn row_spans(row: Seq<CellData>) -> Seq<Span>
    decreases row.len(),
{
    if row.len() == 0 {
        Seq::empty()
    } else {
        let cell = row.last();
        let before = row_spans(row.drop_last());
        if before.len() == 0 {
            if cell.spacer {
                Seq::empty()
            } else {
                seq![
                    Span {
                        text: seq![cell.c],
                        attrs: cell.attrs,
                        cols: row.len() as int,
                        places: seq![(row.len() - 1, row.len() as int)],
                    },
                ]
            }
        } else if cell.spacer {
            before.drop_last().push(
                Span {
                    cols: before.last().cols + 1,
                    places: if is_wide(row, row.len() - 2) {
                        widened(before.last().places)
                    } else {
                        before.last().places
                    },
                    ..before.last()
                },
            )
        } else if before.last().attrs == cell.attrs {
            before.drop_last().push(
                Span {
                    text: before.last().text.push(cell.c),
                    attrs: cell.attrs,
                    cols: before.last().cols + 1,
                    places: before.last().places.push(
                        (before.last().cols, before.last().cols + 1),
                    ),
                },
            )
        } else {
            before.push(
                Span {
                    text: seq![cell.c],
                    attrs: cell.attrs,
                    cols: 1,
                    places: seq![(0int, 1int)],
                },
            )
        }
    }
}

/// The span that ends each row.
pub open spec fn line_break(theme: TerminalTheme) -> Span {
    Span { text: seq!['\n'], attrs: plain_attrs(theme), cols: 0, places: Seq::empty() }
}

/// The spans of the first `rows` rows, each row with its line break.
pub open spec fn screen_spans(screen: Screen, theme: TerminalTheme, rows: int) -> Seq<Span>
    decreases rows,
{
    if rows <= 0 {
        Seq::empty()
    } else {
        screen_spans(screen, theme, rows - 1) + row_spans(
            drawn_row(screen, theme, rows - 1),
        ) + seq![line_break(theme)]
    }
}

/// The shape in which a cursor is drawn: an outlined block is drawn filled.
pub open spec fn drawn_shape(style: CursorStyle) -> CursorShape {
    match style {
        CursorStyle::Block => CursorShape::Block,
        CursorStyle::Underline => CursorShape::Underline,
        CursorStyle::Beam => CursorShape::Beam,
        CursorStyle::HollowBlock => CursorShape::Block,
        CursorStyle::Hidden => CursorShape::Hidden,
    }
}

/// What is drawn of a screen.
pub open spec fn screen_content(screen: Screen, theme: TerminalTheme) -> Content {
    Content {
        spans: screen_spans(screen, theme, screen.lines as int),
        cursor_row: screen.cursor_row,
        cursor_col: screen.cursor_col,
        cursor_shape: drawn_shape(screen.cursor_style),
    }
}

fn blank_attrs(theme: &TerminalTheme) -> (attrs: CellAttrs)
    ensures
        attrs == plain_attrs(*theme),
{
    CellAttrs {
        fg: theme.foreground,
        bg: None,
        bold: false,
        italic: false,
        underline: false,
        strikeout: false,
    }
}

fn same_attrs(a: &CellAttrs, b: &CellAttrs) -> (same: bool)
    ensures
        same == (*a == *b),
{
    let same_bg = match (a.bg, b.bg) {
        (Some(p), Some(q)) => p.0 == q.0 && p.1 == q.1 && p.2 == q.2,
        (None, None) => true,
        _ => false,
    };
    same_bg && a.fg.0 == b.fg.0 && a.fg.1 == b.fg.1 && a.fg.2 == b.fg.2 && a.bold == b.bold
        && a.italic == b.italic && a.underline == b.underline && a.strikeout == b.strikeout
}

/// Resolves the colors of a displayed cell.
pub fn resolve_cell(
    cell: &TermCell,
    palette: &Vec<Option<Rgb>>,
    theme: &TerminalTheme,
) -> (data: CellData)
    requires
        palette@.len() == PALETTE_LEN,
    ensures
        data == resolved_cell(*cell, palette@, *theme),
{
    let flags = cell_flags(cell.flags);
    let fg = ansi_to_rgb(cell.fg, palette, theme);
    let bg = ansi_to_rgb(cell.bg, palette, theme);
    let (front, back) = if flags.inverse {
        (bg, fg)
    } else {
        (fg, bg)
    };
    let same = back.0 == theme.background.0 && back.1 == theme.background.1 && back.2
        == theme.background.2;
    CellData {
        c: if flags.hidden || cell.c == '\0' {
            ' '
        } else {
            cell.c
        },
        attrs: CellAttrs {
            fg: if flags.dim {
                dim_color(front)
            } else {
                front
            },
            bg: if flags.inverse || !same {
                Some(back)
            } else {
                None
            },
            bold: flags.bold,
            italic: flags.italic,
            underline: flags.underline,
            strikeout: flags.strikeout,
        },
        spacer: flags.spacer,
        second_half: flags.second_half,
    }
}

/// The rows of the grid, as far as `cells` fill them.
spec fn is_grid(
    grid: Seq<Vec<CellData>>,
    screen: Screen,
    cells: Seq<TermCell>,
    theme: TerminalTheme,
) -> bool {
    &&& grid.len() == screen.lines
    &&& forall|row: int|
        0 <= row < grid.len() ==> (#[trigger] grid[row])@.len() == screen.columns
    &&& forall|row: int, col: int|
        0 <= row < grid.len() && 0 <= col < screen.columns ==> (#[trigger] grid[row]@[col])
            == grid_cell(cells, screen.palette, theme, row, col)
}

fn blank_grid(snapshot: &Snapshot, theme: &TerminalTheme) -> (grid: Vec<Vec<CellData>>)
    ensures
        is_grid(grid@, snapshot@, Seq::empty(), *theme),
{
    let blank = CellData {
        c: ' ',
        attrs: blank_attrs(theme),
        spacer: false,
        second_half: false,
    };
    let mut grid: Vec<Vec<CellData>> = Vec::new();
    let mut row: usize = 0;
    while row < snapshot.lines
        invariant
            row <= snapshot.lines,
            grid@.len() == row,
            blank == blank_cell(*theme),
            forall|r: int| 0 <= r < row ==> (#[trigger] grid@[r])@.len() == snapshot.columns,
            forall|r: int, c: int|
                0 <= r < row && 0 <= c < snapshot.columns ==> (#[trigger] grid@[r]@[c]) == blank,
        decreases snapshot.lines - row,
    {
        let mut cells: Vec<CellData> = Vec::new();
        let mut col: usize = 0;
        while col < snapshot.columns
            invariant
                col <= snapshot.columns,
                cells@.len() == col,
                forall|c: int| 0 <= c < col ==> (#[trigger] cells@[c]) == blank,
            decreases snapshot.columns - col,
        {
            cells.push(blank);
            col += 1;
        }
        grid.push(cells);
        row += 1;
    }
    grid
}

fn filled_grid(snapshot: &Snapshot, theme: &TerminalTheme) -> (grid: Vec<Vec<CellData>>)
    requires
        snapshot@.wf(),
    ensures
        is_grid(grid@, snapshot@, snapshot@.cells, *theme),
{
    let mut grid = blank_grid(snapshot, theme);
    let mut i: usize = 0;
    assert(snapshot@.cells.take(0) =~= Seq::empty());
    while i < snapshot.cells.len()
        invariant
            i <= snapshot.cells@.len(),
            snapshot@.wf(),
            is_grid(grid@, snapshot@, snapshot@.cells.take(i as int), *theme),
        decreases snapshot.cells@.len() - i,
    {
        let cell = snapshot.cells[i];
        let ghost seen = snapshot@.cells.take(i + 1);
        assert(seen.drop_last() =~= snapshot@.cells.take(i as int));
        if cell.row < snapshot.lines && cell.col < snapshot.columns {
            let data = resolve_cell(&cell, &snapshot.palette, theme);
            grid[cell.row][cell.col] = data;
        }
        i += 1;
    }
    assert(snapshot@.cells.take(i as int) =~= snapshot@.cells);
    grid
}

fn finished_span(text: String, attrs: CellAttrs, cols: usize, places: Vec<CharCols>) -> (span:
    ColoredSpan)
    ensures
        span@ == (Span { text: text@, attrs, cols: cols as int, places: place_views(places@) }),
{
    ColoredSpan {
        text,
        r: attrs.fg.0,
        g: attrs.fg.1,
        b: attrs.fg.2,
        bg: attrs.bg,
        bold: attrs.bold,
        italic: attrs.italic,
        underline: attrs.underline,
        strikeout: attrs.strikeout,
        cols,
        places,
    }
}

/// Appends the spans of the first `len` cells of a row.
fn push_row_spans(row: &Vec<CellData>, len: usize, spans: &mut Vec<ColoredSpan>)
    requires
        len <= row@.len(),
    ensures
        span_views(final(spans)@) == span_views(old(spans)@) + row_spans(row@.take(len as int)),
{
    let ghost prior = span_views(spans@);
    let mut text = String::new();
    let mut attrs = CellAttrs {
        fg: (0, 0, 0),
        bg: None,
        bold: false,
        italic: false,
        underline: false,
        strikeout: false,
    };
    let mut cols: usize = 0;
    let mut places: Vec<CharCols> = Vec::new();
    let mut started = false;
    let mut i: usize = 0;
    while i < len
        invariant
            i <= len <= row@.len(),
            cols <= i,
            !started ==> {
                &&& text@.len() == 0
                &&& places@.len() == 0
                &&& cols == i
                &&& row_spans(row@.take(i as int)).len() == 0
                &&& span_views(spans@) == prior
            },
            started ==> {
                let built = row_spans(row@.take(i as int));
                &&& i > 0
                &&& built.len() > 0
                &&& places@.len() > 0
                &&& places@.last().end <= cols
                &&& span_views(spans@) == prior + built.drop_last()
                &&& built.last() == (Span {
                    text: text@,
                    attrs,
                    cols: cols as int,
                    places: place_views(places@),
                })
            },
        decreases len - i,
    {
        let cell = row[i];
        let ghost built = row_spans(row@.take(i as int));
        let ghost next = row@.take(i + 1);
        let ghost placed = places@;
        assert(next.drop_last() =~= row@.take(i as int));
        assert(next.last() == cell);
        if cell.spacer {
            if started && cell.second_half && !row[i - 1].spacer {
                let last = places.len() - 1;
                let place = places[last];
                places.set(last, CharCols { start: place.start, end: place.end + 1 });
                assert(place_views(places@) =~= widened(place_views(placed)));
            }
            cols += 1;
            assert(started ==> row_spans(next).drop_last() =~= built.drop_last());
        } else if !started {
            started = true;
            attrs = cell.attrs;
            text.push(cell.c);
            places.push(CharCols { start: cols, end: cols + 1 });
            cols += 1;
            assert(text@ =~= seq![cell.c]);
            assert(place_views(places@) =~= seq![(i as int, i + 1)]);
            assert(row_spans(next).drop_last() =~= Seq::<Span>::empty());
        } else if same_attrs(&cell.attrs, &attrs) {
            text.push(cell.c);
            places.push(CharCols { start: cols, end: cols + 1 });
            assert(place_views(places@) =~= place_views(placed).push((cols as int, cols + 1)));
            cols += 1;
            assert(row_spans(next).drop_last() =~= built.drop_last());
        } else {
            let ghost open = built.last();
            let ghost earlier = spans@;
            let span = finished_span(text, attrs, cols, places);
            spans.push(span);
            assert(span_views(spans@) =~= span_views(earlier).push(open));
            assert(built =~= built.drop_last().push(open));
            assert(row_spans(next).drop_last() =~= built);
            text = String::new();
            text.push(cell.c);
            assert(text@ =~= seq![cell.c]);
            places = Vec::new();
            places.push(CharCols { start: 0, end: 1 });
            assert(place_views(places@) =~= seq![(0int, 1int)]);
            cols = 1;
            attrs = cell.attrs;
        }
        i += 1;
    }
    if started {
        let ghost built = row_spans(row@.take(len as int));
        let ghost open = built.last();
        let ghost earlier = spans@;
        let span = finished_span(text, attrs, cols, places);
        spans.push(span);
        assert(span_views(spans@) =~= span_views(earlier).push(open));
        assert(built =~= built.drop_last().push(open));
    }
}

/// Length of a row without the cells at its end that show nothing.
fn trimmed_len(row: &Vec<CellData>, theme: &TerminalTheme) -> (len: usize)
    ensures
        len == meaningful_len(row@, *theme),
        len <= row@.len(),
{
    let plain = blank_attrs(theme);
    let mut len: usize = row.len();
    assert(row@.take(len as int) =~= row@);
    while len > 0
        invariant_except_break
            len <= row@.len(),
            plain == plain_attrs(*theme),
            meaningful_len(row@.take(len as int), *theme) == meaningful_len(row@, *theme),
        ensures
            len == meaningful_len(row@, *theme),
            len <= row@.len(),
        decreases len,
    {
        let cell = row[len - 1];
        assert(row@.take(len as int).last() == cell);
        if !cell.spacer && (cell.c != ' ' || !same_attrs(&cell.attrs, &plain)) {
            break;
        }
        assert(row@.take(len as int).drop_last() =~= row@.take(len - 1));
        len -= 1;
    }
    len
}

/// Draws up what is drawn of a screen.
pub fn content_of(snapshot: &Snapshot, theme: &TerminalTheme) -> (content: GridContent)
    requires
        snapshot@.wf(),
    ensures
        content@ == screen_content(snapshot@, *theme),
{
    let grid = filled_grid(snapshot, theme);
    let mut spans: Vec<ColoredSpan> = Vec::new();
    let mut row: usize = 0;
    while row < grid.len()
        invariant
            row <= grid@.len(),
            snapshot@.wf(),
            is_grid(grid@, snapshot@, snapshot@.cells, *theme),
            span_views(spans@) =~= screen_spans(snapshot@, *theme, row as int),
        decreases grid@.len() - row,
    {
        let cells = &grid[row];
        assert(cells@ =~= grid_row(snapshot@, *theme, row as int));
        let mut len: usize = trimmed_len(cells, theme);
        if row == snapshot.cursor_row && len <= snapshot.cursor_col {
            len = snapshot.cursor_col + 1;
        }
        if len > 0 && len < cells.len() && !cells[len - 1].spacer && cells[len].spacer
            && cells[len].second_half {
            len += 1;
        }
        let ghost before = span_views(spans@);
        push_row_spans(cells, len, &mut spans);
        let ghost with_row = spans@;
        let text = "\n".to_owned();
        proof {
            reveal_strlit("\n");
            assert(text@ =~= seq!['\n']);
        }
        let places: Vec<CharCols> = Vec::new();
        assert(place_views(places@) =~= Seq::<(int, int)>::empty());
        let span = finished_span(text, blank_attrs(theme), 0, places);
        spans.push(span);
        assert(span_views(spans@) =~= span_views(with_row).push(line_break(*theme)));
        row += 1;
        assert(span_views(spans@) =~= before + row_spans(
            drawn_row(snapshot@, *theme, row - 1),
        ) + seq![line_break(*theme)]);
    }
    let cursor_shape = match snapshot.cursor_style {
        CursorStyle::Block => CursorShape::Block,
        CursorStyle::Underline => CursorShape::Underline,
        CursorStyle::Beam => CursorShape::Beam,
        CursorStyle::HollowBlock => CursorShape::Block,
        CursorStyle::Hidden => CursorShape::Hidden,
    };
    GridContent {
        spans,
        cursor_row: snapshot.cursor_row,
        cursor_col: snapshot.cursor_col,
        cursor_shape,
    }
}

/// Columns of a sequence of spans.
pub open spec fn total_cols(spans: Seq<Span>) -> int
    decreases spans.len(),
{
    if spans.len() == 0 {
        0
    } else {
        total_cols(spans.drop_last()) + spans.last().cols
    }
}

/// Text of a sequence of spans.
pub open spec fn total_text(spans: Seq<Span>) -> Seq<char>
    decreases spans.len(),
{
    if spans.len() == 0 {
        Seq::empty()
    } else {
        total_text(spans.drop_last()) + spans.last().text
    }
}

/// The characters of a row, without the spacers.
pub open spec fn shown_chars(row: Seq<CellData>) -> Seq<char>
    decreases row.len(),
{
    if row.len() == 0 {
        Seq::empty()
    } else if row.last().spacer {
        shown_chars(row.drop_last())
    } else {
        shown_chars(row.drop_last()).push(row.last().c)
    }
}

proof fn lemma_totals_push(spans: Seq<Span>, span: Span)
    ensures
        total_cols(spans.push(span)) == total_cols(spans) + span.cols,
        total_text(spans.push(span)) == total_text(spans) + span.text,
{
    assert(spans.push(span).drop_last() =~= spans);
}

/// The spans of a row take up its columns, all of them, unless it is made of
/// spacers alone and has no span.
pub proof fn spans_tile_row(row: Seq<CellData>)
    ensures
        row_spans(row).len() == 0 <==> forall|i: int|
            0 <= i < row.len() ==> (#[trigger] row[i]).spacer,
        row_spans(row).len() > 0 ==> total_cols(row_spans(row)) == row.len(),
        total_cols(row_spans(row)) <= row.len(),
    decreases row.len(),
{
    if row.len() > 0 {
        let rest = row.drop_last();
        let before = row_spans(rest);
        spans_tile_row(rest);
        assert forall|i: int| 0 <= i < rest.len() implies rest[i] == row[i] by {}
        if before.len() == 0 {
            assert forall|i: int| 0 <= i < rest.len() implies (#[trigger] row[i]).spacer by {
                assert(rest[i].spacer);
            }
            if !row.last().spacer {
                lemma_totals_push(Seq::empty(), row_spans(row)[0]);
                assert(Seq::<Span>::empty().push(row_spans(row)[0]) =~= row_spans(row));
                assert(!row[row.len() - 1].spacer);
            }
        } else {
            let i = choose|i: int| 0 <= i < rest.len() && !(#[trigger] rest[i]).spacer;
            assert(!row[i].spacer);
            assert(before =~= before.drop_last().push(before.last()));
            lemma_totals_push(before.drop_last(), before.last());
            lemma_totals_push(row_spans(row).drop_last(), row_spans(row).last());
            assert(row_spans(row) =~= row_spans(row).drop_last().push(row_spans(row).last()));
            if row.last().spacer || before.last().attrs == row.last().attrs {
                assert(row_spans(row).drop_last() =~= before.drop_last());
            } else {
                assert(row_spans(row).drop_last() =~= before);
            }
        }
    }
}

/// The text of a row's spans is the row's characters, in their order.
pub proof fn spans_keep_text(row: Seq<CellData>)
    ensures
        total_text(row_spans(row)) == shown_chars(row),
    decreases row.len(),
{
    if row.len() > 0 {
        let rest = row.drop_last();
        let before = row_spans(rest);
        let after = row_spans(row);
        spans_keep_text(rest);
        if before.len() == 0 {
            if !row.last().spacer {
                lemma_totals_push(Seq::empty(), after[0]);
                assert(Seq::<Span>::empty().push(after[0]) =~= after);
                assert(total_text(after) =~= shown_chars(row));
            }
        } else {
            assert(before =~= before.drop_last().push(before.last()));
            lemma_totals_push(before.drop_last(), before.last());
            assert(after =~= after.drop_last().push(after.last()));
            lemma_totals_push(after.drop_last(), after.last());
            if row.last().spacer || before.last().attrs == row.last().attrs {
                assert(after.drop_last() =~= before.drop_last());
            } else {
                assert(after.drop_last() =~= before);
            }
            assert(total_text(after) =~= shown_chars(row));
        }
    }
}

/// A span of a row has a character at least, and a column for each character at
/// least.
pub proof fn span_is_as_wide_as_its_text(row: Seq<CellData>, i: int)
    requires
        0 <= i < row_spans(row).len(),
    ensures
        1 <= row_spans(row)[i].text.len() <= row_spans(row)[i].cols,
    decreases row.len(),
{
    let rest = row.drop_last();
    let before = row_spans(rest);
    if before.len() > 0 {
        if i < before.len() {
            span_is_as_wide_as_its_text(rest, i);
        }
        span_is_as_wide_as_its_text(rest, before.len() - 1);
    }
}

/// Neighbouring spans of a row differ in their attributes, so no span could be
/// longer.
pub proof fn neighbouring_spans_differ(row: Seq<CellData>, i: int)
    requires
        0 < i < row_spans(row).len(),
    ensures
        row_spans(row)[i - 1].attrs != row_spans(row)[i].attrs,
    decreases row.len(),
{
    let rest = row.drop_last();
    let before = row_spans(rest);
    if i < before.len() {
        neighbouring_spans_differ(rest, i);
    }
}

/// Behind the part of a row that is drawn nothing shows, and the cursor is in
/// that part.
pub proof fn drawn_row_loses_nothing(screen: Screen, theme: TerminalTheme, row: int, col: int)
    requires
        0 <= col < screen.columns,
        drawn_len(screen, theme, row) <= col,
    ensures
        !is_meaningful(grid_row(screen, theme, row)[col], theme),
        !(row == screen.cursor_row && col == screen.cursor_col),
{
    lemma_meaningful_len(grid_row(screen, theme, row), theme);
}

/// The part of a row that is drawn ends with a cell that shows something or with
/// the cursor, or with the second half of such a cell, so nothing is drawn in vain.
pub proof fn drawn_row_ends_with_content(screen: Screen, theme: TerminalTheme, row: int)
    requires
        screen.wf(),
        0 <= row < screen.lines,
    ensures
        0 <= drawn_len(screen, theme, row) <= screen.columns,
        drawn_len(screen, theme, row) > 0 ==> {
            let last = drawn_len(screen, theme, row) - 1;
            ||| is_meaningful(grid_row(screen, theme, row)[last], theme)
            ||| row == screen.cursor_row && last == screen.cursor_col
            ||| is_wide(grid_row(screen, theme, row), last - 1) && (is_meaningful(
                grid_row(screen, theme, row)[last - 1],
                theme,
            ) || row == screen.cursor_row && last - 1 == screen.cursor_col)
        },
{
    lemma_meaningful_len(grid_row(screen, theme, row), theme);
}

proof fn lemma_meaningful_len(row: Seq<CellData>, theme: TerminalTheme)
    ensures
        0 <= meaningful_len(row, theme) <= row.len(),
        meaningful_len(row, theme) > 0 ==> is_meaningful(
            row[meaningful_len(row, theme) - 1],
            theme,
        ),
        forall|i: int|
            meaningful_len(row, theme) <= i < row.len() ==> !is_meaningful(#[trigger] row[i], theme),
    decreases row.len(),
{
    if row.len() > 0 && !is_meaningful(row.last(), theme) {
        lemma_meaningful_len(row.drop_last(), theme);
        assert forall|i: int| meaningful_len(row, theme) <= i < row.len() implies !is_meaningful(
            #[trigger] row[i],
            theme,
        ) by {
            if i < row.len() - 1 {
                assert(row.drop_last()[i] == row[i]);
            }
        }
    }
}

/// Inverse video swaps what is in front and what is behind, and what is behind
/// then shows even where it is the theme's own background.
pub proof fn inverse_swaps_colors(
    cell: TermCell,
    inverse: TermCell,
    palette: Seq<Option<Rgb>>,
    theme: TerminalTheme,
)
    requires
        !decoded_flags(cell.flags).inverse,
        !decoded_flags(cell.flags).dim,
        decoded_flags(inverse.flags).inverse,
        !decoded_flags(inverse.flags).dim,
        inverse.fg == cell.fg,
        inverse.bg == cell.bg,
    ensures
        resolved_cell(inverse, palette, theme).attrs.bg == Some(
            resolved_cell(cell, palette, theme).attrs.fg,
        ),
        resolved_cell(inverse, palette, theme).attrs.fg == match resolved_cell(
            cell,
            palette,
            theme,
        ).attrs.bg {
            Some(back) => back,
            None => theme.background,
        },
{
}

/// A concealed character shows as a space and keeps its background.
pub proof fn concealed_cell_keeps_background(
    cell: TermCell,
    concealed: TermCell,
    palette: Seq<Option<Rgb>>,
    theme: TerminalTheme,
)
    requires
        decoded_flags(concealed.flags) == (CellFlags {
            hidden: true,
            ..decoded_flags(cell.flags)
        }),
        concealed.fg == cell.fg,
        concealed.bg == cell.bg,
    ensures
        resolved_cell(concealed, palette, theme) == (CellData {
            c: ' ',
            ..resolved_cell(cell, palette, theme)
        }),
{
}

/// Dim text is a third darker than the same text without dimming, whatever its
/// color and the theme: each channel of its color is two thirds of the other's,
/// rounded down, and nothing else differs.
pub proof fn dim_text_is_a_third_darker(
    cell: TermCell,
    dim: TermCell,
    palette: Seq<Option<Rgb>>,
    theme: TerminalTheme,
)
    requires
        !decoded_flags(cell.flags).dim,
        decoded_flags(dim.flags) == (CellFlags { dim: true, ..decoded_flags(cell.flags) }),
        dim.c == cell.c,
        dim.fg == cell.fg,
        dim.bg == cell.bg,
    ensures
        ({
            let bright = resolved_cell(cell, palette, theme);
            let dark = resolved_cell(dim, palette, theme);
            &&& 3 * dark.attrs.fg.0 <= 2 * bright.attrs.fg.0 < 3 * dark.attrs.fg.0 + 3
            &&& 3 * dark.attrs.fg.1 <= 2 * bright.attrs.fg.1 < 3 * dark.attrs.fg.1 + 3
            &&& 3 * dark.attrs.fg.2 <= 2 * bright.attrs.fg.2 < 3 * dark.attrs.fg.2 + 3
            &&& dark.c == bright.c
            &&& dark.attrs.bg == bright.attrs.bg
            &&& dark.attrs.bold == bright.attrs.bold
            &&& dark.attrs.italic == bright.attrs.italic
            &&& dark.attrs.underline == bright.attrs.underline
            &&& dark.attrs.strikeout == bright.attrs.strikeout
            &&& dark.spacer == bright.spacer
            &&& dark.second_half == bright.second_half
        }),
{
}

/// A cell in ordinary video is drawn in the colors that the program asked for, and
/// its background shows exactly where it differs from the theme's.
pub proof fn ordinary_cell_has_its_own_colors(
    cell: TermCell,
    palette: Seq<Option<Rgb>>,
    theme: TerminalTheme,
)
    requires
        !decoded_flags(cell.flags).inverse,
        !decoded_flags(cell.flags).dim,
    ensures
        resolved_cell(cell, palette, theme).attrs.fg == ansi_rgb(cell.fg, palette, theme),
        ansi_rgb(cell.bg, palette, theme) != theme.background ==> resolved_cell(
            cell,
            palette,
            theme,
        ).attrs.bg == Some(ansi_rgb(cell.bg, palette, theme)),
        ansi_rgb(cell.bg, palette, theme) == theme.background ==> resolved_cell(
            cell,
            palette,
            theme,
        ).attrs.bg is None,
{
}

/// The colors make no difference to what a cell says and how: its character and its
/// styles are the program's, but for a null or concealed character, which is a
/// space.
pub proof fn cell_keeps_character_and_styles(
    cell: TermCell,
    palette: Seq<Option<Rgb>>,
    theme: TerminalTheme,
)
    ensures
        ({
            let flags = decoded_flags(cell.flags);
            let data = resolved_cell(cell, palette, theme);
            &&& !flags.hidden && cell.c != '\0' ==> data.c == cell.c
            &&& flags.hidden || cell.c == '\0' ==> data.c == ' '
            &&& data.attrs.bold == flags.bold
            &&& data.attrs.italic == flags.italic
            &&& data.attrs.underline == flags.underline
            &&& data.attrs.strikeout == flags.strikeout
            &&& data.spacer == flags.spacer
            &&& data.second_half == flags.second_half
        }),
{
}

/// A place of the grid shows the cell that was displayed there last.
pub proof fn last_cell_in_its_place_shows(
    cells: Seq<TermCell>,
    palette: Seq<Option<Rgb>>,
    theme: TerminalTheme,
    i: int,
)
    requires
        0 <= i < cells.len(),
        forall|j: int|
            i < j < cells.len() ==> (#[trigger] cells[j]).row != cells[i].row || cells[j].col
                != cells[i].col,
    ensures
        grid_cell(cells, palette, theme, cells[i].row as int, cells[i].col as int)
            == resolved_cell(cells[i], palette, theme),
    decreases cells.len(),
{
    if i < cells.len() - 1 {
        let rest = cells.drop_last();
        assert(cells[cells.len() - 1].row != cells[i].row || cells[cells.len() - 1].col
            != cells[i].col);
        assert forall|j: int| i < j < rest.len() implies (#[trigger] rest[j]).row != rest[i].row
            || rest[j].col != rest[i].col by {
            assert(rest[j] == cells[j]);
        }
        last_cell_in_its_place_shows(rest, palette, theme, i);
    }
}

/// A place of the grid in which no cell was displayed is a space in the theme's
/// foreground, without a background and without styles.
pub proof fn untouched_place_is_blank(
    cells: Seq<TermCell>,
    palette: Seq<Option<Rgb>>,
    theme: TerminalTheme,
    row: int,
    col: int,
)
    requires
        forall|j: int|
            0 <= j < cells.len() ==> (#[trigger] cells[j]).row != row || cells[j].col != col,
    ensures
        ({
            let cell = grid_cell(cells, palette, theme, row, col);
            &&& cell.c == ' '
            &&& cell.attrs.fg == theme.foreground
            &&& cell.attrs.bg is None
            &&& !cell.attrs.bold && !cell.attrs.italic
            &&& !cell.attrs.underline && !cell.attrs.strikeout
            &&& !cell.spacer && !cell.second_half
        }),
    decreases cells.len(),
{
    if cells.len() > 0 {
        let rest = cells.drop_last();
        assert(cells[cells.len() - 1].row != row || cells[cells.len() - 1].col != col);
        assert forall|j: int| 0 <= j < rest.len() implies (#[trigger] rest[j]).row != row
            || rest[j].col != col by {
            assert(rest[j] == cells[j]);
        }
        untouched_place_is_blank(rest, palette, theme, row, col);
    }
}

/// A row of the grid has a cell for each column, and the part that is drawn is its
/// beginning.
pub proof fn drawn_row_is_the_rows_beginning(
    screen: Screen,
    theme: TerminalTheme,
    row: int,
    col: int,
)
    requires
        screen.wf(),
        0 <= row < screen.lines,
        0 <= col < screen.columns,
    ensures
        grid_row(screen, theme, row).len() == screen.columns,
        grid_row(screen, theme, row)[col] == grid_cell(
            screen.cells,
            screen.palette,
            theme,
            row,
            col,
        ),
        drawn_row(screen, theme, row).len() <= screen.columns,
        col < drawn_row(screen, theme, row).len() ==> drawn_row(screen, theme, row)[col]
            == grid_row(screen, theme, row)[col],
{
    drawn_row_ends_with_content(screen, theme, row);
}

/// Whatever says or shows anything is drawn: what is left out of a row are spacers
/// and spaces without a background or a style, in the theme's foreground, and never
/// the cursor's cell.
pub proof fn only_blanks_are_left_out(screen: Screen, theme: TerminalTheme, row: int, col: int)
    requires
        screen.wf(),
        0 <= row < screen.lines,
        drawn_row(screen, theme, row).len() <= col < screen.columns,
    ensures
        ({
            let cell = grid_row(screen, theme, row)[col];
            ||| cell.spacer
            ||| {
                &&& cell.c == ' '
                &&& cell.attrs.fg == theme.foreground
                &&& cell.attrs.bg is None
                &&& !cell.attrs.bold && !cell.attrs.italic
                &&& !cell.attrs.underline && !cell.attrs.strikeout
            }
        }),
        !(row == screen.cursor_row && col == screen.cursor_col),
{
    drawn_row_ends_with_content(screen, theme, row);
    drawn_row_loses_nothing(screen, theme, row, col);
}

/// No blank is drawn at the end of a row: its last cell is no such space, or it is
/// the cursor's, or it is the second half of the cell before, of which one of these
/// holds.
pub proof fn no_blank_ends_a_row(screen: Screen, theme: TerminalTheme, row: int)
    requires
        screen.wf(),
        0 <= row < screen.lines,
        drawn_row(screen, theme, row).len() > 0,
    ensures
        ({
            let cells = drawn_row(screen, theme, row);
            let last = cells.len() - 1;
            let shows = |i: int|
                {
                    ||| row == screen.cursor_row && i == screen.cursor_col
                    ||| !cells[i].spacer && !(cells[i].c == ' ' && cells[i].attrs.fg
                        == theme.foreground && cells[i].attrs.bg is None && !cells[i].attrs.bold
                        && !cells[i].attrs.italic && !cells[i].attrs.underline
                        && !cells[i].attrs.strikeout)
                };
            ||| shows(last)
            ||| last >= 1 && cells[last].spacer && cells[last].second_half && !cells[last - 1].spacer
                && shows(last - 1)
        }),
{
    drawn_row_ends_with_content(screen, theme, row);
}

/// A cursor is drawn in the shape that it has, an outlined block as a filled one,
/// and on the cell where it is.
pub proof fn cursor_keeps_shape_and_place(screen: Screen, theme: TerminalTheme)
    ensures
        ({
            let content = screen_content(screen, theme);
            &&& content.cursor_row == screen.cursor_row
            &&& content.cursor_col == screen.cursor_col
            &&& content.cursor_shape == CursorShape::Hidden <==> screen.cursor_style
                == CursorStyle::Hidden
            &&& content.cursor_shape == CursorShape::Beam <==> screen.cursor_style
                == CursorStyle::Beam
            &&& content.cursor_shape == CursorShape::Underline <==> screen.cursor_style
                == CursorStyle::Underline
            &&& content.cursor_shape == CursorShape::Block <==> (screen.cursor_style
                == CursorStyle::Block || screen.cursor_style == CursorStyle::HollowBlock)
        }),
{
}

/// The spans of a screen are those of its rows, from the first row on and in the
/// rows' own order; behind each row stands one line break, which has no columns, no
/// background and no style.
pub proof fn rows_follow_each_other(screen: Screen, theme: TerminalTheme, row: int, j: int)
    requires
        0 <= row < screen.lines,
        0 <= j < row_spans(drawn_row(screen, theme, row)).len(),
    ensures
        ({
            let spans = screen_content(screen, theme).spans;
            let start = screen_spans(screen, theme, row).len() as int;
            let len = row_spans(drawn_row(screen, theme, row)).len() as int;
            &&& start + len < spans.len()
            &&& spans[start + j] == row_spans(drawn_row(screen, theme, row))[j]
        }),
{
    lemma_row_in_screen(screen, theme, row, screen.lines as int);
    let spans = screen_spans(screen, theme, screen.lines as int);
    let start = screen_spans(screen, theme, row).len() as int;
    let cells = row_spans(drawn_row(screen, theme, row));
    assert(spans.subrange(start, start + cells.len())[j] == spans[start + j]);
}

/// Rows start where the row before has ended with its line break, so that nothing
/// else is between them, before the first or behind the last.
pub proof fn line_break_ends_each_row(screen: Screen, theme: TerminalTheme, row: int)
    requires
        0 <= row < screen.lines,
    ensures
        ({
            let spans = screen_content(screen, theme).spans;
            let start = screen_spans(screen, theme, row).len() as int;
            let len = row_spans(drawn_row(screen, theme, row)).len() as int;
            let end = spans[start + len];
            &&& screen_spans(screen, theme, 0).len() == 0
            &&& screen_spans(screen, theme, row + 1).len() == start + len + 1
            &&& spans.len() == screen_spans(screen, theme, screen.lines as int).len()
            &&& start + len < spans.len()
            &&& end.text == seq!['\n']
            &&& end.cols == 0
            &&& end.attrs.fg == theme.foreground
            &&& end.attrs.bg is None
            &&& !end.attrs.bold && !end.attrs.italic
            &&& !end.attrs.underline && !end.attrs.strikeout
        }),
{
    lemma_row_in_screen(screen, theme, row, screen.lines as int);
}

proof fn lemma_row_in_screen(screen: Screen, theme: TerminalTheme, row: int, rows: int)
    requires
        0 <= row < rows,
    ensures
        ({
            let spans = screen_spans(screen, theme, rows);
            let start = screen_spans(screen, theme, row).len() as int;
            let cells = row_spans(drawn_row(screen, theme, row));
            &&& start + cells.len() < spans.len()
            &&& spans.subrange(start, start + cells.len()) == cells
            &&& spans[start + cells.len()] == line_break(theme)
        }),
    decreases rows,
{
    let spans = screen_spans(screen, theme, rows);
    let start = screen_spans(screen, theme, row).len() as int;
    let cells = row_spans(drawn_row(screen, theme, row));
    if row < rows - 1 {
        lemma_row_in_screen(screen, theme, row, rows - 1);
        let most = screen_spans(screen, theme, rows - 1);
        assert(spans.subrange(start, start + cells.len()) =~= most.subrange(
            start,
            start + cells.len(),
        ));
    } else {
        assert(spans.subrange(start, start + cells.len()) =~= cells);
    }
}

} // verus!
