//! What holds of a screen from its cells to its frame.
use crate::color::{AnsiColor, NAMED_BACKGROUND, NAMED_FOREGROUND};
use crate::emulator::{
    can_resize, is_new_term, new_term_is_readable, readable, term_screen, Screen, TermCell,
};
use crate::frame::{
    all_cells_fit, cells_fit, column_x, cursor_fits, cursor_is_on, cursor_rect, frame_fits, larger,
    row_y, strikeout_offset, underline_offset, CellPixels, Frame, PixelMetrics,
};
use crate::grid::{
    blank_cell, drawn_len, drawn_row, drawn_row_ends_with_content, grid_cell, grid_row,
    is_wide, line_break, meaningful_len, plain_attrs, row_spans, screen_content,
    screen_spans, span_is_as_wide_as_its_text, spans_tile_row, total_cols, CellData,
};
use crate::layout::{
    char_is_found_on_its_columns, chars_left_of, col_of, cursor_is_in_one_span, cursor_keeps_text,
    cursor_offset, decorated, decoration_color, has_char_on, has_ordered_places, is_break, joined,
    line_of, pieces, span_rect, Decoration,
};
use crate::surface::TerminalSurface;
use crate::terminal::{Content, CursorShape, Span};
use crate::theme::{Rgb, TerminalTheme};
use alacritty_terminal::event::VoidListener;
use alacritty_terminal::term::Term;
use vstd::prelude::*;

verus! {

/// Whether no cell holds a line break, which would end its row.
pub open spec fn no_breaks(screen: Screen) -> bool {
    forall|i: int| 0 <= i < screen.cells.len() ==> (#[trigger] screen.cells[i]).c != '\n'
}

proof fn lemma_grid_cell(screen: Screen, theme: TerminalTheme, n: int, row: int, col: int)
    requires
        0 <= n <= screen.cells.len(),
        no_breaks(screen),
    ensures
        grid_cell(screen.cells.take(n), screen.palette, theme, row, col).c != '\n',
    decreases n,
{
    if n > 0 {
        let cells = screen.cells.take(n);
        assert(cells.last() == screen.cells[n - 1]);
        assert(cells.drop_last() =~= screen.cells.take(n - 1));
        lemma_grid_cell(screen, theme, n - 1, row, col);
    }
}

proof fn lemma_drawn_cells(screen: Screen, theme: TerminalTheme, row: int)
    requires
        screen.wf(),
        no_breaks(screen),
        0 <= row < screen.lines,
    ensures
        drawn_row(screen, theme, row).len() == drawn_len(screen, theme, row) <= screen.columns,
        forall|i: int|
            0 <= i < drawn_row(screen, theme, row).len() ==> (#[trigger] drawn_row(
                screen,
                theme,
                row,
            )[i]).c != '\n',
{
    drawn_row_ends_with_content(screen, theme, row);
    let n = screen.cells.len() as int;
    assert(screen.cells.take(n) =~= screen.cells);
    assert forall|i: int| 0 <= i < drawn_row(screen, theme, row).len() implies (
    #[trigger] drawn_row(screen, theme, row)[i]).c != '\n' by {
        lemma_grid_cell(screen, theme, n, row, i);
    }
}

proof fn lemma_row_spans_no_break(row: Seq<CellData>)
    requires
        forall|i: int| 0 <= i < row.len() ==> (#[trigger] row[i]).c != '\n',
    ensures
        forall|i: int, k: int|
            0 <= i < row_spans(row).len() && 0 <= k < row_spans(row)[i].text.len()
                ==> #[trigger] row_spans(row)[i].text[k] != '\n',
    decreases row.len(),
{
    if row.len() > 0 {
        let rest = row.drop_last();
        assert forall|i: int| 0 <= i < rest.len() implies (#[trigger] rest[i]).c != '\n' by {
            assert(rest[i] == row[i]);
        }
        lemma_row_spans_no_break(rest);
        assert(row[row.len() - 1].c != '\n');
        let before = row_spans(rest);
        let after = row_spans(row);
        assert forall|i: int, k: int|
            0 <= i < after.len() && 0 <= k < after[i].text.len() implies #[trigger] after[i].text[k]
            != '\n' by {
            if before.len() > 0 && i < before.len() && k < before[i].text.len() {
                assert(before[i].text[k] != '\n');
            }
        }
    }
}

proof fn lemma_positions_of_append(a: Seq<Span>, b: Seq<Span>, j: int)
    requires
        col_of(a, a.len() as int) == 0,
        0 <= j <= b.len(),
    ensures
        line_of(a + b, a.len() + j) == line_of(a, a.len() as int) + line_of(b, j),
        col_of(a + b, a.len() + j) == col_of(b, j),
    decreases j,
{
    if j == 0 {
        lemma_positions_of_prefix(a, b, a.len() as int);
    } else {
        lemma_positions_of_append(a, b, j - 1);
        assert((a + b)[a.len() + j - 1] == b[j - 1]);
    }
}

proof fn lemma_positions_of_prefix(a: Seq<Span>, b: Seq<Span>, n: int)
    requires
        0 <= n <= a.len(),
    ensures
        line_of(a + b, n) == line_of(a, n),
        col_of(a + b, n) == col_of(a, n),
    decreases n,
{
    if n > 0 {
        lemma_positions_of_prefix(a, b, n - 1);
        assert((a + b)[n - 1] == a[n - 1]);
    }
}

/// The spans of a row, with its line break.
spec fn row_block(screen: Screen, theme: TerminalTheme, row: int) -> Seq<Span> {
    row_spans(drawn_row(screen, theme, row)).push(line_break(theme))
}

proof fn lemma_total_cols_take(spans: Seq<Span>, j: int)
    requires
        0 <= j <= spans.len(),
        forall|i: int| 0 <= i < spans.len() ==> (#[trigger] spans[i]).cols >= 1,
    ensures
        0 <= total_cols(spans.take(j)) <= total_cols(spans),
        j < spans.len() ==> total_cols(spans.take(j)) + spans[j].cols == total_cols(
            spans.take(j + 1),
        ),
    decreases spans.len() - j,
{
    if j == spans.len() {
        assert(spans.take(j) =~= spans);
        lemma_total_cols_nonnegative(spans);
    } else {
        lemma_total_cols_take(spans, j + 1);
        assert(spans.take(j + 1).drop_last() =~= spans.take(j));
        assert(spans[j].cols >= 1);
        assert forall|i: int| 0 <= i < j implies (#[trigger] spans.take(j)[i]).cols >= 1 by {
            assert(spans.take(j)[i] == spans[i]);
        }
        lemma_total_cols_nonnegative(spans.take(j));
    }
}

proof fn lemma_total_cols_nonnegative(spans: Seq<Span>)
    requires
        forall|i: int| 0 <= i < spans.len() ==> (#[trigger] spans[i]).cols >= 1,
    ensures
        total_cols(spans) >= 0,
    decreases spans.len(),
{
    if spans.len() > 0 {
        assert(spans[spans.len() - 1].cols >= 1);
        assert forall|i: int| 0 <= i < spans.drop_last().len() implies (
        #[trigger] spans.drop_last()[i]).cols >= 1 by {
            assert(spans.drop_last()[i] == spans[i]);
        }
        lemma_total_cols_nonnegative(spans.drop_last());
    }
}

/// Positions inside the spans of one row.
proof fn lemma_row_block(screen: Screen, theme: TerminalTheme, row: int)
    requires
        screen.wf(),
        no_breaks(screen),
        0 <= row < screen.lines,
    ensures
        ({
            let spans = row_spans(drawn_row(screen, theme, row));
            let block = row_block(screen, theme, row);
            &&& forall|j: int|
                0 <= j < spans.len() ==> !is_break(#[trigger] block[j]) && block[j].cols >= 1
            &&& forall|j: int|
                0 <= j <= spans.len() ==> #[trigger] line_of(block, j) == 0
            &&& forall|j: int|
                0 <= j <= spans.len() ==> {
                    &&& (#[trigger] col_of(block, j)) == total_cols(spans.take(j))
                    &&& 0 <= col_of(block, j) <= screen.columns
                }
            &&& line_of(block, block.len() as int) == 1
            &&& col_of(block, block.len() as int) == 0
        }),
{
    let cells = drawn_row(screen, theme, row);
    let spans = row_spans(cells);
    let block = row_block(screen, theme, row);
    lemma_drawn_cells(screen, theme, row);
    lemma_row_spans_no_break(cells);
    spans_tile_row(cells);
    assert forall|j: int| 0 <= j < spans.len() implies !is_break(#[trigger] block[j])
        && block[j].cols >= 1 by {
        span_is_as_wide_as_its_text(cells, j);
        assert(block[j] == spans[j]);
        assert(spans[j].text[0] != '\n');
    }
    assert forall|j: int| 0 <= j < spans.len() implies (#[trigger] spans[j]).cols >= 1 by {
        span_is_as_wide_as_its_text(cells, j);
    }
    assert forall|j: int| 0 <= j <= spans.len() implies #[trigger] line_of(block, j) == 0 by {
        lemma_row_block_positions(block, spans, j);
    }
    assert forall|j: int| 0 <= j <= spans.len() implies {
        &&& (#[trigger] col_of(block, j)) == total_cols(spans.take(j))
        &&& 0 <= col_of(block, j) <= screen.columns
    } by {
        lemma_row_block_positions(block, spans, j);
        lemma_total_cols_take(spans, j);
    }
    assert(is_break(block[block.len() - 1]));
    let last = spans.len() as int;
    lemma_row_block_positions(block, spans, last);
    assert(line_of(block, last) == 0);
    assert(block.len() == last + 1);
    assert(line_of(block, last + 1) == 1);
    assert(col_of(block, last + 1) == 0);
}

proof fn lemma_row_block_positions(block: Seq<Span>, spans: Seq<Span>, j: int)
    requires
        0 <= j <= spans.len() < block.len(),
        forall|i: int| 0 <= i < spans.len() ==> block[i] == #[trigger] spans[i],
        forall|i: int| 0 <= i < spans.len() ==> !is_break(#[trigger] block[i]),
    ensures
        line_of(block, j) == 0,
        col_of(block, j) == total_cols(spans.take(j)),
    decreases j,
{
    if j == 0 {
        assert(spans.take(0) =~= Seq::empty());
    } else {
        lemma_row_block_positions(block, spans, j - 1);
        assert(!is_break(block[j - 1]));
        assert(block[j - 1] == spans[j - 1]);
        assert(spans.take(j).drop_last() =~= spans.take(j - 1));
    }
}

/// Positions of all spans of the first `rows` rows.
proof fn lemma_screen_positions(screen: Screen, theme: TerminalTheme, rows: int)
    requires
        screen.wf(),
        no_breaks(screen),
        0 <= rows <= screen.lines,
    ensures
        ({
            let spans = screen_spans(screen, theme, rows);
            let n = spans.len() as int;
            &&& line_of(spans, n) == rows
            &&& col_of(spans, n) == 0
            &&& forall|i: int|
                0 <= i <= n ==> 0 <= #[trigger] col_of(spans, i) <= screen.columns
            &&& forall|i: int|
                0 <= i < n && !is_break(#[trigger] spans[i]) ==> {
                    &&& 0 <= line_of(spans, i) < rows
                    &&& spans[i].cols >= 1
                    &&& col_of(spans, i) + spans[i].cols <= screen.columns
                }
        }),
    decreases rows,
{
    if rows > 0 {
        let before = screen_spans(screen, theme, rows - 1);
        let block = row_block(screen, theme, rows - 1);
        let spans = screen_spans(screen, theme, rows);
        let m = before.len() as int;
        lemma_screen_positions(screen, theme, rows - 1);
        lemma_row_block(screen, theme, rows - 1);
        assert(spans =~= before + block);
        let row = row_spans(drawn_row(screen, theme, rows - 1));
        lemma_positions_of_append(before, block, block.len() as int);
        assert forall|i: int| 0 <= i <= spans.len() implies 0 <= #[trigger] col_of(spans, i)
            <= screen.columns by {
            if i <= m {
                lemma_positions_of_prefix(before, block, i);
            } else {
                lemma_positions_of_append(before, block, i - m);
                if i - m <= row.len() {
                    assert(0 <= col_of(block, i - m) <= screen.columns);
                }
            }
        }
        assert forall|i: int| 0 <= i < spans.len() && !is_break(#[trigger] spans[i]) implies {
            &&& 0 <= line_of(spans, i) < rows
            &&& spans[i].cols >= 1
            &&& col_of(spans, i) + spans[i].cols <= screen.columns
        } by {
            if i < m {
                assert(spans[i] == before[i]);
                lemma_positions_of_prefix(before, block, i);
            } else {
                let j = i - m;
                assert(spans[i] == block[j]);
                assert(is_break(block[row.len() as int]));
                assert(j < row.len());
                lemma_positions_of_append(before, block, j);
                assert(0 <= col_of(block, j) <= screen.columns);
                assert(0 <= col_of(block, j + 1) <= screen.columns);
            }
        }
    }
}

/// The spans of a screen stay on it: each is on one of its lines, and takes up
/// columns that it has.
pub proof fn spans_stay_on_screen(screen: Screen, theme: TerminalTheme, i: int)
    requires
        screen.wf(),
        no_breaks(screen),
        0 <= i < screen_content(screen, theme).spans.len(),
        !is_break(screen_content(screen, theme).spans[i]),
    ensures
        ({
            let spans = screen_content(screen, theme).spans;
            &&& 0 <= line_of(spans, i) < screen.lines
            &&& 0 <= col_of(spans, i)
            &&& 1 <= spans[i].cols
            &&& col_of(spans, i) + spans[i].cols <= screen.columns
        }),
{
    lemma_screen_positions(screen, theme, screen.lines as int);
    assert(0 <= col_of(screen_content(screen, theme).spans, i));
}

/// Each line of a screen has its line break.
pub proof fn one_break_per_line(screen: Screen, theme: TerminalTheme)
    requires
        screen.wf(),
        no_breaks(screen),
    ensures
        line_of(
            screen_content(screen, theme).spans,
            screen_content(screen, theme).spans.len() as int,
        ) == screen.lines,
{
    lemma_screen_positions(screen, theme, screen.lines as int);
}

proof fn lemma_span_at_column(spans: Seq<Span>, col: int)
    requires
        0 <= col < total_cols(spans),
        forall|i: int| 0 <= i < spans.len() ==> (#[trigger] spans[i]).cols >= 1,
    ensures
        exists|j: int|
            0 <= j < spans.len() && total_cols(spans.take(j)) <= col < total_cols(spans.take(j))
                + (#[trigger] spans[j]).cols,
    decreases spans.len(),
{
    if spans.len() > 0 {
        let last = spans.len() - 1;
        let rest = spans.drop_last();
        assert(rest =~= spans.take(last));
        if col < total_cols(rest) {
            assert forall|i: int| 0 <= i < rest.len() implies (#[trigger] rest[i]).cols >= 1 by {
                assert(rest[i] == spans[i]);
            }
            lemma_span_at_column(rest, col);
            let j = choose|j: int|
                0 <= j < rest.len() && total_cols(rest.take(j)) <= col < total_cols(rest.take(j))
                    + (#[trigger] rest[j]).cols;
            assert(rest.take(j) =~= spans.take(j));
            assert(rest[j] == spans[j]);
            assert(total_cols(spans.take(j)) <= col < total_cols(spans.take(j)) + spans[j].cols);
        } else {
            assert(total_cols(spans.take(last)) <= col < total_cols(spans.take(last))
                + spans[last].cols);
        }
    }
}

/// The cursor has a span to be drawn in, unless its line is made of spacers alone
/// up to it.
pub proof fn cursor_is_in_a_span(screen: Screen, theme: TerminalTheme)
    requires
        screen.wf(),
        no_breaks(screen),
        screen.cursor_row < screen.lines,
        exists|col: int|
            0 <= col < drawn_row(screen, theme, screen.cursor_row as int).len() && !(
            #[trigger] drawn_row(screen, theme, screen.cursor_row as int)[col]).spacer,
    ensures
        exists|i: int|
            0 <= i < screen_content(screen, theme).spans.len() && (#[trigger] cursor_offset(
                screen_content(screen, theme).spans,
                i,
                Some((screen.cursor_row, screen.cursor_col)),
            )) is Some,
{
    let row = screen.cursor_row as int;
    let cells = drawn_row(screen, theme, row);
    let spans = row_spans(cells);
    lemma_drawn_cells(screen, theme, row);
    spans_tile_row(cells);
    assert forall|j: int| 0 <= j < spans.len() implies (#[trigger] spans[j]).cols >= 1 by {
        span_is_as_wide_as_its_text(cells, j);
    }
    lemma_span_at_column(spans, screen.cursor_col as int);
    let j = choose|j: int|
        0 <= j < spans.len() && total_cols(spans.take(j)) <= screen.cursor_col < total_cols(
            spans.take(j),
        ) + (#[trigger] spans[j]).cols;
    let i = screen_spans(screen, theme, row).len() + j;
    lemma_span_of_row(screen, theme, row, j);
    assert(cursor_offset(
        screen_content(screen, theme).spans,
        i,
        Some((screen.cursor_row, screen.cursor_col)),
    ) is Some);
}

/// Where span `j` of a row is among the spans of the screen.
proof fn lemma_span_of_row(screen: Screen, theme: TerminalTheme, row: int, j: int)
    requires
        screen.wf(),
        no_breaks(screen),
        0 <= row < screen.lines,
        0 <= j < row_spans(drawn_row(screen, theme, row)).len(),
    ensures
        ({
            let spans = row_spans(drawn_row(screen, theme, row));
            let all = screen_content(screen, theme).spans;
            let i = screen_spans(screen, theme, row).len() + j;
            &&& 0 <= i < all.len()
            &&& all[i] == spans[j]
            &&& !is_break(all[i])
            &&& line_of(all, i) == row
            &&& col_of(all, i) == total_cols(spans.take(j))
        }),
{
    let spans = row_spans(drawn_row(screen, theme, row));
    let before = screen_spans(screen, theme, row);
    let block = row_block(screen, theme, row);
    lemma_screen_positions(screen, theme, row);
    lemma_row_block(screen, theme, row);
    lemma_positions_of_append(before, block, j);
    assert(0 <= col_of(block, j));
    let i = before.len() + j;
    lemma_rows_are_prefix(screen, theme, row + 1, screen.lines as int);
    let upto = screen_spans(screen, theme, row + 1);
    assert(upto =~= before + block);
    let all = screen_spans(screen, theme, screen.lines as int);
    assert(upto[i] == block[j]);
    assert(block[j] == spans[j]);
    assert(all[i] == upto[i]);
    lemma_positions_of_prefix(upto, all.skip(upto.len() as int), i);
    assert(all =~= upto + all.skip(upto.len() as int));
}

proof fn lemma_rows_are_prefix(screen: Screen, theme: TerminalTheme, k: int, rows: int)
    requires
        0 <= k <= rows,
    ensures
        screen_spans(screen, theme, k).len() <= screen_spans(screen, theme, rows).len(),
        screen_spans(screen, theme, k) == screen_spans(screen, theme, rows).take(
            screen_spans(screen, theme, k).len() as int,
        ),
    decreases rows,
{
    let part = screen_spans(screen, theme, k);
    let all = screen_spans(screen, theme, rows);
    if k == rows {
        assert(all.take(all.len() as int) =~= all);
    } else {
        lemma_rows_are_prefix(screen, theme, k, rows - 1);
        let most = screen_spans(screen, theme, rows - 1);
        assert(all.take(part.len() as int) =~= most.take(part.len() as int));
    }
}

/// The characters of a span have a column each at least, and stand on the span's
/// columns in their order.
pub proof fn places_are_in_order(row: Seq<CellData>, i: int)
    requires
        0 <= i < row_spans(row).len(),
    ensures
        has_ordered_places(row_spans(row)[i]),
    decreases row.len(),
{
    let rest = row.drop_last();
    let before = row_spans(rest);
    if before.len() > 0 {
        if i < before.len() {
            places_are_in_order(rest, i);
        }
        places_are_in_order(rest, before.len() - 1);
        span_is_as_wide_as_its_text(rest, before.len() - 1);
        let last = before.last();
        let span = row_spans(row)[i];
        if i == before.len() - 1 {
            if row.last().spacer {
                if is_wide(row, row.len() - 2) {
                    let m = span.places.len() - 1;
                    assert(span.places[m] == (last.places[m].0, last.places[m].1 + 1));
                    assert forall|k: int| 0 <= k < m implies #[trigger] span.places[k]
                        == last.places[k] by {}
                    assert(has_ordered_places(span));
                } else {
                    assert(has_ordered_places(span));
                }
            } else if last.attrs == row.last().attrs {
                assert forall|k: int| 0 <= k < last.places.len() implies #[trigger] span.places[k]
                    == last.places[k] by {}
                assert(has_ordered_places(span));
            } else {
                assert(span == last);
            }
        }
    }
}

/// How many columns the character in a column of a row takes.
pub open spec fn char_width(row: Seq<CellData>, col: int) -> int {
    if is_wide(row, col) {
        2
    } else {
        1
    }
}

/// Whether character `k` of span `i` of a row is the one in a column, with its
/// attributes and all of its columns.
pub open spec fn is_char_of_cell(row: Seq<CellData>, col: int, i: int, k: int) -> bool {
    let spans = row_spans(row);
    let start = col - total_cols(spans.take(i));
    &&& 0 <= i < spans.len()
    &&& 0 <= k < spans[i].text.len()
    &&& spans[i].text[k] == row[col].c
    &&& spans[i].attrs == row[col].attrs
    &&& spans[i].places.len() == spans[i].text.len()
    &&& spans[i].places[k] == (start, start + char_width(row, col))
}

/// The character of the last cell of a row is the last one of its last span.
proof fn lemma_char_of_last_cell(row: Seq<CellData>)
    requires
        row.len() > 0,
        !row.last().spacer,
    ensures
        row_spans(row).len() > 0,
        is_char_of_cell(
            row,
            row.len() - 1,
            row_spans(row).len() - 1,
            row_spans(row).last().text.len() - 1,
        ),
{
    let rest = row.drop_last();
    let before = row_spans(rest);
    let after = row_spans(row);
    spans_tile_row(rest);
    if before.len() == 0 {
        assert(after.take(0) =~= Seq::empty());
    } else {
        places_are_in_order(rest, before.len() - 1);
        if before.last().attrs == row.last().attrs {
            assert(after.take(before.len() - 1) =~= before.drop_last());
        } else {
            assert(after.take(before.len() as int) =~= before);
        }
    }
}

/// The character of a cell stays where it is when cells are added behind it.
proof fn lemma_char_stays(row: Seq<CellData>, col: int, n: int)
    requires
        0 <= col < n <= row.len(),
        !row[col].spacer,
    ensures
        ({
            let first = row_spans(row.take(col + 1));
            let i = first.len() - 1;
            let k = first.last().text.len() - 1;
            let spans = row_spans(row.take(n));
            &&& first.len() > 0
            &&& is_char_of_cell(row.take(n), col, i, k)
            &&& n > col + 1 && !row[n - 1].spacer ==> spans.len() - 1 > i
                || spans[i].text.len() - 1 > k
        }),
    decreases n,
{
    let first = row_spans(row.take(col + 1));
    let i = first.len() - 1;
    let k = first.last().text.len() - 1;
    lemma_char_of_last_cell(row.take(col + 1));
    if n > col + 1 {
        lemma_char_stays(row, col, n - 1);
        let cells = row.take(n);
        let rest = row.take(n - 1);
        let before = row_spans(rest);
        let after = row_spans(cells);
        assert(cells.drop_last() =~= rest);
        places_are_in_order(rest, before.len() - 1);
        assert(after.take(i) =~= before.take(i));
        if n == col + 2 {
            assert(rest =~= row.take(col + 1));
        }
    }
}

/// The character of each cell that shows one is in a span of its row, with the
/// attributes of the cell, and stands on its column; a wide one on both of its
/// columns.
pub proof fn character_stands_on_its_columns(row: Seq<CellData>, col: int)
    requires
        0 <= col < row.len(),
        !row[col].spacer,
    ensures
        exists|i: int, k: int| is_char_of_cell(row, col, i, k),
{
    lemma_char_stays(row, col, row.len() as int);
    assert(row.take(row.len() as int) =~= row);
    let first = row_spans(row.take(col + 1));
    assert(is_char_of_cell(row, col, first.len() - 1, first.last().text.len() - 1));
}

/// A wide character that is drawn is drawn with its second half, so that its span
/// counts both of its columns.
pub proof fn wide_character_keeps_both_columns(
    screen: Screen,
    theme: TerminalTheme,
    row: int,
    col: int,
)
    requires
        screen.wf(),
        0 <= row < screen.lines,
        0 <= col < drawn_len(screen, theme, row),
        is_wide(grid_row(screen, theme, row), col),
    ensures
        col + 1 < drawn_len(screen, theme, row),
        exists|i: int, k: int|
            #[trigger] is_char_of_cell(drawn_row(screen, theme, row), col, i, k) && ({
                let span = row_spans(drawn_row(screen, theme, row))[i];
                span.places[k].0 + 2 == span.places[k].1 <= span.cols
            }),
{
    let cells = drawn_row(screen, theme, row);
    drawn_row_ends_with_content(screen, theme, row);
    character_stands_on_its_columns(cells, col);
    let (i, k) = choose|i: int, k: int| is_char_of_cell(cells, col, i, k);
    places_are_in_order(cells, i);
    assert(is_wide(cells, col));
}

/// A character stands on one column of its span, or on two where the cell behind it
/// is its second half, and its span begins where the columns of the spans before it
/// end.
pub proof fn second_half_widens_its_character(row: Seq<CellData>, col: int)
    requires
        0 <= col < row.len(),
        !row[col].spacer,
    ensures
        exists|i: int, k: int|
            #![trigger row_spans(row)[i].places[k]]
            0 <= i < row_spans(row).len() && 0 <= k < row_spans(row)[i].text.len() && ({
                let span = row_spans(row)[i];
                let place = span.places[k];
                &&& span.text[k] == row[col].c
                &&& span.attrs == row[col].attrs
                &&& total_cols(row_spans(row).take(i)) + place.0 == col
                &&& col + 1 < row.len() && row[col + 1].spacer && row[col + 1].second_half
                    ==> place.1 == place.0 + 2
                &&& col + 1 == row.len() || !row[col + 1].spacer || !row[col + 1].second_half
                    ==> place.1 == place.0 + 1
            }),
{
    character_stands_on_its_columns(row, col);
    let (i, k) = choose|i: int, k: int| is_char_of_cell(row, col, i, k);
    let place = row_spans(row)[i].places[k];
    assert(row_spans(row)[i].text[k] == row[col].c);
}

/// Every character of a span is that of a cell of its row, on the column where the
/// character stands and with the cell's attributes, so that nothing is made up.
pub proof fn every_character_comes_from_its_cell(row: Seq<CellData>, i: int, k: int)
    requires
        0 <= i < row_spans(row).len(),
        0 <= k < row_spans(row)[i].text.len(),
    ensures
        ({
            let span = row_spans(row)[i];
            let col = total_cols(row_spans(row).take(i)) + span.places[k].0;
            &&& 0 <= col < row.len()
            &&& !row[col].spacer
            &&& span.text[k] == row[col].c
            &&& span.attrs == row[col].attrs
        }),
    decreases row.len(),
{
    let rest = row.drop_last();
    let before = row_spans(rest);
    let after = row_spans(row);
    spans_tile_row(rest);
    places_are_in_order(row, i);
    if before.len() == 0 {
        assert(after.take(0) =~= Seq::empty());
        assert forall|m: int| 0 <= m < rest.len() implies row[m] == rest[m] by {}
    } else {
        let last = before.len() - 1;
        places_are_in_order(rest, last);
        if i < last {
            every_character_comes_from_its_cell(rest, i, k);
            assert(after.take(i) =~= before.take(i));
            assert(after[i] == before[i]);
        } else if i == last {
            assert(after.take(i) =~= before.take(i));
            assert(before.take(last) =~= before.drop_last());
            if k < before[last].text.len() {
                every_character_comes_from_its_cell(rest, i, k);
                assert(after[i].places[k].0 == before[i].places[k].0);
            }
        } else {
            assert(after.take(i) =~= before);
        }
    }
}

/// A second half is drawn wherever its character is.
pub proof fn second_half_is_drawn_with_its_character(
    screen: Screen,
    theme: TerminalTheme,
    row: int,
    col: int,
)
    requires
        screen.wf(),
        0 <= row < screen.lines,
        0 <= col < drawn_row(screen, theme, row).len(),
        col + 1 < screen.columns,
        !grid_row(screen, theme, row)[col].spacer,
        grid_row(screen, theme, row)[col + 1].spacer,
        grid_row(screen, theme, row)[col + 1].second_half,
    ensures
        col + 1 < drawn_row(screen, theme, row).len(),
{
    drawn_row_ends_with_content(screen, theme, row);
    wide_character_keeps_both_columns(screen, theme, row, col);
}

/// The spans of a row stand on the row's line, each behind the columns of those
/// before it.
pub proof fn spans_stand_on_their_row(screen: Screen, theme: TerminalTheme, row: int, j: int)
    requires
        screen.wf(),
        no_breaks(screen),
        0 <= row < screen.lines,
        0 <= j < row_spans(drawn_row(screen, theme, row)).len(),
    ensures
        ({
            let spans = row_spans(drawn_row(screen, theme, row));
            let all = screen_content(screen, theme).spans;
            let i = screen_spans(screen, theme, row).len() + j;
            &&& 0 <= i < all.len()
            &&& all[i] == spans[j]
            &&& line_of(all, i) == row
            &&& col_of(all, i) == total_cols(spans.take(j))
        }),
{
    lemma_span_of_row(screen, theme, row, j);
}

/// The block cursor inverts the character of its cell, and of a wide one also where
/// it is on the second half.
pub proof fn cursor_inverts_its_character(screen: Screen, theme: TerminalTheme, col: int)
    requires
        screen.wf(),
        no_breaks(screen),
        screen.cursor_row < screen.lines,
        0 <= col < screen.columns,
        !grid_row(screen, theme, screen.cursor_row as int)[col].spacer,
        screen.cursor_col == col || (screen.cursor_col == col + 1 && is_wide(
            grid_row(screen, theme, screen.cursor_row as int),
            col,
        )),
    ensures
        exists|i: int|
            0 <= i < screen_content(screen, theme).spans.len() && (#[trigger] cursor_offset(
                screen_content(screen, theme).spans,
                i,
                Some((screen.cursor_row, screen.cursor_col)),
            ) matches Some(offset) && ({
                let span = screen_content(screen, theme).spans[i];
                let cell = grid_row(screen, theme, screen.cursor_row as int)[col];
                &&& has_char_on(span, offset)
                &&& span.text[chars_left_of(span, offset)] == cell.c
                &&& span.attrs == cell.attrs
            })),
{
    let row = screen.cursor_row as int;
    let cells = drawn_row(screen, theme, row);
    let spans = row_spans(cells);
    lemma_drawn_cells(screen, theme, row);
    character_stands_on_its_columns(cells, col);
    let (j, k) = choose|j: int, k: int| is_char_of_cell(cells, col, j, k);
    places_are_in_order(cells, j);
    lemma_span_of_row(screen, theme, row, j);
    let all = screen_content(screen, theme).spans;
    let i = screen_spans(screen, theme, row).len() + j;
    let offset = screen.cursor_col - col_of(all, i);
    char_is_found_on_its_columns(all[i], k, offset);
    assert(cursor_offset(all, i, Some((screen.cursor_row, screen.cursor_col))) == Some(offset));
}

/// Where the cursor's cell shows a character, the text of the screen is the same
/// with the block cursor and without it.
pub proof fn block_cursor_keeps_screen_text(screen: Screen, theme: TerminalTheme, col: int)
    requires
        screen.wf(),
        no_breaks(screen),
        screen.cursor_row < screen.lines,
        0 <= col < screen.columns,
        !grid_row(screen, theme, screen.cursor_row as int)[col].spacer,
        screen.cursor_col == col || (screen.cursor_col == col + 1 && is_wide(
            grid_row(screen, theme, screen.cursor_row as int),
            col,
        )),
    ensures
        ({
            let spans = screen_content(screen, theme).spans;
            let n = spans.len() as int;
            joined(pieces(spans, n, Some((screen.cursor_row, screen.cursor_col)), theme)) == joined(
                pieces(spans, n, None, theme),
            )
        }),
{
    let spans = screen_content(screen, theme).spans;
    let n = spans.len() as int;
    let cursor = Some((screen.cursor_row, screen.cursor_col));
    cursor_inverts_its_character(screen, theme, col);
    let i = choose|i: int|
        0 <= i < spans.len() && (#[trigger] cursor_offset(spans, i, cursor) matches Some(offset)
            && has_char_on(spans[i], offset));
    lemma_screen_positions(screen, theme, screen.lines as int);
    lemma_screen_cols(screen, theme, screen.lines as int);
    assert forall|k: int| 0 <= k < n implies (#[trigger] cursor_offset(
        spans,
        k,
        cursor,
    ) matches Some(offset) ==> has_char_on(spans[k], offset)) by {
        if cursor_offset(spans, k, cursor) is Some {
            cursor_is_in_one_span(spans, cursor, i, k);
        }
    }
    cursor_keeps_text(spans, n, cursor, theme);
    cursor_keeps_text(spans, n, None, theme);
}

proof fn lemma_screen_cols(screen: Screen, theme: TerminalTheme, rows: int)
    ensures
        forall|i: int|
            0 <= i < screen_spans(screen, theme, rows).len() ==> (#[trigger] screen_spans(
                screen,
                theme,
                rows,
            )[i]).cols >= 0,
    decreases rows,
{
    if rows > 0 {
        let before = screen_spans(screen, theme, rows - 1);
        let cells = drawn_row(screen, theme, rows - 1);
        let row = row_spans(cells);
        let spans = screen_spans(screen, theme, rows);
        lemma_screen_cols(screen, theme, rows - 1);
        assert forall|i: int| 0 <= i < spans.len() implies (#[trigger] spans[i]).cols >= 0 by {
            if i < before.len() {
                assert(spans[i] == before[i]);
            } else if i < before.len() + row.len() {
                assert(spans[i] == row[i - before.len()]);
                span_is_as_wide_as_its_text(cells, i - before.len());
            }
        }
    }
}

proof fn lemma_decorated_come_from_spans(spans: Seq<Span>, n: int, decoration: Decoration, k: int)
    requires
        0 <= n <= spans.len(),
        0 <= k < decorated(spans, n, decoration).len(),
    ensures
        exists|i: int|
            0 <= i < n && !is_break(#[trigger] spans[i]) && decoration_color(
                spans[i],
                decoration,
            ) is Some && decorated(spans, n, decoration)[k] == span_rect(
                spans,
                i,
                decoration_color(spans[i], decoration)->0,
            ),
    decreases n,
{
    if n > 0 {
        let before = decorated(spans, n - 1, decoration);
        if k < before.len() {
            lemma_decorated_come_from_spans(spans, n - 1, decoration, k);
        } else {
            assert(!is_break(spans[n - 1]));
        }
    }
}

/// Backgrounds, underlines and strikeouts stay on the screen: each covers cells
/// of one line, and only ones that it has.
pub proof fn decorations_stay_on_screen(
    screen: Screen,
    theme: TerminalTheme,
    decoration: Decoration,
    k: int,
)
    requires
        screen.wf(),
        no_breaks(screen),
        0 <= k < decorated(
            screen_content(screen, theme).spans,
            screen_content(screen, theme).spans.len() as int,
            decoration,
        ).len(),
    ensures
        ({
            let spans = screen_content(screen, theme).spans;
            let rect = decorated(spans, spans.len() as int, decoration)[k];
            &&& rect.row < screen.lines
            &&& 1 <= rect.col_count
            &&& rect.col_start + rect.col_count <= screen.columns
        }),
{
    let spans = screen_content(screen, theme).spans;
    let n = spans.len() as int;
    lemma_decorated_come_from_spans(spans, n, decoration, k);
    let i = choose|i: int|
        0 <= i < n && !is_break(#[trigger] spans[i]) && decoration_color(
            spans[i],
            decoration,
        ) is Some && decorated(spans, n, decoration)[k] == span_rect(
            spans,
            i,
            decoration_color(spans[i], decoration)->0,
        );
    spans_stay_on_screen(screen, theme, i);
}

proof fn lemma_product_within(a: int, b: int, factor: int)
    by (nonlinear_arith)
    requires
        0 <= a <= b,
        0 <= factor,
    ensures
        0 <= a * factor <= b * factor,
{
}

proof fn lemma_decorations_fit(
    screen: Screen,
    theme: TerminalTheme,
    cells: CellPixels,
    decoration: Decoration,
    y_offset: u32,
)
    requires
        screen.wf(),
        no_breaks(screen),
        screen.columns <= u32::MAX,
        screen.lines <= u32::MAX,
        cells.padding + screen.columns * cells.width <= u32::MAX,
        cells.padding + screen.lines * cells.height <= u32::MAX,
        y_offset <= cells.height,
    ensures
        all_cells_fit(
            cells,
            decorated(
                screen_content(screen, theme).spans,
                screen_content(screen, theme).spans.len() as int,
                decoration,
            ),
            y_offset,
        ),
{
    let spans = screen_content(screen, theme).spans;
    let rects = decorated(spans, spans.len() as int, decoration);
    assert forall|k: int| 0 <= k < rects.len() implies cells_fit(
        cells,
        #[trigger] rects[k],
        y_offset,
    ) by {
        decorations_stay_on_screen(screen, theme, decoration, k);
        let rect = rects[k];
        let columns = screen.columns as int;
        lemma_product_within(rect.col_start as int, columns, cells.width as int);
        lemma_product_within(rect.col_count as int, columns, cells.width as int);
        lemma_product_within(rect.row + 1, screen.lines as int, cells.height as int);
        assert((rect.row + 1) * cells.height == rect.row * cells.height + cells.height)
            by (nonlinear_arith);
    }
}

/// A screen whose pixels can be counted can be drawn, whatever is on it and wherever
/// the cursor is.
pub proof fn screen_can_be_drawn(
    screen: Screen,
    theme: TerminalTheme,
    cells: CellPixels,
    on: bool,
    metrics: PixelMetrics,
)
    requires
        screen.wf(),
        no_breaks(screen),
        screen.cursor_row < screen.lines,
        screen.columns <= u32::MAX,
        screen.lines <= u32::MAX,
        cells.padding + screen.columns * cells.width <= u32::MAX,
        cells.padding + screen.lines * cells.height <= u32::MAX,
        metrics.line_thickness < u32::MAX,
    ensures
        frame_fits(cells, screen_content(screen, theme), on, metrics),
{
    lemma_screen_positions(screen, theme, screen.lines as int);
    lemma_decorations_fit(screen, theme, cells, Decoration::Background, 0);
    lemma_decorations_fit(
        screen,
        theme,
        cells,
        Decoration::Underline,
        underline_offset(cells.height, metrics.line_thickness),
    );
    lemma_decorations_fit(
        screen,
        theme,
        cells,
        Decoration::Strikeout,
        strikeout_offset(cells.height),
    );
    let row = screen.cursor_row;
    lemma_product_within(screen.cursor_col as int, screen.columns as int, cells.width as int);
    lemma_product_within(row + 1, screen.lines as int, cells.height as int);
    assert((row + 1) * cells.height == row * cells.height + cells.height) by (nonlinear_arith);
}

/// A cursor covers nothing outside of its cell, as long as its bar is not thicker
/// than the cell.
pub proof fn cursor_stays_in_its_cell(
    cells: CellPixels,
    row: usize,
    col: usize,
    shape: CursorShape,
    thin_bar: u32,
    color: Rgb,
)
    requires
        shape != CursorShape::Hidden,
        cursor_fits(cells, row, col, shape, thin_bar),
        thin_bar <= cells.width,
        thin_bar <= cells.height,
    ensures
        ({
            let rect = cursor_rect(cells, row, col, shape, thin_bar, color);
            &&& column_x(cells, col) <= rect.x
            &&& rect.x + rect.width <= column_x(cells, col) + cells.width
            &&& row_y(cells, row) <= rect.y
            &&& rect.y + rect.height <= row_y(cells, row) + cells.height
            &&& shape == CursorShape::Underline ==> rect.y + rect.height == row_y(cells, row)
                + cells.height
        }),
{
    assert(0 <= (col as u32) * cells.width) by (nonlinear_arith);
    assert(0 <= (row as u32) * cells.height) by (nonlinear_arith);
}

/// The lines of a cell stay in it: an underline ends a pixel above its bottom,
/// and a strikeout starts half way down.
pub proof fn lines_stay_in_their_cell(cell_height: u32, line_thickness: u32)
    requires
        line_thickness < cell_height,
    ensures
        underline_offset(cell_height, line_thickness) + line_thickness + 1 == cell_height,
        2 * line_thickness <= cell_height ==> strikeout_offset(cell_height) + line_thickness
            <= cell_height,
{
}

/// A strikeout is half way down its cell, and an underline that has no room above
/// the bottom is at the top.
pub proof fn lines_have_their_height(cell_height: u32, line_thickness: u32)
    ensures
        2 * strikeout_offset(cell_height) <= cell_height < 2 * strikeout_offset(cell_height) + 2,
        line_thickness >= cell_height ==> underline_offset(cell_height, line_thickness) == 0,
        line_thickness < cell_height ==> underline_offset(cell_height, line_thickness)
            + line_thickness == cell_height - 1,
{
}

/// Columns and rows are evenly spaced, from the padding on.
pub proof fn cells_are_evenly_spaced(cells: CellPixels, col: usize, row: usize)
    requires
        col < u32::MAX,
        row < u32::MAX,
    ensures
        column_x(cells, 0) == cells.padding,
        row_y(cells, 0) == cells.padding,
        column_x(cells, (col + 1) as usize) == column_x(cells, col) + cells.width,
        row_y(cells, (row + 1) as usize) == row_y(cells, row) + cells.height,
{
    let c = col as u32;
    let r = row as u32;
    assert(0 * cells.width == 0 && 0 * cells.height == 0) by (nonlinear_arith);
    assert((c + 1) * cells.width == c * cells.width + cells.width) by (nonlinear_arith);
    assert((r + 1) * cells.height == r * cells.height + cells.height) by (nonlinear_arith);
}

/// The cursor blinks once a second: what it is now it is not half a second later,
/// and is again a second later.
pub proof fn cursor_blinks_once_a_second(shape: CursorShape, elapsed_ms: u64)
    requires
        shape != CursorShape::Hidden,
        elapsed_ms + 1000 <= u64::MAX,
    ensures
        cursor_is_on(shape, (elapsed_ms + 500) as u64) == !cursor_is_on(shape, elapsed_ms),
        cursor_is_on(shape, (elapsed_ms + 1000) as u64) == cursor_is_on(shape, elapsed_ms),
{
}

/// The grid that fits a surface has as many whole cells as there is room for, and
/// one at least, as long as they can be counted in sixteen bits.
pub proof fn fitting_grid_fills_surface(surface: TerminalSurface)
    requires
        surface.wf(),
        surface.width as int / surface.cell_width as int <= u16::MAX,
        surface.height as int / surface.cell_height as int <= u16::MAX,
    ensures
        surface.fitting_grid().cols == larger(
            surface.width as int / surface.cell_width as int,
            1,
        ),
        surface.fitting_grid().rows == larger(
            surface.height as int / surface.cell_height as int,
            1,
        ),
{
}

/// A surface whose grid fits has nothing to tell the shell, so a size that was
/// taken on is told once.
pub proof fn fitting_grid_is_told_once(surface: TerminalSurface)
    requires
        surface.backend@ == surface.fitting_grid(),
    ensures
        surface.size_message(surface.backend@) is None,
{
}

proof fn lemma_empty_grid_cell(
    cells: Seq<TermCell>,
    palette: Seq<Option<Rgb>>,
    theme: TerminalTheme,
    row: int,
    col: int,
)
    requires
        forall|i: int|
            0 <= i < cells.len() ==> {
                &&& (#[trigger] cells[i]).c == ' '
                &&& cells[i].fg == AnsiColor::Named(NAMED_FOREGROUND)
                &&& cells[i].bg == AnsiColor::Named(NAMED_BACKGROUND)
                &&& cells[i].flags == 0
            },
    ensures
        grid_cell(cells, palette, theme, row, col) == blank_cell(theme),
    decreases cells.len(),
{
    if cells.len() > 0 {
        assert(cells.last() == cells[cells.len() - 1]);
        assert forall|i: int| 0 <= i < cells.drop_last().len() implies {
            &&& (#[trigger] cells.drop_last()[i]).c == ' '
            &&& cells.drop_last()[i].fg == AnsiColor::Named(NAMED_FOREGROUND)
            &&& cells.drop_last()[i].bg == AnsiColor::Named(NAMED_BACKGROUND)
            &&& cells.drop_last()[i].flags == 0
        } by {
            assert(cells.drop_last()[i] == cells[i]);
        }
        lemma_empty_grid_cell(cells.drop_last(), palette, theme, row, col);
        assert(0u16 & 0x0001 != 0x0001) by (bit_vector);
        assert(0u16 & 0x0002 != 0x0002) by (bit_vector);
        assert(0u16 & 0x0004 != 0x0004) by (bit_vector);
        assert(0u16 & 0x7808 == 0) by (bit_vector);
        assert(0u16 & 0x0200 != 0x0200) by (bit_vector);
        assert(0u16 & 0x0040 != 0x0040) by (bit_vector);
        assert(0u16 & 0x0080 != 0x0080) by (bit_vector);
        assert(0u16 & 0x0100 != 0x0100) by (bit_vector);
        assert(0u16 & 0x0440 == 0) by (bit_vector);
    }
}

proof fn lemma_blank_row(row: Seq<CellData>, theme: TerminalTheme)
    requires
        forall|i: int| 0 <= i < row.len() ==> #[trigger] row[i] == blank_cell(theme),
    ensures
        meaningful_len(row, theme) == 0,
    decreases row.len(),
{
    if row.len() > 0 {
        assert(row[row.len() - 1] == blank_cell(theme));
        lemma_blank_row(row.drop_last(), theme);
    }
}

/// The span of a single blank cell.
pub open spec fn blank_span(theme: TerminalTheme) -> Span {
    Span { text: seq![' '], attrs: plain_attrs(theme), cols: 1, places: seq![(0int, 1int)] }
}

proof fn lemma_blank_rows(screen: Screen, theme: TerminalTheme, rows: int)
    requires
        forall|row: int, col: int|
            #[trigger] grid_cell(screen.cells, screen.palette, theme, row, col) == blank_cell(
                theme,
            ),
        screen.columns >= 1,
        screen.cursor_row == 0,
        screen.cursor_col == 0,
        1 <= rows,
    ensures
        screen_spans(screen, theme, rows) == seq![blank_span(theme)] + Seq::new(
            rows as nat,
            |i: int| line_break(theme),
        ),
    decreases rows,
{
    let row = grid_row(screen, theme, rows - 1);
    assert forall|i: int| 0 <= i < row.len() implies #[trigger] row[i] == blank_cell(theme) by {
        assert(grid_cell(screen.cells, screen.palette, theme, rows - 1, i) == blank_cell(theme));
    }
    lemma_blank_row(row, theme);
    let drawn = drawn_row(screen, theme, rows - 1);
    if rows == 1 {
        assert(drawn.len() == 1);
        assert(drawn.drop_last() =~= Seq::empty());
        assert(drawn.last() == row[0]);
        reveal_with_fuel(row_spans, 2);
        assert(row_spans(drawn) =~= seq![blank_span(theme)]);
        assert(screen_spans(screen, theme, 0) =~= Seq::empty());
    } else {
        lemma_blank_rows(screen, theme, rows - 1);
        assert(drawn =~= Seq::empty());
    }
    assert(screen_spans(screen, theme, rows) =~= seq![blank_span(theme)] + Seq::new(
        rows as nat,
        |i: int| line_break(theme),
    ));
}

/// A new terminal shows nothing but the cell of its cursor, a block in the
/// corner, and has as many lines as it was made with.
pub proof fn new_terminal_is_blank(
    term: Term<VoidListener>,
    columns: u16,
    lines: u16,
    theme: TerminalTheme,
)
    requires
        columns >= 1,
        lines >= 1,
        is_new_term(term, columns, lines),
    ensures
        readable(term),
        screen_content(term_screen(term), theme) == (Content {
            spans: seq![blank_span(theme)] + Seq::new(lines as nat, |i: int| line_break(theme)),
            cursor_row: 0,
            cursor_col: 0,
            cursor_shape: CursorShape::Block,
        }),
{
    let screen = term_screen(term);
    new_term_is_readable(term, columns, lines);
    assert forall|row: int, col: int|
        #[trigger] grid_cell(screen.cells, screen.palette, theme, row, col) == blank_cell(theme) by {
        lemma_empty_grid_cell(screen.cells, screen.palette, theme, row, col);
    }
    lemma_blank_rows(screen, theme, lines as int);
}

/// A new terminal takes on any size with a cell, a single column among them.
pub proof fn new_terminal_can_be_resized(
    term: Term<VoidListener>,
    columns: u16,
    lines: u16,
    new_columns: u16,
    new_lines: u16,
)
    requires
        columns >= 1,
        lines >= 1,
        is_new_term(term, columns, lines),
        new_columns >= 1,
        new_lines >= 1,
    ensures
        can_resize(term, new_columns, new_lines),
{
    assert(0u16 & 0x0020 != 0x0020) by (bit_vector);
}

/// The hash goes by what the terminal shows alone: frames of one screen share it,
/// whether the cursor is on or off and whatever the surface.
pub proof fn blinking_keeps_hash(
    a: TerminalSurface,
    b: TerminalSurface,
    first: Frame,
    second: Frame,
    content: Content,
    first_ms: u64,
    second_ms: u64,
    first_metrics: PixelMetrics,
    second_metrics: PixelMetrics,
)
    requires
        a.shows(first, content, first_ms, first_metrics),
        b.shows(second, content, second_ms, second_metrics),
    ensures
        first.content_hash == second.content_hash,
{
}

} // verus!
