//! The terminal emulator of `alacritty_terminal`, read into plain values.
//!
//! The emulator parses what the program prints and keeps the grid of cells.
//! This module is the only one that calls it: what it reports goes into a
//! [`Snapshot`], and everything else works on that.
use crate::color::{AnsiColor, NAMED_BACKGROUND, NAMED_FOREGROUND, PALETTE_LEN};
use crate::theme::Rgb;
use alacritty_terminal::event::VoidListener;
use alacritty_terminal::grid::Dimensions;
use alacritty_terminal::index::Point;
use alacritty_terminal::term::cell::Flags;
use alacritty_terminal::term::test::TermSize;
use alacritty_terminal::term::{Config, Term, TermMode};
use alacritty_terminal::vte::ansi::{Color, CursorShape};
use vstd::prelude::*;

verus! {

/// The emulator itself, which keeps the grid and the modes of a terminal.
#[verifier::external_type_specification]
#[verifier::external_body]
#[verifier::reject_recursive_types(T)]
pub struct ExTerm<T>(alacritty_terminal::term::Term<T>);

/// The emulator's listener that drops every event.
#[verifier::external_type_specification]
#[verifier::external_body]
pub struct ExVoidListener(alacritty_terminal::event::VoidListener);

/// A cell as the emulator displays it.
#[derive(Clone, Copy)]
pub struct TermCell {
    /// The line, which is out of range for lines of the scrollback.
    pub row: usize,
    pub col: usize,
    pub c: char,
    pub fg: AnsiColor,
    pub bg: AnsiColor,
    /// The emulator's flags, as bits.
    pub flags: u16,
}

/// The cursor shapes that the emulator knows.
#[derive(Clone, Copy)]
pub enum CursorStyle {
    Block,
    Underline,
    Beam,
    HollowBlock,
    Hidden,
}

/// The flags of a cell that matter for drawing it.
#[derive(Clone, Copy)]
pub struct CellFlags {
    pub inverse: bool,
    pub bold: bool,
    pub italic: bool,
    /// Any of the underline styles.
    pub underline: bool,
    pub strikeout: bool,
    pub dim: bool,
    pub hidden: bool,
    /// A character that takes two columns.
    pub wide: bool,
    /// The second half of a wide character.
    pub second_half: bool,
    /// A cell that a wide character takes up without showing anything: its
    /// second half, or the end of the line that it did not fit into.
    pub spacer: bool,
}

/// The modes of a terminal that matter here.
#[derive(Clone, Copy)]
pub struct ModeFlags {
    pub bracketed_paste: bool,
    /// The grid is the one of full-screen programs.
    pub alt_screen: bool,
    /// The cursor is the one of the emulator's keyboard selection.
    pub vi: bool,
}

/// What the emulator shows, in plain values.
pub struct Snapshot {
    pub columns: usize,
    pub lines: usize,
    pub cells: Vec<TermCell>,
    /// The colors that the program has set, one entry for each index.
    pub palette: Vec<Option<Rgb>>,
    pub cursor_row: usize,
    pub cursor_col: usize,
    pub cursor_style: CursorStyle,
}

/// The mathematical model of a [`Snapshot`].
#[verifier::ext_equal]
pub struct Screen {
    pub columns: usize,
    pub lines: usize,
    pub cells: Seq<TermCell>,
    pub palette: Seq<Option<Rgb>>,
    pub cursor_row: usize,
    pub cursor_col: usize,
    pub cursor_style: CursorStyle,
}

impl View for Snapshot {
    type V = Screen;

    open spec fn view(&self) -> Screen {
        Screen {
            columns: self.columns,
            lines: self.lines,
            cells: self.cells@,
            palette: self.palette@,
            cursor_row: self.cursor_row,
            cursor_col: self.cursor_col,
            cursor_style: self.cursor_style,
        }
    }
}

impl Screen {
    /// Whether the palette is complete and a cursor on one of the lines stands
    /// on one of the columns.
    pub open spec fn wf(self) -> bool {
        &&& self.palette.len() == PALETTE_LEN
        &&& self.cursor_row < self.lines ==> self.cursor_col < self.columns
    }
}

/// Whether a mask of the emulator's cell flags is set in full.
pub open spec fn has_flag(flags: u16, mask: u16) -> bool {
    flags & mask == mask
}

/// Whether a mask of the emulator's cell flags is set in part.
pub open spec fn has_any_flag(flags: u16, mask: u16) -> bool {
    flags & mask != 0
}

/// The cell flags that `flags` stands for.
pub open spec fn decoded_flags(flags: u16) -> CellFlags {
    CellFlags {
        inverse: has_flag(flags, 0x0001),
        bold: has_flag(flags, 0x0002),
        italic: has_flag(flags, 0x0004),
        underline: has_any_flag(flags, 0x7808),
        strikeout: has_flag(flags, 0x0200),
        dim: has_flag(flags, 0x0080),
        hidden: has_flag(flags, 0x0100),
        wide: has_flag(flags, 0x0020),
        second_half: has_flag(flags, 0x0040),
        spacer: has_any_flag(flags, 0x0440),
    }
}

/// The modes that `mode` stands for.
pub open spec fn decoded_mode(mode: u32) -> ModeFlags {
    ModeFlags {
        bracketed_paste: mode & 0x0010 == 0x0010,
        alt_screen: mode & 0x1000 == 0x1000,
        vi: mode & 0x1_0000 == 0x1_0000,
    }
}

/// Columns of the emulator's grid.
pub uninterp spec fn term_columns(term: Term<VoidListener>) -> usize;

/// Lines of the emulator's grid, without the scrollback.
pub uninterp spec fn term_lines(term: Term<VoidListener>) -> usize;

/// The emulator's mode bits.
pub uninterp spec fn term_mode(term: Term<VoidListener>) -> u32;

/// Line and column at which the emulator writes next.
pub uninterp spec fn term_grid_cursor(term: Term<VoidListener>) -> (i32, usize);

/// Flags of the cell at which the emulator writes next.
pub uninterp spec fn term_cursor_flags(term: Term<VoidListener>) -> u16;

/// Flags of every cell of the emulator's grid, from the oldest line of the
/// scrollback on.
pub uninterp spec fn term_all_flags(term: Term<VoidListener>) -> Seq<u16>;

/// Flags of every cell of the grid that the emulator does not write to: that of
/// full-screen programs, or the ordinary one while they run.
pub uninterp spec fn term_hidden_flags(term: Term<VoidListener>) -> Seq<u16>;

/// Lines by which the emulator's display is scrolled back.
pub uninterp spec fn term_display_offset(term: Term<VoidListener>) -> usize;

/// Lines of the emulator's scrollback.
pub uninterp spec fn term_history(term: Term<VoidListener>) -> usize;

/// The cells that the emulator displays, from the top left on.
pub uninterp spec fn term_cells(term: Term<VoidListener>) -> Seq<TermCell>;

/// The shape in which the emulator displays the cursor.
pub uninterp spec fn term_cursor_style(term: Term<VoidListener>) -> CursorStyle;

/// The color that the program has set for an index.
pub uninterp spec fn term_palette_entry(term: Term<VoidListener>, idx: u8) -> Option<Rgb>;

/// The emulator after it was given a grid of other columns and lines.
pub uninterp spec fn term_resized(
    term: Term<VoidListener>,
    columns: u16,
    lines: u16,
) -> Term<VoidListener>;

/// The cells of a grid that nothing was written to: spaces in the default
/// colors, line by line.
pub open spec fn empty_cells(columns: u16, lines: u16) -> Seq<TermCell> {
    Seq::new(
        (lines * columns) as nat,
        |i: int|
            TermCell {
                row: (i / columns as int) as usize,
                col: (i % columns as int) as usize,
                c: ' ',
                fg: AnsiColor::Named(NAMED_FOREGROUND),
                bg: AnsiColor::Named(NAMED_BACKGROUND),
                flags: 0,
            },
    )
}

/// The flags of a grid that nothing was written to.
pub open spec fn empty_flags(columns: u16, lines: u16) -> Seq<u16> {
    Seq::new((lines * columns) as nat, |i: int| 0u16)
}

/// `Dimensions::columns` of the grid: its number of columns.
#[verifier::external_body]
fn columns(term: &Term<VoidListener>) -> (n: usize)
    ensures
        n == term_columns(*term),
{
    term.grid().columns()
}

/// `Dimensions::screen_lines` of the grid: its number of lines on the screen.
#[verifier::external_body]
fn screen_lines(term: &Term<VoidListener>) -> (n: usize)
    ensures
        n == term_lines(*term),
{
    term.grid().screen_lines()
}

/// `Grid::display_offset`: the lines by which the display is scrolled back.
#[verifier::external_body]
fn display_offset(term: &Term<VoidListener>) -> (n: usize)
    ensures
        n == term_display_offset(*term),
{
    term.grid().display_offset()
}

/// `Dimensions::history_size` of the grid: the lines of its scrollback.
#[verifier::external_body]
fn history_size(term: &Term<VoidListener>) -> (n: usize)
    ensures
        n == term_history(*term),
{
    term.grid().history_size()
}

/// `Term::mode`, as bits.
#[verifier::external_body]
fn mode(term: &Term<VoidListener>) -> (bits: u32)
    ensures
        bits == term_mode(*term),
{
    term.mode().bits()
}

/// `TermMode::contains`: a mode is on where its bit is set.
#[verifier::external_body]
fn mode_flags(mode: u32) -> (flags: ModeFlags)
    ensures
        flags == decoded_mode(mode),
{
    let bits = TermMode::from_bits_retain(mode);
    ModeFlags {
        bracketed_paste: bits.contains(TermMode::BRACKETED_PASTE),
        alt_screen: bits.contains(TermMode::ALT_SCREEN),
        vi: bits.contains(TermMode::VI),
    }
}

/// The grid's own cursor, in `Term::grid`.
#[verifier::external_body]
fn grid_cursor(term: &Term<VoidListener>) -> (point: (i32, usize))
    ensures
        point == term_grid_cursor(*term),
{
    let point = term.grid().cursor.point;
    (point.line.0, point.column.0)
}

/// The flags of the cell under the grid's own cursor, by `Grid`'s `Index`,
/// which needs a cursor inside the grid.
#[verifier::external_body]
fn cursor_flags(term: &Term<VoidListener>) -> (flags: u16)
    requires
        cursor_in_grid(*term),
    ensures
        flags == term_cursor_flags(*term),
{
    term.grid()[term.grid().cursor.point].flags.bits()
}

/// `Grid::iter_from` the place before the oldest line's first cell: the flags of
/// every cell of the grid, with the scrollback.
#[verifier::external_body]
fn all_flags(term: &Term<VoidListener>) -> (flags: Vec<u16>)
    requires
        cursor_in_grid(*term),
    ensures
        flags@ == term_all_flags(*term),
{
    let grid = term.grid();
    let before = Point::new(grid.topmost_line() - 1, grid.last_column());
    grid.iter_from(before).map(|cell| cell.flags.bits()).collect()
}

/// `Flags::contains` and `Flags::intersects`: a flag is set where all bits of
/// its mask are; an underline is any of five masks and a spacer either of two.
#[verifier::external_body]
pub(crate) fn cell_flags(flags: u16) -> (decoded: CellFlags)
    ensures
        decoded == decoded_flags(flags),
{
    let bits = Flags::from_bits_retain(flags);
    CellFlags {
        inverse: bits.contains(Flags::INVERSE),
        bold: bits.contains(Flags::BOLD),
        italic: bits.contains(Flags::ITALIC),
        underline: bits.intersects(Flags::ALL_UNDERLINES),
        strikeout: bits.contains(Flags::STRIKEOUT),
        dim: bits.contains(Flags::DIM),
        hidden: bits.contains(Flags::HIDDEN),
        wide: bits.contains(Flags::WIDE_CHAR),
        second_half: bits.contains(Flags::WIDE_CHAR_SPACER),
        spacer: bits.intersects(Flags::WIDE_CHAR_SPACER | Flags::LEADING_WIDE_CHAR_SPACER),
    }
}

/// `Term::renderable_content`, its `display_iter`: the cells on display. A line
/// number is converted to `usize` as it is, so that of a scrolled-back line,
/// which is negative, becomes one that no screen has.
#[verifier::external_body]
fn displayed_cells(term: &Term<VoidListener>) -> (cells: Vec<TermCell>)
    requires
        readable(*term),
    ensures
        cells@ == term_cells(*term),
{
    let plain = |color: Color| match color {
        Color::Named(name) => AnsiColor::Named(name as usize),
        Color::Spec(rgb) => AnsiColor::Spec(rgb.r, rgb.g, rgb.b),
        Color::Indexed(index) => AnsiColor::Indexed(index),
    };
    term.renderable_content().display_iter.map(|cell| TermCell {
        row: cell.point.line.0 as usize,
        col: cell.point.column.0,
        c: cell.c,
        fg: plain(cell.fg),
        bg: plain(cell.bg),
        flags: cell.flags.bits(),
    }).collect()
}

/// `Term::renderable_content`, its `cursor`: the grid's own cursor, but one
/// column to the left on the second half of a wide character, and the shape in
/// which it is displayed.
#[verifier::external_body]
fn displayed_cursor(term: &Term<VoidListener>) -> (cursor: (usize, usize, CursorStyle))
    requires
        readable(*term),
    ensures
        cursor.0 == term_grid_cursor(*term).0,
        cursor.1 == displayed_column(*term),
        cursor.2 == term_cursor_style(*term),
{
    let cursor = term.renderable_content().cursor;
    let style = match cursor.shape {
        CursorShape::Block => CursorStyle::Block,
        CursorShape::Underline => CursorStyle::Underline,
        CursorShape::Beam => CursorStyle::Beam,
        CursorShape::HollowBlock => CursorStyle::HollowBlock,
        CursorShape::Hidden => CursorStyle::Hidden,
    };
    (cursor.point.line.0 as usize, cursor.point.column.0, style)
}

/// `Term::colors`, at an index: the color that the program has set for it.
#[verifier::external_body]
fn palette_entry(term: &Term<VoidListener>, idx: u8) -> (color: Option<Rgb>)
    ensures
        color == term_palette_entry(*term, idx),
{
    term.colors()[idx as usize].map(|rgb| (rgb.r, rgb.g, rgb.b))
}

/// `Term::new` with the default configuration: an empty grid of the given size,
/// not scrolled back, with the cursor as a block in the corner, and another such
/// grid aside. Of the modes stated here none is on, and no color is set. A line
/// needs a column at least.
#[verifier::external_body]
pub(crate) fn new_term(columns: u16, lines: u16) -> (term: Term<VoidListener>)
    requires
        columns >= 1 || lines == 0,
    ensures
        is_new_term(term, columns, lines),
        lines >= 1 ==> term_hidden_flags(term) == empty_flags(columns, lines),
{
    let size = TermSize::new(columns as usize, lines as usize);
    Term::new(Config::default(), &size, VoidListener)
}

/// `Term::resize`: the grid takes the new size, and the emulator keeps its modes,
/// its colors and the shape of its cursor. With the size that it has it stays as
/// it is. What becomes of the cells when lines are wrapped anew is left to the
/// emulator: it depends on the emulator and the new size alone.
///
/// It needs a cursor inside the grid and room for what it wraps: on the way to a
/// single column it does not return where it comes to a wide character. The grid
/// that it wraps is the one behind the alternate screen, as long as that is on.
#[verifier::external_body]
pub(crate) fn resize_term(term: &mut Term<VoidListener>, columns: u16, lines: u16)
    requires
        can_resize(*old(term), columns, lines),
    ensures
        *final(term) == term_resized(*old(term), columns, lines),
        is_resized(*old(term), *final(term), columns, lines),
{
    term.resize(TermSize::new(columns as usize, lines as usize));
}

/// Whether `term` is an emulator to which nothing was written yet. What it
/// displays is stated where it has a cell.
pub open spec fn is_new_term(term: Term<VoidListener>, columns: u16, lines: u16) -> bool {
    &&& term_columns(term) == columns
    &&& term_lines(term) == lines
    &&& term_grid_cursor(term) == (0i32, 0usize)
    &&& term_display_offset(term) == 0
    &&& decoded_mode(term_mode(term)) == (ModeFlags {
        bracketed_paste: false,
        alt_screen: false,
        vi: false,
    })
    &&& forall|idx: u8| (#[trigger] term_palette_entry(term, idx)) is None
    &&& lines >= 1 ==> {
        &&& term_cells(term) == empty_cells(columns, lines)
        &&& term_all_flags(term) == empty_flags(columns, lines)
        &&& term_hidden_flags(term) == empty_flags(columns, lines)
        &&& term_cursor_flags(term) == 0
        &&& term_cursor_style(term) == CursorStyle::Block
    }
}

/// Whether no cell holds a wide character.
pub open spec fn none_wide(flags: Seq<u16>) -> bool {
    forall|i: int| 0 <= i < flags.len() ==> !decoded_flags(#[trigger] flags[i]).wide
}

/// Flags of the grid whose lines are wrapped when the columns change: the ordinary
/// one, which is hidden while the alternate screen is on.
pub open spec fn wrapped_flags(term: Term<VoidListener>) -> Seq<u16> {
    if decoded_mode(term_mode(term)).alt_screen {
        term_hidden_flags(term)
    } else {
        term_all_flags(term)
    }
}

/// Whether the grid's columns become a single one, so that each line is wrapped at
/// every character.
pub open spec fn folds_to_one_column(term: Term<VoidListener>, columns: u16) -> bool {
    columns == 1 && term_columns(term) != 1
}

/// Whether a resize comes back: the grid has a cell and keeps one, and no wide
/// character has to go into a single column.
pub open spec fn can_resize(term: Term<VoidListener>, columns: u16, lines: u16) -> bool {
    &&& cursor_in_grid(term)
    &&& columns >= 1
    &&& lines >= 1
    &&& folds_to_one_column(term, columns) ==> none_wide(wrapped_flags(term))
}

/// Whether a resize rests on a grid that cannot be looked at: the columns become a
/// single one while the alternate screen is on.
pub open spec fn folds_hidden_grid(term: Term<VoidListener>, columns: u16) -> bool {
    folds_to_one_column(term, columns) && decoded_mode(term_mode(term)).alt_screen
}

/// Whether `after` is `before` with a grid of the given size: the modes, the colors
/// and the shape of the cursor stay, and with the size that it has so does
/// everything.
pub open spec fn is_resized(
    before: Term<VoidListener>,
    after: Term<VoidListener>,
    columns: u16,
    lines: u16,
) -> bool {
    &&& after == term_resized(before, columns, lines)
    &&& term_columns(after) == columns
    &&& term_lines(after) == lines
    &&& term_mode(after) == term_mode(before)
    &&& term_cursor_style(after) == term_cursor_style(before)
    &&& forall|idx: u8|
        (#[trigger] term_palette_entry(after, idx)) == term_palette_entry(before, idx)
    &&& term_columns(before) == columns && term_lines(before) == lines ==> after == before
}

/// Whether the grid has a cell and its cursor is on one.
pub open spec fn cursor_in_grid(term: Term<VoidListener>) -> bool {
    &&& term_columns(term) >= 1
    &&& term_lines(term) >= 1
    &&& 0 <= term_grid_cursor(term).0 < term_lines(term)
    &&& term_grid_cursor(term).1 < term_columns(term)
}

/// Whether the cursor is on the second half of a wide character.
pub open spec fn cursor_on_spacer(term: Term<VoidListener>) -> bool {
    decoded_flags(term_cursor_flags(term)).second_half
}

/// The column in which the cursor is displayed.
pub open spec fn displayed_column(term: Term<VoidListener>) -> int {
    if cursor_on_spacer(term) {
        term_grid_cursor(term).1 - 1
    } else {
        term_grid_cursor(term).1 as int
    }
}

/// Whether the emulator can be displayed: it is not scrolled back further than its
/// scrollback reaches, and its cursor is the grid's own and on a cell, with
/// something to the left of a wide character's second half.
pub open spec fn readable(term: Term<VoidListener>) -> bool {
    &&& cursor_in_grid(term)
    &&& !decoded_mode(term_mode(term)).vi
    &&& displayed_column(term) >= 0
    &&& term_display_offset(term) <= term_history(term)
}

/// What the emulator shows.
pub open spec fn term_screen(term: Term<VoidListener>) -> Screen {
    Screen {
        columns: term_columns(term),
        lines: term_lines(term),
        cells: term_cells(term),
        palette: Seq::new(PALETTE_LEN as nat, |i: int| term_palette_entry(term, i as u8)),
        cursor_row: term_grid_cursor(term).0 as usize,
        cursor_col: displayed_column(term) as usize,
        cursor_style: term_cursor_style(term),
    }
}

/// An emulator to which nothing was written yet can be read.
pub proof fn new_term_is_readable(term: Term<VoidListener>, columns: u16, lines: u16)
    requires
        columns >= 1,
        lines >= 1,
        is_new_term(term, columns, lines),
    ensures
        readable(term),
        !cursor_on_spacer(term),
{
    assert(0u16 & 0x0040 != 0x0040) by (bit_vector);
}

/// Tests whether the grid has a cell and its cursor is on one.
pub fn has_cursor_in_grid(term: &Term<VoidListener>) -> (inside: bool)
    ensures
        inside == cursor_in_grid(*term),
{
    let point = grid_cursor(term);
    let width = columns(term);
    let height = screen_lines(term);
    width >= 1 && height >= 1 && point.0 >= 0 && (point.0 as usize) < height && point.1 < width
}

/// Tests whether a snapshot can be taken.
pub fn is_readable(term: &Term<VoidListener>) -> (yes: bool)
    ensures
        yes == readable(*term),
{
    has_cursor_in_grid(term) && !mode_flags(mode(term)).vi && !(grid_cursor(term).1 == 0
        && cell_flags(cursor_flags(term)).second_half) && display_offset(term) <= history_size(term)
}

/// Tests whether no cell of the grid, with the scrollback, holds a wide character.
fn has_no_wide_cell(term: &Term<VoidListener>) -> (none: bool)
    requires
        cursor_in_grid(*term),
    ensures
        none == none_wide(term_all_flags(*term)),
{
    let flags = all_flags(term);
    let mut i: usize = 0;
    while i < flags.len()
        invariant
            i <= flags@.len(),
            flags@ == term_all_flags(*term),
            forall|j: int| 0 <= j < i ==> !decoded_flags(#[trigger] flags@[j]).wide,
        decreases flags@.len() - i,
    {
        if cell_flags(flags[i]).wide {
            assert(decoded_flags(term_all_flags(*term)[i as int]).wide);
            return false;
        }
        i += 1;
    }
    true
}

/// Tests whether a resize rests on a grid that cannot be looked at.
pub fn has_hidden_fold(term: &Term<VoidListener>, columns: u16) -> (hidden: bool)
    ensures
        hidden == folds_hidden_grid(*term, columns),
{
    columns == 1 && self::columns(term) != 1 && mode_flags(mode(term)).alt_screen
}

/// Tests whether a resize comes back, where that does not rest on a grid that
/// cannot be looked at.
pub fn is_resizable(term: &Term<VoidListener>, columns: u16, lines: u16) -> (yes: bool)
    ensures
        yes == (can_resize(*term, columns, lines) && !folds_hidden_grid(*term, columns)),
{
    has_cursor_in_grid(term) && columns >= 1 && lines >= 1 && (columns != 1 || self::columns(term)
        == 1 || (!mode_flags(mode(term)).alt_screen && has_no_wide_cell(term)))
}

/// Tests whether the program asked for pasted text to be marked as such.
pub fn has_bracketed_paste(term: &Term<VoidListener>) -> (on: bool)
    ensures
        on == decoded_mode(term_mode(*term)).bracketed_paste,
{
    mode_flags(mode(term)).bracketed_paste
}

/// Reads what the emulator shows.
pub fn snapshot(term: &Term<VoidListener>) -> (snapshot: Snapshot)
    requires
        readable(*term),
    ensures
        snapshot@ == term_screen(*term),
        snapshot@.wf(),
        snapshot@.cursor_row < snapshot@.lines,
{
    let cells = displayed_cells(term);
    let cursor = displayed_cursor(term);
    let mut palette: Vec<Option<Rgb>> = Vec::new();
    let mut i: usize = 0;
    while i < PALETTE_LEN
        invariant
            i <= PALETTE_LEN,
            palette@.len() == i,
            forall|j: int| 0 <= j < i ==> #[trigger] palette@[j] == term_palette_entry(*term, j as u8),
        decreases PALETTE_LEN - i,
    {
        palette.push(palette_entry(term, i as u8));
        i += 1;
    }
    let snapshot = Snapshot {
        columns: columns(term),
        lines: screen_lines(term),
        cells,
        palette,
        cursor_row: cursor.0,
        cursor_col: cursor.1,
        cursor_style: cursor.2,
    };
    assert(snapshot@.palette =~= term_screen(*term).palette);
    snapshot
}

/// Each flag of a cell rests on its own bit, counted from the lowest: inverse 0,
/// bold 1, italic 2, wide 5, second half 6, dim 7, hidden 8 and strikeout 9.
pub proof fn flag_is_its_bit(flags: u16)
    ensures
        decoded_flags(flags).inverse <==> (flags >> 0) & 1 == 1,
        decoded_flags(flags).bold <==> (flags >> 1) & 1 == 1,
        decoded_flags(flags).italic <==> (flags >> 2) & 1 == 1,
        decoded_flags(flags).wide <==> (flags >> 5) & 1 == 1,
        decoded_flags(flags).second_half <==> (flags >> 6) & 1 == 1,
        decoded_flags(flags).dim <==> (flags >> 7) & 1 == 1,
        decoded_flags(flags).hidden <==> (flags >> 8) & 1 == 1,
        decoded_flags(flags).strikeout <==> (flags >> 9) & 1 == 1,
{
    assert((flags & 0x0001 == 0x0001) <==> (flags >> 0) & 1 == 1) by (bit_vector);
    assert((flags & 0x0002 == 0x0002) <==> (flags >> 1) & 1 == 1) by (bit_vector);
    assert((flags & 0x0004 == 0x0004) <==> (flags >> 2) & 1 == 1) by (bit_vector);
    assert((flags & 0x0020 == 0x0020) <==> (flags >> 5) & 1 == 1) by (bit_vector);
    assert((flags & 0x0040 == 0x0040) <==> (flags >> 6) & 1 == 1) by (bit_vector);
    assert((flags & 0x0080 == 0x0080) <==> (flags >> 7) & 1 == 1) by (bit_vector);
    assert((flags & 0x0100 == 0x0100) <==> (flags >> 8) & 1 == 1) by (bit_vector);
    assert((flags & 0x0200 == 0x0200) <==> (flags >> 9) & 1 == 1) by (bit_vector);
}

/// Any of the five kinds of underline is one, plain, double, curled, dotted or
/// dashed, and nothing else is; a spacer is a second half or the end of a line that
/// a wide character did not fit into.
pub proof fn any_kind_of_underline_counts(flags: u16)
    ensures
        decoded_flags(flags).underline <==> ((flags >> 3) & 1 == 1 || (flags >> 11) & 1 == 1 || (
        flags >> 12) & 1 == 1 || (flags >> 13) & 1 == 1 || (flags >> 14) & 1 == 1),
        decoded_flags(flags).spacer <==> ((flags >> 6) & 1 == 1 || (flags >> 10) & 1 == 1),
{
    assert((flags & 0x7808 != 0) <==> ((flags >> 3) & 1 == 1 || (flags >> 11) & 1 == 1 || (flags
        >> 12) & 1 == 1 || (flags >> 13) & 1 == 1 || (flags >> 14) & 1 == 1)) by (bit_vector);
    assert((flags & 0x0440 != 0) <==> ((flags >> 6) & 1 == 1 || (flags >> 10) & 1 == 1))
        by (bit_vector);
}

/// Each mode rests on its own bit, whatever the others are: bracketed paste on
/// bit 4, the alternate screen on bit 12 and the keyboard selection on bit 16.
pub proof fn mode_is_its_bit(mode: u32)
    ensures
        decoded_mode(mode).bracketed_paste <==> (mode >> 4) & 1 == 1,
        decoded_mode(mode).alt_screen <==> (mode >> 12) & 1 == 1,
        decoded_mode(mode).vi <==> (mode >> 16) & 1 == 1,
{
    assert((mode & 0x0010 == 0x0010) <==> (mode >> 4) & 1 == 1) by (bit_vector);
    assert((mode & 0x1000 == 0x1000) <==> (mode >> 12) & 1 == 1) by (bit_vector);
    assert((mode & 0x1_0000 == 0x1_0000) <==> (mode >> 16) & 1 == 1) by (bit_vector);
}

/// A terminal can be read unless its cursor is outside of the grid, is the one of
/// the keyboard selection, is on a second half in the first column, or its display
/// is scrolled back further than there are lines; nothing else stands in the way.
pub proof fn only_a_lost_cursor_or_display_cannot_be_read(term: Term<VoidListener>)
    ensures
        readable(term) <==> {
            let (line, column) = term_grid_cursor(term);
            &&& 0 <= line < term_lines(term)
            &&& column < term_columns(term)
            &&& (term_mode(term) >> 16) & 1 != 1
            &&& (column == 0 ==> (term_cursor_flags(term) >> 6) & 1 != 1)
            &&& term_display_offset(term) <= term_history(term)
        },
{
    mode_is_its_bit(term_mode(term));
    flag_is_its_bit(term_cursor_flags(term));
}

/// A grid can be given any size with a cell, whatever is on it, as long as its
/// cursor is on it and no wide character has to go into a single column: two columns
/// are enough for all, and from one column on a grid has no line to wrap.
pub proof fn only_wide_characters_stop_a_resize(
    term: Term<VoidListener>,
    columns: u16,
    lines: u16,
)
    requires
        0 <= term_grid_cursor(term).0 < term_lines(term),
        term_grid_cursor(term).1 < term_columns(term),
        columns >= 1,
        lines >= 1,
    ensures
        columns >= 2 || term_columns(term) == 1 ==> can_resize(term, columns, lines),
        (term_mode(term) >> 12) & 1 != 1 ==> (can_resize(term, columns, lines) <==> (columns >= 2
            || term_columns(term) == 1 || forall|i: int|
            0 <= i < term_all_flags(term).len() ==> ((#[trigger] term_all_flags(term)[i]) >> 5) & 1
                != 1)),
        (term_mode(term) >> 12) & 1 == 1 ==> (can_resize(term, columns, lines) <==> (columns >= 2
            || term_columns(term) == 1 || forall|i: int|
            0 <= i < term_hidden_flags(term).len() ==> ((#[trigger] term_hidden_flags(term)[i])
                >> 5) & 1 != 1)),
        folds_hidden_grid(term, columns) <==> columns == 1 && term_columns(term) != 1 && (term_mode(
            term,
        ) >> 12) & 1 == 1,
{
    mode_is_its_bit(term_mode(term));
    assert forall|i: int| 0 <= i < term_all_flags(term).len() implies (decoded_flags(
        #[trigger] term_all_flags(term)[i],
    ).wide <==> (term_all_flags(term)[i] >> 5) & 1 == 1) by {
        flag_is_its_bit(term_all_flags(term)[i]);
    }
    assert forall|i: int| 0 <= i < term_hidden_flags(term).len() implies (decoded_flags(
        #[trigger] term_hidden_flags(term)[i],
    ).wide <==> (term_hidden_flags(term)[i] >> 5) & 1 == 1) by {
        flag_is_its_bit(term_hidden_flags(term)[i]);
    }
}

/// A grid without a cell, before or after, cannot be resized.
pub proof fn resize_needs_a_cell(term: Term<VoidListener>, columns: u16, lines: u16)
    requires
        columns == 0 || lines == 0 || term_grid_cursor(term).0 < 0 || term_grid_cursor(term).0
            >= term_lines(term) || term_grid_cursor(term).1 >= term_columns(term),
    ensures
        !can_resize(term, columns, lines),
{
}

/// A grid that was resized has the size that was asked for, and its modes, its
/// colors and the shape of its cursor are as before.
pub proof fn resize_changes_the_grid_alone(
    before: Term<VoidListener>,
    after: Term<VoidListener>,
    columns: u16,
    lines: u16,
    idx: u8,
)
    requires
        is_resized(before, after, columns, lines),
    ensures
        term_columns(after) == columns,
        term_lines(after) == lines,
        term_mode(after) == term_mode(before),
        term_cursor_style(after) == term_cursor_style(before),
        term_palette_entry(after, idx) == term_palette_entry(before, idx),
        term_columns(before) == columns && term_lines(before) == lines ==> after == before,
{
}

/// A screen is what the emulator shows, and nothing is left out: its size, its
/// cells, the color of every index, and the cursor on its line, one column to the
/// left where it is on a second half.
pub proof fn screen_is_what_the_emulator_shows(term: Term<VoidListener>, idx: u8)
    requires
        readable(term),
    ensures
        term_screen(term).columns == term_columns(term),
        term_screen(term).lines == term_lines(term),
        term_screen(term).cells == term_cells(term),
        term_screen(term).palette.len() == 256,
        term_screen(term).palette[idx as int] == term_palette_entry(term, idx),
        term_screen(term).cursor_row == term_grid_cursor(term).0,
        (term_cursor_flags(term) >> 6) & 1 == 1 ==> term_screen(term).cursor_col + 1
            == term_grid_cursor(term).1,
        (term_cursor_flags(term) >> 6) & 1 != 1 ==> term_screen(term).cursor_col
            == term_grid_cursor(term).1,
        term_screen(term).cursor_style == term_cursor_style(term),
{
    flag_is_its_bit(term_cursor_flags(term));
}

/// The model of a snapshot has all of its fields.
pub proof fn snapshot_model_is_complete(snapshot: Snapshot)
    ensures
        snapshot@.columns == snapshot.columns,
        snapshot@.lines == snapshot.lines,
        snapshot@.cells == snapshot.cells@,
        snapshot@.palette == snapshot.palette@,
        snapshot@.cursor_row == snapshot.cursor_row,
        snapshot@.cursor_col == snapshot.cursor_col,
        snapshot@.cursor_style == snapshot.cursor_style,
        snapshot@.wf() <==> snapshot.palette@.len() == 256 && (snapshot.cursor_row < snapshot.lines
            ==> snapshot.cursor_col < snapshot.columns),
{
}

} // verus!
