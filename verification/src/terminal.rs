//! What a terminal shows, and the size that its shell is told of.
use crate::emulator::{
    can_resize, cursor_in_grid, decoded_mode, folds_hidden_grid, has_bracketed_paste,
    has_cursor_in_grid, has_hidden_fold, is_new_term, is_readable, is_resizable, is_resized,
    new_term, new_term_is_readable, readable, resize_term, snapshot, term_mode, term_screen,
};
use crate::grid::{content_of, screen_content};
use crate::theme::{Rgb, TerminalTheme};
use alacritty_terminal::event::VoidListener;
use alacritty_terminal::term::Term;
use vstd::prelude::*;
use vstd::slice::slice_to_vec;

verus! {

/// Colors and styles that a run of cells shares.
#[derive(Clone, Copy)]
pub struct CellAttrs {
    pub fg: Rgb,
    /// The background, or `None` where it is the theme's own.
    pub bg: Option<Rgb>,
    pub bold: bool,
    pub italic: bool,
    pub underline: bool,
    pub strikeout: bool,
}

/// Columns of a character, counted from the start of its span: from `start` on, up
/// to `end` and without it.
#[derive(Clone, Copy)]
pub struct CharCols {
    pub start: usize,
    pub end: usize,
}

/// A span of text with its colors and styles.
pub struct ColoredSpan {
    pub text: String,
    /// Foreground color.
    pub r: u8,
    pub g: u8,
    pub b: u8,
    /// Background color; `None` means the default, which is transparent.
    pub bg: Option<Rgb>,
    pub bold: bool,
    pub italic: bool,
    pub underline: bool,
    pub strikeout: bool,
    /// Columns that the span occupies. These can be more than it has characters,
    /// since a wide character takes two.
    pub cols: usize,
    /// Where each of the characters stands.
    pub places: Vec<CharCols>,
}

/// The mathematical model of a [`ColoredSpan`].
#[verifier::ext_equal]
pub struct Span {
    pub text: Seq<char>,
    pub attrs: CellAttrs,
    pub cols: int,
    /// First column of each character, and the first one behind it.
    pub places: Seq<(int, int)>,
}

/// The models of a sequence of characters' columns.
pub open spec fn place_views(places: Seq<CharCols>) -> Seq<(int, int)> {
    places.map_values(|place: CharCols| (place.start as int, place.end as int))
}

impl View for ColoredSpan {
    type V = Span;

    open spec fn view(&self) -> Span {
        Span {
            text: self.text@,
            attrs: CellAttrs {
                fg: (self.r, self.g, self.b),
                bg: self.bg,
                bold: self.bold,
                italic: self.italic,
                underline: self.underline,
                strikeout: self.strikeout,
            },
            cols: self.cols as int,
            places: place_views(self.places@),
        }
    }
}

/// The models of a sequence of spans.
pub open spec fn span_views(spans: Seq<ColoredSpan>) -> Seq<Span> {
    spans.map_values(|span: ColoredSpan| span@)
}

/// Visual shape of the terminal cursor.
#[derive(Clone, Copy, PartialEq, Eq, Hash, Structural)]
pub enum CursorShape {
    Block,
    Underline,
    Beam,
    Hidden,
}

/// Content of the grid, with the cursor.
pub struct GridContent {
    pub spans: Vec<ColoredSpan>,
    pub cursor_row: usize,
    pub cursor_col: usize,
    pub cursor_shape: CursorShape,
}

/// The mathematical model of a [`GridContent`].
#[verifier::ext_equal]
pub struct Content {
    pub spans: Seq<Span>,
    pub cursor_row: usize,
    pub cursor_col: usize,
    pub cursor_shape: CursorShape,
}

impl View for GridContent {
    type V = Content;

    open spec fn view(&self) -> Content {
        Content {
            spans: span_views(self.spans@),
            cursor_row: self.cursor_row,
            cursor_col: self.cursor_col,
            cursor_shape: self.cursor_shape,
        }
    }
}

/// The size of a terminal, as the system keeps it for the shell.
#[derive(Clone, Copy)]
pub struct WindowSize {
    pub num_lines: u16,
    pub num_cols: u16,
    /// Pixels of a cell.
    pub cell_width: u16,
    pub cell_height: u16,
}

/// What the thread that serves the shell is told.
pub enum PtyMessage {
    /// Bytes for the shell to read.
    Input(Vec<u8>),
    Resize(WindowSize),
    Shutdown,
}

/// Whether a message hands the given bytes to the shell.
pub open spec fn is_input(message: PtyMessage, bytes: Seq<u8>) -> bool {
    message matches PtyMessage::Input(data) && data@ == bytes
}

/// How the shell is started.
pub struct PtyConfig {
    pub shell: String,
    /// Variables that are added to the environment.
    pub env: Vec<(String, String)>,
    pub drain_on_exit: bool,
    pub window_size: WindowSize,
}

/// The shell that is started: the user's own where there is one.
pub open spec fn chosen_shell(user_shell: Option<Seq<char>>) -> Seq<char> {
    match user_shell {
        Some(shell) => shell,
        None => "/bin/zsh"@,
    }
}

/// The variables that tell programs what the terminal supports: 256 colors by
/// its name, 24-bit colors, and a language where there is none.
pub open spec fn added_variables(language_is_set: bool) -> Seq<(Seq<char>, Seq<char>)> {
    let colors = seq![("TERM"@, "xterm-256color"@), ("COLORTERM"@, "truecolor"@)];
    if language_is_set {
        colors
    } else {
        colors.push(("LANG"@, "en_US.UTF-8"@))
    }
}

/// The models of a sequence of variables.
pub open spec fn variable_views(variables: Seq<(String, String)>) -> Seq<(Seq<char>, Seq<char>)> {
    variables.map_values(|variable: (String, String)| (variable.0@, variable.1@))
}

fn choose_shell(user_shell: Option<String>) -> (shell: String)
    ensures
        shell@ == chosen_shell(
            match user_shell {
                Some(own) => Some(own@),
                None => None,
            },
        ),
{
    match user_shell {
        Some(own) => own,
        None => "/bin/zsh".to_owned(),
    }
}

fn pty_variables(language_is_set: bool) -> (variables: Vec<(String, String)>)
    ensures
        variable_views(variables@) == added_variables(language_is_set),
{
    let mut variables: Vec<(String, String)> = Vec::new();
    variables.push(("TERM".to_owned(), "xterm-256color".to_owned()));
    variables.push(("COLORTERM".to_owned(), "truecolor".to_owned()));
    if !language_is_set {
        variables.push(("LANG".to_owned(), "en_US.UTF-8".to_owned()));
    }
    assert(variable_views(variables@) =~= added_variables(language_is_set));
    variables
}

/// Columns and rows of a grid.
pub struct GridSize {
    pub cols: u16,
    pub rows: u16,
}

/// What came of giving a new size to the emulator's grid.
pub enum GridResize {
    /// The grid has the new size.
    Done,
    /// The grid stays as it is, since the emulator would not come back from it: the
    /// cursor is outside of the grid, no cell would be left, or a wide character
    /// would have to go into a single column.
    Refused,
    /// The grid stays as it is, since the emulator might not come back: there is to
    /// be a single column, and the grid that is wrapped is hidden by the alternate
    /// screen. [`TerminalBackend::apply_size`] is for callers that know that it holds
    /// no wide character.
    Hidden,
}

/// The size that the shell was last told, and the decisions around the emulator
/// that serves it.
pub struct TerminalBackend {
    cols: u16,
    rows: u16,
}

impl View for TerminalBackend {
    type V = GridSize;

    closed spec fn view(&self) -> GridSize {
        GridSize { cols: self.cols, rows: self.rows }
    }
}

impl TerminalBackend {
    /// Makes a terminal of the given size: its emulator, and how its shell is to
    /// be started.
    pub fn new(
        cols: u16,
        rows: u16,
        cell_width: u16,
        cell_height: u16,
        user_shell: Option<String>,
        language_is_set: bool,
    ) -> (made: (TerminalBackend, Term<VoidListener>, PtyConfig))
        requires
            cols >= 1 || rows == 0,
        ensures
            made.0@ == (GridSize { cols, rows }),
            is_new_term(made.1, cols, rows),
            rows >= 1 ==> readable(made.1),
            made.2.shell@ == chosen_shell(
                match user_shell {
                    Some(own) => Some(own@),
                    None => None,
                },
            ),
            variable_views(made.2.env@) == added_variables(language_is_set),
            !made.2.drain_on_exit,
            made.2.window_size == (WindowSize {
                num_lines: rows,
                num_cols: cols,
                cell_width,
                cell_height,
            }),
    {
        let term = new_term(cols, rows);
        proof {
            if rows >= 1 {
                new_term_is_readable(term, cols, rows);
            }
        }
        let config = PtyConfig {
            shell: choose_shell(user_shell),
            env: pty_variables(language_is_set),
            drain_on_exit: false,
            window_size: WindowSize { num_lines: rows, num_cols: cols, cell_width, cell_height },
        };
        (TerminalBackend { cols, rows }, term, config)
    }

    /// Takes on a new size and gives what the shell has to be told of it, which
    /// is nothing where the grid stays as it is.
    pub fn resize(&mut self, cols: u16, rows: u16, cell_width: u16, cell_height: u16) -> (message:
        Option<PtyMessage>)
        ensures
            final(self)@ == (GridSize { cols, rows }),
            message == if old(self)@ == (GridSize { cols, rows }) {
                None
            } else {
                Some(
                    PtyMessage::Resize(
                        WindowSize { num_lines: rows, num_cols: cols, cell_width, cell_height },
                    ),
                )
            },
    {
        if cols == self.cols && rows == self.rows {
            return None;
        }
        self.cols = cols;
        self.rows = rows;
        Some(
            PtyMessage::Resize(
                WindowSize { num_lines: rows, num_cols: cols, cell_width, cell_height },
            ),
        )
    }

    /// Gives the emulator's grid the size that the shell was told.
    pub fn apply_size(&self, term: &mut Term<VoidListener>)
        requires
            can_resize(*old(term), self@.cols, self@.rows),
        ensures
            is_resized(*old(term), *final(term), self@.cols, self@.rows),
    {
        resize_term(term, self.cols, self.rows);
    }

    /// Gives the emulator's grid the size that the shell was told, where it can be
    /// seen that the emulator comes back from it, and tells what came of it.
    pub fn resize_grid(&self, term: &mut Term<VoidListener>) -> (outcome: GridResize)
        ensures
            outcome is Done <==> can_resize(*old(term), self@.cols, self@.rows)
                && !folds_hidden_grid(*old(term), self@.cols),
            outcome is Hidden <==> cursor_in_grid(*old(term)) && self@.rows >= 1
                && folds_hidden_grid(*old(term), self@.cols),
            outcome is Done ==> is_resized(*old(term), *final(term), self@.cols, self@.rows),
            outcome !is Done ==> *final(term) == *old(term),
    {
        if is_resizable(term, self.cols, self.rows) {
            self.apply_size(term);
            GridResize::Done
        } else if has_hidden_fold(term, self.cols) && has_cursor_in_grid(term) && self.rows >= 1 {
            GridResize::Hidden
        } else {
            GridResize::Refused
        }
    }

    /// Hands input to the shell, byte for byte.
    pub fn write(&self, data: &[u8]) -> (message: PtyMessage)
        ensures
            is_input(message, data@),
            message matches PtyMessage::Input(bytes) && bytes@ == data@,
    {
        PtyMessage::Input(slice_to_vec(data))
    }

    /// Ends the thread that serves the shell.
    pub fn shutdown(&self) -> (message: PtyMessage)
        ensures
            message is Shutdown,
    {
        PtyMessage::Shutdown
    }

    /// Checks whether the running program has turned on bracketed paste mode.
    pub fn bracketed_paste_enabled(&self, term: &Term<VoidListener>) -> (on: bool)
        ensures
            on == decoded_mode(term_mode(*term)).bracketed_paste,
    {
        has_bracketed_paste(term)
    }

    /// Extracts the visible grid as colored spans with the cursor.
    pub fn grid_content(&self, term: &Term<VoidListener>, theme: &TerminalTheme) -> (content:
        GridContent)
        requires
            readable(*term),
        ensures
            content@ == screen_content(term_screen(*term), *theme),
    {
        content_of(&snapshot(term), theme)
    }

    /// Extracts the visible grid, where the emulator can be displayed.
    pub fn try_grid_content(&self, term: &Term<VoidListener>, theme: &TerminalTheme) -> (content:
        Option<GridContent>)
        ensures
            content is Some <==> readable(*term),
            content is Some ==> content->0@ == screen_content(term_screen(*term), *theme),
    {
        if is_readable(term) {
            Some(self.grid_content(term, theme))
        } else {
            None
        }
    }

    pub fn cols(&self) -> (cols: u16)
        ensures
            cols == self@.cols,
    {
        self.cols
    }

    pub fn rows(&self) -> (rows: u16)
        ensures
            rows == self@.rows,
    {
        self.rows
    }
}

/// The model of a span has all of its fields, and a place for each of its places.
pub proof fn span_model_is_complete(span: ColoredSpan, k: int)
    ensures
        span@.text == span.text@,
        span@.attrs.fg == (span.r, span.g, span.b),
        span@.attrs.bg == span.bg,
        span@.attrs.bold == span.bold,
        span@.attrs.italic == span.italic,
        span@.attrs.underline == span.underline,
        span@.attrs.strikeout == span.strikeout,
        span@.cols == span.cols,
        span@.places.len() == span.places@.len(),
        0 <= k < span.places@.len() ==> span@.places[k].0 == span.places@[k].start
            && span@.places[k].1 == span.places@[k].end,
{
}

/// The model of a grid's content has all of its spans, in their order, and the
/// cursor.
pub proof fn content_model_is_complete(content: GridContent, i: int)
    ensures
        content@.spans.len() == content.spans@.len(),
        0 <= i < content.spans@.len() ==> content@.spans[i] == content.spans@[i]@,
        content@.cursor_row == content.cursor_row,
        content@.cursor_col == content.cursor_col,
        content@.cursor_shape == content.cursor_shape,
{
}

/// The user's own shell is started, whatever it is called, and `/bin/zsh` only
/// where there is none.
pub proof fn users_shell_is_started(shell: Seq<char>)
    ensures
        chosen_shell(Some(shell)) == shell,
        chosen_shell(None) == "/bin/zsh"@,
{
}

/// Programs are told of 256 and of 24-bit colors whether a language is set or not,
/// and of a language only where none is set.
pub proof fn programs_are_told_of_colors(language_is_set: bool)
    ensures
        added_variables(language_is_set).contains(("TERM"@, "xterm-256color"@)),
        added_variables(language_is_set).contains(("COLORTERM"@, "truecolor"@)),
        !language_is_set ==> added_variables(language_is_set).contains(("LANG"@, "en_US.UTF-8"@)),
        added_variables(language_is_set).len() == if language_is_set {
            2nat
        } else {
            3nat
        },
{
    let variables = added_variables(language_is_set);
    assert(variables[0] == ("TERM"@, "xterm-256color"@));
    assert(variables[1] == ("COLORTERM"@, "truecolor"@));
    if !language_is_set {
        assert(variables[2] == ("LANG"@, "en_US.UTF-8"@));
    }
}

} // verus!
