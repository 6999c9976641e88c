//! The surface that a terminal is drawn on: its size, its look, and its frames.
use crate::emulator::{
    decoded_mode, is_new_term, is_readable, readable, term_mode, term_screen,
};
use crate::frame::{
    check_frame, compose_frame, cursor_is_on, cursor_visible, frame_fits, is_frame, larger,
    CellPixels, Frame, PixelMetrics,
};
use crate::grid::screen_content;
use crate::terminal::{
    added_variables, chosen_shell, is_input, variable_views, Content, CursorShape, GridContent,
    GridSize, PtyConfig, PtyMessage, TerminalBackend, WindowSize,
};
use crate::theme::{is_default_theme, TerminalTheme};
use alacritty_terminal::event::VoidListener;
use alacritty_terminal::term::Term;
use vstd::prelude::*;
use vstd::utf8::encode_utf8;

verus! {

/// What came of a change of size.
pub enum ResizeOutcome {
    /// The surface has no extent, and everything stays as it is.
    Ignored,
    /// The surface has the new size, and the shell may have to be told.
    Applied(Option<PtyMessage>),
}

/// How many cells fit into a length, one at least, in sixteen bits.
pub open spec fn cells_across(pixels: u32, cell: u32) -> u16 {
    (larger(pixels as int / cell as int, 1) % 0x1_0000) as u16
}

/// How many cells fit into a length, one at least, in sixteen bits.
pub fn grid_count(pixels: u32, cell: u32) -> (count: u16)
    requires
        cell > 0,
    ensures
        count == cells_across(pixels, cell),
{
    let fit: u32 = pixels / cell;
    let count: u32 = if fit < 1 {
        1
    } else {
        fit
    };
    assert(count as u16 == count % 0x1_0000) by (bit_vector);
    count as u16
}

/// Picks the first format that is sRGB, or else the first of all.
pub fn preferred_format(is_srgb: &Vec<bool>) -> (index: usize)
    requires
        is_srgb@.len() > 0,
    ensures
        index < is_srgb@.len(),
        is_srgb@[index as int] <==> is_srgb@.contains(true),
        forall|i: int| 0 <= i < index ==> !#[trigger] is_srgb@[i],
        !is_srgb@.contains(true) ==> index == 0,
{
    let mut i: usize = 0;
    while i < is_srgb.len()
        invariant
            i <= is_srgb@.len(),
            forall|j: int| 0 <= j < i ==> !#[trigger] is_srgb@[j],
        decreases is_srgb@.len() - i,
    {
        if is_srgb[i] {
            return i;
        }
        i += 1;
    }
    0
}

/// What marks the start of pasted text: `ESC [ 200 ~`.
pub open spec fn paste_start() -> Seq<u8> {
    seq![0x1bu8, 0x5bu8, 0x32u8, 0x30u8, 0x30u8, 0x7eu8]
}

/// What marks the end of pasted text: `ESC [ 201 ~`.
pub open spec fn paste_end() -> Seq<u8> {
    seq![0x1bu8, 0x5bu8, 0x32u8, 0x30u8, 0x31u8, 0x7eu8]
}

/// What is written for a pasted text, write by write.
pub open spec fn paste_writes(text: Seq<char>, bracketed: bool) -> Seq<Seq<u8>> {
    if bracketed {
        seq![paste_start(), encode_utf8(text), paste_end()]
    } else {
        seq![encode_utf8(text)]
    }
}

/// Whether messages hand the given writes to the shell, one each.
pub open spec fn are_inputs(messages: Seq<PtyMessage>, writes: Seq<Seq<u8>>) -> bool {
    &&& messages.len() == writes.len()
    &&& forall|i: int| 0 <= i < messages.len() ==> is_input(#[trigger] messages[i], writes[i])
}

/// The state of a surface that its frames are drawn from.
pub struct TerminalSurface {
    /// Size of the surface in pixels.
    pub width: u32,
    pub height: u32,
    /// Size of a cell in pixels.
    pub cell_width: u32,
    pub cell_height: u32,
    pub theme: TerminalTheme,
    pub font_family: String,
    /// Row, column and shape of the cursor, as long as it is on.
    pub cursor_pos: Option<(usize, usize, CursorShape)>,
    pub backend: TerminalBackend,
}

impl TerminalSurface {
    /// Whether the cells have an extent.
    pub open spec fn wf(self) -> bool {
        self.cell_width > 0 && self.cell_height > 0
    }

    /// The grid of a surface: as many cells as fit.
    pub open spec fn fitting_grid(self) -> GridSize {
        GridSize {
            cols: cells_across(self.width, self.cell_width),
            rows: cells_across(self.height, self.cell_height),
        }
    }

    /// The message that tells the shell the grid that fits, where it differs from
    /// the grid before.
    pub open spec fn size_message(self, before: GridSize) -> Option<PtyMessage> {
        if before == self.fitting_grid() {
            None
        } else {
            Some(
                PtyMessage::Resize(
                    WindowSize {
                        num_lines: self.fitting_grid().rows,
                        num_cols: self.fitting_grid().cols,
                        cell_width: self.cell_width as u16,
                        cell_height: self.cell_height as u16,
                    },
                ),
            )
        }
    }

    /// Position and size of the cells.
    pub open spec fn cells(self, metrics: PixelMetrics) -> CellPixels {
        CellPixels { padding: metrics.padding, width: self.cell_width, height: self.cell_height }
    }

    /// Makes a surface with a terminal that fills it.
    pub fn new(
        width: u32,
        height: u32,
        cell_width: u32,
        cell_height: u32,
        user_shell: Option<String>,
        language_is_set: bool,
    ) -> (made: (TerminalSurface, Term<VoidListener>, PtyConfig))
        requires
            cell_width > 0,
            cell_height > 0,
            cells_across(width, cell_width) > 0 || cells_across(height, cell_height) == 0,
        ensures
            made.0.wf(),
            made.0.width == larger(width as int, 1),
            made.0.height == larger(height as int, 1),
            width >= 1 ==> made.0.width == width,
            height >= 1 ==> made.0.height == height,
            made.0.width >= 1 && made.0.height >= 1,
            made.0.cell_width == cell_width,
            made.0.cell_height == cell_height,
            is_default_theme(made.0.theme),
            made.0.font_family@ == "JetBrains Mono"@,
            made.0.cursor_pos is None,
            made.0.backend@ == made.0.fitting_grid(),
            is_new_term(made.1, made.0.backend@.cols, made.0.backend@.rows),
            made.0.backend@.rows >= 1 ==> readable(made.1),
            made.2.shell@ == chosen_shell(
                match user_shell {
                    Some(own) => Some(own@),
                    None => None,
                },
            ),
            variable_views(made.2.env@) == added_variables(language_is_set),
            !made.2.drain_on_exit,
            made.2.window_size == (WindowSize {
                num_lines: made.0.backend@.rows,
                num_cols: made.0.backend@.cols,
                cell_width: cell_width as u16,
                cell_height: cell_height as u16,
            }),
    {
        let cols = grid_count(width, cell_width);
        let rows = grid_count(height, cell_height);
        let (backend, term, config) = TerminalBackend::new(
            cols,
            rows,
            cell_width as u16,
            cell_height as u16,
            user_shell,
            language_is_set,
        );
        let surface = TerminalSurface {
            width: if width < 1 {
                1
            } else {
                width
            },
            height: if height < 1 {
                1
            } else {
                height
            },
            cell_width,
            cell_height,
            theme: TerminalTheme::default(),
            font_family: "JetBrains Mono".to_owned(),
            cursor_pos: None,
            backend,
        };
        proof {
            lemma_cells_across_zero(cell_width);
            lemma_cells_across_zero(cell_height);
        }
        (surface, term, config)
    }

    fn fit_grid(&mut self) -> (message: Option<PtyMessage>)
        requires
            old(self).wf(),
        ensures
            *final(self) == (TerminalSurface { backend: final(self).backend, ..*old(self) }),
            final(self).backend@ == old(self).fitting_grid(),
            message == old(self).size_message(old(self).backend@),
    {
        let cols = grid_count(self.width, self.cell_width);
        let rows = grid_count(self.height, self.cell_height);
        self.backend.resize(cols, rows, self.cell_width as u16, self.cell_height as u16)
    }

    /// Resizes the surface and the grid.
    ///
    /// The logical size is in points, the other one in pixels. Where the scale of
    /// the display has changed, `rescaled` is the new size of a cell.
    pub fn resize(
        &mut self,
        logical_width: u32,
        logical_height: u32,
        width: u32,
        height: u32,
        rescaled: Option<(u32, u32)>,
    ) -> (outcome: ResizeOutcome)
        requires
            old(self).wf(),
            rescaled matches Some((w, h)) ==> w > 0 && h > 0,
        ensures
            final(self).wf(),
            logical_width == 0 || logical_height == 0 ==> {
                &&& outcome is Ignored
                &&& *final(self) == *old(self)
            },
            logical_width != 0 && logical_height != 0 ==> {
                &&& *final(self) == (TerminalSurface {
                    width,
                    height,
                    cell_width: match rescaled {
                        Some((w, _)) => w,
                        None => old(self).cell_width,
                    },
                    cell_height: match rescaled {
                        Some((_, h)) => h,
                        None => old(self).cell_height,
                    },
                    backend: final(self).backend,
                    ..*old(self)
                })
                &&& final(self).backend@ == final(self).fitting_grid()
                &&& outcome == ResizeOutcome::Applied(final(self).size_message(old(self).backend@))
            },
            outcome matches ResizeOutcome::Applied(message) ==> {
                let before = old(self).backend@;
                let after = final(self).backend@;
                &&& before.cols == after.cols && before.rows == after.rows ==> message is None
                &&& before.cols != after.cols || before.rows != after.rows ==> message == Some(
                    PtyMessage::Resize(
                        WindowSize {
                            num_lines: after.rows,
                            num_cols: after.cols,
                            cell_width: final(self).cell_width as u16,
                            cell_height: final(self).cell_height as u16,
                        },
                    ),
                )
            },
    {
        if logical_width == 0 || logical_height == 0 {
            return ResizeOutcome::Ignored;
        }
        if let Some((w, h)) = rescaled {
            self.cell_width = w;
            self.cell_height = h;
        }
        self.width = width;
        self.height = height;
        ResizeOutcome::Applied(self.fit_grid())
    }

    /// Applies a new color theme.
    pub fn set_theme(&mut self, theme: TerminalTheme)
        ensures
            old(self).wf() ==> final(self).wf(),
            *final(self) == (TerminalSurface { theme, ..*old(self) }),
    {
        self.theme = theme;
    }

    /// Updates the font, with the size of its cells, and resizes the grid.
    pub fn set_font(&mut self, family: String, cell_width: u32, cell_height: u32) -> (message:
        Option<PtyMessage>)
        requires
            old(self).wf(),
            cell_width > 0,
            cell_height > 0,
        ensures
            final(self).wf(),
            *final(self) == (TerminalSurface {
                font_family: family,
                cell_width,
                cell_height,
                backend: final(self).backend,
                ..*old(self)
            }),
            final(self).backend@ == final(self).fitting_grid(),
            message == final(self).size_message(old(self).backend@),
            old(self).backend@.cols == final(self).backend@.cols && old(self).backend@.rows
                == final(self).backend@.rows ==> message is None,
            old(self).backend@.cols != final(self).backend@.cols || old(self).backend@.rows
                != final(self).backend@.rows ==> message == Some(
                PtyMessage::Resize(
                    WindowSize {
                        num_lines: final(self).backend@.rows,
                        num_cols: final(self).backend@.cols,
                        cell_width: cell_width as u16,
                        cell_height: cell_height as u16,
                    },
                ),
            ),
    {
        self.font_family = family;
        self.cell_width = cell_width;
        self.cell_height = cell_height;
        self.fit_grid()
    }

    /// Sends input to the shell.
    pub fn write_to_pty(&self, data: &[u8]) -> (message: PtyMessage)
        ensures
            is_input(message, data@),
            message matches PtyMessage::Input(bytes) && bytes@ == data@,
    {
        self.backend.write(data)
    }

    /// Pastes text, marked as such where the running program has turned on
    /// bracketed paste mode.
    pub fn paste_to_pty(&self, term: &Term<VoidListener>, text: &str) -> (messages: Vec<PtyMessage>)
        ensures
            are_inputs(
                messages@,
                paste_writes(text@, decoded_mode(term_mode(*term)).bracketed_paste),
            ),
            messages@.len() == if decoded_mode(term_mode(*term)).bracketed_paste {
                3nat
            } else {
                1nat
            },
            decoded_mode(term_mode(*term)).bracketed_paste ==> {
                &&& messages@[0] matches PtyMessage::Input(data) && data@ == seq![
                    0x1bu8,
                    0x5bu8,
                    0x32u8,
                    0x30u8,
                    0x30u8,
                    0x7eu8,
                ]
                &&& messages@[1] matches PtyMessage::Input(data) && data@ == encode_utf8(text@)
                &&& messages@[2] matches PtyMessage::Input(data) && data@ == seq![
                    0x1bu8,
                    0x5bu8,
                    0x32u8,
                    0x30u8,
                    0x31u8,
                    0x7eu8,
                ]
            },
            !decoded_mode(term_mode(*term)).bracketed_paste ==> (messages@[0] matches
                PtyMessage::Input(data) && data@ == encode_utf8(text@)),
    {
        self.paste_messages(text, self.backend.bracketed_paste_enabled(term))
    }

    /// Pastes text, marked as such or not.
    pub fn paste_messages(&self, text: &str, bracketed: bool) -> (messages: Vec<PtyMessage>)
        ensures
            are_inputs(messages@, paste_writes(text@, bracketed)),
            messages@.len() == if bracketed {
                3nat
            } else {
                1nat
            },
            bracketed ==> {
                &&& messages@[0] matches PtyMessage::Input(data) && data@ == seq![
                    0x1bu8,
                    0x5bu8,
                    0x32u8,
                    0x30u8,
                    0x30u8,
                    0x7eu8,
                ]
                &&& messages@[1] matches PtyMessage::Input(data) && data@ == encode_utf8(text@)
                &&& messages@[2] matches PtyMessage::Input(data) && data@ == seq![
                    0x1bu8,
                    0x5bu8,
                    0x32u8,
                    0x30u8,
                    0x31u8,
                    0x7eu8,
                ]
            },
            !bracketed ==> (messages@[0] matches PtyMessage::Input(data) && data@ == encode_utf8(
                text@,
            )),
    {
        let mut messages: Vec<PtyMessage> = Vec::new();
        if bracketed {
            let start: [u8; 6] = [0x1b, 0x5b, 0x32, 0x30, 0x30, 0x7e];
            let end: [u8; 6] = [0x1b, 0x5b, 0x32, 0x30, 0x31, 0x7e];
            assert(start@ =~= paste_start());
            assert(end@ =~= paste_end());
            messages.push(self.backend.write(start.as_slice()));
            messages.push(self.backend.write(text.as_bytes()));
            messages.push(self.backend.write(end.as_slice()));
        } else {
            messages.push(self.backend.write(text.as_bytes()));
        }
        messages
    }

    /// The frame of a screen can be drawn up at this time.
    pub open spec fn can_draw(
        self,
        content: Content,
        elapsed_ms: u64,
        metrics: PixelMetrics,
    ) -> bool {
        frame_fits(
            self.cells(metrics),
            content,
            cursor_is_on(content.cursor_shape, elapsed_ms),
            metrics,
        )
    }

    /// The surface after it was drawn: it keeps where the cursor is, as long as
    /// the cursor is on.
    pub open spec fn drawn(self, content: Content, elapsed_ms: u64) -> TerminalSurface {
        TerminalSurface {
            cursor_pos: if cursor_is_on(content.cursor_shape, elapsed_ms) {
                Some((content.cursor_row, content.cursor_col, content.cursor_shape))
            } else {
                None
            },
            ..self
        }
    }

    /// Whether `frame` is the frame of a screen on this surface at this time.
    pub open spec fn shows(
        self,
        frame: Frame,
        content: Content,
        elapsed_ms: u64,
        metrics: PixelMetrics,
    ) -> bool {
        is_frame(
            frame,
            self.cells(metrics),
            content,
            cursor_is_on(content.cursor_shape, elapsed_ms),
            metrics,
            self.theme,
        )
    }

    fn cell_pixels(&self, metrics: PixelMetrics) -> (cells: CellPixels)
        ensures
            cells == self.cells(metrics),
    {
        CellPixels { padding: metrics.padding, width: self.cell_width, height: self.cell_height }
    }

    /// Tests whether the frame of a screen can be drawn up at this time.
    pub fn check_content(&self, content: &GridContent, elapsed_ms: u64, metrics: PixelMetrics) -> (ok:
        bool)
        ensures
            ok == self.can_draw(content@, elapsed_ms, metrics),
    {
        let on = cursor_visible(content.cursor_shape, elapsed_ms);
        check_frame(self.cell_pixels(metrics), content, on, metrics)
    }

    /// Draws up the frame of what was read of a terminal.
    pub fn render_content(
        &mut self,
        content: &GridContent,
        elapsed_ms: u64,
        metrics: PixelMetrics,
    ) -> (frame: Frame)
        requires
            old(self).can_draw(content@, elapsed_ms, metrics),
        ensures
            *final(self) == old(self).drawn(content@, elapsed_ms),
            old(self).shows(frame, content@, elapsed_ms, metrics),
    {
        let on = cursor_visible(content.cursor_shape, elapsed_ms);
        self.cursor_pos = if on {
            Some((content.cursor_row, content.cursor_col, content.cursor_shape))
        } else {
            None
        };
        compose_frame(self.cell_pixels(metrics), content, on, metrics, &self.theme)
    }

    /// Reads what a terminal shows and draws up its frame.
    pub fn render(&mut self, term: &Term<VoidListener>, elapsed_ms: u64, metrics: PixelMetrics) -> (frame:
        Frame)
        requires
            readable(*term),
            old(self).can_draw(
                screen_content(term_screen(*term), old(self).theme),
                elapsed_ms,
                metrics,
            ),
        ensures
            *final(self) == old(self).drawn(
                screen_content(term_screen(*term), old(self).theme),
                elapsed_ms,
            ),
            old(self).shows(
                frame,
                screen_content(term_screen(*term), old(self).theme),
                elapsed_ms,
                metrics,
            ),
    {
        let content = self.backend.grid_content(term, &self.theme);
        self.render_content(&content, elapsed_ms, metrics)
    }

    /// Reads what a terminal shows and draws up its frame, where that can be done;
    /// else the surface stays as it is.
    pub fn try_render(
        &mut self,
        term: &Term<VoidListener>,
        elapsed_ms: u64,
        metrics: PixelMetrics,
    ) -> (frame: Option<Frame>)
        ensures
            frame is Some <==> readable(*term) && old(self).can_draw(
                screen_content(term_screen(*term), old(self).theme),
                elapsed_ms,
                metrics,
            ),
            frame is None ==> *final(self) == *old(self),
            frame is Some ==> {
                &&& *final(self) == old(self).drawn(
                    screen_content(term_screen(*term), old(self).theme),
                    elapsed_ms,
                )
                &&& old(self).shows(
                    frame->0,
                    screen_content(term_screen(*term), old(self).theme),
                    elapsed_ms,
                    metrics,
                )
            },
    {
        if !is_readable(term) {
            return None;
        }
        let content = self.backend.grid_content(term, &self.theme);
        if !self.check_content(&content, elapsed_ms, metrics) {
            return None;
        }
        Some(self.render_content(&content, elapsed_ms, metrics))
    }
}

proof fn lemma_cells_across_zero(cell: u32)
    requires
        cell > 0,
    ensures
        cells_across(0, cell) == 1,
        cells_across(1, cell) == 1,
{
    assert(0int / cell as int == 0) by (nonlinear_arith)
        requires
            cell > 0,
    ;
    assert(1int / cell as int <= 1) by (nonlinear_arith)
        requires
            cell > 0,
    ;
}

/// The shell is told of every change of its size: there is a message exactly where
/// the columns or the rows differ from those before, and it has the new columns, the
/// new rows and the size of a cell.
pub proof fn shell_is_told_of_every_change(surface: TerminalSurface, before: GridSize)
    ensures
        ({
            let cols = surface.fitting_grid().cols;
            let rows = surface.fitting_grid().rows;
            let message = surface.size_message(before);
            &&& message is Some <==> before.cols != cols || before.rows != rows
            &&& message is Some ==> (message->0 matches PtyMessage::Resize(size) && size.num_cols
                == cols && size.num_lines == rows && size.cell_width == surface.cell_width as u16
                && size.cell_height == surface.cell_height as u16)
        }),
{
}

/// The grid of a surface has the whole cells that fit, and one at least: with `cols`
/// columns no further one has room. This goes for each direction by itself, as far
/// as sixteen bits can count.
pub proof fn no_further_cell_has_room(surface: TerminalSurface)
    requires
        surface.cell_width > 0,
        surface.cell_height > 0,
    ensures
        ({
            let cols = surface.fitting_grid().cols;
            let rows = surface.fitting_grid().rows;
            &&& surface.width as int / surface.cell_width as int <= 0xffff ==> {
                &&& cols >= 1
                &&& cols > 1 ==> cols * surface.cell_width <= surface.width
                &&& surface.width < (cols + 1) * surface.cell_width
            }
            &&& surface.height as int / surface.cell_height as int <= 0xffff ==> {
                &&& rows >= 1
                &&& rows > 1 ==> rows * surface.cell_height <= surface.height
                &&& surface.height < (rows + 1) * surface.cell_height
            }
        }),
{
    lemma_whole_cells(surface.width as int, surface.cell_width as int);
    lemma_whole_cells(surface.height as int, surface.cell_height as int);
}

proof fn lemma_whole_cells(pixels: int, cell: int)
    by (nonlinear_arith)
    requires
        0 <= pixels,
        0 < cell,
    ensures
        (pixels / cell) * cell <= pixels < (pixels / cell + 1) * cell,
        pixels / cell == 0 ==> pixels < 2 * cell,
{
}

/// More cells than sixteen bits can count wrap around.
pub proof fn cell_count_wraps_around(pixels: u32, cell: u32)
    requires
        cell > 0,
        pixels as int / cell as int >= 1,
    ensures
        exists|turns: int|
            #![trigger cells_across(pixels, cell) + turns * 0x1_0000]
            pixels as int / cell as int == cells_across(pixels, cell) + turns * 0x1_0000,
{
    let turns = pixels as int / cell as int / 0x1_0000;
    assert(pixels as int / cell as int == cells_across(pixels, cell) + turns * 0x1_0000);
}

/// Pasted text arrives in one piece and as it is, whatever it holds: between the
/// marks `ESC [ 2 0 0 ~` and `ESC [ 2 0 1 ~` where the program asked for them, and by
/// itself where it did not.
pub proof fn pasted_text_arrives_between_its_marks(
    messages: Seq<PtyMessage>,
    text: Seq<char>,
    bracketed: bool,
)
    requires
        are_inputs(messages, paste_writes(text, bracketed)),
    ensures
        bracketed ==> {
            &&& messages.len() == 3
            &&& messages[0] matches PtyMessage::Input(data) && data@ == seq![
                0x1bu8,
                0x5bu8,
                0x32u8,
                0x30u8,
                0x30u8,
                0x7eu8,
            ]
            &&& messages[1] matches PtyMessage::Input(data) && data@ == encode_utf8(text)
            &&& messages[2] matches PtyMessage::Input(data) && data@ == seq![
                0x1bu8,
                0x5bu8,
                0x32u8,
                0x30u8,
                0x31u8,
                0x7eu8,
            ]
        },
        !bracketed ==> {
            &&& messages.len() == 1
            &&& messages[0] matches PtyMessage::Input(data) && data@ == encode_utf8(text)
        },
{
    let writes = paste_writes(text, bracketed);
    assert(is_input(messages[0], writes[0]));
    if bracketed {
        assert(is_input(messages[1], writes[1]));
        assert(is_input(messages[2], writes[2]));
    }
}

/// The cells that a frame is placed in are the surface's own, inside of the padding.
pub proof fn frame_is_placed_in_the_surfaces_cells(surface: TerminalSurface, metrics: PixelMetrics)
    ensures
        surface.cells(metrics).padding == metrics.padding,
        surface.cells(metrics).width == surface.cell_width,
        surface.cells(metrics).height == surface.cell_height,
        surface.wf() <==> surface.cell_width > 0 && surface.cell_height > 0,
{
}

} // verus!
