//! From the colors that a program asks for to the colors that are drawn.
use crate::theme::{named_color_of, Rgb, TerminalTheme};
use vstd::prelude::*;

verus! {

/// A color as a program sets it.
#[derive(Clone, Copy)]
pub enum AnsiColor {
    /// One of the emulator's named colors, by the number that it has in the
    /// emulator's color table: 0 to 15 are the ANSI colors.
    Named(usize),
    /// Red, green and blue.
    Spec(u8, u8, u8),
    /// An entry of the table of 256 colors.
    Indexed(u8),
}

/// The table entry of the default foreground.
pub const NAMED_FOREGROUND: usize = 256;

/// The table entry of the default background.
pub const NAMED_BACKGROUND: usize = 257;

/// The table entry of the cursor's color.
pub const NAMED_CURSOR: usize = 258;

/// Entries of the table that a program can set, one for each `u8`.
pub const PALETTE_LEN: usize = 256;

/// Two thirds of a channel, rounded down.
pub open spec fn dim_channel(v: u8) -> u8 {
    (v * 2 / 3) as u8
}

/// `color` with every channel at two thirds.
pub open spec fn dimmed(color: Rgb) -> Rgb {
    (dim_channel(color.0), dim_channel(color.1), dim_channel(color.2))
}

/// What a named color is in `theme`: names that no theme has are drawn in the
/// foreground color.
pub open spec fn named_rgb(name: usize, theme: TerminalTheme) -> Rgb {
    if name < 16 {
        theme.ansi@[name as int]
    } else if name == NAMED_BACKGROUND {
        theme.background
    } else if name == NAMED_CURSOR {
        theme.cursor
    } else {
        theme.foreground
    }
}

/// Entry `idx` of the cube of six by six by six colors, which starts at 16.
pub open spec fn cube_rgb(idx: u8) -> Rgb {
    let i = idx - 16;
    ((i / 36 * 51) as u8, (i % 36 / 6 * 51) as u8, (i % 6 * 51) as u8)
}

/// Entry `idx` of the ramp of greys, which starts at 232.
pub open spec fn grey_rgb(idx: u8) -> Rgb {
    let v = (8 + (idx - 232) * 10) as u8;
    (v, v, v)
}

/// What an entry of the color table is: what the program set, or else the
/// theme's color, the cube or the ramp.
pub open spec fn indexed_rgb(idx: u8, palette: Seq<Option<Rgb>>, theme: TerminalTheme) -> Rgb {
    match palette[idx as int] {
        Some(color) => color,
        None => if idx < 16 {
            named_color_of(theme, idx as int)
        } else if idx < 232 {
            cube_rgb(idx)
        } else {
            grey_rgb(idx)
        },
    }
}

/// What `color` is drawn as.
pub open spec fn ansi_rgb(
    color: AnsiColor,
    palette: Seq<Option<Rgb>>,
    theme: TerminalTheme,
) -> Rgb {
    match color {
        AnsiColor::Named(name) => named_rgb(name, theme),
        AnsiColor::Spec(r, g, b) => (r, g, b),
        AnsiColor::Indexed(idx) => indexed_rgb(idx, palette, theme),
    }
}

/// Darkens a color by about a third, for SGR 2 (dim).
pub fn dim_color(color: Rgb) -> (dim: Rgb)
    ensures
        dim == dimmed(color),
{
    ((color.0 as u16 * 2 / 3) as u8, (color.1 as u16 * 2 / 3) as u8, (color.2 as u16 * 2 / 3) as u8)
}

/// Looks a named color up in a theme.
pub fn named_to_rgb(name: usize, theme: &TerminalTheme) -> (rgb: Rgb)
    ensures
        rgb == named_rgb(name, *theme),
{
    if name < 16 {
        theme.named_color(name)
    } else if name == NAMED_BACKGROUND {
        theme.background
    } else if name == NAMED_CURSOR {
        theme.cursor
    } else {
        theme.foreground
    }
}

/// Resolves a color against the program's own table and the theme.
pub fn ansi_to_rgb(color: AnsiColor, palette: &Vec<Option<Rgb>>, theme: &TerminalTheme) -> (rgb: Rgb)
    requires
        palette@.len() == PALETTE_LEN,
    ensures
        rgb == ansi_rgb(color, palette@, *theme),
{
    match color {
        AnsiColor::Named(name) => named_to_rgb(name, theme),
        AnsiColor::Spec(r, g, b) => (r, g, b),
        AnsiColor::Indexed(idx) => {
            if let Some(set) = palette[idx as usize] {
                set
            } else if idx < 16 {
                theme.named_color(idx as usize)
            } else if idx < 232 {
                let i: u8 = idx - 16;
                (i / 36 * 51, i % 36 / 6 * 51, i % 6 * 51)
            } else {
                let v: u8 = 8 + (idx - 232) * 10;
                (v, v, v)
            }
        },
    }
}

/// A dimmed color is nowhere brighter than the color itself.
pub proof fn dimming_darkens(color: Rgb)
    ensures
        dimmed(color).0 <= color.0,
        dimmed(color).1 <= color.1,
        dimmed(color).2 <= color.2,
{
}

/// The cube holds each combination of six evenly spaced levels per channel once.
pub proof fn cube_levels(r: u8, g: u8, b: u8)
    requires
        r < 6,
        g < 6,
        b < 6,
    ensures
        cube_rgb((16 + 36 * r + 6 * g + b) as u8) == ((51 * r) as u8, (51 * g) as u8, (51 * b) as u8),
{
    let low = 6 * g + b;
    let i = 36 * r + low;
    assert(i / 36 == r && i % 36 == low) by {
        assert(0 <= low < 36);
    }
    assert(low / 6 == g && low % 6 == b);
    assert(i % 6 == b) by {
        assert(i == 6 * (6 * r + g) + b);
    }
    let idx = (16 + i) as u8;
    assert(idx - 16 == i);
}

/// The ramp rises in even steps and stays clear of black and white.
pub proof fn grey_ramp_rises(idx: u8)
    requires
        232 <= idx,
    ensures
        8 <= grey_rgb(idx).0 <= 238,
        grey_rgb(idx).0 == grey_rgb(idx).1 == grey_rgb(idx).2,
        idx < 255 ==> grey_rgb((idx + 1) as u8).0 == grey_rgb(idx).0 + 10,
{
}

/// Dimming takes a third off each channel, and never more than a fraction of one
/// step beyond that.
pub proof fn dimming_keeps_two_thirds(color: Rgb)
    ensures
        3 * dimmed(color).0 <= 2 * color.0 < 3 * dimmed(color).0 + 3,
        3 * dimmed(color).1 <= 2 * color.1 < 3 * dimmed(color).1 + 3,
        3 * dimmed(color).2 <= 2 * color.2 < 3 * dimmed(color).2 + 3,
{
}

/// A color that is given in full is drawn as it is, whatever the table and the
/// theme.
pub proof fn full_color_is_kept(
    r: u8,
    g: u8,
    b: u8,
    palette: Seq<Option<Rgb>>,
    theme: TerminalTheme,
)
    ensures
        ansi_rgb(AnsiColor::Spec(r, g, b), palette, theme) == (r, g, b),
{
}

/// What the program has set for an entry of the table is what the entry is drawn
/// as, whatever the theme.
pub proof fn set_entry_is_kept(idx: u8, palette: Seq<Option<Rgb>>, theme: TerminalTheme, color: Rgb)
    requires
        palette[idx as int] == Some(color),
    ensures
        ansi_rgb(AnsiColor::Indexed(idx), palette, theme) == color,
{
}

/// Of the entries that the program has not set, the first sixteen are the theme's
/// colors, the next 216 the cube of six levels and the last the ramp of greys.
pub proof fn unset_entry_has_its_place(
    palette: Seq<Option<Rgb>>,
    theme: TerminalTheme,
    idx: u8,
    r: u8,
    g: u8,
    b: u8,
)
    requires
        palette[idx as int] is None,
        r < 6,
        g < 6,
        b < 6,
    ensures
        idx < 16 ==> ansi_rgb(AnsiColor::Indexed(idx), palette, theme) == theme.ansi@[idx as int],
        idx == 16 + 36 * r + 6 * g + b ==> ansi_rgb(AnsiColor::Indexed(idx), palette, theme) == (
            (51 * r) as u8,
            (51 * g) as u8,
            (51 * b) as u8,
        ),
        idx >= 232 ==> {
            let grey = ansi_rgb(AnsiColor::Indexed(idx), palette, theme);
            grey.0 == grey.1 == grey.2 == 10 * (idx - 232) + 8
        },
{
    if idx == 16 + 36 * r + 6 * g + b {
        cube_levels(r, g, b);
    }
}

/// A color by name is the theme's, whatever the program has set: the sixteen ANSI
/// colors, the background and the cursor's under their own names, and the
/// foreground under every other.
pub proof fn name_stands_for_the_themes_color(
    name: usize,
    palette: Seq<Option<Rgb>>,
    theme: TerminalTheme,
)
    ensures
        name < 16 ==> ansi_rgb(AnsiColor::Named(name), palette, theme) == theme.ansi@[name as int],
        name == 257 ==> ansi_rgb(AnsiColor::Named(name), palette, theme) == theme.background,
        name == 258 ==> ansi_rgb(AnsiColor::Named(name), palette, theme) == theme.cursor,
        name >= 16 && name != 257 && name != 258 ==> ansi_rgb(
            AnsiColor::Named(name),
            palette,
            theme,
        ) == theme.foreground,
{
}

} // verus!
