use alacritty_terminal::vte::ansi::NamedColor;
use native_terminal::color::{
    ansi_to_rgb, dim_color, named_to_rgb, AnsiColor, NAMED_BACKGROUND, NAMED_CURSOR,
    NAMED_FOREGROUND, PALETTE_LEN,
};
use native_terminal::theme::TerminalTheme;

#[test]
fn dimming_takes_two_thirds() {
    assert_eq!(dim_color((255, 128, 1)), (170, 85, 0));
    assert_eq!(dim_color((0, 2, 3)), (0, 1, 2));
}

#[test]
fn named_colors() {
    let theme = TerminalTheme::default();
    assert_eq!(named_to_rgb(1, &theme), (217, 115, 151));
    assert_eq!(named_to_rgb(15, &theme), (255, 255, 255));
    assert_eq!(named_to_rgb(NAMED_FOREGROUND, &theme), theme.foreground);
    assert_eq!(named_to_rgb(NAMED_BACKGROUND, &theme), theme.background);
    assert_eq!(named_to_rgb(NAMED_CURSOR, &theme), theme.cursor);
    assert_eq!(named_to_rgb(259, &theme), theme.foreground);
}

#[test]
fn named_color_numbers_are_the_emulators() {
    assert_eq!(NamedColor::Black as usize, 0);
    assert_eq!(NamedColor::Red as usize, 1);
    assert_eq!(NamedColor::BrightWhite as usize, 15);
    assert_eq!(NamedColor::Foreground as usize, NAMED_FOREGROUND);
    assert_eq!(NamedColor::Background as usize, NAMED_BACKGROUND);
    assert_eq!(NamedColor::Cursor as usize, NAMED_CURSOR);
}

#[test]
fn indexed_colors() {
    let theme = TerminalTheme::default();
    let palette = vec![None; PALETTE_LEN];
    let rgb = |idx| ansi_to_rgb(AnsiColor::Indexed(idx), &palette, &theme);
    assert_eq!(rgb(4), (99, 176, 198));
    assert_eq!(rgb(16), (0, 0, 0));
    assert_eq!(rgb(17), (0, 0, 51));
    assert_eq!(rgb(22), (0, 51, 0));
    assert_eq!(rgb(52), (51, 0, 0));
    assert_eq!(rgb(196), (255, 0, 0));
    assert_eq!(rgb(231), (255, 255, 255));
    assert_eq!(rgb(232), (8, 8, 8));
    assert_eq!(rgb(244), (128, 128, 128));
    assert_eq!(rgb(255), (238, 238, 238));
}

#[test]
fn set_entry_hides_the_theme() {
    let theme = TerminalTheme::default();
    let mut palette = vec![None; PALETTE_LEN];
    palette[4] = Some((1, 2, 3));
    palette[255] = Some((4, 5, 6));
    assert_eq!(ansi_to_rgb(AnsiColor::Indexed(4), &palette, &theme), (1, 2, 3));
    assert_eq!(ansi_to_rgb(AnsiColor::Indexed(255), &palette, &theme), (4, 5, 6));
    assert_eq!(ansi_to_rgb(AnsiColor::Named(4), &palette, &theme), (99, 176, 198));
}

#[test]
fn direct_color_is_kept() {
    let theme = TerminalTheme::default();
    let palette = vec![None; PALETTE_LEN];
    assert_eq!(ansi_to_rgb(AnsiColor::Spec(7, 8, 9), &palette, &theme), (7, 8, 9));
}
