use native_terminal::theme::{parse_hex, TerminalTheme};

#[test]
fn default_theme_colors() {
    let theme = TerminalTheme::default();
    assert_eq!(theme.background, (22, 22, 22));
    assert_eq!(theme.foreground, (191, 212, 225));
    assert_eq!(theme.cursor, (240, 243, 189));
    assert_eq!(theme.ansi[0], (53, 53, 53));
    assert_eq!(theme.ansi[3], (233, 202, 92));
    assert_eq!(theme.ansi[15], (255, 255, 255));
}

#[test]
fn default_theme_matches_its_hex_codes() {
    let codes = [
        "#353535", "#d97397", "#CEE397", "#E9CA5C", "#63B0C6", "#E9AEBA", "#70C1B3", "#BFD4E1",
        "#729098", "#ffadad", "#caffbf", "#f0f3bd", "#9bf6ff", "#ffc6ff", "#a8dadc", "#ffffff",
    ]
    .map(|code| code.to_string());
    let theme = TerminalTheme::from_hex("#161616", "#BFD4E1", "#f0f3bd", &codes);
    let default = TerminalTheme::default();
    assert_eq!(theme.background, default.background);
    assert_eq!(theme.foreground, default.foreground);
    assert_eq!(theme.cursor, default.cursor);
    assert_eq!(theme.ansi, default.ansi);
}

#[test]
fn named_color_by_index() {
    let theme = TerminalTheme::default();
    assert_eq!(theme.named_color(0), (53, 53, 53));
    assert_eq!(theme.named_color(15), (255, 255, 255));
    assert_eq!(theme.named_color(16), theme.foreground);
    assert_eq!(theme.named_color(usize::MAX), theme.foreground);
}

#[test]
fn hex_digits_of_either_case() {
    assert_eq!(parse_hex("#BFD4E1"), (191, 212, 225));
    assert_eq!(parse_hex("#bfd4e1"), (191, 212, 225));
    assert_eq!(parse_hex("#09aFfA"), (9, 175, 250));
}

#[test]
fn hex_without_or_with_many_hashes() {
    assert_eq!(parse_hex("102030"), (16, 32, 48));
    assert_eq!(parse_hex("###102030"), (16, 32, 48));
}

#[test]
fn hex_that_is_too_short_is_grey() {
    assert_eq!(parse_hex(""), (220, 220, 220));
    assert_eq!(parse_hex("#"), (220, 220, 220));
    assert_eq!(parse_hex("#fff"), (220, 220, 220));
    assert_eq!(parse_hex("#12345"), (220, 220, 220));
}

#[test]
fn hex_that_is_longer_keeps_its_start() {
    assert_eq!(parse_hex("#10203040"), (16, 32, 48));
    assert_eq!(parse_hex("#102030é"), (16, 32, 48));
}

#[test]
fn hex_channels_that_are_no_numbers_fall_back() {
    assert_eq!(parse_hex("#zz2030"), (220, 32, 48));
    assert_eq!(parse_hex("#10-130"), (16, 220, 48));
    assert_eq!(parse_hex("#1020 0"), (16, 32, 220));
    assert_eq!(parse_hex("é2030"), (220, 32, 48));
}

#[test]
fn hex_channels_parse_like_integers() {
    for text in ["00", "+7", "+f", "7+", "-1", "fF", "g0", "++", " 1"] {
        let color = parse_hex(&format!("#{text}0000"));
        let expected = u8::from_str_radix(text, 16).unwrap_or(220);
        assert_eq!(color, (expected, 0, 0), "{text}");
    }
}
