//! Color themes: sixteen ANSI colors and the three special ones.
use vstd::prelude::*;
use vstd::utf8::{encode_utf8, is_continuation_byte};

verus! {

/// Red, green and blue, eight bits each.
pub type Rgb = (u8, u8, u8);

/// Terminal color theme, with the entries of xterm.js's `ITheme`.
#[derive(Clone, Copy)]
pub struct TerminalTheme {
    pub background: Rgb,
    pub foreground: Rgb,
    pub cursor: Rgb,
    /// Black, red, green, yellow, blue, magenta, cyan and white, then the
    /// bright version of each in the same order.
    pub ansi: [Rgb; 16],
}

/// The channel value that stands in for text that is not a number.
pub const FALLBACK_CHANNEL: u8 = 220;

/// The value of a hexadecimal digit, of either case.
pub open spec fn hex_digit_value(b: u8) -> Option<int> {
    if 0x30 <= b <= 0x39 {
        Some(b - 0x30)
    } else if 0x41 <= b <= 0x46 {
        Some(b - 0x41 + 10)
    } else if 0x61 <= b <= 0x66 {
        Some(b - 0x61 + 10)
    } else {
        None
    }
}

/// One color channel out of two bytes: two digits, or a plus sign and a digit,
/// or else the fallback.
pub open spec fn hex_channel(hi: u8, lo: u8) -> u8 {
    match (hex_digit_value(hi), hex_digit_value(lo)) {
        (Some(h), Some(l)) => (16 * h + l) as u8,
        (None, Some(l)) => if hi == 0x2b {
            l as u8
        } else {
            FALLBACK_CHANNEL
        },
        _ => FALLBACK_CHANNEL,
    }
}

/// `bytes` without the number signs that it starts with.
pub open spec fn without_hashes(bytes: Seq<u8>) -> Seq<u8>
    decreases bytes.len(),
{
    if bytes.len() > 0 && bytes[0] == 0x23 {
        without_hashes(bytes.drop_first())
    } else {
        bytes
    }
}

/// The color that a text, given as UTF-8, names: three channels of two bytes
/// each behind the number signs, or grey where there are fewer than six bytes.
pub open spec fn hex_color(bytes: Seq<u8>) -> Rgb {
    let digits = without_hashes(bytes);
    if digits.len() >= 6 {
        (
            hex_channel(digits[0], digits[1]),
            hex_channel(digits[2], digits[3]),
            hex_channel(digits[4], digits[5]),
        )
    } else {
        (FALLBACK_CHANNEL, FALLBACK_CHANNEL, FALLBACK_CHANNEL)
    }
}

/// Whether no character lies across the end of a channel, so that the text can
/// be cut there.
pub open spec fn hex_cuts_between_chars(bytes: Seq<u8>) -> bool {
    let digits = without_hashes(bytes);
    digits.len() >= 6 ==> {
        &&& !is_continuation_byte(digits[2])
        &&& !is_continuation_byte(digits[4])
        &&& digits.len() > 6 ==> !is_continuation_byte(digits[6])
    }
}

fn hex_digit(b: u8) -> (value: Option<u8>)
    ensures
        value is Some <==> hex_digit_value(b) is Some,
        value is Some ==> value->0 == hex_digit_value(b)->0 && value->0 < 16,
{
    if 0x30 <= b && b <= 0x39 {
        Some(b - 0x30)
    } else if 0x41 <= b && b <= 0x46 {
        Some(b - 0x41 + 10)
    } else if 0x61 <= b && b <= 0x66 {
        Some(b - 0x61 + 10)
    } else {
        None
    }
}

fn parse_channel(hi: u8, lo: u8) -> (value: u8)
    ensures
        value == hex_channel(hi, lo),
{
    match (hex_digit(hi), hex_digit(lo)) {
        (Some(h), Some(l)) => 16 * h + l,
        (None, Some(l)) => if hi == 0x2b {
            l
        } else {
            FALLBACK_CHANNEL
        },
        _ => FALLBACK_CHANNEL,
    }
}

/// Reads a color in the form `#RRGGBB`.
///
/// A channel that is not a hexadecimal number is 220, and so is every channel
/// of a text that is too short.
pub fn parse_hex(hex: &str) -> (color: Rgb)
    requires
        hex_cuts_between_chars(encode_utf8(hex@)),
    ensures
        color == hex_color(encode_utf8(hex@)),
{
    let bytes = hex.as_bytes();
    let mut start: usize = 0;
    assert(bytes@.skip(0) =~= bytes@);
    while start < bytes.len() && bytes[start] == 0x23
        invariant
            start <= bytes@.len(),
            without_hashes(bytes@) == without_hashes(bytes@.skip(start as int)),
        decreases bytes@.len() - start,
    {
        assert(bytes@.skip(start as int).drop_first() =~= bytes@.skip(start + 1));
        start += 1;
    }
    assert(without_hashes(bytes@) =~= bytes@.skip(start as int));
    if bytes.len() - start >= 6 {
        let r = parse_channel(bytes[start], bytes[start + 1]);
        let g = parse_channel(bytes[start + 2], bytes[start + 3]);
        let b = parse_channel(bytes[start + 4], bytes[start + 5]);
        (r, g, b)
    } else {
        (FALLBACK_CHANNEL, FALLBACK_CHANNEL, FALLBACK_CHANNEL)
    }
}

/// The sixteen ANSI colors of the default theme.
pub open spec fn default_ansi() -> Seq<Rgb> {
    seq![
        (53u8, 53u8, 53u8),
        (217u8, 115u8, 151u8),
        (206u8, 227u8, 151u8),
        (233u8, 202u8, 92u8),
        (99u8, 176u8, 198u8),
        (233u8, 174u8, 186u8),
        (112u8, 193u8, 179u8),
        (191u8, 212u8, 225u8),
        (114u8, 144u8, 152u8),
        (255u8, 173u8, 173u8),
        (202u8, 255u8, 191u8),
        (240u8, 243u8, 189u8),
        (155u8, 246u8, 255u8),
        (255u8, 198u8, 255u8),
        (168u8, 218u8, 220u8),
        (255u8, 255u8, 255u8),
    ]
}

/// Whether `theme` is the one that a terminal starts with.
pub open spec fn is_default_theme(theme: TerminalTheme) -> bool {
    &&& theme.background == (22u8, 22u8, 22u8)
    &&& theme.foreground == (191u8, 212u8, 225u8)
    &&& theme.cursor == (240u8, 243u8, 189u8)
    &&& theme.ansi@ == default_ansi()
}

impl Default for TerminalTheme {
    fn default() -> (theme: Self)
        ensures
            is_default_theme(theme),
    {
        TerminalTheme {
            background: (22, 22, 22),  // #161616 (github-dark)
            foreground: (191, 212, 225),  // #BFD4E1
            cursor: (240, 243, 189),  // #f0f3bd
            ansi: [
                (53, 53, 53),  // black      #353535
                (217, 115, 151),  // red        #d97397
                (206, 227, 151),  // green      #CEE397
                (233, 202, 92),  // yellow     #E9CA5C
                (99, 176, 198),  // blue       #63B0C6
                (233, 174, 186),  // magenta    #E9AEBA
                (112, 193, 179),  // cyan       #70C1B3
                (191, 212, 225),  // white      #BFD4E1
                (114, 144, 152),  // br_black   #729098
                (255, 173, 173),  // br_red     #ffadad
                (202, 255, 191),  // br_green   #caffbf
                (240, 243, 189),  // br_yellow  #f0f3bd
                (155, 246, 255),  // br_blue    #9bf6ff
                (255, 198, 255),  // br_magenta #ffc6ff
                (168, 218, 220),  // br_cyan    #a8dadc
                (255, 255, 255),  // br_white   #ffffff
            ],
        }
    }
}

/// Color `idx` of the sixteen, or the foreground where there is no such color.
pub open spec fn named_color_of(theme: TerminalTheme, idx: int) -> Rgb {
    if 0 <= idx < 16 {
        theme.ansi@[idx]
    } else {
        theme.foreground
    }
}

impl TerminalTheme {
    /// Creates a theme from color strings in the form `#RRGGBB`.
    pub fn from_hex(
        background: &str,
        foreground: &str,
        cursor: &str,
        ansi_colors: &[String; 16],
    ) -> (theme: Self)
        requires
            hex_cuts_between_chars(encode_utf8(background@)),
            hex_cuts_between_chars(encode_utf8(foreground@)),
            hex_cuts_between_chars(encode_utf8(cursor@)),
            forall|i: int|
                0 <= i < 16 ==> hex_cuts_between_chars(
                    encode_utf8((#[trigger] ansi_colors@[i])@),
                ),
        ensures
            theme.background == hex_color(encode_utf8(background@)),
            theme.foreground == hex_color(encode_utf8(foreground@)),
            theme.cursor == hex_color(encode_utf8(cursor@)),
            forall|i: int|
                0 <= i < 16 ==> #[trigger] theme.ansi@[i] == hex_color(
                    encode_utf8(ansi_colors@[i]@),
                ),
    {
        TerminalTheme {
            background: parse_hex(background),
            foreground: parse_hex(foreground),
            cursor: parse_hex(cursor),
            ansi: [
                parse_hex(ansi_colors[0].as_str()),
                parse_hex(ansi_colors[1].as_str()),
                parse_hex(ansi_colors[2].as_str()),
                parse_hex(ansi_colors[3].as_str()),
                parse_hex(ansi_colors[4].as_str()),
                parse_hex(ansi_colors[5].as_str()),
                parse_hex(ansi_colors[6].as_str()),
                parse_hex(ansi_colors[7].as_str()),
                parse_hex(ansi_colors[8].as_str()),
                parse_hex(ansi_colors[9].as_str()),
                parse_hex(ansi_colors[10].as_str()),
                parse_hex(ansi_colors[11].as_str()),
                parse_hex(ansi_colors[12].as_str()),
                parse_hex(ansi_colors[13].as_str()),
                parse_hex(ansi_colors[14].as_str()),
                parse_hex(ansi_colors[15].as_str()),
            ],
        }
    }

    /// Looks up an ANSI color by its index, 0 to 15.
    pub fn named_color(&self, idx: usize) -> (color: Rgb)
        ensures
            color == named_color_of(*self, idx as int),
    {
        if idx < 16 {
            self.ansi[idx]
        } else {
            self.foreground
        }
    }
}

/// A text of the form `#RRGGBB` names the color whose channels its six digits
/// spell, whatever the case of the digits.
pub proof fn hex_color_reads_rrggbb(digits: Seq<u8>)
    requires
        digits.len() == 6,
        forall|i: int| 0 <= i < 6 ==> hex_digit_value(#[trigger] digits[i]) is Some,
    ensures
        hex_cuts_between_chars(seq![0x23u8] + digits),
        hex_color(seq![0x23u8] + digits) == (
            (16 * hex_digit_value(digits[0])->0 + hex_digit_value(digits[1])->0) as u8,
            (16 * hex_digit_value(digits[2])->0 + hex_digit_value(digits[3])->0) as u8,
            (16 * hex_digit_value(digits[4])->0 + hex_digit_value(digits[5])->0) as u8,
        ),
{
    let text = seq![0x23u8] + digits;
    assert(text.drop_first() =~= digits);
    assert(hex_digit_value(digits[0]) is Some);
    assert(without_hashes(digits) == digits);
    assert(hex_digit_value(digits[2]) is Some);
    assert(hex_digit_value(digits[4]) is Some);
    reveal_with_fuel(without_hashes, 2);
}

/// The number signs in front make no difference.
pub proof fn hex_color_ignores_hashes(bytes: Seq<u8>)
    ensures
        hex_color(seq![0x23u8] + bytes) == hex_color(bytes),
{
    assert((seq![0x23u8] + bytes).drop_first() =~= bytes);
}

/// A channel that is written with two hexadecimal digits, of either case, is read
/// back as it was: reading undoes writing, in each of the three places.
pub proof fn written_channel_is_read_back(bytes: Seq<u8>, i: int, value: u8)
    requires
        bytes.len() >= 6,
        bytes[0] != 0x23,
        0 <= i < 3,
        bytes[2 * i] == (if value / 16 < 10 {
            0x30 + value / 16
        } else {
            0x61 + value / 16 - 10
        }) || bytes[2 * i] == (if value / 16 < 10 {
            0x30 + value / 16
        } else {
            0x41 + value / 16 - 10
        }),
        bytes[2 * i + 1] == (if value % 16 < 10 {
            0x30 + value % 16
        } else {
            0x61 + value % 16 - 10
        }) || bytes[2 * i + 1] == (if value % 16 < 10 {
            0x30 + value % 16
        } else {
            0x41 + value % 16 - 10
        }),
    ensures
        i == 0 ==> hex_color(bytes).0 == value,
        i == 1 ==> hex_color(bytes).1 == value,
        i == 2 ==> hex_color(bytes).2 == value,
{
    assert(without_hashes(bytes) == bytes);
    assert(16 * (value / 16) + value % 16 == value);
}

/// A plus sign in front of a digit makes no difference to its value.
pub proof fn plus_sign_is_no_digit(bytes: Seq<u8>, i: int, value: u8)
    requires
        bytes.len() >= 6,
        bytes[0] != 0x23,
        0 <= i < 3,
        value < 16,
        bytes[2 * i] == 0x2b,
        bytes[2 * i + 1] == (if value < 10 {
            0x30 + value
        } else {
            0x61 + value - 10
        }) || bytes[2 * i + 1] == (if value < 10 {
            0x30 + value
        } else {
            0x41 + value - 10
        }),
    ensures
        i == 0 ==> hex_color(bytes).0 == value,
        i == 1 ==> hex_color(bytes).1 == value,
        i == 2 ==> hex_color(bytes).2 == value,
{
    assert(without_hashes(bytes) == bytes);
}

/// A channel with anything but a digit in its second place, or with anything but a
/// digit or a plus sign in its first, is 220.
pub proof fn unreadable_channel_falls_back(bytes: Seq<u8>, i: int, at: int)
    requires
        bytes.len() >= 6,
        bytes[0] != 0x23,
        0 <= i < 3,
        at == 2 * i || at == 2 * i + 1,
        !(0x30 <= bytes[at] <= 0x39),
        !(0x41 <= bytes[at] <= 0x46),
        !(0x61 <= bytes[at] <= 0x66),
        at == 2 * i ==> bytes[at] != 0x2b,
    ensures
        i == 0 ==> hex_color(bytes).0 == 220,
        i == 1 ==> hex_color(bytes).1 == 220,
        i == 2 ==> hex_color(bytes).2 == 220,
{
    assert(without_hashes(bytes) == bytes);
}

/// A text with fewer than six bytes behind its number signs names no color, and
/// stands for grey.
pub proof fn short_text_is_grey(bytes: Seq<u8>)
    requires
        bytes.len() < 6,
    ensures
        hex_color(bytes) == (220u8, 220u8, 220u8),
        hex_cuts_between_chars(bytes),
    decreases bytes.len(),
{
    if bytes.len() > 0 && bytes[0] == 0x23 {
        short_text_is_grey(bytes.drop_first());
    }
}

/// What follows the six bytes of a color makes no difference.
pub proof fn color_ends_after_six_bytes(bytes: Seq<u8>, more: Seq<u8>)
    requires
        bytes.len() >= 6,
        bytes[0] != 0x23,
    ensures
        hex_color(bytes + more) == hex_color(bytes),
        hex_color(bytes) == hex_color(bytes.take(6)),
{
    assert(without_hashes(bytes + more) == bytes + more);
    assert(without_hashes(bytes) == bytes);
    assert(without_hashes(bytes.take(6)) == bytes.take(6));
}

/// A text can be read where none of its channels ends inside of a character: no
/// byte that starts a channel, or follows the last one, continues a character.
pub proof fn plain_text_can_be_read(bytes: Seq<u8>)
    requires
        bytes.len() >= 6,
        bytes[0] != 0x23,
        !(0x80 <= bytes[2] <= 0xbf),
        !(0x80 <= bytes[4] <= 0xbf),
        bytes.len() > 6 ==> !(0x80 <= bytes[6] <= 0xbf),
    ensures
        hex_cuts_between_chars(bytes),
        hex_cuts_between_chars(seq![0x23u8] + bytes),
{
    assert(without_hashes(bytes) == bytes);
    assert((seq![0x23u8] + bytes).drop_first() =~= bytes);
    let b2 = bytes[2];
    let b4 = bytes[4];
    assert(!(0x80 <= b2 <= 0xbf) ==> b2 & 0xc0 != 0x80) by (bit_vector);
    assert(!(0x80 <= b4 <= 0xbf) ==> b4 & 0xc0 != 0x80) by (bit_vector);
    if bytes.len() > 6 {
        let b6 = bytes[6];
        assert(!(0x80 <= b6 <= 0xbf) ==> b6 & 0xc0 != 0x80) by (bit_vector);
    }
}

/// The sixteen ANSI colors are the theme's own, each under its number, and any
/// other number stands for the foreground.
pub proof fn ansi_numbers_name_the_themes_colors(theme: TerminalTheme, idx: int)
    ensures
        0 <= idx < 16 ==> named_color_of(theme, idx) == theme.ansi@[idx],
        idx < 0 || idx >= 16 ==> named_color_of(theme, idx) == theme.foreground,
{
}

} // verus!
