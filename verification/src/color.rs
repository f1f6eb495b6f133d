//! Foreground colors and text intensity.
//!
//! A color is one of the 16 named ANSI colors, a 24-bit RGB triple, an 8-bit
//! palette index, or the default foreground. Every color resolves to a single
//! RGB triple through a fixed 256-entry palette.

use vstd::prelude::*;

verus! {

/// A cell's foreground color.
#[derive(Debug, Copy, Clone, Eq, PartialEq, Hash, Structural)]
pub enum Color {
    Black,
    Red,
    Green,
    Yellow,
    Blue,
    Magenta,
    Cyan,
    White,
    BrightBlack,
    BrightRed,
    BrightGreen,
    BrightYellow,
    BrightBlue,
    BrightMagenta,
    BrightCyan,
    BrightWhite,
    Rgb(u8, u8, u8),
    Indexed(u8),
    Default,
}

/// Text intensity of a cell.
#[derive(Debug, Copy, Clone, Eq, PartialEq, Hash, Structural)]
pub enum Intensity {
    Normal,
    Bold,
    Faint,
}

/// The RGB triple a color resolves to: the 16 named colors use a fixed
/// theme, palette indices 16–231 form a 6x6x6 cube, and 232–255 form a
/// 24-step grayscale ramp.
pub open spec fn rgb_spec(c: Color) -> (u8, u8, u8) {
    match c {
        Color::Black => (0x2e, 0x34, 0x36),
        Color::Red => (0xcc, 0x00, 0x00),
        Color::Green => (0x4e, 0x9a, 0x06),
        Color::Yellow => (0xc4, 0xa0, 0x00),
        Color::Blue => (0x34, 0x65, 0xa4),
        Color::Magenta => (0x75, 0x50, 0x7b),
        Color::Cyan => (0x06, 0x98, 0x9a),
        Color::White => (0xd3, 0xd7, 0xcf),
        Color::BrightBlack => (0x55, 0x57, 0x53),
        Color::BrightRed => (0xef, 0x29, 0x29),
        Color::BrightGreen => (0x8a, 0xe2, 0x34),
        Color::BrightYellow => (0xfc, 0xe9, 0x4f),
        Color::BrightBlue => (0x72, 0x9f, 0xcf),
        Color::BrightMagenta => (0xad, 0x7f, 0xa8),
        Color::BrightCyan => (0x34, 0xe2, 0xe2),
        Color::BrightWhite => (0xee, 0xee, 0xec),
        Color::Rgb(r, g, b) => (r, g, b),
        Color::Indexed(x) => rgb_of_index(x),
        Color::Default => (0xcb, 0xbf, 0xbf),
    }
}

/// The palette entry for an 8-bit color index.
pub open spec fn rgb_of_index(x: u8) -> (u8, u8, u8) {
    if x < 16 {
        named_rgb(x)
    } else if x <= 231 {
        (
            (((x - 16) / 36) * 42) as u8,
            ((((x - 16) % 36) / 6) * 42) as u8,
            (((x - 16) % 6) * 42) as u8,
        )
    } else {
        (((x - 232) * 10) as u8, ((x - 232) * 10) as u8, ((x - 232) * 10) as u8)
    }
}

/// The theme triple for palette indices 0–15, matching the named colors.
pub open spec fn named_rgb(x: u8) -> (u8, u8, u8) {
    if x == 0 {
        (0x2e, 0x34, 0x36)
    } else if x == 1 {
        (0xcc, 0x00, 0x00)
    } else if x == 2 {
        (0x4e, 0x9a, 0x06)
    } else if x == 3 {
        (0xc4, 0xa0, 0x00)
    } else if x == 4 {
        (0x34, 0x65, 0xa4)
    } else if x == 5 {
        (0x75, 0x50, 0x7b)
    } else if x == 6 {
        (0x06, 0x98, 0x9a)
    } else if x == 7 {
        (0xd3, 0xd7, 0xcf)
    } else if x == 8 {
        (0x55, 0x57, 0x53)
    } else if x == 9 {
        (0xef, 0x29, 0x29)
    } else if x == 10 {
        (0x8a, 0xe2, 0x34)
    } else if x == 11 {
        (0xfc, 0xe9, 0x4f)
    } else if x == 12 {
        (0x72, 0x9f, 0xcf)
    } else if x == 13 {
        (0xad, 0x7f, 0xa8)
    } else if x == 14 {
        (0x34, 0xe2, 0xe2)
    } else {
        (0xee, 0xee, 0xec)
    }
}

/// The named color selected by palette index 0–15, in ANSI order.
pub open spec fn named_color(x: u8) -> Color {
    if x == 0 {
        Color::Black
    } else if x == 1 {
        Color::Red
    } else if x == 2 {
        Color::Green
    } else if x == 3 {
        Color::Yellow
    } else if x == 4 {
        Color::Blue
    } else if x == 5 {
        Color::Magenta
    } else if x == 6 {
        Color::Cyan
    } else if x == 7 {
        Color::White
    } else if x == 8 {
        Color::BrightBlack
    } else if x == 9 {
        Color::BrightRed
    } else if x == 10 {
        Color::BrightGreen
    } else if x == 11 {
        Color::BrightYellow
    } else if x == 12 {
        Color::BrightBlue
    } else if x == 13 {
        Color::BrightMagenta
    } else if x == 14 {
        Color::BrightCyan
    } else {
        Color::BrightWhite
    }
}

/// The named color selected by palette index 0–15.
pub fn named_color_exec(x: u8) -> (c: Color)
    requires
        x < 16,
    ensures
        c == named_color(x),
{
    if x == 0 {
        Color::Black
    } else if x == 1 {
        Color::Red
    } else if x == 2 {
        Color::Green
    } else if x == 3 {
        Color::Yellow
    } else if x == 4 {
        Color::Blue
    } else if x == 5 {
        Color::Magenta
    } else if x == 6 {
        Color::Cyan
    } else if x == 7 {
        Color::White
    } else if x == 8 {
        Color::BrightBlack
    } else if x == 9 {
        Color::BrightRed
    } else if x == 10 {
        Color::BrightGreen
    } else if x == 11 {
        Color::BrightYellow
    } else if x == 12 {
        Color::BrightBlue
    } else if x == 13 {
        Color::BrightMagenta
    } else if x == 14 {
        Color::BrightCyan
    } else {
        Color::BrightWhite
    }
}

impl Color {
    /// Resolve this color to its RGB triple.
    pub fn rgb(&self) -> (r: (u8, u8, u8))
        ensures
            r == rgb_spec(*self),
    {
        match self {
            Color::Black => (0x2e, 0x34, 0x36),
            Color::Red => (0xcc, 0x00, 0x00),
            Color::Green => (0x4e, 0x9a, 0x06),
            Color::Yellow => (0xc4, 0xa0, 0x00),
            Color::Blue => (0x34, 0x65, 0xa4),
            Color::Magenta => (0x75, 0x50, 0x7b),
            Color::Cyan => (0x06, 0x98, 0x9a),
            Color::White => (0xd3, 0xd7, 0xcf),
            Color::BrightBlack => (0x55, 0x57, 0x53),
            Color::BrightRed => (0xef, 0x29, 0x29),
            Color::BrightGreen => (0x8a, 0xe2, 0x34),
            Color::BrightYellow => (0xfc, 0xe9, 0x4f),
            Color::BrightBlue => (0x72, 0x9f, 0xcf),
            Color::BrightMagenta => (0xad, 0x7f, 0xa8),
            Color::BrightCyan => (0x34, 0xe2, 0xe2),
            Color::BrightWhite => (0xee, 0xee, 0xec),
            Color::Rgb(r, g, b) => (*r, *g, *b),
            Color::Indexed(x) => {
                let x = *x;
                if x < 16 {
                    named_rgb_exec(x)
                } else if x <= 231 {
                    let r: u8 = (x - 16) / 36;
                    let g: u8 = ((x - 16) % 36) / 6;
                    let b: u8 = (x - 16) % 6;
                    (r * 42, g * 42, b * 42)
                } else {
                    let val: u8 = (x - 232) * 10;
                    (val, val, val)
                }
            },
            Color::Default => (0xcb, 0xbf, 0xbf),
        }
    }
}

/// The theme triple for palette indices 0–15.
fn named_rgb_exec(x: u8) -> (r: (u8, u8, u8))
    requires
        x < 16,
    ensures
        r == named_rgb(x),
{
    if x == 0 {
        (0x2e, 0x34, 0x36)
    } else if x == 1 {
        (0xcc, 0x00, 0x00)
    } else if x == 2 {
        (0x4e, 0x9a, 0x06)
    } else if x == 3 {
        (0xc4, 0xa0, 0x00)
    } else if x == 4 {
        (0x34, 0x65, 0xa4)
    } else if x == 5 {
        (0x75, 0x50, 0x7b)
    } else if x == 6 {
        (0x06, 0x98, 0x9a)
    } else if x == 7 {
        (0xd3, 0xd7, 0xcf)
    } else if x == 8 {
        (0x55, 0x57, 0x53)
    } else if x == 9 {
        (0xef, 0x29, 0x29)
    } else if x == 10 {
        (0x8a, 0xe2, 0x34)
    } else if x == 11 {
        (0xfc, 0xe9, 0x4f)
    } else if x == 12 {
        (0x72, 0x9f, 0xcf)
    } else if x == 13 {
        (0xad, 0x7f, 0xa8)
    } else if x == 14 {
        (0x34, 0xe2, 0xe2)
    } else {
        (0xee, 0xee, 0xec)
    }
}

} // verus!
