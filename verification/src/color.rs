//! Colors and their serialized form.

use crate::strutil::push_char;
use vstd::prelude::*;

verus! {

/// An RGBA color, one byte per channel, exactly as the highlighter and the
/// theme catalog report colors.
#[derive(Clone, Copy, PartialEq, Eq, Structural, Debug)]
pub struct Color {
    pub red: u8,
    pub green: u8,
    pub blue: u8,
    pub alpha: u8,
}

/// An alpha channel of 0xFF means fully opaque.
pub const OPAQUE: u8 = 0xFF;

impl Color {
    /// The fallback default foreground: black.
    pub fn black() -> (c: Color)
        ensures
            c == (Color { red: 0, green: 0, blue: 0, alpha: OPAQUE }),
    {
        Color { red: 0, green: 0, blue: 0, alpha: OPAQUE }
    }

    /// The fallback default background: white.
    pub fn white() -> (c: Color)
        ensures
            c == (Color { red: 0xFF, green: 0xFF, blue: 0xFF, alpha: OPAQUE }),
    {
        Color { red: 0xFF, green: 0xFF, blue: 0xFF, alpha: OPAQUE }
    }
}

/// The lower-case hexadecimal digit for a value below sixteen.
pub open spec fn spec_hex_digit(n: u8) -> char {
    if n == 0 {
        '0'
    } else if n == 1 {
        '1'
    } else if n == 2 {
        '2'
    } else if n == 3 {
        '3'
    } else if n == 4 {
        '4'
    } else if n == 5 {
        '5'
    } else if n == 6 {
        '6'
    } else if n == 7 {
        '7'
    } else if n == 8 {
        '8'
    } else if n == 9 {
        '9'
    } else if n == 10 {
        'a'
    } else if n == 11 {
        'b'
    } else if n == 12 {
        'c'
    } else if n == 13 {
        'd'
    } else if n == 14 {
        'e'
    } else {
        'f'
    }
}

/// Two lower-case hexadecimal digits for one byte.
pub open spec fn spec_hex_byte(n: u8) -> Seq<char> {
    seq![spec_hex_digit(n / 16), spec_hex_digit(n % 16)]
}

/// The serialized form of a color: `#` followed by three hexadecimal byte
/// pairs, and a fourth pair for the alpha channel only when the color is not
/// fully opaque. The three-byte/four-byte distinction is a compatibility
/// contract with the rendering surface.
pub open spec fn spec_css_color(c: Color) -> Seq<char> {
    let base = seq!['#'] + spec_hex_byte(c.red) + spec_hex_byte(c.green) + spec_hex_byte(c.blue);
    if c.alpha == OPAQUE {
        base
    } else {
        base + spec_hex_byte(c.alpha)
    }
}

pub(crate) fn hex_digit(n: u8) -> (c: char)
    requires
        n < 16,
    ensures
        c == spec_hex_digit(n),
{
    if n == 0 {
        '0'
    } else if n == 1 {
        '1'
    } else if n == 2 {
        '2'
    } else if n == 3 {
        '3'
    } else if n == 4 {
        '4'
    } else if n == 5 {
        '5'
    } else if n == 6 {
        '6'
    } else if n == 7 {
        '7'
    } else if n == 8 {
        '8'
    } else if n == 9 {
        '9'
    } else if n == 10 {
        'a'
    } else if n == 11 {
        'b'
    } else if n == 12 {
        'c'
    } else if n == 13 {
        'd'
    } else if n == 14 {
        'e'
    } else {
        'f'
    }
}

/// Appends the two hexadecimal digits of one byte.
pub fn push_hex_byte(s: &mut String, n: u8)
    ensures
        final(s)@ == old(s)@ + spec_hex_byte(n),
{
    push_char(s, hex_digit(n / 16));
    push_char(s, hex_digit(n % 16));
    assert(s@ =~= old(s)@ + spec_hex_byte(n));
}

/// Serializes a color for a style attribute, as [`spec_css_color`] states.
pub fn css_color(c: Color) -> (r: String)
    ensures
        r@ == spec_css_color(c),
{
    let mut s = String::new();
    push_char(&mut s, '#');
    push_hex_byte(&mut s, c.red);
    push_hex_byte(&mut s, c.green);
    push_hex_byte(&mut s, c.blue);
    if c.alpha != OPAQUE {
        push_hex_byte(&mut s, c.alpha);
    }
    assert(s@ =~= spec_css_color(c));
    s
}

/// Appends the serialized form of a color.
pub fn push_css_color(s: &mut String, c: Color)
    ensures
        final(s)@ == old(s)@ + spec_css_color(c),
{
    push_char(s, '#');
    push_hex_byte(s, c.red);
    push_hex_byte(s, c.green);
    push_hex_byte(s, c.blue);
    if c.alpha != OPAQUE {
        push_hex_byte(s, c.alpha);
    }
    assert(s@ =~= old(s)@ + spec_css_color(c));
}

} // verus!
