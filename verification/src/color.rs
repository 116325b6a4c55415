//! The color value type and its lower-case hex rendering.

use vstd::prelude::*;
use vstd::string::StringExecFns;

verus! {

/// Pixels whose alpha channel is at or below this threshold are treated as
/// transparent and never contribute to a histogram or palette.
pub const ALPHA_THRESHOLD: u8 = 128;

/// One RGBA color: four 8-bit channels. Produced by decoding or quantization,
/// never mutated in place.
#[derive(Clone, Copy, Debug, PartialEq, Eq, Structural)]
pub struct Color {
    pub r: u8,
    pub g: u8,
    pub b: u8,
    pub a: u8,
}

impl Color {
    /// A pixel qualifies for the histogram when its alpha channel exceeds the
    /// transparency threshold.
    pub open spec fn qualifies(self) -> bool {
        self.a > ALPHA_THRESHOLD
    }

    pub fn new(r: u8, g: u8, b: u8, a: u8) -> (c: Color)
        ensures
            c == (Color { r, g, b, a }),
    {
        Color { r, g, b, a }
    }

    /// Runtime test matching the spec-level `qualifies`.
    pub fn is_opaque_enough(&self) -> (q: bool)
        ensures
            q == self.qualifies(),
    {
        self.a > ALPHA_THRESHOLD
    }
}

/// The lower-case hex digit for a value below 16.
pub open spec fn hex_char(v: int) -> char {
    if v == 0 { '0' }
    else if v == 1 { '1' }
    else if v == 2 { '2' }
    else if v == 3 { '3' }
    else if v == 4 { '4' }
    else if v == 5 { '5' }
    else if v == 6 { '6' }
    else if v == 7 { '7' }
    else if v == 8 { '8' }
    else if v == 9 { '9' }
    else if v == 10 { 'a' }
    else if v == 11 { 'b' }
    else if v == 12 { 'c' }
    else if v == 13 { 'd' }
    else if v == 14 { 'e' }
    else { 'f' }
}

/// Two lower-case hex digits of one channel value.
pub open spec fn hex_byte(v: int) -> Seq<char> {
    seq![hex_char(v / 16), hex_char(v % 16)]
}

/// The `#rrggbb` rendering of a color; the alpha channel is not shown.
pub open spec fn hex_color(c: Color) -> Seq<char> {
    seq!['#'] + hex_byte(c.r as int) + hex_byte(c.g as int) + hex_byte(c.b as int)
}

/// The hex digit of a value below 16, as a one-character string slice.
fn hex_digit_str(v: u8) -> (s: &'static str)
    requires
        v < 16,
    ensures
        s@ == seq![hex_char(v as int)],
{
    proof {
        reveal_strlit("0");
        reveal_strlit("1");
        reveal_strlit("2");
        reveal_strlit("3");
        reveal_strlit("4");
        reveal_strlit("5");
        reveal_strlit("6");
        reveal_strlit("7");
        reveal_strlit("8");
        reveal_strlit("9");
        reveal_strlit("a");
        reveal_strlit("b");
        reveal_strlit("c");
        reveal_strlit("d");
        reveal_strlit("e");
        reveal_strlit("f");
    }
    match v {
        0 => "0",
        1 => "1",
        2 => "2",
        3 => "3",
        4 => "4",
        5 => "5",
        6 => "6",
        7 => "7",
        8 => "8",
        9 => "9",
        10 => "a",
        11 => "b",
        12 => "c",
        13 => "d",
        14 => "e",
        _ => "f",
    }
}

/// Appends the two hex digits of one channel value to a string under
/// construction.
fn append_hex_byte(out: &mut String, v: u8)
    ensures
        final(out)@ == old(out)@ + hex_byte(v as int),
{
    out.append(hex_digit_str(v / 16));
    out.append(hex_digit_str(v % 16));
    proof {
        assert(out@ =~= old(out)@ + hex_byte(v as int));
    }
}

/// The `#rrggbb` line for one palette entry, lower-case.
pub fn color_hex(c: &Color) -> (s: String)
    ensures
        s@ == hex_color(*c),
{
    let mut s = String::new();
    proof {
        reveal_strlit("#");
    }
    s.append("#");
    append_hex_byte(&mut s, c.r);
    append_hex_byte(&mut s, c.g);
    append_hex_byte(&mut s, c.b);
    proof {
        assert(s@ =~= hex_color(*c));
    }
    s
}

} // verus!
