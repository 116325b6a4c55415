//! The palette renderer: a lower-case hex line per color, and one line of
//! colored terminal blocks. Pure formatting; it cannot fail, an empty
//! palette simply renders nothing.

use vstd::prelude::*;
use vstd::string::StringExecFns;
use crate::color::{Color, hex_color, color_hex};

verus! {

/// The decimal digit character for a value below ten.
pub open spec fn dec_digit(v: int) -> char {
    if v == 0 { '0' }
    else if v == 1 { '1' }
    else if v == 2 { '2' }
    else if v == 3 { '3' }
    else if v == 4 { '4' }
    else if v == 5 { '5' }
    else if v == 6 { '6' }
    else if v == 7 { '7' }
    else if v == 8 { '8' }
    else { '9' }
}

/// A channel value written in decimal, without leading zeros.
pub open spec fn dec_u8(v: int) -> Seq<char> {
    if v < 10 {
        seq![dec_digit(v)]
    } else if v < 100 {
        seq![dec_digit(v / 10), dec_digit(v % 10)]
    } else {
        seq![dec_digit(v / 100), dec_digit((v / 10) % 10), dec_digit(v % 10)]
    }
}

/// The CSI true-color foreground code for a color.
pub open spec fn fg_code(c: Color) -> Seq<char> {
    "\u{1b}[38;2;"@ + dec_u8(c.r as int) + ";"@ + dec_u8(c.g as int) + ";"@ + dec_u8(c.b as int)
        + "m"@
}

/// The CSI code that resets the foreground color.
pub open spec fn fg_reset_code() -> Seq<char> {
    "\u{1b}[39m"@
}

/// Relies on termion::color::Rgb::fg_string: it writes the CSI prefix, the
/// three channel values in decimal separated by semicolons, and a final `m`.
#[verifier::external_body]
fn fg_rgb_string(c: &Color) -> (s: String)
    ensures
        s@ == fg_code(*c),
{
    termion::color::Rgb(c.r, c.g, c.b).fg_string()
}

/// Relies on termion::color::Reset::fg_str: the constant reset-foreground
/// code.
#[verifier::external_body]
fn fg_reset_str() -> (s: &'static str)
    ensures
        s@ == fg_reset_code(),
{
    termion::color::Reset.fg_str()
}

/// The six-block glyph run that stands for one palette entry.
pub open spec fn block_glyphs() -> Seq<char> {
    "\u{2588}\u{2588}\u{2588}\u{2588}\u{2588}\u{2588}"@
}

/// The colored glyph runs of a palette, in palette order.
pub open spec fn color_blocks(p: Seq<Color>) -> Seq<char>
    decreases p.len(),
{
    if p.len() == 0 {
        Seq::empty()
    } else {
        color_blocks(p.drop_last()) + fg_code(p.last()) + block_glyphs()
    }
}

/// The one terminal line showing the palette: each color's glyph run, then a
/// reset and a line break.
pub open spec fn block_line(p: Seq<Color>) -> Seq<char> {
    color_blocks(p) + fg_reset_code() + "\n"@
}

/// Formats a palette for human inspection: one `#rrggbb` line per color, and
/// one line of colored blocks ending in a reset. Both outputs are functions
/// of the palette alone, so rendering the same palette twice yields
/// identical text.
pub fn render(palette: &Vec<Color>) -> (r: (Vec<String>, String))
    ensures
        r.0@.len() == palette@.len(),
        forall|i: int| 0 <= i < palette@.len() ==> (#[trigger] r.0@[i])@ == hex_color(palette@[i]),
        r.1@ == block_line(palette@),
{
    let ghost pal = palette@;
    let mut hex: Vec<String> = Vec::new();
    let mut blocks = String::new();
    let mut i: usize = 0;
    while i < palette.len()
        invariant
            i <= pal.len(),
            pal == palette@,
            hex@.len() == i,
            forall|t: int| 0 <= t < i ==> (#[trigger] hex@[t])@ == hex_color(pal[t]),
            blocks@ == color_blocks(pal.take(i as int)),
        decreases pal.len() - i,
    {
        let c = palette[i];
        hex.push(color_hex(&c));
        let code = fg_rgb_string(&c);
        blocks.append(code.as_str());
        blocks.append("\u{2588}\u{2588}\u{2588}\u{2588}\u{2588}\u{2588}");
        proof {
            assert(pal.take(i as int + 1).drop_last() =~= pal.take(i as int));
            assert(pal.take(i as int + 1).last() == pal[i as int]);
            assert(blocks@ =~= color_blocks(pal.take(i as int + 1)));
        }
        i += 1;
    }
    blocks.append(fg_reset_str());
    blocks.append("\n");
    proof {
        assert(pal.take(pal.len() as int) =~= pal);
        assert(blocks@ =~= block_line(pal));
    }
    (hex, blocks)
}

} // verus!
