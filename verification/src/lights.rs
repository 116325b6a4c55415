//! The payload for the lighting endpoint: the two most prominent palette
//! entries, framed as the fixed JSON object the endpoint expects.

use vstd::prelude::*;
use vstd::string::StringExecFns;
use crate::color::{Color, hex_color, color_hex};
use crate::error::Error;

verus! {

/// The exact body of the push request for two colors:
/// `{"color1":"#rrggbb","color2":"#rrggbb"}`.
pub open spec fn payload_spec(c1: Color, c2: Color) -> Seq<char> {
    "{\"color1\":\""@ + hex_color(c1) + "\",\"color2\":\""@ + hex_color(c2) + "\"}"@
}

/// Builds the push payload from the two leading palette entries.
///
/// A palette shorter than two entries yields `InsufficientPalette` instead
/// of reading past its end; forwarding is only owed a payload when the
/// palette is long enough.
pub fn light_payload(palette: &Vec<Color>) -> (r: Result<String, Error>)
    ensures
        match r {
            Ok(s) => palette@.len() >= 2 && s@ == payload_spec(palette@[0], palette@[1]),
            Err(e) => e is InsufficientPalette && palette@.len() < 2,
        },
{
    if palette.len() < 2 {
        return Err(Error::InsufficientPalette);
    }
    let mut s = String::from_str("{\"color1\":\"");
    let h1 = color_hex(&palette[0]);
    s.append(h1.as_str());
    s.append("\",\"color2\":\"");
    let h2 = color_hex(&palette[1]);
    s.append(h2.as_str());
    s.append("\"}");
    proof {
        assert(s@ =~= payload_spec(palette@[0], palette@[1]));
    }
    Ok(s)
}

} // verus!
