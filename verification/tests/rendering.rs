//! Palette rendering and the lighting payload.

use daily_palette::color::{Color, color_hex};
use daily_palette::error::Error;
use daily_palette::lights::light_payload;
use daily_palette::render::render;

fn color(r: u8, g: u8, b: u8) -> Color {
    Color { r, g, b, a: 255 }
}

#[test]
fn hex_lines_are_lower_case_and_padded() {
    assert_eq!(color_hex(&color(255, 0, 0)), "#ff0000");
    assert_eq!(color_hex(&color(0xab, 0x0c, 0xd0)), "#ab0cd0");
    assert_eq!(color_hex(&color(0, 0, 0)), "#000000");
    // The alpha channel is not shown.
    assert_eq!(color_hex(&Color { r: 1, g: 2, b: 3, a: 77 }), "#010203");
}

#[test]
fn render_emits_hex_lines_and_colored_blocks() {
    let palette = vec![color(255, 0, 0), color(1, 22, 133)];
    let (hex, blocks) = render(&palette);
    assert_eq!(hex, vec!["#ff0000".to_string(), "#011685".to_string()]);
    assert_eq!(
        blocks,
        "\u{1b}[38;2;255;0;0m\u{2588}\u{2588}\u{2588}\u{2588}\u{2588}\u{2588}\
         \u{1b}[38;2;1;22;133m\u{2588}\u{2588}\u{2588}\u{2588}\u{2588}\u{2588}\
         \u{1b}[39m\n"
    );
}

#[test]
fn rendering_is_pure() {
    // The same palette renders to identical text, however often.
    let palette = vec![color(12, 200, 9), color(0, 0, 0), color(255, 255, 255)];
    let first = render(&palette);
    let second = render(&palette);
    assert_eq!(first, second);
}

#[test]
fn empty_palette_renders_nothing_but_the_reset() {
    let palette: Vec<Color> = Vec::new();
    let (hex, blocks) = render(&palette);
    assert!(hex.is_empty());
    assert_eq!(blocks, "\u{1b}[39m\n");
}

#[test]
fn payload_holds_the_two_leading_colors() {
    let palette = vec![color(255, 0, 0), color(0, 0, 255), color(9, 9, 9)];
    let payload = light_payload(&palette).unwrap();
    assert_eq!(payload, "{\"color1\":\"#ff0000\",\"color2\":\"#0000ff\"}");
    // The payload is well-formed JSON with exactly those fields.
    let value: serde_json::Value = serde_json::from_str(&payload).unwrap();
    assert_eq!(value["color1"], "#ff0000");
    assert_eq!(value["color2"], "#0000ff");
}

#[test]
fn short_palette_refuses_the_push() {
    // One color is not enough to fill both fields: the push must be declined
    // rather than read past the palette's end.
    let palette = vec![color(255, 0, 0)];
    let err = light_payload(&palette).unwrap_err();
    assert!(matches!(err, Error::InsufficientPalette));
    assert_eq!(err.message(), "palette too short for the requested push");
    assert!(matches!(light_payload(&Vec::new()).unwrap_err(), Error::InsufficientPalette));
}

#[test]
fn error_messages_carry_their_cause() {
    assert_eq!(
        Error::Fetch("connection refused".to_string()).message(),
        "fetch failed: connection refused"
    );
    assert_eq!(
        Error::Push("status 500".to_string()).message(),
        "push failed: status 500"
    );
}
