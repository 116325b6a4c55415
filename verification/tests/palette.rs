//! Quantization: decoding, histogram building, and palette reduction.

use std::io::Cursor;

use daily_palette::color::Color;
use daily_palette::error::Error;
use daily_palette::histogram::build_histogram;
use daily_palette::quantize::{color_distance, palette_from_pixels, quantize, sort_by_weight};
use daily_palette::histogram::ColorCount;

fn red() -> Color {
    Color::new(255, 0, 0, 255)
}

fn green() -> Color {
    Color::new(0, 255, 0, 255)
}

fn blue() -> Color {
    Color::new(0, 0, 255, 255)
}

fn png_bytes(width: u32, height: u32, pixels: &[Color]) -> Vec<u8> {
    assert_eq!((width * height) as usize, pixels.len());
    let mut img = image::RgbaImage::new(width, height);
    for (i, c) in pixels.iter().enumerate() {
        let x = (i as u32) % width;
        let y = (i as u32) / width;
        img.put_pixel(x, y, image::Rgba([c.r, c.g, c.b, c.a]));
    }
    let mut bytes: Vec<u8> = Vec::new();
    image::DynamicImage::ImageRgba8(img)
        .write_to(&mut Cursor::new(&mut bytes), image::ImageFormat::Png)
        .unwrap();
    bytes
}

#[test]
fn two_by_two_red_heaviest() {
    // A 2x2 opaque image with {red, red, green, blue} reduced to three colors:
    // red's cluster carries the most weight and must come first.
    let pixels = vec![red(), red(), green(), blue()];
    let palette = palette_from_pixels(&pixels, 3);
    assert_eq!(palette.len(), 3);
    assert_eq!(palette[0], red());
    assert!(palette.contains(&green()));
    assert!(palette.contains(&blue()));
}

#[test]
fn two_by_two_through_decoder() {
    let bytes = png_bytes(2, 2, &[red(), red(), green(), blue()]);
    let palette = quantize(&bytes, 3).unwrap();
    assert_eq!(palette.len(), 3);
    assert_eq!(palette[0], red());
}

#[test]
fn full_palette_when_enough_distinct_colors() {
    // Six distinct fully-opaque colors, target four: exactly four entries.
    let pixels = vec![
        red(),
        green(),
        blue(),
        Color { r: 255, g: 255, b: 0, a: 255 },
        Color { r: 0, g: 255, b: 255, a: 255 },
        Color { r: 255, g: 0, b: 255, a: 255 },
    ];
    let palette = palette_from_pixels(&pixels, 4);
    assert_eq!(palette.len(), 4);
    let bytes = png_bytes(2, 3, &pixels);
    let palette = quantize(&bytes, 4).unwrap();
    assert_eq!(palette.len(), 4);
}

#[test]
fn transparent_image_yields_empty_palette() {
    // Alpha at or below the 128 threshold is discarded entirely.
    let pixels = vec![
        Color { r: 10, g: 20, b: 30, a: 0 },
        Color { r: 40, g: 50, b: 60, a: 128 },
        Color { r: 70, g: 80, b: 90, a: 1 },
        Color { r: 0, g: 0, b: 0, a: 100 },
    ];
    let palette = palette_from_pixels(&pixels, 4);
    assert_eq!(palette.len(), 0);
    let bytes = png_bytes(2, 2, &pixels);
    let palette = quantize(&bytes, 4).unwrap();
    assert!(palette.is_empty());
}

#[test]
fn fewer_distinct_colors_than_target() {
    let pixels = vec![red(), red(), blue()];
    let palette = palette_from_pixels(&pixels, 5);
    assert_eq!(palette, vec![red(), blue()]);
}

#[test]
fn semi_opaque_pixels_qualify_above_threshold() {
    let c = Color { r: 1, g: 2, b: 3, a: 129 };
    let palette = palette_from_pixels(&vec![c], 4);
    assert_eq!(palette, vec![c]);
}

#[test]
fn undecodable_bytes_fail_with_decode_error() {
    let err = quantize(b"this is no raster image", 4).unwrap_err();
    assert!(matches!(err, Error::Decode));
    assert_eq!(err.message(), "image bytes could not be decoded");
}

#[test]
fn histogram_counts_and_weight() {
    let pixels = vec![red(), green(), red(), Color { r: 9, g: 9, b: 9, a: 5 }];
    let h = build_histogram(&pixels);
    assert_eq!(h.entries.len(), 2);
    assert_eq!(h.entries[0].color, red());
    assert_eq!(h.entries[0].count, 2);
    assert_eq!(h.entries[1].color, green());
    assert_eq!(h.entries[1].count, 1);
}

#[test]
fn distance_is_weighted_and_exact() {
    // 2*dr^2 + 4*dg^2 + 3*db^2 + da^2 over channel differences.
    let a = Color { r: 10, g: 0, b: 5, a: 255 };
    let b = Color { r: 0, g: 2, b: 5, a: 254 };
    assert_eq!(color_distance(&a, &b), 2 * 100 + 4 * 4 + 3 * 0 + 1);
    assert_eq!(color_distance(&a, &a), 0);
}

#[test]
fn sorting_orders_by_descending_weight() {
    let entries = vec![
        ColorCount { color: blue(), count: 1 },
        ColorCount { color: red(), count: 5 },
        ColorCount { color: green(), count: 3 },
    ];
    let sorted = sort_by_weight(entries);
    assert_eq!(sorted[0].color, red());
    assert_eq!(sorted[1].color, green());
    assert_eq!(sorted[2].color, blue());
}
