//! Daily-palette core: locate an image reference inside an HTML page through a
//! declarative attribute selector, decode the referenced raster image, reduce
//! its pixel population to a small representative palette, and format that
//! palette for terminal display and for a two-color lighting payload.

pub mod adapter;
pub mod color;
pub mod error;
pub mod histogram;
pub mod lights;
pub mod quantize;
pub mod render;
pub mod selector;
