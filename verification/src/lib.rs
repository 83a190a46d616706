//! Rendering of styled text with bitmap-font glyphs into an RGBA pixel canvas.
//!
//! Text is wrapped greedily, one character at a time, into lines no wider than a
//! given number of pixels. Every line becomes one band of the canvas, as tall as the
//! tallest glyph of the whole text, and every glyph is drawn into its band with its
//! foot on the band's bottom row.

pub mod style;
pub mod error;
pub mod glyph;
pub mod font;
pub mod wrap;
pub mod wrap_laws;
pub mod layout;
pub mod canvas;
mod paint;
pub mod picture;
pub mod picture_laws;
pub mod raster;
pub mod render;
pub mod render_laws;
pub mod converter;

pub use style::{Color, Span, Text};
pub use error::RenderError;
pub use glyph::{Glyph, GlyphView};
pub use font::Font;
pub use converter::Converter;
pub use raster::rasterize;
pub use canvas::{Canvas, CanvasView, Rgba, MAX_CANVAS_BYTES};
pub use layout::{layout, Fragment, Layout, Line};
