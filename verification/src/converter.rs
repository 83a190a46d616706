//! The converter: a font, and the rendering of styled text with it.

use vstd::prelude::*;
use crate::canvas::Canvas;
use crate::error::RenderError;
use crate::font::Font;
use crate::glyph::GlyphView;
use crate::layout::layout;
use crate::raster::{canvas_view, rasterize};
use crate::render::renders_to;
use crate::render_laws::lemma_raster_of_layout_renders;
use crate::style::{runs_of, Text};

verus! {

/// Renders styled text with the glyphs of one font.
pub struct Converter {
    font: Font,
}

impl View for Converter {
    type V = Map<char, GlyphView>;

    closed spec fn view(&self) -> Map<char, GlyphView> {
        self.font@
    }
}

impl Converter {
    /// A converter that draws with the glyphs of `font`.
    pub fn new(font: Font) -> (converter: Converter)
        ensures
            converter@ == font@,
    {
        Converter { font }
    }

    /// The font that the converter draws with.
    pub fn font(&self) -> (font: &Font)
        ensures
            font@ == self@,
    {
        &self.font
    }

    /// Renders the runs, one after the other, into a canvas `max_line_width` pixels
    /// wide: wraps them into lines and draws each line into a band of the canvas.
    ///
    /// Fails on the first character without a glyph; where no glyph of the text has
    /// any height, and so where there is no text; where a canvas cannot have the size
    /// that the lines need; and where a glyph with pixels is wider than the canvas.
    pub fn render(&self, texts: &Vec<Text>, max_line_width: u32) -> (result: Result<
        Canvas,
        RenderError,
    >)
        ensures
            renders_to(self@, runs_of(texts@), max_line_width as nat, canvas_view(result)),
    {
        let laid = match layout(texts, max_line_width, &self.font) {
            Ok(laid) => laid,
            Err(error) => {
                return Err(error);
            },
        };
        let result = rasterize(&laid.lines, laid.line_height, max_line_width, &self.font);
        proof {
            lemma_raster_of_layout_renders(
                self@,
                runs_of(texts@),
                max_line_width as nat,
                canvas_view(result),
            );
        }
        result
    }
}

} // verus!
