//! Rendering as a whole, as a mathematical model: laying the runs out and drawing
//! the layout.

use vstd::prelude::*;
use crate::canvas::{can_hold, CanvasView};
use crate::error::RenderError;
use crate::glyph::GlyphView;
use crate::picture::shows;
use crate::style::Span;
use crate::wrap::{first_unknown, knows, layout_of, text_of};

verus! {

/// Whether the text has a glyph with pixels that is wider than the canvas.
pub open spec fn oversized(font: Map<char, GlyphView>, text: Seq<char>, width: nat) -> bool {
    exists|p: int|
        0 <= p < text.len() && font[#[trigger] text[p]].has_area() && font[text[p]].width > width
}

/// Whether `result` is what comes of rendering the runs into a canvas `width`
/// pixels wide: of laying them out and drawing the layout.
pub open spec fn renders_to(
    font: Map<char, GlyphView>,
    runs: Seq<Span>,
    width: nat,
    result: Result<CanvasView, RenderError>,
) -> bool {
    let text = text_of(runs);
    let layout = layout_of(font, runs, width);
    if !knows(font, text) {
        result matches Err(RenderError::GlyphNotFound(ch)) && first_unknown(font, text, ch)
    } else if layout.line_height == 0 {
        result == Err::<CanvasView, RenderError>(RenderError::DegenerateLayout)
    } else if !can_hold(width, layout.lines.len() * layout.line_height) {
        result == Err::<CanvasView, RenderError>(RenderError::SurfaceAllocation)
    } else if oversized(font, text, width) {
        result == Err::<CanvasView, RenderError>(RenderError::PixelOutOfBounds)
    } else {
        result matches Ok(canvas) && shows(canvas, font, layout.lines, layout.line_height, width)
    }
}

} // verus!
