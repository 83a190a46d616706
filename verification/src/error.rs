//! The reasons for which rendering fails.

use vstd::prelude::*;

verus! {

/// Why a layout or a canvas could not be produced.
#[derive(Debug, Clone, Copy, PartialEq, Eq, Structural)]
pub enum RenderError {
    /// The font has no glyph for this character.
    GlyphNotFound(char),
    /// The line height is zero, so the canvas would have no rows to draw into.
    DegenerateLayout,
    /// The canvas has a side of length zero or needs more bytes than a canvas may hold.
    SurfaceAllocation,
    /// A pixel of a glyph falls outside the canvas or outside the band of its line.
    PixelOutOfBounds,
}

} // verus!
