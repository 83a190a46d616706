//! What a canvas shows of a layout, as a mathematical model.
//!
//! Line `i` of a layout owns the band of rows from `i * line_height` up to
//! `(i + 1) * line_height`. The glyphs of a line stand side by side from column 0,
//! each one its advance to the right of the one before, and each with its foot on
//! the bottom row of the band. A cell is the rectangle of one glyph.

use vstd::prelude::*;
use crate::canvas::{can_hold, CanvasView, Rgba};
use crate::error::RenderError;
use crate::glyph::GlyphView;
use crate::wrap::{advance_sum, colors_of, text_of, LineView};

verus! {

/// Whether line `i` has a glyph number `k`.
pub open spec fn is_cell(lines: Seq<LineView>, i: int, k: int) -> bool {
    0 <= i < lines.len() && 0 <= k < text_of(lines[i].fragments).len()
}

/// Whether cell `(i, k)` comes before cell `(j, m)` in reading order.
pub open spec fn before(i: int, k: int, j: int, m: int) -> bool {
    i < j || (i == j && k < m)
}

/// The glyph of cell `(i, k)`.
pub open spec fn glyph_at(font: Map<char, GlyphView>, lines: Seq<LineView>, i: int, k: int) -> GlyphView {
    font[text_of(lines[i].fragments)[k]]
}

/// The leftmost column of cell `(i, k)`: the advances of the glyphs to its left.
pub open spec fn left_of(font: Map<char, GlyphView>, lines: Seq<LineView>, i: int, k: int) -> int {
    advance_sum(font, text_of(lines[i].fragments).take(k)) as int
}

/// The top row of cell `(i, k)`: as far above the bottom of its band as the glyph
/// is tall.
pub open spec fn top_of(
    font: Map<char, GlyphView>,
    lines: Seq<LineView>,
    line_height: nat,
    i: int,
    k: int,
) -> int {
    i * line_height + line_height - glyph_at(font, lines, i, k).height
}

/// Whether the pixel in column `x` of row `y` lies in cell `(i, k)`.
pub open spec fn in_cell(
    font: Map<char, GlyphView>,
    lines: Seq<LineView>,
    line_height: nat,
    i: int,
    k: int,
    x: int,
    y: int,
) -> bool {
    let glyph = glyph_at(font, lines, i, k);
    let left = left_of(font, lines, i, k);
    let top = top_of(font, lines, line_height, i, k);
    left <= x < left + glyph.width && top <= y < top + glyph.height
}

/// What the glyph of cell `(i, k)` leaves in the pixel in column `x` of row `y`.
pub open spec fn cell_ink(
    font: Map<char, GlyphView>,
    lines: Seq<LineView>,
    line_height: nat,
    i: int,
    k: int,
    x: int,
    y: int,
) -> Rgba
    recommends
        is_cell(lines, i, k),
        in_cell(font, lines, line_height, i, k, x, y),
{
    Rgba::ink(
        colors_of(lines[i].fragments)[k],
        glyph_at(font, lines, i, k).covered(
            x - left_of(font, lines, i, k),
            y - top_of(font, lines, line_height, i, k),
        ),
    )
}

/// What is wrong with cell `(i, k)`, if anything: the font has no glyph for its
/// character, or the glyph has a pixel to the right of the canvas or above its band.
pub open spec fn cell_fault(
    font: Map<char, GlyphView>,
    lines: Seq<LineView>,
    line_height: nat,
    width: nat,
    i: int,
    k: int,
) -> Option<RenderError> {
    let ch = text_of(lines[i].fragments)[k];
    let glyph = glyph_at(font, lines, i, k);
    if !font.contains_key(ch) {
        Some(RenderError::GlyphNotFound(ch))
    } else if glyph.has_area() && (left_of(font, lines, i, k) + glyph.width > width || glyph.height
        > line_height) {
        Some(RenderError::PixelOutOfBounds)
    } else {
        None
    }
}

/// Whether nothing is wrong with any cell before cell `(i, k)`.
pub open spec fn sound_before(
    font: Map<char, GlyphView>,
    lines: Seq<LineView>,
    line_height: nat,
    width: nat,
    i: int,
    k: int,
) -> bool {
    forall|j: int, m: int|
        is_cell(lines, j, m) && before(j, m, i, k) ==> (#[trigger] cell_fault(
            font,
            lines,
            line_height,
            width,
            j,
            m,
        )) is None
}

/// Whether nothing is wrong with any cell.
pub open spec fn sound(
    font: Map<char, GlyphView>,
    lines: Seq<LineView>,
    line_height: nat,
    width: nat,
) -> bool {
    forall|i: int, k: int|
        is_cell(lines, i, k) ==> (#[trigger] cell_fault(font, lines, line_height, width, i, k))
            is None
}

/// Whether `error` is what is wrong with the first cell, in reading order, with
/// which anything is wrong.
pub open spec fn first_fault(
    font: Map<char, GlyphView>,
    lines: Seq<LineView>,
    line_height: nat,
    width: nat,
    error: RenderError,
) -> bool {
    exists|i: int, k: int|
        is_cell(lines, i, k) && (#[trigger] cell_fault(font, lines, line_height, width, i, k))
            == Some(error) && sound_before(font, lines, line_height, width, i, k)
}

/// Whether a cell before cell `(i, k)` has the pixel in column `x` of row `y`.
pub open spec fn inked_before(
    font: Map<char, GlyphView>,
    lines: Seq<LineView>,
    line_height: nat,
    i: int,
    k: int,
    x: int,
    y: int,
) -> bool {
    exists|j: int, m: int|
        is_cell(lines, j, m) && before(j, m, i, k) && #[trigger] in_cell(
            font,
            lines,
            line_height,
            j,
            m,
            x,
            y,
        )
}

/// Whether any cell has the pixel in column `x` of row `y`.
pub open spec fn inked(
    font: Map<char, GlyphView>,
    lines: Seq<LineView>,
    line_height: nat,
    x: int,
    y: int,
) -> bool {
    exists|i: int, k: int|
        is_cell(lines, i, k) && #[trigger] in_cell(font, lines, line_height, i, k, x, y)
}

/// Whether the canvas shows the cells before cell `(i, k)` and nothing else: each
/// pixel of such a cell is what its glyph leaves there, and every other pixel is
/// transparent black.
pub open spec fn shows_before(
    canvas: CanvasView,
    font: Map<char, GlyphView>,
    lines: Seq<LineView>,
    line_height: nat,
    i: int,
    k: int,
) -> bool {
    &&& forall|j: int, m: int, x: int, y: int|
        is_cell(lines, j, m) && before(j, m, i, k) && #[trigger] in_cell(
            font,
            lines,
            line_height,
            j,
            m,
            x,
            y,
        ) ==> canvas.pixel(x, y) == cell_ink(font, lines, line_height, j, m, x, y)
    &&& forall|x: int, y: int|
        canvas.contains(x, y) && !inked_before(font, lines, line_height, i, k, x, y)
            ==> #[trigger] canvas.pixel(x, y) == Rgba::clear()
}

/// Whether the canvas shows the layout: it is as wide as asked and has a band for
/// each line, each pixel of a cell is what the cell's glyph leaves there, and every
/// other pixel is transparent black.
pub open spec fn shows(
    canvas: CanvasView,
    font: Map<char, GlyphView>,
    lines: Seq<LineView>,
    line_height: nat,
    width: nat,
) -> bool {
    &&& canvas.wf()
    &&& canvas.width == width
    &&& canvas.height == lines.len() * line_height
    &&& forall|i: int, k: int, x: int, y: int|
        is_cell(lines, i, k) && #[trigger] in_cell(font, lines, line_height, i, k, x, y)
            ==> canvas.pixel(x, y) == cell_ink(font, lines, line_height, i, k, x, y)
    &&& forall|x: int, y: int|
        canvas.contains(x, y) && !inked(font, lines, line_height, x, y) ==> #[trigger] canvas.pixel(
            x,
            y,
        ) == Rgba::clear()
}

/// Whether `result` is what comes of drawing the lines into a canvas `width` pixels
/// wide, in bands `line_height` pixels tall.
pub open spec fn rasters_to(
    font: Map<char, GlyphView>,
    lines: Seq<LineView>,
    line_height: nat,
    width: nat,
    result: Result<CanvasView, RenderError>,
) -> bool {
    if line_height == 0 {
        result == Err::<CanvasView, RenderError>(RenderError::DegenerateLayout)
    } else if !can_hold(width, lines.len() * line_height) {
        result == Err::<CanvasView, RenderError>(RenderError::SurfaceAllocation)
    } else if sound(font, lines, line_height, width) {
        result matches Ok(canvas) && shows(canvas, font, lines, line_height, width)
    } else {
        result matches Err(error) && first_fault(font, lines, line_height, width, error)
    }
}

} // verus!
