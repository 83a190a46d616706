//! Drawing one glyph into a canvas.

use vstd::prelude::*;
use crate::canvas::{put, sheet, Rgba};
use crate::glyph::Glyph;
use crate::style::Color;

verus! {

/// Draws the glyph with its top left corner in column `left` of row `top`. Every
/// pixel of the glyph's rectangle is overwritten, with the color: opaque where the
/// glyph covers it, transparent where it does not. Every other pixel stays as it was.
pub(crate) fn draw(
    bytes: &mut Vec<u8>,
    width: u32,
    height: u32,
    glyph: &Glyph,
    left: u32,
    top: u32,
    color: Color,
)
    requires
        sheet(width, height, old(bytes)@).wf(),
        left + glyph@.width <= width,
        top + glyph@.height <= height,
    ensures
        sheet(width, height, final(bytes)@).wf(),
        forall|x: int, y: int|
            left <= x < left + glyph@.width && top <= y < top + glyph@.height ==> #[trigger] sheet(
                width,
                height,
                final(bytes)@,
            ).pixel(x, y) == Rgba::ink(color, glyph@.covered(x - left, y - top)),
        forall|x: int, y: int|
            0 <= x < width && 0 <= y < height && !(left <= x < left + glyph@.width && top <= y < top
                + glyph@.height) ==> #[trigger] sheet(width, height, final(bytes)@).pixel(x, y)
                == sheet(width, height, old(bytes)@).pixel(x, y),
{
    let columns = glyph.width();
    let rows = glyph.height();
    let mut v: u32 = 0;
    while v < rows
        invariant
            0 <= v <= rows,
            columns == glyph@.width,
            rows == glyph@.height,
            left + columns <= width,
            top + rows <= height,
            sheet(width, height, bytes@).wf(),
            forall|x: int, y: int|
                left <= x < left + columns && top <= y < top + v ==> #[trigger] sheet(
                    width,
                    height,
                    bytes@,
                ).pixel(x, y) == Rgba::ink(color, glyph@.covered(x - left, y - top)),
            forall|x: int, y: int|
                0 <= x < width && 0 <= y < height && !(left <= x < left + columns && top <= y < top
                    + v) ==> #[trigger] sheet(width, height, bytes@).pixel(x, y) == sheet(
                    width,
                    height,
                    old(bytes)@,
                ).pixel(x, y),
        decreases rows - v,
    {
        let mut u: u32 = 0;
        while u < columns
            invariant
                0 <= u <= columns,
                0 <= v < rows,
                columns == glyph@.width,
                rows == glyph@.height,
                left + columns <= width,
                top + rows <= height,
                sheet(width, height, bytes@).wf(),
                forall|x: int, y: int|
                    left <= x < left + columns && (top <= y < top + v || (y == top + v && x < left
                        + u)) ==> #[trigger] sheet(width, height, bytes@).pixel(x, y) == Rgba::ink(
                        color,
                        glyph@.covered(x - left, y - top),
                    ),
                forall|x: int, y: int|
                    0 <= x < width && 0 <= y < height && !(left <= x < left + columns && (top <= y
                        < top + v || (y == top + v && x < left + u))) ==> #[trigger] sheet(
                        width,
                        height,
                        bytes@,
                    ).pixel(x, y) == sheet(width, height, old(bytes)@).pixel(x, y),
            decreases columns - u,
        {
            let pixel = Rgba::inked(color, glyph.covered(u, v));
            put(bytes, width, height, left + u, top + v, pixel);
            u = u + 1;
        }
        v = v + 1;
    }
}

} // verus!
