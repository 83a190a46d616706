//! The canvas: a rectangle of RGBA pixels.

use vstd::prelude::*;
use crate::error::RenderError;
use crate::glyph::{lemma_bit_index_in_range, lemma_product_fits};
use crate::style::Color;

verus! {

/// The largest number of bytes that a canvas may hold.
pub const MAX_CANVAS_BYTES: usize = 0x7fff_ffff;

/// One pixel: red, green, blue and opacity, eight bits each.
#[derive(Debug, Clone, Copy, PartialEq, Eq, Structural)]
pub struct Rgba {
    pub red: u8,
    pub green: u8,
    pub blue: u8,
    pub alpha: u8,
}

impl Rgba {
    /// The transparent black pixel that a new canvas is filled with.
    pub open spec fn clear() -> Rgba {
        Rgba { red: 0, green: 0, blue: 0, alpha: 0 }
    }

    /// The pixel that a glyph of the given color leaves: the color, opaque where the
    /// glyph covers the pixel and transparent where it does not.
    pub open spec fn ink(color: Color, covered: bool) -> Rgba {
        Rgba {
            red: color.red(),
            green: color.green(),
            blue: color.blue(),
            alpha: if covered {
                255
            } else {
                0
            },
        }
    }

    /// The pixel that a glyph of the given color leaves.
    pub fn inked(color: Color, covered: bool) -> (pixel: Rgba)
        ensures
            pixel == Rgba::ink(color, covered),
    {
        let (red, green, blue) = color.channels();
        Rgba { red, green, blue, alpha: if covered { 255 } else { 0 } }
    }
}

/// Whether a canvas can have this size: no side is zero, and four bytes for each
/// pixel are no more than a canvas may hold.
pub open spec fn can_hold(width: nat, height: nat) -> bool {
    width > 0 && height > 0 && 4 * (width * height) <= MAX_CANVAS_BYTES
}

/// A canvas as a mathematical value: its size in pixels and its bytes, row after
/// row from the top, each row from the left, four bytes for each pixel in the order
/// red, green, blue, opacity.
pub struct CanvasView {
    pub width: nat,
    pub height: nat,
    pub bytes: Seq<u8>,
}

impl CanvasView {
    /// The canvas has a size that a canvas can have, and four bytes for each pixel.
    pub open spec fn wf(self) -> bool {
        can_hold(self.width, self.height) && self.bytes.len() == 4 * (self.width * self.height)
    }

    /// Whether the canvas has a pixel in column `x` of row `y`.
    pub open spec fn contains(self, x: int, y: int) -> bool {
        0 <= x < self.width && 0 <= y < self.height
    }

    /// Where the four bytes of the pixel in column `x` of row `y` begin.
    pub open spec fn offset(self, x: int, y: int) -> int {
        4 * (y * self.width + x)
    }

    /// The pixel in column `x` of row `y`.
    pub open spec fn pixel(self, x: int, y: int) -> Rgba
        recommends
            self.contains(x, y),
    {
        let at = self.offset(x, y);
        Rgba {
            red: self.bytes[at],
            green: self.bytes[at + 1],
            blue: self.bytes[at + 2],
            alpha: self.bytes[at + 3],
        }
    }
}

/// Two pixels of a canvas that begin at the same byte are the same pixel.
pub proof fn lemma_offset_injective(width: int, x: int, y: int, u: int, v: int)
    requires
        0 <= x < width,
        0 <= u < width,
        0 <= y,
        0 <= v,
        y * width + x == v * width + u,
    ensures
        x == u,
        y == v,
{
    if y < v {
        assert(v * width >= (y + 1) * width) by (nonlinear_arith)
            requires
                y + 1 <= v,
                0 <= width,
        ;
        assert((y + 1) * width == y * width + width) by (nonlinear_arith);
    } else if v < y {
        assert(y * width >= (v + 1) * width) by (nonlinear_arith)
            requires
                v + 1 <= y,
                0 <= width,
        ;
        assert((v + 1) * width == v * width + width) by (nonlinear_arith);
    }
}

/// A rectangle of RGBA pixels, `width` columns by `height` rows.
#[derive(Debug)]
pub struct Canvas {
    width: u32,
    height: u32,
    bytes: Vec<u8>,
}

impl View for Canvas {
    type V = CanvasView;

    closed spec fn view(&self) -> CanvasView {
        CanvasView { width: self.width as nat, height: self.height as nat, bytes: self.bytes@ }
    }
}

impl Canvas {
    #[verifier::type_invariant]
    spec fn inv(self) -> bool {
        self@.wf()
    }

    /// A canvas of the given size, every pixel of it transparent black.
    ///
    /// Fails where a canvas cannot have that size.
    pub fn new(width: u32, height: u32) -> (result: Result<Canvas, RenderError>)
        ensures
            result is Ok <==> can_hold(width as nat, height as nat),
            result matches Ok(canvas) ==> {
                &&& canvas@.wf()
                &&& canvas@.width == width
                &&& canvas@.height == height
                &&& canvas@.bytes == Seq::new(canvas@.bytes.len(), |i: int| 0u8)
            },
            result matches Err(error) ==> error == RenderError::SurfaceAllocation,
    {
        match blank(width, height) {
            Ok(bytes) => Ok(Canvas { width, height, bytes }),
            Err(error) => Err(error),
        }
    }

    /// The width in pixels.
    pub fn width(&self) -> (w: u32)
        ensures
            w == self@.width,
            self@.wf(),
    {
        proof {
            use_type_invariant(self);
        }
        self.width
    }

    /// The height in pixels.
    pub fn height(&self) -> (h: u32)
        ensures
            h == self@.height,
            self@.wf(),
    {
        proof {
            use_type_invariant(self);
        }
        self.height
    }

    /// The bytes of the canvas, row after row, four for each pixel.
    pub fn bytes(&self) -> (bytes: &Vec<u8>)
        ensures
            bytes@ == self@.bytes,
            self@.wf(),
    {
        proof {
            use_type_invariant(self);
        }
        &self.bytes
    }

    /// The pixel in column `x` of row `y`.
    pub fn pixel(&self, x: u32, y: u32) -> (pixel: Rgba)
        requires
            self@.contains(x as int, y as int),
        ensures
            pixel == self@.pixel(x as int, y as int),
    {
        proof {
            use_type_invariant(self);
            lemma_bit_index_in_range(self.width as int, self.height as int, x as int, y as int);
            lemma_product_fits(y, self.width);
        }
        let at: usize = (4 * ((y as u64) * (self.width as u64) + (x as u64))) as usize;
        Rgba {
            red: self.bytes[at],
            green: self.bytes[at + 1],
            blue: self.bytes[at + 2],
            alpha: self.bytes[at + 3],
        }
    }

    /// The canvas that has the given bytes.
    pub(crate) fn seal(width: u32, height: u32, bytes: Vec<u8>) -> (canvas: Canvas)
        requires
            sheet(width, height, bytes@).wf(),
        ensures
            canvas@ == sheet(width, height, bytes@),
    {
        Canvas { width, height, bytes }
    }
}

/// The canvas of the given size that has the given bytes.
pub open spec fn sheet(width: u32, height: u32, bytes: Seq<u8>) -> CanvasView {
    CanvasView { width: width as nat, height: height as nat, bytes }
}

/// The bytes of a canvas of the given size, every pixel of it transparent black.
///
/// Fails where a canvas cannot have that size.
pub(crate) fn blank(width: u32, height: u32) -> (result: Result<Vec<u8>, RenderError>)
    ensures
        result is Ok <==> can_hold(width as nat, height as nat),
        result matches Ok(bytes) ==> {
            &&& sheet(width, height, bytes@).wf()
            &&& bytes@ == Seq::new(bytes@.len(), |i: int| 0u8)
        },
        result matches Err(error) ==> error == RenderError::SurfaceAllocation,
{
    proof {
        lemma_product_fits(width, height);
    }
    let pixels: u64 = (width as u64) * (height as u64);
    if width == 0 || height == 0 || pixels > (MAX_CANVAS_BYTES / 4) as u64 {
        return Err(RenderError::SurfaceAllocation);
    }
    let size: usize = (4 * pixels) as usize;
    let bytes: Vec<u8> = vec![0u8; size];
    assert(bytes@ =~= Seq::new(bytes@.len(), |i: int| 0u8));
    Ok(bytes)
}

/// Overwrites the pixel in column `x` of row `y` of a canvas that is being drawn,
/// and leaves every other pixel as it was.
pub(crate) fn put(bytes: &mut Vec<u8>, width: u32, height: u32, x: u32, y: u32, pixel: Rgba)
    requires
        sheet(width, height, old(bytes)@).wf(),
        x < width,
        y < height,
    ensures
        sheet(width, height, final(bytes)@).wf(),
        sheet(width, height, final(bytes)@).pixel(x as int, y as int) == pixel,
        forall|u: int, v: int|
            0 <= u < width && 0 <= v < height && (u != x || v != y) ==> #[trigger] sheet(
                width,
                height,
                final(bytes)@,
            ).pixel(u, v) == sheet(width, height, old(bytes)@).pixel(u, v),
{
    proof {
        lemma_bit_index_in_range(width as int, height as int, x as int, y as int);
        lemma_product_fits(y, width);
    }
    let at: usize = (4 * ((y as u64) * (width as u64) + (x as u64))) as usize;
    bytes.set(at, pixel.red);
    bytes.set(at + 1, pixel.green);
    bytes.set(at + 2, pixel.blue);
    bytes.set(at + 3, pixel.alpha);
    proof {
        assert forall|u: int, v: int|
            0 <= u < width && 0 <= v < height && (u != x || v != y) implies #[trigger] sheet(
            width,
            height,
            bytes@,
        ).pixel(u, v) == sheet(width, height, old(bytes)@).pixel(u, v) by {
            if v * width + u == y * width + x {
                lemma_offset_injective(width as int, u, v, x as int, y as int);
            }
            lemma_bit_index_in_range(width as int, height as int, u, v);
        }
    }
}

} // verus!
