//! Glyphs: the bitmap of one character.

use vstd::prelude::*;

verus! {

/// A glyph as a mathematical value: its size in pixels and its coverage bits, row
/// after row from the top, each row from the left.
pub struct GlyphView {
    pub width: nat,
    pub height: nat,
    pub bits: Seq<bool>,
}

impl GlyphView {
    /// There is one bit for each pixel of the glyph.
    pub open spec fn wf(self) -> bool {
        self.bits.len() == self.width * self.height
    }

    /// Whether the glyph paints the pixel in column `x` of its row `y`.
    pub open spec fn covered(self, x: int, y: int) -> bool
        recommends
            0 <= x < self.width,
            0 <= y < self.height,
    {
        self.bits[y * self.width + x]
    }

    /// How far the glyph moves the pen: its width and one pixel of spacing.
    pub open spec fn advance(self) -> nat {
        self.width + 1
    }

    /// Whether the glyph has any pixel at all.
    pub open spec fn has_area(self) -> bool {
        self.width > 0 && self.height > 0
    }
}

/// The index of pixel `(x, y)` in the rows of a bitmap `width` wide and `height` tall
/// lies within the bitmap.
pub proof fn lemma_bit_index_in_range(width: int, height: int, x: int, y: int)
    requires
        0 <= x < width,
        0 <= y < height,
    ensures
        0 <= y * width + x < width * height,
{
    assert(0 <= y * width) by (nonlinear_arith)
        requires
            0 <= y,
            0 <= width,
    ;
    assert((y + 1) * width <= height * width) by (nonlinear_arith)
        requires
            y + 1 <= height,
            0 <= width,
    ;
    assert((y + 1) * width == y * width + width) by (nonlinear_arith);
    assert(height * width == width * height) by (nonlinear_arith);
}

/// The product of two 32-bit numbers fits in 64 bits.
pub proof fn lemma_product_fits(a: u32, b: u32)
    ensures
        0 <= a * b <= 0xffff_fffe_0000_0001,
{
    assert(0 <= a * b <= 0xffff_fffe_0000_0001) by (nonlinear_arith)
        requires
            0 <= a <= 0xffff_ffff,
            0 <= b <= 0xffff_ffff,
    ;
}

/// The bitmap of one character: `width` columns, `height` rows, one coverage bit for
/// each pixel.
#[derive(Debug)]
pub struct Glyph {
    width: u32,
    height: u32,
    bits: Vec<bool>,
}

impl View for Glyph {
    type V = GlyphView;

    closed spec fn view(&self) -> GlyphView {
        GlyphView { width: self.width as nat, height: self.height as nat, bits: self.bits@ }
    }
}

impl Glyph {
    #[verifier::type_invariant]
    spec fn inv(self) -> bool {
        self.bits@.len() == self.width * self.height
    }

    /// Makes a glyph of the given size from its coverage bits, given row after row
    /// from the top. There must be exactly `width * height` bits.
    pub fn new(width: u32, height: u32, bits: Vec<bool>) -> (made: Option<Glyph>)
        ensures
            made is Some <==> bits@.len() == width * height,
            made matches Some(g) ==> g@ == (GlyphView {
                width: width as nat,
                height: height as nat,
                bits: bits@,
            }),
    {
        proof {
            lemma_product_fits(width, height);
        }
        let area: u64 = (width as u64) * (height as u64);
        if bits.len() as u64 == area {
            Some(Glyph { width, height, bits })
        } else {
            None
        }
    }

    /// The width in pixels.
    pub fn width(&self) -> (w: u32)
        ensures
            w == self@.width,
            self@.wf(),
    {
        proof {
            use_type_invariant(self);
        }
        self.width
    }

    /// The height in pixels.
    pub fn height(&self) -> (h: u32)
        ensures
            h == self@.height,
            self@.wf(),
    {
        proof {
            use_type_invariant(self);
        }
        self.height
    }

    /// Whether the glyph paints the pixel in column `x` of its row `y`.
    pub fn covered(&self, x: u32, y: u32) -> (bit: bool)
        requires
            x < self@.width,
            y < self@.height,
        ensures
            bit == self@.covered(x as int, y as int),
    {
        proof {
            use_type_invariant(self);
            lemma_bit_index_in_range(self.width as int, self.height as int, x as int, y as int);
            lemma_product_fits(y, self.width);
        }
        let index: u64 = (y as u64) * (self.width as u64) + (x as u64);
        assert(index < self.bits.len());
        self.bits[index as usize]
    }
}

} // verus!
