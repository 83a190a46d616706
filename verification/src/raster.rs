//! The raster compositor: draws the lines of a layout into a canvas.

use vstd::prelude::*;
use crate::canvas::{blank, can_hold, sheet, Canvas, CanvasView, MAX_CANVAS_BYTES};
use crate::error::RenderError;
use crate::font::Font;
use crate::glyph::lemma_product_fits;
use crate::layout::{lines_of, spans_of, Line};
use crate::paint::draw;
use crate::picture::{
    cell_fault, first_fault, glyph_at, is_cell, left_of, rasters_to, shows_before, sound_before,
    top_of,
};
use crate::picture_laws::{
    lemma_all_drawn, lemma_bands_in_order, lemma_blank_shows, lemma_cell_drawn, lemma_left_of_next,
    lemma_line_drawn,
};
use crate::style::Span;
use crate::wrap::text_of;
use crate::wrap_laws::{lemma_span_cell, lemma_text_of_take};

verus! {

/// The pen of the compositor does not move further right than this. No canvas is
/// that wide, so a glyph with a pixel this far right is always outside.
const FAR_RIGHT: u64 = 0x2_0000_0000;

/// The column of the pen, as far as the compositor follows it.
spec fn pen_column(left: int) -> int {
    if left <= FAR_RIGHT {
        left
    } else {
        FAR_RIGHT as int
    }
}

/// Draws the glyphs of line `i` into its band of the canvas, from left to right.
///
/// Stops at the first cell with which anything is wrong.
#[verifier::loop_isolation(false)]
fn draw_line(
    bytes: &mut Vec<u8>,
    width: u32,
    height: u32,
    lines: &Vec<Line>,
    i: usize,
    line_height: u32,
    font: &Font,
) -> (result: Result<(), RenderError>)
    requires
        i < lines.len(),
        line_height > 0,
        height == lines.len() * line_height,
        sheet(width, height, old(bytes)@).wf(),
        shows_before(
            sheet(width, height, old(bytes)@),
            font@,
            lines_of(lines@),
            line_height as nat,
            i as int,
            0,
        ),
        sound_before(font@, lines_of(lines@), line_height as nat, width as nat, i as int, 0),
    ensures
        sheet(width, height, final(bytes)@).wf(),
        result is Ok ==> {
            &&& shows_before(
                sheet(width, height, final(bytes)@),
                font@,
                lines_of(lines@),
                line_height as nat,
                i + 1,
                0,
            )
            &&& sound_before(font@, lines_of(lines@), line_height as nat, width as nat, i + 1, 0)
        },
        result matches Err(error) ==> first_fault(
            font@,
            lines_of(lines@),
            line_height as nat,
            width as nat,
            error,
        ),
{
    let ghost all = lines_of(lines@);
    let ghost tall = line_height as nat;
    let ghost wide = width as nat;
    let ghost spans = all[i as int].fragments;
    let ghost text = text_of(spans);
    let line = &lines[i];
    proof {
        assert(spans == spans_of(line.fragments@));
        if i + 1 < lines.len() {
            lemma_bands_in_order(tall, i as int, lines.len() as int);
        }
        if 0 < i {
            lemma_bands_in_order(tall, 0, i as int);
        }
        assert((i + 1) * tall == i * tall + tall) by (nonlinear_arith);
        assert(0 * tall == 0);
    }
    let band_top: u32 = ((i as u64) * (line_height as u64)) as u32;
    let mut pen: u64 = 0;
    let ghost mut k: int = 0;
    let mut f: usize = 0;
    proof {
        assert(spans.take(0) =~= Seq::<Span>::empty());
        assert(text.take(0) =~= Seq::<char>::empty());
    }
    while f < line.fragments.len()
        invariant
            0 <= f <= line.fragments.len(),
            k == text_of(spans.take(f as int)).len(),
            0 <= k <= text.len(),
            pen == pen_column(left_of(font@, all, i as int, k)),
            sheet(width, height, bytes@).wf(),
            shows_before(sheet(width, height, bytes@), font@, all, tall, i as int, k),
            sound_before(font@, all, tall, wide, i as int, k),
        decreases line.fragments.len() - f,
    {
        let fragment = &line.fragments[f];
        let color = fragment.color;
        let ghost base = k;
        proof {
            assert(spans[f as int] == fragment@);
            lemma_text_of_take(spans, f as int);
            lemma_text_of_take(spans, f + 1);
        }
        for ch in it: fragment.text.as_str().chars()
            invariant
                it.seq() == fragment.text@,
                k == base + it.index(),
                0 <= k <= text.len(),
                pen == pen_column(left_of(font@, all, i as int, k)),
                sheet(width, height, bytes@).wf(),
                shows_before(sheet(width, height, bytes@), font@, all, tall, i as int, k),
                sound_before(font@, all, tall, wide, i as int, k),
        {
            proof {
                lemma_span_cell(spans, f as int, it.index() as int);
                assert(is_cell(all, i as int, k));
                assert(text[k] == ch);
                lemma_left_of_next(font@, all, i as int, k);
            }
            match font.glyph(ch) {
                None => {
                    assert(cell_fault(font@, all, tall, wide, i as int, k) == Some(
                        RenderError::GlyphNotFound(ch),
                    ));
                    return Err(RenderError::GlyphNotFound(ch));
                },
                Some(glyph) => {
                    let columns = glyph.width();
                    let rows = glyph.height();
                    assert(glyph@ == glyph_at(font@, all, i as int, k));
                    let ghost shown = sheet(width, height, bytes@);
                    if columns > 0 && rows > 0 {
                        if pen + columns as u64 > width as u64 || rows > line_height {
                            assert(cell_fault(font@, all, tall, wide, i as int, k) == Some(
                                RenderError::PixelOutOfBounds,
                            ));
                            return Err(RenderError::PixelOutOfBounds);
                        }
                        let left: u32 = pen as u32;
                        let top: u32 = band_top + (line_height - rows);
                        assert(left == left_of(font@, all, i as int, k));
                        assert(top == top_of(font@, all, tall, i as int, k));
                        draw(bytes, width, height, glyph, left, top, color);
                    }
                    proof {
                        assert(cell_fault(font@, all, tall, wide, i as int, k) is None);
                        lemma_cell_drawn(
                            shown,
                            sheet(width, height, bytes@),
                            font@,
                            all,
                            tall,
                            wide,
                            i as int,
                            k,
                        );
                        k = k + 1;
                    }
                    pen = pen + columns as u64 + 1;
                    if pen > FAR_RIGHT {
                        pen = FAR_RIGHT;
                    }
                },
            }
        }
        f = f + 1;
    }
    proof {
        assert(spans.take(f as int) =~= spans);
        lemma_line_drawn(sheet(width, height, bytes@), font@, all, tall, wide, i as int);
    }
    Ok(())
}

/// Draws the lines into a new canvas `max_line_width` pixels wide, each line into a
/// band of its own, `line_height` pixels tall, and each glyph with its foot on the
/// bottom row of its band.
///
/// Fails where `line_height` is 0, where a canvas cannot have that size, and then at
/// the first glyph that the font lacks or that has a pixel outside the canvas or
/// above its band.
#[verifier::loop_isolation(false)]
pub fn rasterize(lines: &Vec<Line>, line_height: u32, max_line_width: u32, font: &Font) -> (result:
    Result<Canvas, RenderError>)
    ensures
        rasters_to(
            font@,
            lines_of(lines@),
            line_height as nat,
            max_line_width as nat,
            canvas_view(result),
        ),
{
    let ghost all = lines_of(lines@);
    let ghost tall = line_height as nat;
    let ghost wide = max_line_width as nat;
    if line_height == 0 {
        return Err(RenderError::DegenerateLayout);
    }
    let count = lines.len();
    if count > MAX_CANVAS_BYTES {
        proof {
            lemma_too_many_rows(wide, count as nat, tall);
        }
        return Err(RenderError::SurfaceAllocation);
    }
    proof {
        lemma_product_fits(count as u32, line_height);
    }
    let rows: u64 = (count as u64) * (line_height as u64);
    if rows > u32::MAX as u64 {
        proof {
            lemma_too_many_rows(wide, rows as nat, 1);
        }
        return Err(RenderError::SurfaceAllocation);
    }
    let height: u32 = rows as u32;
    let mut bytes = match blank(max_line_width, height) {
        Ok(bytes) => bytes,
        Err(error) => {
            return Err(error);
        },
    };
    proof {
        lemma_blank_shows(sheet(max_line_width, height, bytes@), font@, all, tall, wide);
    }
    let mut i: usize = 0;
    while i < count
        invariant
            0 <= i <= count,
            sheet(max_line_width, height, bytes@).wf(),
            shows_before(sheet(max_line_width, height, bytes@), font@, all, tall, i as int, 0),
            sound_before(font@, all, tall, wide, i as int, 0),
        decreases count - i,
    {
        match draw_line(&mut bytes, max_line_width, height, lines, i, line_height, font) {
            Ok(()) => {},
            Err(error) => {
                return Err(error);
            },
        }
        i = i + 1;
    }
    proof {
        lemma_all_drawn(sheet(max_line_width, height, bytes@), font@, all, tall, wide);
    }
    Ok(Canvas::seal(max_line_width, height, bytes))
}

/// The model of what the compositor hands out.
pub open spec fn canvas_view(result: Result<Canvas, RenderError>) -> Result<CanvasView, RenderError> {
    match result {
        Ok(canvas) => Ok(canvas@),
        Err(error) => Err(error),
    }
}

/// A canvas with more rows than it may hold bytes cannot be held, however wide.
proof fn lemma_too_many_rows(width: nat, count: nat, line_height: nat)
    requires
        count > MAX_CANVAS_BYTES,
        line_height > 0,
    ensures
        !can_hold(width, count * line_height),
{
    if width > 0 {
        assert(4 * (width * (count * line_height)) >= count) by (nonlinear_arith)
            requires
                width >= 1,
                line_height >= 1,
                count >= 0,
        ;
    }
}

} // verus!
