//! What holds of every canvas that shows a layout, and of rendering as a whole.

use vstd::prelude::*;
use vstd::arithmetic::div_mod::{lemma_fundamental_div_mod, lemma_mod_pos_bound};
use crate::canvas::{can_hold, CanvasView, Rgba};
use crate::error::RenderError;
use crate::glyph::GlyphView;
use crate::picture::{
    cell_fault, cell_ink, first_fault, glyph_at, in_cell, inked, is_cell, left_of, rasters_to,
    shows, sound, top_of,
};
use crate::picture_laws::{lemma_cell_within, lemma_left_of_grows, lemma_left_of_next};
use crate::render::{oversized, renders_to};
use crate::style::Span;
use crate::wrap::{
    colors_of, first_unknown, joined_text, knows, layout_of, tallest, text_of, LineView,
};
use crate::wrap_laws::{
    lemma_layout_height, lemma_layout_keeps_text, lemma_layout_lines_sound, line_sound,
};

verus! {

/// Every character of a line is a character of the joined text of the lines.
pub proof fn lemma_cell_in_joined_text(lines: Seq<LineView>, i: int, k: int) -> (p: int)
    requires
        is_cell(lines, i, k),
    ensures
        0 <= p < joined_text(lines).len(),
        joined_text(lines)[p] == text_of(lines[i].fragments)[k],
    decreases lines.len(),
{
    let front = lines.drop_last();
    if i == lines.len() - 1 {
        joined_text(front).len() + k
    } else {
        assert(front[i] == lines[i]);
        lemma_cell_in_joined_text(front, i, k)
    }
}

/// Every character of the joined text of the lines is a character of a line.
pub proof fn lemma_joined_text_in_cell(lines: Seq<LineView>, p: int) -> (cell: (int, int))
    requires
        0 <= p < joined_text(lines).len(),
    ensures
        is_cell(lines, cell.0, cell.1),
        text_of(lines[cell.0].fragments)[cell.1] == joined_text(lines)[p],
    decreases lines.len(),
{
    let front = lines.drop_last();
    if p < joined_text(front).len() {
        let cell = lemma_joined_text_in_cell(front, p);
        assert(front[cell.0] == lines[cell.0]);
        cell
    } else {
        (lines.len() - 1, p - joined_text(front).len())
    }
}

/// In a sound line, a glyph with pixels reaches past the canvas only if it is wider
/// than the canvas, and then it does.
pub proof fn lemma_sound_line_cell(
    font: Map<char, GlyphView>,
    lines: Seq<LineView>,
    width: nat,
    i: int,
    k: int,
)
    requires
        is_cell(lines, i, k),
        line_sound(font, lines[i], width),
    ensures
        left_of(font, lines, i, k) + glyph_at(font, lines, i, k).width > width <==> glyph_at(
            font,
            lines,
            i,
            k,
        ).width > width,
{
    let text = text_of(lines[i].fragments);
    lemma_left_of_next(font, lines, i, k);
    lemma_left_of_grows(font, lines, i, k + 1, text.len() as int);
    lemma_left_of_grows(font, lines, i, 0, k);
    assert(text.take(text.len() as int) =~= text);
    assert(text.take(0) =~= Seq::<char>::empty());
}

/// Of the layout of a text that the font knows, the compositor refuses exactly
/// those with a glyph that has pixels and is wider than the canvas, and for no
/// other reason than that.
pub proof fn lemma_layout_faults(font: Map<char, GlyphView>, runs: Seq<Span>, width: nat)
    requires
        knows(font, text_of(runs)),
    ensures
        ({
            let layout = layout_of(font, runs, width);
            &&& sound(font, layout.lines, layout.line_height, width) <==> !oversized(
                font,
                text_of(runs),
                width,
            )
            &&& forall|error: RenderError|
                first_fault(font, layout.lines, layout.line_height, width, error) ==> error
                    == RenderError::PixelOutOfBounds
        }),
{
    let text = text_of(runs);
    let layout = layout_of(font, runs, width);
    let lines = layout.lines;
    let tall = layout.line_height;
    lemma_layout_keeps_text(font, runs, width);
    lemma_layout_height(font, runs, width);
    lemma_layout_lines_sound(font, runs, width);
    assert forall|i: int, k: int| is_cell(lines, i, k) implies ({
        let fault = #[trigger] cell_fault(font, lines, tall, width, i, k);
        let glyph = glyph_at(font, lines, i, k);
        &&& fault is None || fault == Some(RenderError::PixelOutOfBounds)
        &&& fault is Some <==> glyph.has_area() && glyph.width > width
        &&& fault is Some ==> oversized(font, text, width)
    }) by {
        let p = lemma_cell_in_joined_text(lines, i, k);
        assert(font.contains_key(text[p]));
        assert(font[text[p]].height <= tall);
        assert(line_sound(font, lines[i], width));
        lemma_sound_line_cell(font, lines, width, i, k);
    }
    if oversized(font, text, width) {
        let p = choose|p: int|
            0 <= p < text.len() && font[#[trigger] text[p]].has_area() && font[text[p]].width
                > width;
        let cell = lemma_joined_text_in_cell(lines, p);
        assert(cell_fault(font, lines, tall, width, cell.0, cell.1) is Some);
    }
    assert forall|error: RenderError|
        first_fault(font, lines, tall, width, error) implies error
        == RenderError::PixelOutOfBounds by {
        let (i, k) = choose|i: int, k: int|
            is_cell(lines, i, k) && (#[trigger] cell_fault(font, lines, tall, width, i, k)) == Some(
                error,
            );
    }
}

/// Drawing the layout of the runs is rendering them.
pub proof fn lemma_raster_of_layout_renders(
    font: Map<char, GlyphView>,
    runs: Seq<Span>,
    width: nat,
    result: Result<CanvasView, RenderError>,
)
    requires
        knows(font, text_of(runs)),
        rasters_to(
            font,
            layout_of(font, runs, width).lines,
            layout_of(font, runs, width).line_height,
            width,
            result,
        ),
    ensures
        renders_to(font, runs, width, result),
{
    lemma_layout_faults(font, runs, width);
}

/// Only one character is the first without a glyph.
pub proof fn lemma_first_unknown_unique(
    font: Map<char, GlyphView>,
    text: Seq<char>,
    a: char,
    b: char,
)
    requires
        first_unknown(font, text, a),
        first_unknown(font, text, b),
    ensures
        a == b,
{
    let i = choose|i: int|
        0 <= i < text.len() && #[trigger] text[i] == a && !font.contains_key(a) && knows(
            font,
            text.take(i),
        );
    let j = choose|j: int|
        0 <= j < text.len() && #[trigger] text[j] == b && !font.contains_key(b) && knows(
            font,
            text.take(j),
        );
    if i < j {
        assert(text.take(j)[i] == text[i]);
    } else if j < i {
        assert(text.take(i)[j] == text[j]);
    }
}

/// Every byte of a canvas belongs to one of its pixels.
pub proof fn lemma_byte_of_pixel(canvas: CanvasView, at: int) -> (place: (int, int))
    requires
        canvas.wf(),
        0 <= at < canvas.bytes.len(),
    ensures
        canvas.contains(place.0, place.1),
        canvas.offset(place.0, place.1) <= at < canvas.offset(place.0, place.1) + 4,
{
    let wide = canvas.width as int;
    let q = at / 4;
    let x = q % wide;
    let y = q / wide;
    lemma_fundamental_div_mod(q, wide);
    lemma_mod_pos_bound(q, wide);
    assert(0 <= y < canvas.height) by (nonlinear_arith)
        requires
            q == wide * y + x,
            0 <= x < wide,
            0 <= q < wide * canvas.height,
    ;
    assert(wide * y == y * wide) by (nonlinear_arith);
    (x, y)
}

/// Two canvases of one size with the same pixels are the same canvas.
pub proof fn lemma_same_pixels(a: CanvasView, b: CanvasView)
    requires
        a.wf(),
        b.wf(),
        a.width == b.width,
        a.height == b.height,
        forall|x: int, y: int| a.contains(x, y) ==> #[trigger] a.pixel(x, y) == b.pixel(x, y),
    ensures
        a == b,
{
    assert forall|at: int| 0 <= at < a.bytes.len() implies a.bytes[at] == b.bytes[at] by {
        let place = lemma_byte_of_pixel(a, at);
        assert(a.pixel(place.0, place.1) == b.pixel(place.0, place.1));
    }
    assert(a.bytes =~= b.bytes);
}

/// Only one canvas shows a layout.
pub proof fn lemma_shows_unique(
    a: CanvasView,
    b: CanvasView,
    font: Map<char, GlyphView>,
    lines: Seq<LineView>,
    line_height: nat,
    width: nat,
)
    requires
        shows(a, font, lines, line_height, width),
        shows(b, font, lines, line_height, width),
    ensures
        a == b,
{
    assert forall|x: int, y: int| a.contains(x, y) implies #[trigger] a.pixel(x, y) == b.pixel(
        x,
        y,
    ) by {
        if inked(font, lines, line_height, x, y) {
            let (i, k) = choose|i: int, k: int|
                is_cell(lines, i, k) && #[trigger] in_cell(font, lines, line_height, i, k, x, y);
            assert(a.pixel(x, y) == cell_ink(font, lines, line_height, i, k, x, y));
            assert(b.pixel(x, y) == cell_ink(font, lines, line_height, i, k, x, y));
        } else {
            assert(b.contains(x, y));
        }
    }
    lemma_same_pixels(a, b);
}

/// Rendering is a function of its inputs: two results of rendering the same runs
/// with the same font into a canvas of the same width are the same, byte for byte.
pub proof fn lemma_render_deterministic(
    font: Map<char, GlyphView>,
    runs: Seq<Span>,
    width: nat,
    first: Result<CanvasView, RenderError>,
    second: Result<CanvasView, RenderError>,
)
    requires
        renders_to(font, runs, width, first),
        renders_to(font, runs, width, second),
    ensures
        first == second,
{
    let text = text_of(runs);
    let layout = layout_of(font, runs, width);
    if !knows(font, text) {
        lemma_first_unknown_unique(
            font,
            text,
            first->Err_0->GlyphNotFound_0,
            second->Err_0->GlyphNotFound_0,
        );
    } else if layout.line_height > 0 && can_hold(width, layout.lines.len() * layout.line_height)
        && !oversized(font, text, width) {
        lemma_shows_unique(
            first->Ok_0,
            second->Ok_0,
            font,
            layout.lines,
            layout.line_height,
            width,
        );
    }
}

/// Where a canvas shows a layout, a glyph that covers all of its pixels leaves its
/// rectangle opaque and in the color of its fragment, and a glyph that covers none
/// of them leaves its rectangle transparent.
pub proof fn lemma_solid_and_empty_glyphs(
    canvas: CanvasView,
    font: Map<char, GlyphView>,
    lines: Seq<LineView>,
    line_height: nat,
    width: nat,
    i: int,
    k: int,
)
    requires
        shows(canvas, font, lines, line_height, width),
        is_cell(lines, i, k),
    ensures
        ({
            let glyph = glyph_at(font, lines, i, k);
            let color = colors_of(lines[i].fragments)[k];
            &&& (forall|u: int, v: int|
                0 <= u < glyph.width && 0 <= v < glyph.height ==> #[trigger] glyph.covered(u, v))
                ==> forall|x: int, y: int| #[trigger]
                in_cell(font, lines, line_height, i, k, x, y) ==> canvas.pixel(x, y) == (Rgba {
                    red: color.red(),
                    green: color.green(),
                    blue: color.blue(),
                    alpha: 255,
                })
            &&& (forall|u: int, v: int|
                0 <= u < glyph.width && 0 <= v < glyph.height ==> !#[trigger] glyph.covered(u, v))
                ==> forall|x: int, y: int| #[trigger]
                in_cell(font, lines, line_height, i, k, x, y) ==> canvas.pixel(x, y).alpha == 0
        }),
{
    let glyph = glyph_at(font, lines, i, k);
    let left = left_of(font, lines, i, k);
    let top = top_of(font, lines, line_height, i, k);
    assert forall|x: int, y: int| #[trigger]
        in_cell(font, lines, line_height, i, k, x, y) implies canvas.pixel(x, y) == cell_ink(
        font,
        lines,
        line_height,
        i,
        k,
        x,
        y,
    ) && 0 <= x - left < glyph.width && 0 <= y - top < glyph.height by {}
}

/// Where rendering gives a canvas, the canvas has one band for each line of the
/// layout, each as tall as the tallest glyph of the text, and every glyph lies
/// within the band of its line.
pub proof fn lemma_render_uniform_height(
    font: Map<char, GlyphView>,
    runs: Seq<Span>,
    width: nat,
    canvas: CanvasView,
)
    requires
        renders_to(font, runs, width, Ok(canvas)),
    ensures
        ({
            let layout = layout_of(font, runs, width);
            &&& layout.line_height == tallest(font, text_of(runs))
            &&& canvas.height == layout.lines.len() * layout.line_height
            &&& forall|i: int, k: int, x: int, y: int|
                is_cell(layout.lines, i, k) && #[trigger] in_cell(
                    font,
                    layout.lines,
                    layout.line_height,
                    i,
                    k,
                    x,
                    y,
                ) ==> i * layout.line_height <= y < (i + 1) * layout.line_height
        }),
{
    let layout = layout_of(font, runs, width);
    lemma_layout_height(font, runs, width);
    lemma_layout_faults(font, runs, width);
    assert forall|i: int, k: int, x: int, y: int|
        is_cell(layout.lines, i, k) && #[trigger] in_cell(
            font,
            layout.lines,
            layout.line_height,
            i,
            k,
            x,
            y,
        ) implies i * layout.line_height <= y < (i + 1) * layout.line_height by {
        assert(cell_fault(font, layout.lines, layout.line_height, width, i, k) is None);
        lemma_cell_within(font, layout.lines, layout.line_height, width, i, k, x, y);
    }
}

} // verus!
