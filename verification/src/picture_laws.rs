//! Why a canvas that is drawn cell after cell shows the layout in the end.

use vstd::prelude::*;
use crate::canvas::{CanvasView, Rgba};
use crate::glyph::{lemma_bit_index_in_range, GlyphView};
use crate::picture::{
    before, cell_fault, cell_ink, glyph_at, in_cell, inked, inked_before, is_cell, left_of, shows,
    shows_before, sound, sound_before,
};
use crate::wrap::{text_of, LineView};
use crate::wrap_laws::{lemma_advance_sum_prefix, lemma_advance_sum_push};

verus! {

/// The band of line `j` ends where the band of a later line begins, or before.
pub proof fn lemma_bands_in_order(line_height: nat, j: int, i: int)
    requires
        0 <= j < i,
    ensures
        0 <= j * line_height,
        (j + 1) * line_height <= i * line_height,
        (j + 1) * line_height == j * line_height + line_height,
{
    assert(0 <= j * line_height) by (nonlinear_arith)
        requires
            0 <= j,
            0 <= line_height,
    ;
    assert((j + 1) * line_height <= i * line_height) by (nonlinear_arith)
        requires
            j + 1 <= i,
            0 <= line_height,
    ;
    assert((j + 1) * line_height == j * line_height + line_height) by (nonlinear_arith);
}

/// The next cell of a line begins one advance to the right.
pub proof fn lemma_left_of_next(font: Map<char, GlyphView>, lines: Seq<LineView>, i: int, k: int)
    requires
        is_cell(lines, i, k),
    ensures
        left_of(font, lines, i, k + 1) == left_of(font, lines, i, k) + glyph_at(
            font,
            lines,
            i,
            k,
        ).advance(),
{
    let text = text_of(lines[i].fragments);
    assert(text.take(k + 1) =~= text.take(k).push(text[k]));
    lemma_advance_sum_push(font, text.take(k), text[k]);
}

/// A later cell of a line begins further to the right.
pub proof fn lemma_left_of_grows(
    font: Map<char, GlyphView>,
    lines: Seq<LineView>,
    i: int,
    m: int,
    k: int,
)
    requires
        0 <= i < lines.len(),
        0 <= m <= k <= text_of(lines[i].fragments).len(),
    ensures
        left_of(font, lines, i, m) <= left_of(font, lines, i, k),
{
    let text = text_of(lines[i].fragments);
    lemma_advance_sum_prefix(font, text.take(k), m);
    assert(text.take(k).take(m) =~= text.take(m));
}

/// A cell with which nothing is wrong lies within the canvas and within the band of
/// its line.
pub proof fn lemma_cell_within(
    font: Map<char, GlyphView>,
    lines: Seq<LineView>,
    line_height: nat,
    width: nat,
    i: int,
    k: int,
    x: int,
    y: int,
)
    requires
        is_cell(lines, i, k),
        cell_fault(font, lines, line_height, width, i, k) is None,
        in_cell(font, lines, line_height, i, k, x, y),
    ensures
        0 <= x < width,
        i * line_height <= y < (i + 1) * line_height,
        0 <= y < lines.len() * line_height,
{
    if i + 1 < lines.len() {
        lemma_bands_in_order(line_height, i, lines.len() as int);
    }
    if 0 < i {
        lemma_bands_in_order(line_height, 0, i);
    }
    assert((i + 1) * line_height == i * line_height + line_height) by (nonlinear_arith);
}

/// Two cells with which nothing is wrong have no pixel in common.
pub proof fn lemma_cells_apart(
    font: Map<char, GlyphView>,
    lines: Seq<LineView>,
    line_height: nat,
    width: nat,
    j: int,
    m: int,
    i: int,
    k: int,
    x: int,
    y: int,
)
    requires
        is_cell(lines, j, m),
        is_cell(lines, i, k),
        before(j, m, i, k),
        cell_fault(font, lines, line_height, width, j, m) is None,
        cell_fault(font, lines, line_height, width, i, k) is None,
        in_cell(font, lines, line_height, j, m, x, y),
    ensures
        !in_cell(font, lines, line_height, i, k, x, y),
{
    if in_cell(font, lines, line_height, i, k, x, y) {
        lemma_cell_within(font, lines, line_height, width, j, m, x, y);
        lemma_cell_within(font, lines, line_height, width, i, k, x, y);
        if j < i {
            lemma_bands_in_order(line_height, j, i);
        } else {
            lemma_left_of_next(font, lines, i, m);
            lemma_left_of_grows(font, lines, i, m + 1, k);
        }
    }
}

/// A canvas of transparent black shows the cells before the first one: none.
pub proof fn lemma_blank_shows(
    canvas: CanvasView,
    font: Map<char, GlyphView>,
    lines: Seq<LineView>,
    line_height: nat,
    width: nat,
)
    requires
        canvas.wf(),
        canvas.bytes == Seq::new(canvas.bytes.len(), |i: int| 0u8),
    ensures
        shows_before(canvas, font, lines, line_height, 0, 0),
        sound_before(font, lines, line_height, width, 0, 0),
{
    assert forall|x: int, y: int| canvas.contains(x, y) implies #[trigger] canvas.pixel(x, y)
        == Rgba::clear() by {
        lemma_bit_index_in_range(canvas.width as int, canvas.height as int, x, y);
    }
}

/// Drawing cell `(i, k)` into a canvas that shows the cells before it gives a
/// canvas that shows the cells before the next one.
pub proof fn lemma_cell_drawn(
    old_canvas: CanvasView,
    canvas: CanvasView,
    font: Map<char, GlyphView>,
    lines: Seq<LineView>,
    line_height: nat,
    width: nat,
    i: int,
    k: int,
)
    requires
        is_cell(lines, i, k),
        old_canvas.width == width,
        old_canvas.height == lines.len() * line_height,
        canvas.width == width,
        canvas.height == old_canvas.height,
        shows_before(old_canvas, font, lines, line_height, i, k),
        sound_before(font, lines, line_height, width, i, k),
        cell_fault(font, lines, line_height, width, i, k) is None,
        forall|x: int, y: int| #[trigger]
            in_cell(font, lines, line_height, i, k, x, y) ==> canvas.pixel(x, y) == cell_ink(
                font,
                lines,
                line_height,
                i,
                k,
                x,
                y,
            ),
        forall|x: int, y: int|
            old_canvas.contains(x, y) && !in_cell(font, lines, line_height, i, k, x, y)
                ==> #[trigger] canvas.pixel(x, y) == old_canvas.pixel(x, y),
    ensures
        shows_before(canvas, font, lines, line_height, i, k + 1),
        sound_before(font, lines, line_height, width, i, k + 1),
{
    assert forall|j: int, m: int, x: int, y: int|
        is_cell(lines, j, m) && before(j, m, i, k + 1) && #[trigger] in_cell(
            font,
            lines,
            line_height,
            j,
            m,
            x,
            y,
        ) implies canvas.pixel(x, y) == cell_ink(font, lines, line_height, j, m, x, y) by {
        if before(j, m, i, k) {
            assert(cell_fault(font, lines, line_height, width, j, m) is None);
            lemma_cells_apart(font, lines, line_height, width, j, m, i, k, x, y);
            lemma_cell_within(font, lines, line_height, width, j, m, x, y);
            assert(old_canvas.contains(x, y));
        }
    }
    assert forall|x: int, y: int|
        canvas.contains(x, y) && !inked_before(
            font,
            lines,
            line_height,
            i,
            k + 1,
            x,
            y,
        ) implies #[trigger] canvas.pixel(x, y) == Rgba::clear() by {
        assert(!in_cell(font, lines, line_height, i, k, x, y));
        assert(!inked_before(font, lines, line_height, i, k, x, y)) by {
            if inked_before(font, lines, line_height, i, k, x, y) {
                let (j, m) = choose|j: int, m: int|
                    is_cell(lines, j, m) && before(j, m, i, k) && #[trigger] in_cell(
                        font,
                        lines,
                        line_height,
                        j,
                        m,
                        x,
                        y,
                    );
                assert(before(j, m, i, k + 1));
            }
        }
        assert(old_canvas.contains(x, y));
    }
    assert forall|j: int, m: int| is_cell(lines, j, m) && before(j, m, i, k + 1) implies (
    #[trigger] cell_fault(font, lines, line_height, width, j, m)) is None by {
        if !before(j, m, i, k) {
            assert(j == i && m == k);
        }
    }
}

/// A canvas that shows all cells of line `i` and of the lines above shows the cells
/// before the first one of the next line.
pub proof fn lemma_line_drawn(
    canvas: CanvasView,
    font: Map<char, GlyphView>,
    lines: Seq<LineView>,
    line_height: nat,
    width: nat,
    i: int,
)
    requires
        0 <= i < lines.len(),
        shows_before(
            canvas,
            font,
            lines,
            line_height,
            i,
            text_of(lines[i].fragments).len() as int,
        ),
        sound_before(
            font,
            lines,
            line_height,
            width,
            i,
            text_of(lines[i].fragments).len() as int,
        ),
    ensures
        shows_before(canvas, font, lines, line_height, i + 1, 0),
        sound_before(font, lines, line_height, width, i + 1, 0),
{
    let end = text_of(lines[i].fragments).len() as int;
    assert forall|j: int, m: int, x: int, y: int|
        is_cell(lines, j, m) && before(j, m, i + 1, 0) && #[trigger] in_cell(
            font,
            lines,
            line_height,
            j,
            m,
            x,
            y,
        ) implies canvas.pixel(x, y) == cell_ink(font, lines, line_height, j, m, x, y) by {
        assert(before(j, m, i, end));
    }
    assert forall|x: int, y: int|
        canvas.contains(x, y) && !inked_before(
            font,
            lines,
            line_height,
            i + 1,
            0,
            x,
            y,
        ) implies #[trigger] canvas.pixel(x, y) == Rgba::clear() by {
        if inked_before(font, lines, line_height, i, end, x, y) {
            let (j, m) = choose|j: int, m: int|
                is_cell(lines, j, m) && before(j, m, i, end) && #[trigger] in_cell(
                    font,
                    lines,
                    line_height,
                    j,
                    m,
                    x,
                    y,
                );
            assert(before(j, m, i + 1, 0));
        }
    }
    assert forall|j: int, m: int| is_cell(lines, j, m) && before(j, m, i + 1, 0) implies (
    #[trigger] cell_fault(font, lines, line_height, width, j, m)) is None by {
        assert(before(j, m, i, end));
    }
}

/// A canvas that shows the cells of all lines shows the layout.
pub proof fn lemma_all_drawn(
    canvas: CanvasView,
    font: Map<char, GlyphView>,
    lines: Seq<LineView>,
    line_height: nat,
    width: nat,
)
    requires
        canvas.wf(),
        canvas.width == width,
        canvas.height == lines.len() * line_height,
        shows_before(canvas, font, lines, line_height, lines.len() as int, 0),
        sound_before(font, lines, line_height, width, lines.len() as int, 0),
    ensures
        shows(canvas, font, lines, line_height, width),
        sound(font, lines, line_height, width),
{
    let n = lines.len() as int;
    assert forall|i: int, k: int, x: int, y: int|
        is_cell(lines, i, k) && #[trigger] in_cell(
            font,
            lines,
            line_height,
            i,
            k,
            x,
            y,
        ) implies canvas.pixel(x, y) == cell_ink(font, lines, line_height, i, k, x, y) by {
        assert(before(i, k, n, 0));
    }
    assert forall|x: int, y: int|
        canvas.contains(x, y) && !inked(font, lines, line_height, x, y) implies #[trigger] canvas.pixel(
        x,
        y,
    ) == Rgba::clear() by {
        if inked_before(font, lines, line_height, n, 0, x, y) {
            let (j, m) = choose|j: int, m: int|
                is_cell(lines, j, m) && before(j, m, n, 0) && #[trigger] in_cell(
                    font,
                    lines,
                    line_height,
                    j,
                    m,
                    x,
                    y,
                );
            assert(is_cell(lines, j, m) && in_cell(font, lines, line_height, j, m, x, y));
        }
    }
    assert forall|i: int, k: int| is_cell(lines, i, k) implies (#[trigger] cell_fault(
        font,
        lines,
        line_height,
        width,
        i,
        k,
    )) is None by {
        assert(before(i, k, n, 0));
    }
}

} // verus!
