//! What holds of every layout that the wrapping pass produces.

use vstd::prelude::*;
use crate::glyph::GlyphView;
use crate::style::{Color, Span};
use crate::wrap::{
    advance_sum, colors_of, joined_colors, joined_text, layout_of, place_runs, tallest, text_of,
    LineView, Pen,
};

verus! {

/// Appending a span appends its text.
pub proof fn lemma_text_of_push(spans: Seq<Span>, span: Span)
    ensures
        text_of(spans.push(span)) == text_of(spans) + span.text,
{
    assert(spans.push(span).drop_last() =~= spans);
}

/// Appending a span appends its color once for each of its characters.
pub proof fn lemma_colors_of_push(spans: Seq<Span>, span: Span)
    ensures
        colors_of(spans.push(span)) == colors_of(spans) + Seq::new(
            span.text.len(),
            |i: int| span.color,
        ),
{
    assert(spans.push(span).drop_last() =~= spans);
}

/// Appending a line appends the colors of its fragments.
pub proof fn lemma_joined_colors_push(lines: Seq<LineView>, line: LineView)
    ensures
        joined_colors(lines.push(line)) == joined_colors(lines) + colors_of(line.fragments),
{
    assert(lines.push(line).drop_last() =~= lines);
}

/// There is one color for each character.
pub proof fn lemma_colors_of_len(spans: Seq<Span>)
    ensures
        colors_of(spans).len() == text_of(spans).len(),
    decreases spans.len(),
{
    if spans.len() > 0 {
        lemma_colors_of_len(spans.drop_last());
    }
}

/// Appending a line appends the text of its fragments.
pub proof fn lemma_joined_text_push(lines: Seq<LineView>, line: LineView)
    ensures
        joined_text(lines.push(line)) == joined_text(lines) + text_of(line.fragments),
{
    assert(lines.push(line).drop_last() =~= lines);
}

/// One more glyph makes a line wider by that glyph's advance.
pub proof fn lemma_advance_sum_push(font: Map<char, GlyphView>, text: Seq<char>, ch: char)
    ensures
        advance_sum(font, text.push(ch)) == advance_sum(font, text) + font[ch].advance(),
{
    assert(text.push(ch).drop_last() =~= text);
}

/// Every glyph makes a line wider by a pixel at least.
pub proof fn lemma_advance_sum_lower(font: Map<char, GlyphView>, text: Seq<char>)
    ensures
        advance_sum(font, text) >= text.len(),
    decreases text.len(),
{
    if text.len() > 0 {
        lemma_advance_sum_lower(font, text.drop_last());
    }
}

/// The width of a line grows with each glyph: a prefix of a text is no wider than
/// the text.
pub proof fn lemma_advance_sum_prefix(font: Map<char, GlyphView>, text: Seq<char>, k: int)
    requires
        0 <= k <= text.len(),
    ensures
        advance_sum(font, text.take(k)) <= advance_sum(font, text),
    decreases text.len() - k,
{
    if k == text.len() {
        assert(text.take(k) =~= text);
    } else {
        lemma_advance_sum_prefix(font, text, k + 1);
        assert(text.take(k + 1).drop_last() =~= text.take(k));
    }
}

/// One more glyph raises the tallest height to its own, if it is taller.
pub proof fn lemma_tallest_push(font: Map<char, GlyphView>, text: Seq<char>, ch: char)
    ensures
        tallest(font, text.push(ch)) == if font[ch].height > tallest(font, text) {
            font[ch].height
        } else {
            tallest(font, text)
        },
{
    assert(text.push(ch).drop_last() =~= text);
}

/// No glyph of a text is taller than the tallest, and a text that is not empty has a
/// glyph of that height.
pub proof fn lemma_tallest_is_max(font: Map<char, GlyphView>, text: Seq<char>)
    ensures
        forall|i: int| 0 <= i < text.len() ==> font[#[trigger] text[i]].height <= tallest(font, text),
        text.len() > 0 ==> exists|i: int|
            0 <= i < text.len() && font[#[trigger] text[i]].height == tallest(font, text),
        text.len() == 0 ==> tallest(font, text) == 0,
    decreases text.len(),
{
    if text.len() > 0 {
        let front = text.drop_last();
        lemma_tallest_is_max(font, front);
        assert forall|i: int| 0 <= i < text.len() implies font[#[trigger] text[i]].height
            <= tallest(font, text) by {
            if i < front.len() {
                assert(front[i] == text[i]);
            }
        }
        if font[text.last()].height > tallest(font, front) || front.len() == 0 {
            assert(font[text[text.len() - 1]].height == tallest(font, text));
        } else {
            let i = choose|i: int|
                0 <= i < front.len() && font[#[trigger] front[i]].height == tallest(font, front);
            assert(font[text[i]].height == tallest(font, text));
        }
    }
}

/// The text of the first `r` of the spans is the beginning of the text of them all.
pub proof fn lemma_text_of_take(spans: Seq<Span>, r: int)
    requires
        0 <= r <= spans.len(),
    ensures
        text_of(spans.take(r)).len() <= text_of(spans).len(),
        text_of(spans).take(text_of(spans.take(r)).len() as int) == text_of(spans.take(r)),
        r < spans.len() ==> text_of(spans.take(r + 1)) == text_of(spans.take(r)) + spans[r].text,
    decreases spans.len() - r,
{
    if r == spans.len() {
        assert(spans.take(r) =~= spans);
        assert(text_of(spans).take(text_of(spans).len() as int) =~= text_of(spans));
    } else {
        lemma_text_of_take(spans, r + 1);
        assert(spans.take(r + 1).drop_last() =~= spans.take(r));
        let front = text_of(spans.take(r));
        let more = text_of(spans.take(r + 1));
        assert(more == front + spans[r].text);
        assert(text_of(spans).take(front.len() as int) =~= more.take(front.len() as int));
        assert(more.take(front.len() as int) =~= front);
    }
}

/// The colors of the first `r` of the spans are the beginning of the colors of
/// them all.
pub proof fn lemma_colors_of_take(spans: Seq<Span>, r: int)
    requires
        0 <= r <= spans.len(),
    ensures
        colors_of(spans.take(r)).len() <= colors_of(spans).len(),
        colors_of(spans).take(colors_of(spans.take(r)).len() as int) == colors_of(spans.take(r)),
        r < spans.len() ==> colors_of(spans.take(r + 1)) == colors_of(spans.take(r)) + Seq::new(
            spans[r].text.len(),
            |i: int| spans[r].color,
        ),
    decreases spans.len() - r,
{
    if r == spans.len() {
        assert(spans.take(r) =~= spans);
        assert(colors_of(spans).take(colors_of(spans).len() as int) =~= colors_of(spans));
    } else {
        lemma_colors_of_take(spans, r + 1);
        assert(spans.take(r + 1).drop_last() =~= spans.take(r));
        let front = colors_of(spans.take(r));
        let more = colors_of(spans.take(r + 1));
        assert(colors_of(spans).take(front.len() as int) =~= more.take(front.len() as int));
        assert(more.take(front.len() as int) =~= front);
    }
}

/// Character `j` of span `f` is a character of the spans' text, and has the span's
/// color: the one that comes after the text of the spans before it and after `j`
/// more characters.
pub proof fn lemma_span_cell(spans: Seq<Span>, f: int, j: int)
    requires
        0 <= f < spans.len(),
        0 <= j < spans[f].text.len(),
    ensures
        ({
            let k = text_of(spans.take(f)).len() + j;
            &&& k < text_of(spans).len()
            &&& text_of(spans)[k] == spans[f].text[j]
            &&& colors_of(spans)[k] == spans[f].color
        }),
{
    let k = text_of(spans.take(f)).len() + j;
    lemma_text_of_take(spans, f);
    lemma_text_of_take(spans, f + 1);
    lemma_colors_of_take(spans, f);
    lemma_colors_of_take(spans, f + 1);
    lemma_colors_of_len(spans.take(f));
    lemma_colors_of_len(spans.take(f + 1));
    lemma_colors_of_len(spans);
    let texts = text_of(spans.take(f + 1));
    let colors = colors_of(spans.take(f + 1));
    assert(text_of(spans).take(texts.len() as int)[k] == texts[k]);
    assert(colors_of(spans).take(colors.len() as int)[k] == colors[k]);
}

/// What holds of a line of a layout: its width is the sum of the advances of its
/// glyphs, and it is no wider than allowed unless it holds a single glyph.
pub open spec fn line_sound(font: Map<char, GlyphView>, line: LineView, max_width: nat) -> bool {
    let text = text_of(line.fragments);
    &&& line.total_width == advance_sum(font, text)
    &&& (line.total_width <= max_width || text.len() == 1)
}

/// What holds of the pen after the characters `placed`: no character is lost or out
/// of order, the widths and the height are those of the glyphs, and every line is
/// sound.
pub open spec fn pen_sound(
    pen: Pen,
    font: Map<char, GlyphView>,
    placed: Seq<char>,
    max_width: nat,
) -> bool {
    let open = text_of(pen.fragments) + pen.text;
    &&& joined_text(pen.lines) + open == placed
    &&& pen.width == advance_sum(font, open)
    &&& (pen.width <= max_width || open.len() == 1)
    &&& pen.height == tallest(font, placed)
    &&& forall|i: int|
        0 <= i < pen.lines.len() ==> line_sound(font, #[trigger] pen.lines[i], max_width)
}

/// Placing a character keeps the pen sound.
pub proof fn lemma_place_sound(
    pen: Pen,
    font: Map<char, GlyphView>,
    placed: Seq<char>,
    max_width: nat,
    ch: char,
    color: Color,
)
    requires
        pen_sound(pen, font, placed, max_width),
    ensures
        pen_sound(pen.place(ch, font[ch], color, max_width), font, placed.push(ch), max_width),
{
    let glyph = font[ch];
    let open = text_of(pen.fragments) + pen.text;
    let next = pen.place(ch, glyph, color, max_width);
    let next_open = text_of(next.fragments) + next.text;
    lemma_tallest_push(font, placed, ch);
    if pen.must_wrap(glyph, max_width) {
        let closed = pen.wrap(color).lines.last();
        if pen.text.len() > 0 {
            lemma_text_of_push(pen.fragments, Span { text: pen.text, color });
        } else {
            assert(open =~= text_of(pen.fragments));
        }
        assert(text_of(closed.fragments) == open);
        lemma_joined_text_push(pen.lines, closed);
        assert(next_open =~= Seq::<char>::empty().push(ch));
        lemma_advance_sum_push(font, Seq::<char>::empty(), ch);
        assert(joined_text(next.lines) + next_open =~= placed.push(ch));
        assert(line_sound(font, closed, max_width));
        assert forall|i: int| 0 <= i < next.lines.len() implies line_sound(
            font,
            #[trigger] next.lines[i],
            max_width,
        ) by {
            if i < pen.lines.len() {
                assert(next.lines[i] == pen.lines[i]);
            }
        }
    } else {
        assert(next_open =~= open.push(ch));
        lemma_advance_sum_push(font, open, ch);
        lemma_advance_sum_lower(font, open);
        assert(joined_text(next.lines) + next_open =~= placed.push(ch));
    }
}

/// Placing the characters of a text keeps the pen sound.
pub proof fn lemma_place_text_sound(
    pen: Pen,
    font: Map<char, GlyphView>,
    placed: Seq<char>,
    max_width: nat,
    text: Seq<char>,
    color: Color,
)
    requires
        pen_sound(pen, font, placed, max_width),
    ensures
        pen_sound(pen.place_text(font, text, color, max_width), font, placed + text, max_width),
    decreases text.len(),
{
    if text.len() == 0 {
        assert(placed + text =~= placed);
    } else {
        lemma_place_text_sound(pen, font, placed, max_width, text.drop_last(), color);
        lemma_place_sound(
            pen.place_text(font, text.drop_last(), color, max_width),
            font,
            placed + text.drop_last(),
            max_width,
            text.last(),
            color,
        );
        assert((placed + text.drop_last()).push(text.last()) =~= placed + text);
    }
}

/// Ending a run keeps the pen sound.
pub proof fn lemma_end_run_sound(
    pen: Pen,
    font: Map<char, GlyphView>,
    placed: Seq<char>,
    max_width: nat,
    color: Color,
)
    requires
        pen_sound(pen, font, placed, max_width),
    ensures
        pen_sound(pen.end_run(color), font, placed, max_width),
{
    let next = pen.end_run(color);
    lemma_text_of_push(pen.fragments, Span { text: pen.text, color });
    assert(text_of(next.fragments) + next.text =~= text_of(pen.fragments) + pen.text);
}

/// The pen is sound after any runs.
pub proof fn lemma_place_runs_sound(font: Map<char, GlyphView>, runs: Seq<Span>, max_width: nat)
    ensures
        pen_sound(place_runs(font, runs, max_width), font, text_of(runs), max_width),
        place_runs(font, runs, max_width).text.len() == 0,
    decreases runs.len(),
{
    if runs.len() == 0 {
        let pen = Pen::start();
        assert(joined_text(pen.lines) + (text_of(pen.fragments) + pen.text) =~= text_of(runs));
    } else {
        let run = runs.last();
        let before = place_runs(font, runs.drop_last(), max_width);
        lemma_place_runs_sound(font, runs.drop_last(), max_width);
        lemma_place_text_sound(
            before,
            font,
            text_of(runs.drop_last()),
            max_width,
            run.text,
            run.color,
        );
        lemma_end_run_sound(
            before.place_text(font, run.text, run.color, max_width),
            font,
            text_of(runs),
            max_width,
            run.color,
        );
    }
}

/// Every line of a layout is sound.
pub proof fn lemma_layout_lines_sound(font: Map<char, GlyphView>, runs: Seq<Span>, max_width: nat)
    ensures
        forall|i: int|
            0 <= i < layout_of(font, runs, max_width).lines.len() ==> line_sound(
                font,
                #[trigger] layout_of(font, runs, max_width).lines[i],
                max_width,
            ),
{
    let pen = place_runs(font, runs, max_width);
    let lines = layout_of(font, runs, max_width).lines;
    lemma_place_runs_sound(font, runs, max_width);
    assert(text_of(pen.fragments) + pen.text =~= text_of(pen.fragments));
    assert forall|i: int| 0 <= i < lines.len() implies line_sound(
        font,
        #[trigger] lines[i],
        max_width,
    ) by {
        if i < pen.lines.len() {
            assert(lines[i] == pen.lines[i]);
        }
    }
}

/// A layout has a line at least: the last one, which may be empty.
pub proof fn lemma_layout_has_lines(font: Map<char, GlyphView>, runs: Seq<Span>, max_width: nat)
    ensures
        layout_of(font, runs, max_width).lines.len() >= 1,
{
}

/// Order is kept: the fragments of all lines, read in order, give the text of the
/// runs.
pub proof fn lemma_layout_keeps_text(font: Map<char, GlyphView>, runs: Seq<Span>, max_width: nat)
    ensures
        joined_text(layout_of(font, runs, max_width).lines) == text_of(runs),
{
    let pen = place_runs(font, runs, max_width);
    lemma_place_runs_sound(font, runs, max_width);
    assert(text_of(pen.fragments) + pen.text =~= text_of(pen.fragments));
    lemma_joined_text_push(
        pen.lines,
        LineView { fragments: pen.fragments, total_width: pen.width },
    );
}

/// No character is lost and none is added: the fragments of all lines hold as many
/// characters as the runs.
pub proof fn lemma_layout_keeps_count(font: Map<char, GlyphView>, runs: Seq<Span>, max_width: nat)
    ensures
        joined_text(layout_of(font, runs, max_width).lines).len() == text_of(runs).len(),
{
    lemma_layout_keeps_text(font, runs, max_width);
}

/// A line is no wider than allowed, unless it holds a single glyph, which is then
/// the whole of its width.
pub proof fn lemma_layout_width_bound(
    font: Map<char, GlyphView>,
    runs: Seq<Span>,
    max_width: nat,
    i: int,
)
    requires
        0 <= i < layout_of(font, runs, max_width).lines.len(),
    ensures
        ({
            let line = layout_of(font, runs, max_width).lines[i];
            let text = text_of(line.fragments);
            line.total_width <= max_width || (text.len() == 1 && line.total_width
                == font[text[0]].advance())
        }),
{
    lemma_layout_lines_sound(font, runs, max_width);
    let line = layout_of(font, runs, max_width).lines[i];
    let text = text_of(line.fragments);
    assert(line_sound(font, line, max_width));
    if text.len() == 1 {
        assert(text.drop_last() =~= Seq::<char>::empty());
        assert(advance_sum(font, text.drop_last()) == 0);
    }
}

/// The line height is the height of the tallest glyph of the runs' text: no glyph
/// of it is taller, one of them is that tall, and it is 0 where there is no text.
pub proof fn lemma_layout_height(font: Map<char, GlyphView>, runs: Seq<Span>, max_width: nat)
    ensures
        ({
            let text = text_of(runs);
            let height = layout_of(font, runs, max_width).line_height;
            &&& height == tallest(font, text)
            &&& forall|i: int| 0 <= i < text.len() ==> font[#[trigger] text[i]].height <= height
            &&& text.len() > 0 ==> exists|i: int|
                0 <= i < text.len() && font[#[trigger] text[i]].height == height
            &&& text.len() == 0 ==> height == 0
        }),
{
    lemma_place_runs_sound(font, runs, max_width);
    lemma_tallest_is_max(font, text_of(runs));
}

/// Whether the line was closed because it had to be: it holds a glyph, and the
/// first glyph of the text that follows did not fit behind it.
pub open spec fn break_forced(
    font: Map<char, GlyphView>,
    line: LineView,
    next: Seq<char>,
    max_width: nat,
) -> bool {
    &&& text_of(line.fragments).len() > 0
    &&& next.len() > 0
    &&& line.total_width + font[next[0]].advance() > max_width
}

/// Whether every line that the pen has closed had to be closed.
pub open spec fn pen_greedy(pen: Pen, font: Map<char, GlyphView>, max_width: nat) -> bool {
    &&& forall|i: int|
        0 <= i < pen.lines.len() - 1 ==> break_forced(
            font,
            #[trigger] pen.lines[i],
            text_of(pen.lines[i + 1].fragments),
            max_width,
        )
    &&& pen.lines.len() > 0 ==> break_forced(
        font,
        pen.lines.last(),
        text_of(pen.fragments) + pen.text,
        max_width,
    )
}

/// Placing a character closes a line only if it has to.
pub proof fn lemma_place_greedy(
    pen: Pen,
    font: Map<char, GlyphView>,
    placed: Seq<char>,
    max_width: nat,
    ch: char,
    color: Color,
)
    requires
        pen_sound(pen, font, placed, max_width),
        pen_greedy(pen, font, max_width),
    ensures
        pen_greedy(pen.place(ch, font[ch], color, max_width), font, max_width),
{
    let glyph = font[ch];
    let open = text_of(pen.fragments) + pen.text;
    let next = pen.place(ch, glyph, color, max_width);
    let next_open = text_of(next.fragments) + next.text;
    if pen.must_wrap(glyph, max_width) {
        let closed = pen.wrap(color).lines.last();
        if pen.text.len() > 0 {
            lemma_text_of_push(pen.fragments, Span { text: pen.text, color });
        } else {
            assert(open =~= text_of(pen.fragments));
        }
        assert(text_of(closed.fragments) == open);
        assert(next_open =~= Seq::<char>::empty().push(ch));
        assert(next.lines.last() == closed);
        assert forall|i: int| 0 <= i < next.lines.len() - 1 implies break_forced(
            font,
            #[trigger] next.lines[i],
            text_of(next.lines[i + 1].fragments),
            max_width,
        ) by {
            if i < pen.lines.len() - 1 {
                assert(next.lines[i] == pen.lines[i]);
                assert(next.lines[i + 1] == pen.lines[i + 1]);
            } else {
                assert(next.lines[i] == pen.lines.last());
                assert(next.lines[i + 1] == closed);
            }
        }
    } else {
        assert(next_open =~= open.push(ch));
        if pen.lines.len() > 0 {
            assert(next_open[0] == open[0]);
        }
    }
}

/// Placing the characters of a text closes a line only if it has to.
pub proof fn lemma_place_text_greedy(
    pen: Pen,
    font: Map<char, GlyphView>,
    placed: Seq<char>,
    max_width: nat,
    text: Seq<char>,
    color: Color,
)
    requires
        pen_sound(pen, font, placed, max_width),
        pen_greedy(pen, font, max_width),
    ensures
        pen_greedy(pen.place_text(font, text, color, max_width), font, max_width),
    decreases text.len(),
{
    if text.len() > 0 {
        lemma_place_text_greedy(pen, font, placed, max_width, text.drop_last(), color);
        lemma_place_text_sound(pen, font, placed, max_width, text.drop_last(), color);
        lemma_place_greedy(
            pen.place_text(font, text.drop_last(), color, max_width),
            font,
            placed + text.drop_last(),
            max_width,
            text.last(),
            color,
        );
    }
}

/// After any runs, every line that the pen has closed had to be closed.
pub proof fn lemma_place_runs_greedy(font: Map<char, GlyphView>, runs: Seq<Span>, max_width: nat)
    ensures
        pen_greedy(place_runs(font, runs, max_width), font, max_width),
    decreases runs.len(),
{
    if runs.len() > 0 {
        let run = runs.last();
        let before = place_runs(font, runs.drop_last(), max_width);
        let placed = before.place_text(font, run.text, run.color, max_width);
        lemma_place_runs_greedy(font, runs.drop_last(), max_width);
        lemma_place_runs_sound(font, runs.drop_last(), max_width);
        lemma_place_text_greedy(
            before,
            font,
            text_of(runs.drop_last()),
            max_width,
            run.text,
            run.color,
        );
        lemma_text_of_push(placed.fragments, Span { text: placed.text, color: run.color });
        assert(text_of(placed.end_run(run.color).fragments) + placed.end_run(run.color).text
            =~= text_of(placed.fragments) + placed.text);
    }
}

/// Whether the colors of what the pen holds are `tint`, where the run that is
/// being placed has the given color.
pub open spec fn pen_tinted(pen: Pen, tint: Seq<Color>, color: Color) -> bool {
    joined_colors(pen.lines) + (colors_of(pen.fragments) + Seq::new(
        pen.text.len(),
        |i: int| color,
    )) == tint
}

/// A placed character has the color of its run.
pub proof fn lemma_place_tinted(
    pen: Pen,
    glyph: GlyphView,
    tint: Seq<Color>,
    max_width: nat,
    ch: char,
    color: Color,
)
    requires
        pen_tinted(pen, tint, color),
    ensures
        pen_tinted(pen.place(ch, glyph, color, max_width), tint.push(color), color),
{
    let next = pen.place(ch, glyph, color, max_width);
    let open = colors_of(pen.fragments) + Seq::new(pen.text.len(), |i: int| color);
    let next_open = colors_of(next.fragments) + Seq::new(next.text.len(), |i: int| color);
    if pen.must_wrap(glyph, max_width) {
        let closed = pen.wrap(color).lines.last();
        if pen.text.len() > 0 {
            lemma_colors_of_push(pen.fragments, Span { text: pen.text, color });
        } else {
            assert(open =~= colors_of(pen.fragments));
        }
        assert(colors_of(closed.fragments) == open);
        lemma_joined_colors_push(pen.lines, closed);
        assert(next_open =~= Seq::<Color>::empty().push(color));
        assert(joined_colors(next.lines) + next_open =~= tint.push(color));
    } else {
        assert(next_open =~= open.push(color));
        assert(joined_colors(next.lines) + next_open =~= tint.push(color));
    }
}

/// The placed characters of a text have the color of their run.
pub proof fn lemma_place_text_tinted(
    pen: Pen,
    font: Map<char, GlyphView>,
    tint: Seq<Color>,
    max_width: nat,
    text: Seq<char>,
    color: Color,
)
    requires
        pen_tinted(pen, tint, color),
    ensures
        pen_tinted(
            pen.place_text(font, text, color, max_width),
            tint + Seq::new(text.len(), |i: int| color),
            color,
        ),
    decreases text.len(),
{
    if text.len() == 0 {
        assert(tint + Seq::new(text.len(), |i: int| color) =~= tint);
    } else {
        let front = text.drop_last();
        lemma_place_text_tinted(pen, font, tint, max_width, front, color);
        lemma_place_tinted(
            pen.place_text(font, front, color, max_width),
            font[text.last()],
            tint + Seq::new(front.len(), |i: int| color),
            max_width,
            text.last(),
            color,
        );
        assert((tint + Seq::new(front.len(), |i: int| color)).push(color) =~= tint + Seq::new(
            text.len(),
            |i: int| color,
        ));
    }
}

/// After any runs, what the pen holds has the colors of the runs.
pub proof fn lemma_place_runs_tinted(
    font: Map<char, GlyphView>,
    runs: Seq<Span>,
    max_width: nat,
    color: Color,
)
    ensures
        pen_tinted(place_runs(font, runs, max_width), colors_of(runs), color),
    decreases runs.len(),
{
    if runs.len() == 0 {
        let pen = Pen::start();
        assert(joined_colors(pen.lines) + (colors_of(pen.fragments) + Seq::new(
            pen.text.len(),
            |i: int| color,
        )) =~= colors_of(runs));
    } else {
        let run = runs.last();
        let before = place_runs(font, runs.drop_last(), max_width);
        let placed = before.place_text(font, run.text, run.color, max_width);
        let ended = placed.end_run(run.color);
        lemma_place_runs_tinted(font, runs.drop_last(), max_width, run.color);
        lemma_place_text_tinted(
            before,
            font,
            colors_of(runs.drop_last()),
            max_width,
            run.text,
            run.color,
        );
        lemma_colors_of_push(placed.fragments, Span { text: placed.text, color: run.color });
        assert(colors_of(ended.fragments) + Seq::new(ended.text.len(), |i: int| color)
            =~= colors_of(placed.fragments) + Seq::new(placed.text.len(), |i: int| run.color));
    }
}

/// Colors are kept: every character of the layout has the color of the run it
/// came from.
pub proof fn lemma_layout_keeps_colors(font: Map<char, GlyphView>, runs: Seq<Span>, max_width: nat)
    ensures
        joined_colors(layout_of(font, runs, max_width).lines) == colors_of(runs),
{
    let pen = place_runs(font, runs, max_width);
    let color = Color::RGB(0, 0, 0);
    lemma_place_runs_tinted(font, runs, max_width, color);
    lemma_place_runs_sound(font, runs, max_width);
    assert(colors_of(pen.fragments) + Seq::new(pen.text.len(), |i: int| color) =~= colors_of(
        pen.fragments,
    ));
    lemma_joined_colors_push(
        pen.lines,
        LineView { fragments: pen.fragments, total_width: pen.width },
    );
}

/// The wrapping is greedy: every line but the last holds a glyph, and the first
/// glyph of the line that follows did not fit behind it.
pub proof fn lemma_layout_greedy(
    font: Map<char, GlyphView>,
    runs: Seq<Span>,
    max_width: nat,
    i: int,
)
    requires
        0 <= i < layout_of(font, runs, max_width).lines.len() - 1,
    ensures
        break_forced(
            font,
            layout_of(font, runs, max_width).lines[i],
            text_of(layout_of(font, runs, max_width).lines[i + 1].fragments),
            max_width,
        ),
{
    let pen = place_runs(font, runs, max_width);
    let lines = layout_of(font, runs, max_width).lines;
    lemma_place_runs_greedy(font, runs, max_width);
    lemma_place_runs_sound(font, runs, max_width);
    assert(text_of(pen.fragments) + pen.text =~= text_of(pen.fragments));
    if i < pen.lines.len() - 1 {
        assert(lines[i] == pen.lines[i]);
        assert(lines[i + 1] == pen.lines[i + 1]);
    } else {
        assert(lines[i] == pen.lines.last());
    }
}

} // verus!
