//! The layout engine: wraps runs of text into lines.

use vstd::prelude::*;
use crate::error::RenderError;
use crate::font::Font;
use crate::style::{runs_of, Color, Span, Text};
use crate::wrap::{
    colors_of, first_unknown, joined_colors, joined_text, knows, layout_of, place_runs, tallest,
    text_of, LayoutView, LineView, Pen,
};
use crate::wrap_laws::{
    lemma_layout_height, lemma_layout_keeps_colors, lemma_layout_keeps_text,
    lemma_layout_lines_sound, lemma_text_of_take, line_sound,
};

verus! {

/// `String::push` of the standard library appends the character to the end of the
/// string and leaves the rest of it as it was.
pub assume_specification[ String::push ](s: &mut String, ch: char)
    ensures
        final(s)@ == old(s)@.push(ch),
;

/// What one line has of one run: a piece of that run's text, in the run's color.
#[derive(Debug)]
pub struct Fragment {
    pub text: String,
    pub color: Color,
}

impl View for Fragment {
    type V = Span;

    open spec fn view(&self) -> Span {
        Span { text: self.text@, color: self.color }
    }
}

/// The models of a sequence of fragments, in order.
pub open spec fn spans_of(fragments: Seq<Fragment>) -> Seq<Span> {
    fragments.map_values(|f: Fragment| f@)
}

/// One line of a layout: its fragments from left to right, and its width in pixels.
#[derive(Debug)]
pub struct Line {
    pub fragments: Vec<Fragment>,
    pub total_width: u64,
}

impl View for Line {
    type V = LineView;

    open spec fn view(&self) -> LineView {
        LineView { fragments: spans_of(self.fragments@), total_width: self.total_width as nat }
    }
}

/// The models of a sequence of lines, in order.
pub open spec fn lines_of(lines: Seq<Line>) -> Seq<LineView> {
    lines.map_values(|l: Line| l@)
}

/// The lines of a text and the height that each of them takes: that of the tallest
/// glyph of the whole text.
#[derive(Debug)]
pub struct Layout {
    pub lines: Vec<Line>,
    pub line_height: u32,
}

impl View for Layout {
    type V = LayoutView;

    open spec fn view(&self) -> LayoutView {
        LayoutView { lines: lines_of(self.lines@), line_height: self.line_height as nat }
    }
}

/// The state of the pass in the layout engine, as a pen of the model.
spec fn pen_of(
    lines: Seq<Line>,
    fragments: Seq<Fragment>,
    text: Seq<char>,
    width: u64,
    height: u32,
) -> Pen {
    Pen {
        lines: lines_of(lines),
        fragments: spans_of(fragments),
        text,
        width: width as nat,
        height: height as nat,
    }
}

/// Wraps the runs into lines of at most `max_line_width` pixels, greedily and one
/// character at a time, and finds the height of the tallest glyph.
///
/// Fails on the first character for which the font has no glyph.
#[verifier::loop_isolation(false)]
pub fn layout(texts: &Vec<Text>, max_line_width: u32, font: &Font) -> (result: Result<
    Layout,
    RenderError,
>)
    ensures
        result is Ok <==> knows(font@, text_of(runs_of(texts@))),
        result matches Ok(laid) ==> {
            &&& laid@ == layout_of(font@, runs_of(texts@), max_line_width as nat)
            &&& joined_text(laid@.lines) == text_of(runs_of(texts@))
            &&& joined_colors(laid@.lines) == colors_of(runs_of(texts@))
            &&& laid@.line_height == tallest(font@, text_of(runs_of(texts@)))
            &&& laid@.lines.len() >= 1
            &&& forall|i: int|
                0 <= i < laid@.lines.len() ==> line_sound(
                    font@,
                    #[trigger] laid@.lines[i],
                    max_line_width as nat,
                )
        },
        result matches Err(error) ==> {
            &&& error matches RenderError::GlyphNotFound(ch)
            &&& first_unknown(font@, text_of(runs_of(texts@)), ch)
        },
{
    let ghost runs = runs_of(texts@);
    let ghost max_width = max_line_width as nat;
    let mut lines: Vec<Line> = Vec::new();
    let mut fragments: Vec<Fragment> = Vec::new();
    let mut text = String::new();
    let mut width: u64 = 0;
    let mut height: u32 = 0;
    let mut r: usize = 0;
    proof {
        assert(runs.take(0) =~= Seq::<Span>::empty());
        assert(lines_of(lines@) =~= Seq::<LineView>::empty());
        assert(spans_of(fragments@) =~= Seq::<Span>::empty());
        assert(text@ =~= Seq::<char>::empty());
    }
    while r < texts.len()
        invariant
            0 <= r <= texts.len(),
            pen_of(lines@, fragments@, text@, width, height) == place_runs(
                font@,
                runs.take(r as int),
                max_width,
            ),
            knows(font@, text_of(runs.take(r as int))),
            width <= 0x1_0000_0000,
        decreases texts.len() - r,
    {
        let run = &texts[r];
        let color = run.1;
        let ghost before = place_runs(font@, runs.take(r as int), max_width);
        let ghost done = text_of(runs.take(r as int));
        proof {
            lemma_text_of_take(runs, r as int);
            lemma_text_of_take(runs, r + 1);
            assert(runs[r as int] == run@);
            assert(run.0@.take(0) =~= Seq::<char>::empty());
            assert(done + run.0@.take(0) =~= done);
        }
        for ch in it: run.0.as_str().chars()
            invariant
                it.seq() == run.0@,
                pen_of(lines@, fragments@, text@, width, height) == before.place_text(
                    font@,
                    run.0@.take(it.index() as int),
                    color,
                    max_width,
                ),
                knows(font@, done + run.0@.take(it.index() as int)),
                width <= 0x1_0000_0000,
        {
            let ghost seen = run.0@.take(it.index() as int);
            let ghost pen = pen_of(lines@, fragments@, text@, width, height);
            proof {
                assert(run.0@.take(it.index() + 1).drop_last() =~= seen);
                assert(run.0@.take(it.index() + 1).last() == ch);
            }
            match font.glyph(ch) {
                None => {
                    proof {
                        let all = text_of(runs);
                        let at = done.len() + it.index();
                        assert(all.take(done.len() as int) == done);
                        assert(all.take((done + run.0@).len() as int) == done + run.0@);
                        assert(all[at] == (done + run.0@)[at]);
                        assert(all.take(at) =~= done + seen);
                    }
                    return Err(RenderError::GlyphNotFound(ch));
                },
                Some(glyph) => {
                    let advance: u64 = glyph.width() as u64 + 1;
                    let tall = glyph.height();
                    if width + advance > max_line_width as u64 && width > 0 {
                        if !text.as_str().is_empty() {
                            proof {
                                lemma_spans_of_push(fragments@, Fragment { text, color });
                            }
                            fragments.push(Fragment { text, color });
                        }
                        proof {
                            lemma_lines_of_push(lines@, Line { fragments, total_width: width });
                        }
                        lines.push(Line { fragments, total_width: width });
                        fragments = Vec::new();
                        text = String::new();
                        width = 0;
                        proof {
                            assert(spans_of(fragments@) =~= Seq::<Span>::empty());
                            assert(pen_of(lines@, fragments@, text@, width, height) == pen.wrap(
                                color,
                            ));
                        }
                    }
                    text.push(ch);
                    width = width + advance;
                    if tall > height {
                        height = tall;
                    }
                    proof {
                        assert(pen_of(lines@, fragments@, text@, width, height) == pen.place(
                            ch,
                            font@[ch],
                            color,
                            max_width,
                        ));
                        assert(done + run.0@.take(it.index() + 1) =~= (done + seen).push(ch));
                    }
                },
            }
        }
        proof {
            assert(run.0@.take(run.0@.len() as int) =~= run.0@);
            assert(runs[r as int] == run@);
            assert(runs.take(r + 1).drop_last() =~= runs.take(r as int));
            lemma_spans_of_push(fragments@, Fragment { text, color });
        }
        fragments.push(Fragment { text, color });
        text = String::new();
        r = r + 1;
    }
    proof {
        assert(runs.take(r as int) =~= runs);
        lemma_lines_of_push(lines@, Line { fragments, total_width: width });
        lemma_layout_keeps_text(font@, runs, max_width);
        lemma_layout_keeps_colors(font@, runs, max_width);
        lemma_layout_height(font@, runs, max_width);
        lemma_layout_lines_sound(font@, runs, max_width);
    }
    lines.push(Line { fragments, total_width: width });
    Ok(Layout { lines, line_height: height })
}

/// The models of fragments follow the fragments one by one.
proof fn lemma_spans_of_push(fragments: Seq<Fragment>, fragment: Fragment)
    ensures
        spans_of(fragments.push(fragment)) == spans_of(fragments).push(fragment@),
{
    assert(spans_of(fragments.push(fragment)) =~= spans_of(fragments).push(fragment@));
}

/// The models of lines follow the lines one by one.
proof fn lemma_lines_of_push(lines: Seq<Line>, line: Line)
    ensures
        lines_of(lines.push(line)) == lines_of(lines).push(line@),
{
    assert(lines_of(lines.push(line)) =~= lines_of(lines).push(line@));
}

} // verus!
