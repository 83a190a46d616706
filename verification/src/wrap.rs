//! The greedy wrapping of text into lines, as a mathematical model.
//!
//! The pass takes the runs in order and each run's characters in order. It keeps a
//! [`Pen`]: the lines closed so far and the line that is still open. A character that
//! would make the open line wider than allowed closes that line first, unless the
//! line holds no glyph yet: a glyph that is too wide for any line stands alone on
//! one. No character is ever dropped.

use vstd::prelude::*;
use crate::glyph::GlyphView;
use crate::style::{Color, Span};

verus! {

/// A line as a mathematical value: its fragments from left to right, and its width
/// in pixels, which counts one pixel of spacing after each glyph, the last one too.
pub struct LineView {
    pub fragments: Seq<Span>,
    pub total_width: nat,
}

/// A finished layout as a mathematical value.
pub struct LayoutView {
    pub lines: Seq<LineView>,
    pub line_height: nat,
}

/// The texts of the spans, one after the other.
pub open spec fn text_of(spans: Seq<Span>) -> Seq<char>
    decreases spans.len(),
{
    if spans.len() == 0 {
        Seq::empty()
    } else {
        text_of(spans.drop_last()) + spans.last().text
    }
}

/// For each character of `text_of(spans)`, the color of the span it belongs to.
pub open spec fn colors_of(spans: Seq<Span>) -> Seq<Color>
    decreases spans.len(),
{
    if spans.len() == 0 {
        Seq::empty()
    } else {
        colors_of(spans.drop_last()) + Seq::new(
            spans.last().text.len(),
            |i: int| spans.last().color,
        )
    }
}

/// The texts of all fragments of all lines, one after the other.
pub open spec fn joined_text(lines: Seq<LineView>) -> Seq<char>
    decreases lines.len(),
{
    if lines.len() == 0 {
        Seq::empty()
    } else {
        joined_text(lines.drop_last()) + text_of(lines.last().fragments)
    }
}

/// For each character of `joined_text(lines)`, the color of the fragment it belongs
/// to.
pub open spec fn joined_colors(lines: Seq<LineView>) -> Seq<Color>
    decreases lines.len(),
{
    if lines.len() == 0 {
        Seq::empty()
    } else {
        joined_colors(lines.drop_last()) + colors_of(lines.last().fragments)
    }
}

/// Whether the font has a glyph for every character of the text.
pub open spec fn knows(font: Map<char, GlyphView>, text: Seq<char>) -> bool {
    forall|i: int| 0 <= i < text.len() ==> font.contains_key(#[trigger] text[i])
}

/// Whether `ch` is the first character of the text for which the font has no glyph.
pub open spec fn first_unknown(font: Map<char, GlyphView>, text: Seq<char>, ch: char) -> bool {
    exists|i: int|
        0 <= i < text.len() && #[trigger] text[i] == ch && !font.contains_key(ch) && knows(
            font,
            text.take(i),
        )
}

/// The width of a line that holds the glyphs of `text`: the sum of their advances.
pub open spec fn advance_sum(font: Map<char, GlyphView>, text: Seq<char>) -> nat
    decreases text.len(),
{
    if text.len() == 0 {
        0
    } else {
        advance_sum(font, text.drop_last()) + font[text.last()].advance()
    }
}

/// The height of the tallest glyph of `text`, and 0 for the empty text.
pub open spec fn tallest(font: Map<char, GlyphView>, text: Seq<char>) -> nat
    decreases text.len(),
{
    if text.len() == 0 {
        0
    } else {
        let rest = tallest(font, text.drop_last());
        let height = font[text.last()].height;
        if height > rest {
            height
        } else {
            rest
        }
    }
}

/// The state of the wrapping pass.
pub struct Pen {
    /// The lines that are closed.
    pub lines: Seq<LineView>,
    /// The fragments that the open line has from the runs that are over.
    pub fragments: Seq<Span>,
    /// What the open line has of the run that is being placed.
    pub text: Seq<char>,
    /// The width of the open line.
    pub width: nat,
    /// The height of the tallest glyph placed so far.
    pub height: nat,
}

impl Pen {
    /// The pen before the first character: no closed line, an empty open line.
    pub open spec fn start() -> Pen {
        Pen { lines: Seq::empty(), fragments: Seq::empty(), text: Seq::empty(), width: 0, height: 0 }
    }

    /// Whether the glyph has to go to a new line: it does not fit the open line, and
    /// that line holds a glyph already.
    pub open spec fn must_wrap(self, glyph: GlyphView, max_width: nat) -> bool {
        self.width + glyph.advance() > max_width && self.width > 0
    }

    /// Closes the open line in the middle of a run of the given color. What the line
    /// has of that run becomes its last fragment, if it has anything of it.
    pub open spec fn wrap(self, color: Color) -> Pen {
        let fragments = if self.text.len() > 0 {
            self.fragments.push(Span { text: self.text, color })
        } else {
            self.fragments
        };
        Pen {
            lines: self.lines.push(LineView { fragments, total_width: self.width }),
            fragments: Seq::empty(),
            text: Seq::empty(),
            width: 0,
            height: self.height,
        }
    }

    /// Places one character of a run of the given color.
    pub open spec fn place(self, ch: char, glyph: GlyphView, color: Color, max_width: nat) -> Pen {
        let pen = if self.must_wrap(glyph, max_width) {
            self.wrap(color)
        } else {
            self
        };
        Pen {
            lines: pen.lines,
            fragments: pen.fragments,
            text: pen.text.push(ch),
            width: pen.width + glyph.advance(),
            height: if glyph.height > pen.height {
                glyph.height
            } else {
                pen.height
            },
        }
    }

    /// Places the characters of `text`, which belong to a run of the given color.
    pub open spec fn place_text(
        self,
        font: Map<char, GlyphView>,
        text: Seq<char>,
        color: Color,
        max_width: nat,
    ) -> Pen
        decreases text.len(),
    {
        if text.len() == 0 {
            self
        } else {
            self.place_text(font, text.drop_last(), color, max_width).place(
                text.last(),
                font[text.last()],
                color,
                max_width,
            )
        }
    }

    /// Ends a run of the given color. What the open line has of the run becomes a
    /// fragment, an empty one if it has nothing of it; the line stays open.
    pub open spec fn end_run(self, color: Color) -> Pen {
        Pen {
            lines: self.lines,
            fragments: self.fragments.push(Span { text: self.text, color }),
            text: Seq::empty(),
            width: self.width,
            height: self.height,
        }
    }

    /// Places a whole run.
    pub open spec fn place_run(self, font: Map<char, GlyphView>, run: Span, max_width: nat) -> Pen {
        self.place_text(font, run.text, run.color, max_width).end_run(run.color)
    }

    /// Closes the last line, whatever it holds, and hands out the layout.
    pub open spec fn finish(self) -> LayoutView {
        LayoutView {
            lines: self.lines.push(
                LineView { fragments: self.fragments, total_width: self.width },
            ),
            line_height: self.height,
        }
    }
}

/// The pen after the given runs.
pub open spec fn place_runs(font: Map<char, GlyphView>, runs: Seq<Span>, max_width: nat) -> Pen
    decreases runs.len(),
{
    if runs.len() == 0 {
        Pen::start()
    } else {
        place_runs(font, runs.drop_last(), max_width).place_run(font, runs.last(), max_width)
    }
}

/// The layout of the given runs in lines of at most `max_width` pixels.
pub open spec fn layout_of(font: Map<char, GlyphView>, runs: Seq<Span>, max_width: nat) -> LayoutView {
    place_runs(font, runs, max_width).finish()
}

} // verus!
