//! Colors and styled runs of text.

use vstd::prelude::*;

verus! {

/// The color of a run of text. Opacity is no part of it: a pixel is opaque where
/// the glyph covers it and transparent elsewhere.
#[derive(Debug, Clone, Copy, PartialEq, Eq, Structural)]
pub enum Color {
    /// Red, green and blue, eight bits each.
    RGB(u8, u8, u8),
}

impl Color {
    /// The red channel.
    pub open spec fn red(self) -> u8 {
        match self {
            Color::RGB(r, _, _) => r,
        }
    }

    /// The green channel.
    pub open spec fn green(self) -> u8 {
        match self {
            Color::RGB(_, g, _) => g,
        }
    }

    /// The blue channel.
    pub open spec fn blue(self) -> u8 {
        match self {
            Color::RGB(_, _, b) => b,
        }
    }

    /// The three channels in the order red, green, blue.
    pub fn channels(&self) -> (rgb: (u8, u8, u8))
        ensures
            rgb == (self.red(), self.green(), self.blue()),
    {
        match *self {
            Color::RGB(r, g, b) => (r, g, b),
        }
    }
}

/// A piece of text in one color, as a mathematical value: the model of a [`Text`]
/// and of a fragment of a line.
pub struct Span {
    pub text: Seq<char>,
    pub color: Color,
}

/// A run of text and the color it is drawn in.
#[derive(Debug)]
pub struct Text(pub String, pub Color);

impl View for Text {
    type V = Span;

    open spec fn view(&self) -> Span {
        Span { text: self.0@, color: self.1 }
    }
}

/// The models of a sequence of runs, in order.
pub open spec fn runs_of(texts: Seq<Text>) -> Seq<Span> {
    texts.map_values(|t: Text| t@)
}

} // verus!
