//! Fonts: a table from characters to glyphs.

use std::collections::HashMap;
use vstd::prelude::*;
use crate::glyph::{Glyph, GlyphView};

verus! {

broadcast use vstd::std_specs::hash::group_hash_axioms;

/// Two characters with the same code are the same character.
proof fn lemma_code_injective(a: char, b: char)
    requires
        a as u32 == b as u32,
    ensures
        a == b,
{
}

/// A table of glyphs, looked up by character. As a mathematical value it is a map
/// from the characters it knows to their glyphs.
pub struct Font {
    glyphs: HashMap<u32, Glyph>,
}

impl View for Font {
    type V = Map<char, GlyphView>;

    closed spec fn view(&self) -> Map<char, GlyphView> {
        Map::new(
            |ch: char| self.glyphs@.contains_key(ch as u32),
            |ch: char| self.glyphs@[ch as u32]@,
        )
    }
}

impl Font {
    /// A font without glyphs.
    pub fn new() -> (font: Font)
        ensures
            font@ == Map::<char, GlyphView>::empty(),
    {
        let font = Font { glyphs: HashMap::new() };
        assert(font@ =~= Map::<char, GlyphView>::empty());
        font
    }

    /// Gives the character `ch` the glyph `glyph`, in place of the one it had, if any.
    pub fn insert(&mut self, ch: char, glyph: Glyph)
        ensures
            final(self)@ == old(self)@.insert(ch, glyph@),
    {
        self.glyphs.insert(ch as u32, glyph);
        proof {
            let target = old(self)@.insert(ch, glyph@);
            assert forall|c: char| #[trigger] self@.contains_key(c) == target.contains_key(c) by {
                if c as u32 == ch as u32 {
                    lemma_code_injective(c, ch);
                }
            }
            assert forall|c: char| self@.contains_key(c) implies #[trigger] self@[c] == target[c] by {
                if c as u32 == ch as u32 {
                    lemma_code_injective(c, ch);
                }
            }
            assert(self@ =~= old(self)@.insert(ch, glyph@));
        }
    }

    /// The glyph of the character `ch`, if the font has one.
    pub fn glyph(&self, ch: char) -> (found: Option<&Glyph>)
        ensures
            found is Some <==> self@.contains_key(ch),
            found matches Some(g) ==> g@ == self@[ch],
    {
        let code: u32 = ch as u32;
        self.glyphs.get(&code)
    }

    /// Whether the font has a glyph for the character `ch`.
    pub fn contains(&self, ch: char) -> (known: bool)
        ensures
            known == self@.contains_key(ch),
    {
        self.glyph(ch).is_some()
    }
}

} // verus!
