use bdf2surface::{Font, Glyph};

#[test]
fn glyph_needs_one_bit_for_each_pixel() {
    assert!(Glyph::new(2, 3, vec![false; 6]).is_some());
    assert!(Glyph::new(2, 3, vec![false; 5]).is_none());
    assert!(Glyph::new(2, 3, vec![false; 7]).is_none());
    assert!(Glyph::new(0, 0, vec![]).is_some());
    assert!(Glyph::new(0, 7, vec![]).is_some());
    assert!(Glyph::new(0, 0, vec![true]).is_none());
}

#[test]
fn glyph_bits_go_row_after_row() {
    let glyph = Glyph::new(3, 2, vec![true, false, false, false, true, true]).unwrap();
    assert_eq!(glyph.width(), 3);
    assert_eq!(glyph.height(), 2);
    assert!(glyph.covered(0, 0));
    assert!(!glyph.covered(1, 0));
    assert!(!glyph.covered(2, 0));
    assert!(!glyph.covered(0, 1));
    assert!(glyph.covered(1, 1));
    assert!(glyph.covered(2, 1));
}

#[test]
fn font_finds_the_glyphs_it_was_given() {
    let mut font = Font::new();
    assert!(!font.contains('a'));
    assert!(font.glyph('a').is_none());
    font.insert('a', Glyph::new(1, 1, vec![true]).unwrap());
    font.insert('\u{4f60}', Glyph::new(2, 1, vec![true, false]).unwrap());
    assert!(font.contains('a'));
    assert!(font.contains('\u{4f60}'));
    assert!(!font.contains('b'));
    assert_eq!(font.glyph('a').unwrap().width(), 1);
    assert_eq!(font.glyph('\u{4f60}').unwrap().width(), 2);
}

#[test]
fn font_insert_replaces_a_glyph() {
    let mut font = Font::new();
    font.insert('a', Glyph::new(1, 1, vec![true]).unwrap());
    font.insert('a', Glyph::new(4, 2, vec![false; 8]).unwrap());
    let glyph = font.glyph('a').unwrap();
    assert_eq!(glyph.width(), 4);
    assert_eq!(glyph.height(), 2);
    assert!(!glyph.covered(0, 0));
}
