use bdf2surface::{Canvas, Color, Converter, Font, Glyph, RenderError, Rgba, Text};

fn block(width: u32, height: u32) -> Glyph {
    Glyph::new(width, height, vec![true; (width * height) as usize]).unwrap()
}

fn checkered(width: u32, height: u32) -> Glyph {
    let mut bits = Vec::new();
    for y in 0..height {
        for x in 0..width {
            bits.push((x + y) % 2 == 0);
        }
    }
    Glyph::new(width, height, bits).unwrap()
}

fn two_letters() -> Converter {
    let mut font = Font::new();
    font.insert('A', block(5, 8));
    font.insert('B', block(5, 8));
    font.insert('W', block(30, 8));
    font.insert(' ', Glyph::new(0, 0, vec![]).unwrap());
    Converter::new(font)
}

fn greeting_font() -> Font {
    let mut font = Font::new();
    for ch in "你好，露西！".chars() {
        font.insert(ch, checkered(11, 12));
    }
    for ch in "HeloLcz,!".chars() {
        font.insert(ch, checkered(5, 12));
    }
    font.insert(' ', Glyph::new(4, 12, vec![false; 48]).unwrap());
    font
}

fn glyph_pixels(canvas: &Canvas, red: u8, green: u8, blue: u8) -> usize {
    let mut count = 0;
    for y in 0..canvas.height() {
        for x in 0..canvas.width() {
            let pixel = canvas.pixel(x, y);
            if pixel.alpha == 255 && (pixel.red, pixel.green, pixel.blue) == (red, green, blue) {
                count += 1;
            }
        }
    }
    count
}

#[test]
fn base_test() {
    let converter = Converter::new(greeting_font());

    let texts = vec![
        Text("你好，露西！".to_string(), Color::RGB(0, 0, 0)),
        Text(
            "Hello,                    ".to_string(),
            Color::RGB(255, 0, 0),
        ),
        Text("Locez!".to_string(), Color::RGB(255, 73, 170)),
    ];
    let surface = converter.render(&texts, 60).unwrap();
    assert_eq!(surface.width(), 60);
    assert_eq!(surface.height() % 12, 0);
    assert_eq!(surface.bytes().len(), (60 * surface.height() * 4) as usize);
    assert_eq!(glyph_pixels(&surface, 0, 0, 0), 6 * 66);
    assert_eq!(glyph_pixels(&surface, 255, 0, 0), 6 * 30);
    assert_eq!(glyph_pixels(&surface, 255, 73, 170), 6 * 30);
}

#[test]
fn wide_canvas_takes_both_glyphs_in_one_band() {
    let texts = vec![Text("AB".to_string(), Color::RGB(0, 0, 0))];
    let canvas = two_letters().render(&texts, 20).unwrap();
    assert_eq!(canvas.width(), 20);
    assert_eq!(canvas.height(), 8);
    let black = Rgba { red: 0, green: 0, blue: 0, alpha: 255 };
    let clear = Rgba { red: 0, green: 0, blue: 0, alpha: 0 };
    for y in 0..8 {
        for x in 0..20 {
            let expected = if x < 5 || (6..11).contains(&x) { black } else { clear };
            assert_eq!(canvas.pixel(x, y), expected);
        }
    }
}

#[test]
fn narrow_canvas_takes_the_glyphs_in_two_bands() {
    let texts = vec![Text("AB".to_string(), Color::RGB(0, 0, 0))];
    let canvas = two_letters().render(&texts, 7).unwrap();
    assert_eq!(canvas.width(), 7);
    assert_eq!(canvas.height(), 16);
    let black = Rgba { red: 0, green: 0, blue: 0, alpha: 255 };
    let clear = Rgba { red: 0, green: 0, blue: 0, alpha: 0 };
    for y in 0..16 {
        for x in 0..7 {
            let expected = if x < 5 { black } else { clear };
            assert_eq!(canvas.pixel(x, y), expected);
        }
    }
}

#[test]
fn nothing_to_render_is_degenerate() {
    let result = two_letters().render(&vec![], 20);
    assert_eq!(result.unwrap_err(), RenderError::DegenerateLayout);
    let texts = vec![Text(String::new(), Color::RGB(1, 2, 3))];
    let result = two_letters().render(&texts, 20);
    assert_eq!(result.unwrap_err(), RenderError::DegenerateLayout);
    let texts = vec![Text("   ".to_string(), Color::RGB(1, 2, 3))];
    let result = two_letters().render(&texts, 20);
    assert_eq!(result.unwrap_err(), RenderError::DegenerateLayout);
}

#[test]
fn glyph_wider_than_the_canvas_is_refused() {
    let mut font = Font::new();
    font.insert('W', block(30, 8));
    let converter = Converter::new(font);
    let texts = vec![Text("W".to_string(), Color::RGB(0, 0, 0))];
    let result = converter.render(&texts, 10);
    assert_eq!(result.unwrap_err(), RenderError::PixelOutOfBounds);
    let result = converter.render(&texts, 29);
    assert_eq!(result.unwrap_err(), RenderError::PixelOutOfBounds);
}

#[test]
fn glyph_as_wide_as_the_canvas_is_drawn() {
    let texts = vec![Text("AWB".to_string(), Color::RGB(9, 8, 7))];
    let canvas = two_letters().render(&texts, 30).unwrap();
    assert_eq!(canvas.width(), 30);
    assert_eq!(canvas.height(), 24);
    assert_eq!(glyph_pixels(&canvas, 9, 8, 7), 5 * 8 + 30 * 8 + 5 * 8);
    assert_eq!(canvas.pixel(29, 8), Rgba { red: 9, green: 8, blue: 7, alpha: 255 });
    assert_eq!(canvas.pixel(0, 16), Rgba { red: 9, green: 8, blue: 7, alpha: 255 });
    assert_eq!(canvas.pixel(5, 16), Rgba { red: 0, green: 0, blue: 0, alpha: 0 });
}

#[test]
fn character_without_glyph_fails_the_whole_render() {
    let texts = vec![
        Text("AB".to_string(), Color::RGB(0, 0, 0)),
        Text("AqBz".to_string(), Color::RGB(0, 0, 0)),
    ];
    let result = two_letters().render(&texts, 20);
    assert_eq!(result.unwrap_err(), RenderError::GlyphNotFound('q'));
}

#[test]
fn missing_glyph_is_found_before_anything_else() {
    let texts = vec![Text("Wq".to_string(), Color::RGB(0, 0, 0))];
    let result = two_letters().render(&texts, 0);
    assert_eq!(result.unwrap_err(), RenderError::GlyphNotFound('q'));
}

#[test]
fn canvas_of_no_width_is_refused() {
    let texts = vec![Text("A".to_string(), Color::RGB(0, 0, 0))];
    let result = two_letters().render(&texts, 0);
    assert_eq!(result.unwrap_err(), RenderError::SurfaceAllocation);
}

#[test]
fn canvas_that_needs_too_many_bytes_is_refused() {
    let mut font = Font::new();
    font.insert('|', block(1, 60_000));
    let converter = Converter::new(font);
    let texts = vec![Text("|".to_string(), Color::RGB(0, 0, 0))];
    let result = converter.render(&texts, 10_000);
    assert_eq!(result.unwrap_err(), RenderError::SurfaceAllocation);
    let canvas = converter.render(&texts, 2).unwrap();
    assert_eq!(canvas.height(), 60_000);
    assert_eq!(canvas.bytes().len(), 2 * 60_000 * 4);
}

#[test]
fn rendering_twice_gives_the_same_bytes() {
    let converter = Converter::new(greeting_font());
    let texts = vec![
        Text("Hello, 你好".to_string(), Color::RGB(1, 2, 3)),
        Text("Locez!".to_string(), Color::RGB(255, 73, 170)),
    ];
    let first = converter.render(&texts, 40).unwrap();
    let second = converter.render(&texts, 40).unwrap();
    assert_eq!(first.width(), second.width());
    assert_eq!(first.height(), second.height());
    assert_eq!(first.bytes(), second.bytes());
    let failed = converter.render(&texts, 3);
    assert_eq!(failed.unwrap_err(), converter.render(&texts, 3).unwrap_err());
}

#[test]
fn checkered_glyph_alternates_opacity() {
    let mut font = Font::new();
    font.insert('x', checkered(3, 2));
    let converter = Converter::new(font);
    let texts = vec![Text("x".to_string(), Color::RGB(255, 0, 0))];
    let canvas = converter.render(&texts, 3).unwrap();
    assert_eq!(
        canvas.bytes().as_slice(),
        &[
            255, 0, 0, 255, 255, 0, 0, 0, 255, 0, 0, 255, //
            255, 0, 0, 0, 255, 0, 0, 255, 255, 0, 0, 0,
        ][..]
    );
}

#[test]
fn converter_keeps_its_font() {
    let converter = two_letters();
    assert!(converter.font().contains('A'));
    assert!(!converter.font().contains('C'));
    assert_eq!(converter.font().glyph('W').unwrap().width(), 30);
}
