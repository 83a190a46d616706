use bdf2surface::{
    layout, rasterize, Canvas, Color, Font, Fragment, Glyph, Line, RenderError, Rgba, Text,
};

fn filled(width: u32, height: u32) -> Glyph {
    Glyph::new(width, height, vec![true; (width * height) as usize]).unwrap()
}

fn hollow(width: u32, height: u32) -> Glyph {
    Glyph::new(width, height, vec![false; (width * height) as usize]).unwrap()
}

fn sample_font() -> Font {
    let mut font = Font::new();
    font.insert('A', filled(5, 8));
    font.insert('B', filled(5, 8));
    font.insert('C', filled(3, 6));
    font.insert('o', hollow(4, 4));
    font.insert(' ', hollow(0, 0));
    font.insert('W', filled(30, 4));
    font.insert('T', filled(2, 12));
    font.insert(
        'L',
        Glyph::new(3, 3, vec![true, false, false, true, false, false, true, true, true]).unwrap(),
    );
    font
}

fn one_line(parts: &[(&str, Color)]) -> Line {
    let mut fragments = Vec::new();
    for (text, color) in parts {
        fragments.push(Fragment { text: text.to_string(), color: *color });
    }
    Line { fragments, total_width: 0 }
}

fn ink(color: Color, alpha: u8) -> Rgba {
    let Color::RGB(red, green, blue) = color;
    Rgba { red, green, blue, alpha }
}

fn clear() -> Rgba {
    Rgba { red: 0, green: 0, blue: 0, alpha: 0 }
}

fn count_pixels(canvas: &Canvas, wanted: Rgba) -> usize {
    let mut count = 0;
    for y in 0..canvas.height() {
        for x in 0..canvas.width() {
            if canvas.pixel(x, y) == wanted {
                count += 1;
            }
        }
    }
    count
}

const TEAL: Color = Color::RGB(10, 200, 150);
const PINK: Color = Color::RGB(255, 73, 170);

#[test]
fn canvas_is_as_wide_as_asked_and_has_a_band_for_each_line() {
    let lines = vec![one_line(&[("AB", TEAL)]), one_line(&[]), one_line(&[("C", PINK)])];
    let canvas = rasterize(&lines, 9, 20, &sample_font()).unwrap();
    assert_eq!(canvas.width(), 20);
    assert_eq!(canvas.height(), 27);
    assert_eq!(canvas.bytes().len(), 20 * 27 * 4);
}

#[test]
fn glyphs_stand_side_by_side_with_one_pixel_between() {
    let lines = vec![one_line(&[("AB", TEAL)])];
    let canvas = rasterize(&lines, 8, 20, &sample_font()).unwrap();
    for y in 0..8 {
        for x in 0..20 {
            let expected = if x < 5 || (6..11).contains(&x) { ink(TEAL, 255) } else { clear() };
            assert_eq!(canvas.pixel(x, y), expected, "pixel ({}, {})", x, y);
        }
    }
}

#[test]
fn bytes_are_red_green_blue_alpha_row_after_row() {
    let lines = vec![one_line(&[("C", TEAL)])];
    let canvas = rasterize(&lines, 6, 4, &sample_font()).unwrap();
    let bytes = canvas.bytes();
    assert_eq!(bytes.len(), 4 * 6 * 4);
    for y in 0..6usize {
        for x in 0..4usize {
            let at = (y * 4 + x) * 4;
            let expected: [u8; 4] = if x < 3 { [10, 200, 150, 255] } else { [0, 0, 0, 0] };
            assert_eq!(bytes[at..at + 4], expected);
        }
    }
}

#[test]
fn fragments_are_drawn_in_their_own_colors() {
    let lines = vec![one_line(&[("A", TEAL), ("", PINK), ("C", PINK)])];
    let canvas = rasterize(&lines, 8, 10, &sample_font()).unwrap();
    assert_eq!(canvas.pixel(0, 0), ink(TEAL, 255));
    assert_eq!(canvas.pixel(4, 7), ink(TEAL, 255));
    assert_eq!(canvas.pixel(5, 7), clear());
    assert_eq!(canvas.pixel(6, 1), clear());
    assert_eq!(canvas.pixel(6, 2), ink(PINK, 255));
    assert_eq!(canvas.pixel(8, 7), ink(PINK, 255));
    assert_eq!(canvas.pixel(9, 7), clear());
    assert_eq!(count_pixels(&canvas, ink(TEAL, 255)), 5 * 8);
    assert_eq!(count_pixels(&canvas, ink(PINK, 255)), 3 * 6);
    assert_eq!(count_pixels(&canvas, clear()), 10 * 8 - 5 * 8 - 3 * 6);
}

#[test]
fn shorter_glyphs_stand_on_the_bottom_of_the_band() {
    let lines = vec![one_line(&[("CT", TEAL)]), one_line(&[("C", PINK)])];
    let canvas = rasterize(&lines, 12, 8, &sample_font()).unwrap();
    assert_eq!(canvas.height(), 24);
    for y in 0..6 {
        assert_eq!(canvas.pixel(0, y), clear());
        assert_eq!(canvas.pixel(4, y), ink(TEAL, 255));
    }
    for y in 6..12 {
        assert_eq!(canvas.pixel(0, y), ink(TEAL, 255));
        assert_eq!(canvas.pixel(2, y), ink(TEAL, 255));
        assert_eq!(canvas.pixel(3, y), clear());
        assert_eq!(canvas.pixel(5, y), ink(TEAL, 255));
    }
    for y in 12..18 {
        assert_eq!(canvas.pixel(0, y), clear());
    }
    for y in 18..24 {
        assert_eq!(canvas.pixel(0, y), ink(PINK, 255));
        assert_eq!(canvas.pixel(3, y), clear());
    }
}

#[test]
fn coverage_decides_opacity_and_nothing_else() {
    let lines = vec![one_line(&[("L", PINK)])];
    let canvas = rasterize(&lines, 3, 4, &sample_font()).unwrap();
    let on = ink(PINK, 255);
    let off = ink(PINK, 0);
    assert_eq!(canvas.pixel(0, 0), on);
    assert_eq!(canvas.pixel(1, 0), off);
    assert_eq!(canvas.pixel(2, 0), off);
    assert_eq!(canvas.pixel(0, 1), on);
    assert_eq!(canvas.pixel(1, 1), off);
    assert_eq!(canvas.pixel(2, 1), off);
    assert_eq!(canvas.pixel(0, 2), on);
    assert_eq!(canvas.pixel(1, 2), on);
    assert_eq!(canvas.pixel(2, 2), on);
    for y in 0..3 {
        assert_eq!(canvas.pixel(3, y), clear());
    }
}

#[test]
fn solid_glyph_is_opaque_and_empty_glyph_is_transparent() {
    let lines = vec![one_line(&[("Ao", PINK)])];
    let canvas = rasterize(&lines, 8, 12, &sample_font()).unwrap();
    for y in 0..8 {
        for x in 0..5 {
            assert_eq!(canvas.pixel(x, y), ink(PINK, 255));
        }
    }
    for y in 4..8 {
        for x in 6..10 {
            assert_eq!(canvas.pixel(x, y).alpha, 0);
            assert_eq!(canvas.pixel(x, y), ink(PINK, 0));
        }
    }
    for y in 0..4 {
        for x in 6..10 {
            assert_eq!(canvas.pixel(x, y), clear());
        }
    }
}

#[test]
fn zero_line_height_is_degenerate() {
    let lines = vec![one_line(&[])];
    let result = rasterize(&lines, 0, 20, &sample_font());
    assert_eq!(result.unwrap_err(), RenderError::DegenerateLayout);
    let lines = vec![one_line(&[("A", TEAL)])];
    let result = rasterize(&lines, 0, 0, &sample_font());
    assert_eq!(result.unwrap_err(), RenderError::DegenerateLayout);
}

#[test]
fn layout_of_nothing_cannot_be_drawn() {
    let laid = layout(&vec![], 20, &sample_font()).unwrap();
    assert_eq!(laid.lines.len(), 1);
    assert_eq!(laid.lines[0].total_width, 0);
    assert_eq!(laid.line_height, 0);
    let result = rasterize(&laid.lines, laid.line_height, 20, &sample_font());
    assert_eq!(result.unwrap_err(), RenderError::DegenerateLayout);
}

#[test]
fn canvas_without_columns_or_rows_is_refused() {
    let lines = vec![one_line(&[(" ", TEAL)])];
    let result = rasterize(&lines, 5, 0, &sample_font());
    assert_eq!(result.unwrap_err(), RenderError::SurfaceAllocation);
    let result = rasterize(&vec![], 5, 10, &sample_font());
    assert_eq!(result.unwrap_err(), RenderError::SurfaceAllocation);
}

#[test]
fn canvas_that_is_too_large_is_refused() {
    let lines = vec![one_line(&[]), one_line(&[])];
    let result = rasterize(&lines, 40_000, 20_000, &sample_font());
    assert_eq!(result.unwrap_err(), RenderError::SurfaceAllocation);
    let result = rasterize(&lines, u32::MAX, u32::MAX, &sample_font());
    assert_eq!(result.unwrap_err(), RenderError::SurfaceAllocation);
    let result = rasterize(&lines, 0x8000_0000, 1, &sample_font());
    assert_eq!(result.unwrap_err(), RenderError::SurfaceAllocation);
}

#[test]
fn glyph_past_the_right_edge_is_refused() {
    let lines = vec![one_line(&[("W", TEAL)])];
    let result = rasterize(&lines, 4, 10, &sample_font());
    assert_eq!(result.unwrap_err(), RenderError::PixelOutOfBounds);
    let lines = vec![one_line(&[("AB", TEAL)])];
    let result = rasterize(&lines, 8, 10, &sample_font());
    assert_eq!(result.unwrap_err(), RenderError::PixelOutOfBounds);
    let result = rasterize(&lines, 8, 11, &sample_font());
    assert!(result.is_ok());
}

#[test]
fn glyph_taller_than_its_band_is_refused() {
    let lines = vec![one_line(&[("A", TEAL)]), one_line(&[("T", TEAL)])];
    let result = rasterize(&lines, 8, 10, &sample_font());
    assert_eq!(result.unwrap_err(), RenderError::PixelOutOfBounds);
}

#[test]
fn glyph_without_pixels_is_never_out_of_bounds() {
    let lines = vec![one_line(&[("AB  ", TEAL)])];
    let canvas = rasterize(&lines, 8, 11, &sample_font()).unwrap();
    assert_eq!(count_pixels(&canvas, ink(TEAL, 255)), 2 * 5 * 8);
    let mut font = sample_font();
    font.insert('w', Glyph::new(50, 0, vec![]).unwrap());
    font.insert('t', Glyph::new(0, 50, vec![]).unwrap());
    let lines = vec![one_line(&[("wtA", TEAL)])];
    let result = rasterize(&lines, 8, 56, &font);
    assert_eq!(result.unwrap_err(), RenderError::PixelOutOfBounds);
    assert!(rasterize(&lines, 8, 57, &font).is_ok());
    let canvas = rasterize(&lines, 8, 100, &font).unwrap();
    assert_eq!(canvas.pixel(51, 0), clear());
    assert_eq!(canvas.pixel(52, 0), ink(TEAL, 255));
    assert_eq!(canvas.pixel(56, 7), ink(TEAL, 255));
    assert_eq!(canvas.pixel(57, 7), clear());
}

#[test]
fn missing_glyph_stops_the_compositor() {
    let lines = vec![one_line(&[("A?", TEAL)])];
    let result = rasterize(&lines, 8, 20, &sample_font());
    assert_eq!(result.unwrap_err(), RenderError::GlyphNotFound('?'));
}

#[test]
fn first_fault_in_reading_order_is_reported() {
    let lines = vec![one_line(&[("A", TEAL), ("?W", PINK)]), one_line(&[("!", TEAL)])];
    let result = rasterize(&lines, 8, 20, &sample_font());
    assert_eq!(result.unwrap_err(), RenderError::GlyphNotFound('?'));
    let lines = vec![one_line(&[("AW", TEAL), ("?", PINK)]), one_line(&[("!", TEAL)])];
    let result = rasterize(&lines, 8, 20, &sample_font());
    assert_eq!(result.unwrap_err(), RenderError::PixelOutOfBounds);
    let lines = vec![one_line(&[("A", TEAL)]), one_line(&[("!", TEAL), ("W", TEAL)])];
    let result = rasterize(&lines, 8, 20, &sample_font());
    assert_eq!(result.unwrap_err(), RenderError::GlyphNotFound('!'));
}

#[test]
fn pen_that_runs_far_right_does_not_overflow() {
    let mut font = Font::new();
    font.insert('M', Glyph::new(u32::MAX, 0, vec![]).unwrap());
    font.insert('A', filled(5, 8));
    let lines = vec![one_line(&[("MMMMM", TEAL)])];
    let canvas = rasterize(&lines, 1, 3, &font).unwrap();
    assert_eq!(count_pixels(&canvas, clear()), 3);
    let lines = vec![one_line(&[("MMMMMA", TEAL)])];
    let result = rasterize(&lines, 8, u32::MAX, &font);
    assert_eq!(result.unwrap_err(), RenderError::SurfaceAllocation);
    let result = rasterize(&lines, 8, 100, &font);
    assert_eq!(result.unwrap_err(), RenderError::PixelOutOfBounds);
}

#[test]
fn runs_of_text_can_be_laid_out_and_drawn_in_two_steps() {
    let font = sample_font();
    let texts = vec![Text("AB".to_string(), TEAL), Text("C".to_string(), PINK)];
    let laid = layout(&texts, 12, &font).unwrap();
    let canvas = rasterize(&laid.lines, laid.line_height, 12, &font).unwrap();
    assert_eq!(canvas.width(), 12);
    assert_eq!(canvas.height(), 16);
    assert_eq!(canvas.pixel(0, 0), ink(TEAL, 255));
    assert_eq!(canvas.pixel(10, 7), ink(TEAL, 255));
    assert_eq!(canvas.pixel(11, 7), clear());
    assert_eq!(canvas.pixel(0, 9), clear());
    assert_eq!(canvas.pixel(0, 10), ink(PINK, 255));
    assert_eq!(canvas.pixel(2, 15), ink(PINK, 255));
    assert_eq!(canvas.pixel(3, 15), clear());
}
