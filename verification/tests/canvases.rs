use bdf2surface::{Canvas, Color, RenderError, Rgba, MAX_CANVAS_BYTES};

#[test]
fn new_canvas_is_transparent_black() {
    let canvas = Canvas::new(3, 2).unwrap();
    assert_eq!(canvas.width(), 3);
    assert_eq!(canvas.height(), 2);
    assert_eq!(canvas.bytes(), &vec![0u8; 24]);
    for y in 0..2 {
        for x in 0..3 {
            assert_eq!(canvas.pixel(x, y), Rgba { red: 0, green: 0, blue: 0, alpha: 0 });
        }
    }
}

#[test]
fn canvas_needs_columns_and_rows() {
    assert_eq!(Canvas::new(0, 2).unwrap_err(), RenderError::SurfaceAllocation);
    assert_eq!(Canvas::new(2, 0).unwrap_err(), RenderError::SurfaceAllocation);
    assert_eq!(Canvas::new(0, 0).unwrap_err(), RenderError::SurfaceAllocation);
    assert!(Canvas::new(1, 1).is_ok());
}

#[test]
fn canvas_holds_no_more_than_its_limit() {
    assert_eq!(MAX_CANVAS_BYTES, 0x7fff_ffff);
    assert_eq!(Canvas::new(0x8000, 0x4000).unwrap_err(), RenderError::SurfaceAllocation);
    assert_eq!(Canvas::new(u32::MAX, u32::MAX).unwrap_err(), RenderError::SurfaceAllocation);
    assert_eq!(Canvas::new(0x2000_0000, 1).unwrap_err(), RenderError::SurfaceAllocation);
    let canvas = Canvas::new(0x400, 0x400).unwrap();
    assert_eq!(canvas.bytes().len(), 0x40_0000);
}

#[test]
fn ink_is_the_color_with_opacity_from_coverage() {
    let color = Color::RGB(12, 34, 56);
    assert_eq!(color.channels(), (12, 34, 56));
    assert_eq!(Rgba::inked(color, true), Rgba { red: 12, green: 34, blue: 56, alpha: 255 });
    assert_eq!(Rgba::inked(color, false), Rgba { red: 12, green: 34, blue: 56, alpha: 0 });
}
