use raytracer::canvas::{Canvas, CanvasError};
use raytracer::color::{Color, ColorInt};

#[test]
fn test_canvas() {
    let c = Canvas::new(10, 20, Color::new(0.0, 0.0, 0.0));
    assert_eq!(c.width(), 10);
    assert_eq!(c.height(), 20);
    for y in 0..20 {
        for x in 0..10 {
            assert_eq!(c.pixel_at(x, y), Ok(Color::new(0.0, 0.0, 0.0)));
        }
    }
}

#[test]
fn test_write_pixel_canvas() {
    let mut c = Canvas::new(10, 20, Color::new(0.0, 0.0, 0.0));
    let p1 = Color::new(1.0, 2.0, 3.0);
    let p2 = Color::new(2.0, 3.0, 4.0);
    c.write_pixel(3, 4, p1).unwrap();
    c.write_pixel(6, 9, p2).unwrap();
    assert_eq!(c.pixel_at(3, 4), Ok(p1));
    assert_eq!(c.pixel_at(6, 9), Ok(p2));
}

#[test]
fn write_outside_the_canvas_fails() {
    let mut c = Canvas::new(10, 20, 0u8);
    assert_eq!(c.write_pixel(10, 0, 1), Err(CanvasError::IndexOutOfRange));
    assert_eq!(c.write_pixel(0, 20, 1), Err(CanvasError::IndexOutOfRange));
    assert_eq!(c.pixel_at(10, 0), Err(CanvasError::IndexOutOfRange));
}

#[test]
fn ppm_of_blank_canvas() {
    let c = Canvas::new(5, 3, ColorInt::new(0, 0, 0));
    let text = String::from_utf8(c.to_ppm()).unwrap();
    assert_eq!(text, "P3\n5 3\n255\n0 0 0 0 0 0 0 0 0 0 0 0 0 0 0\n0 0 0 0 0 0 0 0 0 0 0 0 0 0 0\n0 0 0 0 0 0 0 0 0 0 0 0 0 0 0\n");
}

#[test]
fn ppm_of_painted_canvas() {
    let mut c = Canvas::new(5, 3, ColorInt::new(0, 0, 0));
    c.write_pixel(0, 0, ColorInt::new(255, 0, 0)).unwrap();
    c.write_pixel(2, 1, ColorInt::new(0, 128, 0)).unwrap();
    c.write_pixel(4, 2, ColorInt::new(0, 0, 255)).unwrap();
    let text = String::from_utf8(c.to_ppm()).unwrap();
    assert_eq!(text, "P3\n5 3\n255\n255 0 0 0 0 0 0 0 0 0 0 0 0 0 0\n0 0 0 0 0 0 0 128 0 0 0 0 0 0 0\n0 0 0 0 0 0 0 0 0 0 0 0 0 0 255\n");
}

#[test]
fn ppm_of_empty_canvas_is_header_only() {
    let c = Canvas::new(0, 4, ColorInt::new(0, 0, 0));
    assert_eq!(String::from_utf8(c.to_ppm()).unwrap(), "P3\n0 4\n255\n\n");
}
