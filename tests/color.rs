use raytracer::color::{Color, ColorInt};

const EPS: f64 = f64::EPSILON;

#[test]
fn test_color() {
    let c = Color::new(-0.5, 0.4, 1.7);
    assert_eq!(c.r, -0.5);
    assert_eq!(c.g, 0.4);
    assert_eq!(c.b, 1.7);
}

#[test]
fn test_add_color() {
    let a = Color::new(0.9, 0.6, 0.75);
    let b = Color::new(0.7, 0.1, 0.25);
    let result = Color::new(1.6, 0.7, 1.0);
    assert!(a.add(&b).approx_eq(&result, EPS));
}

#[test]
fn test_sub_color() {
    let a = Color::new(0.9, 0.6, 0.75);
    let b = Color::new(0.7, 0.1, 0.25);
    let result = Color::new(0.2, 0.5, 0.5);
    assert!(a.subtract(&b).approx_eq(&result, EPS));
}

#[test]
fn test_mul_color_scalar() {
    let c = Color::new(0.2, 0.3, 0.4);
    let scalar = 2.0;
    let result = Color::new(0.4, 0.6, 0.8);
    assert!(c.scale(scalar).approx_eq(&result, EPS));
}

#[test]
fn test_hadamard_product_color() {
    let a = Color::new(1.0, 0.2, 0.4);
    let b = Color::new(0.9, 1.0, 0.1);
    let result = Color::new(0.9, 0.2, 0.04);
    assert!(a.blend(&b).approx_eq(&result, EPS));
}

#[test]
fn zero_color_and_negation() {
    let z = Color::<f64>::zero();
    assert_eq!(z, Color::new(0.0, 0.0, 0.0));
    let c = Color::new(0.25, -0.5, 1.0);
    assert_eq!(c.negate(), Color::new(-0.25, 0.5, -1.0));
}

#[test]
fn color_int_holds_channels() {
    let c = ColorInt::new(255, 128, 0);
    assert_eq!((c.r, c.g, c.b), (255, 128, 0));
}
