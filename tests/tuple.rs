use raytracer::tuple::Tuple;

const EPS: f64 = f64::EPSILON;

#[test]
fn test_point() {
    let a = Tuple::new(4.3, -4.2, 3.1, 1.0);
    assert_eq!(a.x, 4.3);
    assert_eq!(a.y, -4.2);
    assert_eq!(a.z, 3.1);
    assert_eq!(a.w, 1.0);
    assert_eq!(a.is_point(), true);
    assert_eq!(a.is_vector(), false);
}

#[test]
fn test_vector() {
    let a = Tuple::new(4.3, -4.2, 3.1, 0.0);
    assert_eq!(a.x, 4.3);
    assert_eq!(a.y, -4.2);
    assert_eq!(a.z, 3.1);
    assert_eq!(a.w, 0.0);
    assert_eq!(a.is_point(), false);
    assert_eq!(a.is_vector(), true);
}

#[test]
fn test_new_point() {
    let p = Tuple::point(4.0, -4.0, 3.0);
    assert!(p.approx_eq(&Tuple::new(4.0, -4.0, 3.0, 1.0), EPS));
}

#[test]
fn test_new_vector() {
    let v = Tuple::vector(4.0, -4.0, 3.0);
    assert!(v.approx_eq(&Tuple::new(4.0, -4.0, 3.0, 0.0), EPS));
}

#[test]
fn test_cmp_point() {
    let a = Tuple::point(1.0, 1.0, 2.0);
    let b = Tuple::point(1.0, 1.0, 2.0);
    let c = Tuple::point(1.0, 1.0, 1.0);
    assert!(a.approx_eq(&b, EPS));
    assert!(!a.approx_eq(&c, EPS));
}

#[test]
fn test_cmp_vector() {
    let a = Tuple::vector(1.0, 1.0, 2.0);
    let b = Tuple::vector(1.0, 1.0, 2.0);
    let c = Tuple::vector(1.0, 1.0, 1.0);
    assert!(a.approx_eq(&b, EPS));
    assert!(!a.approx_eq(&c, EPS));
}

#[test]
fn test_cmp_point_vector() {
    let a = Tuple::point(1.0, 1.0, 2.0);
    let b = Tuple::vector(1.0, 1.0, 2.0);
    assert!(!a.approx_eq(&b, EPS));
}

#[test]
fn test_add_tuple() {
    let a = Tuple::point(1.0, 1.0, 2.0);
    let b = Tuple::point(1.0, 1.0, 2.0);
    let result = Tuple::new(2.0, 2.0, 4.0, 2.0);
    assert!(a.add(&b).approx_eq(&result, EPS));
}

#[test]
fn test_sub_tuple() {
    let a = Tuple::point(1.0, 1.0, 2.0);
    let b = Tuple::point(1.0, 1.0, 2.0);
    let result = Tuple::new(0.0, 0.0, 0.0, 0.0);
    assert!(a.subtract(&b).approx_eq(&result, EPS));
}

#[test]
fn test_neg_tuple() {
    let t = Tuple::point(1.0, 1.0, 2.0);
    let result = Tuple::new(-1.0, -1.0, -2.0, -1.0);
    assert!(t.negate().approx_eq(&result, EPS));
}

#[test]
fn test_scalar_mul() {
    let a = Tuple::new(1.0, -2.0, 3.0, -4.0);
    let scalar = 3.5;
    let result = Tuple::new(3.5, -7.0, 10.5, -14.0);
    assert!(a.scale(scalar).approx_eq(&result, EPS));
}

#[test]
fn test_scalar_div() {
    let a = Tuple::new(1.0, -2.0, 3.0, -4.0);
    let scalar = 2.0;
    let result = Tuple::new(0.5, -1.0, 1.5, -2.0);
    assert!(a.divide(scalar).approx_eq(&result, EPS));
}

#[test]
fn test_magnitude() {
    let a = Tuple::vector(1.0, 0.0, 0.0);
    let b = Tuple::vector(-1.0, -2.0, -3.0);
    assert!((a.magnitude(f64::sqrt) - 1.0).abs() <= EPS);
    assert!((b.magnitude(f64::sqrt) - (14.0_f64).sqrt()).abs() <= EPS);
}

#[test]
fn test_normalize() {
    let v = Tuple::vector(4.0, 0.0, 0.0);
    let normalized_v = Tuple::vector(1.0, 0.0, 0.0);
    assert!(v.normalize(f64::sqrt).unwrap().approx_eq(&normalized_v, EPS));
}

#[test]
fn test_vector_mul() {
    let a = Tuple::vector(1.0, 2.0, 3.0);
    let b = Tuple::vector(2.0, 3.0, 4.0);
    let result: f64 = 20.0;
    assert!((a.dot(&b) - result).abs() <= EPS);
}

#[test]
fn test_cross() {
    let a = Tuple::vector(1.0, 2.0, 3.0);
    let b = Tuple::vector(2.0, 3.0, 4.0);
    let result_ab = Tuple::vector(-1.0, 2.0, -1.0);
    let result_ba = Tuple::vector(1.0, -2.0, 1.0);
    assert!(a.cross(&b).approx_eq(&result_ab, EPS));
    assert!(b.cross(&a).approx_eq(&result_ba, EPS));
}

#[test]
fn normalize_zero_vector_fails() {
    let v = Tuple::vector(0.0, 0.0, 0.0);
    assert!(v.normalize(f64::sqrt).is_none());
}

#[test]
fn normalized_vector_has_unit_length() {
    let v = Tuple::vector(1.0, 2.0, 3.0);
    let n = v.normalize(f64::sqrt).unwrap();
    assert!((n.magnitude(f64::sqrt) - 1.0).abs() <= 1e-12);
}

#[test]
fn integer_tuples_are_exact() {
    let a = Tuple::<i64>::point(3, -2, 5);
    let b = Tuple::<i64>::vector(-2, 3, 1);
    assert_eq!(a.add(&b), Tuple::new(1, 1, 6, 1));
    assert_eq!(a.subtract(&a), Tuple::new(0, 0, 0, 0));
    assert_eq!(b.dot(&b), 14);
    assert_eq!(b.scale(3), Tuple::new(-6, 9, 3, 0));
    assert_eq!(Tuple::<i64>::vector(1, 0, 0).cross(&Tuple::vector(0, 1, 0)), Tuple::vector(0, 0, 1));
}

#[test]
fn approx_eq_honours_tolerance() {
    let a = Tuple::point(1.0, 2.0, 3.0);
    let b = Tuple::point(1.0005, 2.0, 3.0);
    assert!(!a.approx_eq(&b, EPS));
    assert!(a.approx_eq(&b, 1e-3));
}
