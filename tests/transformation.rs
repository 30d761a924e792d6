use raytracer::matrix::Matrix;
use raytracer::transformation::{rotation_x, rotation_y, rotation_z, scaling, shearing, translation};
use raytracer::tuple::Tuple;
use std::f64::consts::PI;

const EPS: f64 = f64::EPSILON;

#[test]
fn test_mul_translation_matrix() {
    let transform = translation(5.0, -3.0, 2.0);
    let p = Tuple::point(-3.0, 4.0, 5.0);
    assert!(transform.multiply_tuple(&p).unwrap().approx_eq(&Tuple::point(2.0, 1.0, 7.0), EPS));
}

#[test]
fn test_mul_translation_matrix_inverse() {
    let transform = translation(5.0, -3.0, 2.0);
    let inverse = transform.inverse(EPS).unwrap();
    let p = Tuple::point(-3.0, 4.0, 5.0);
    assert!(inverse.multiply_tuple(&p).unwrap().approx_eq(&Tuple::point(-8.0, 7.0, 3.0), EPS));
}

#[test]
fn test_vectors_unaffected_by_translation() {
    let transform = translation(5.0, -3.0, 2.0);
    let v = Tuple::vector(-3.0, 4.0, 5.0);
    assert!(transform.multiply_tuple(&v).unwrap().approx_eq(&v, EPS));
}

#[test]
fn test_mul_scaling_matrix_point() {
    let transform = scaling(2.0, 3.0, 4.0);
    let p = Tuple::point(-4.0, 6.0, 8.0);
    assert!(transform.multiply_tuple(&p).unwrap().approx_eq(&Tuple::point(-8.0, 18.0, 32.0), EPS));
}

#[test]
fn test_mul_scaling_matrix_vector() {
    let transform = scaling(2.0, 3.0, 4.0);
    let v = Tuple::vector(-4.0, 6.0, 8.0);
    assert!(transform.multiply_tuple(&v).unwrap().approx_eq(&Tuple::vector(-8.0, 18.0, 32.0), EPS));
}

#[test]
fn test_mul_scaling_matrix_inverse() {
    let transform = scaling(2.0, 3.0, 4.0);
    let inverse = transform.inverse(EPS).unwrap();
    let v = Tuple::vector(-4.0, 6.0, 8.0);
    assert!(inverse.multiply_tuple(&v).unwrap().approx_eq(&Tuple::vector(-2.0, 2.0, 2.0), EPS));
}

#[test]
fn test_reflection() {
    let transform = scaling(-1.0, 1.0, 1.0);
    let p = Tuple::point(2.0, 3.0, 4.0);
    assert!(transform.multiply_tuple(&p).unwrap().approx_eq(&Tuple::point(-2.0, 3.0, 4.0), EPS));
}

#[test]
fn test_rotation_x() {
    let p = Tuple::point(0.0, 1.0, 0.0);
    let half_quarter = rotation_x((PI / 4.0).cos(), (PI / 4.0).sin());
    let full_quarter = rotation_x((PI / 2.0).cos(), (PI / 2.0).sin());
    let h = (2.0_f64.sqrt() / 2.0 * 100000.0).round() / 100000.0;
    assert!(half_quarter.multiply_tuple(&p).unwrap().approx_eq(&Tuple::point(0.0, h, h), 1e-5));
    assert!(full_quarter.multiply_tuple(&p).unwrap().approx_eq(&Tuple::point(0.0, 0.0, 1.0), EPS));
}

#[test]
fn test_rotation_x_inverse() {
    let p = Tuple::point(0.0, 1.0, 0.0);
    let half_quarter = rotation_x((PI / 4.0).cos(), (PI / 4.0).sin());
    let inverse = half_quarter.inverse(EPS).unwrap();
    let h = (2.0_f64.sqrt() / 2.0 * 100000.0).round() / 100000.0;
    assert!(inverse.multiply_tuple(&p).unwrap().approx_eq(&Tuple::point(0.0, h, -h), 1e-5));
}

#[test]
fn test_rotation_y() {
    let p = Tuple::point(0.0, 0.0, 1.0);
    let half_quarter = rotation_y((PI / 4.0).cos(), (PI / 4.0).sin());
    let full_quarter = rotation_y((PI / 2.0).cos(), (PI / 2.0).sin());
    let h = (2.0_f64.sqrt() / 2.0 * 100000.0).round() / 100000.0;
    assert!(half_quarter.multiply_tuple(&p).unwrap().approx_eq(&Tuple::point(h, 0.0, h), 1e-5));
    assert!(full_quarter.multiply_tuple(&p).unwrap().approx_eq(&Tuple::point(1.0, 0.0, 0.0), EPS));
}

#[test]
fn test_rotation_z() {
    let p = Tuple::point(0.0, 1.0, 0.0);
    let half_quarter = rotation_z((PI / 4.0).cos(), (PI / 4.0).sin());
    let full_quarter = rotation_z((PI / 2.0).cos(), (PI / 2.0).sin());
    let h = (2.0_f64.sqrt() / 2.0 * 100000.0).round() / 100000.0;
    assert!(half_quarter.multiply_tuple(&p).unwrap().approx_eq(&Tuple::point(-h, h, 0.0), 1e-5));
    assert!(full_quarter.multiply_tuple(&p).unwrap().approx_eq(&Tuple::point(-1.0, 0.0, 0.0), EPS));
}

#[test]
fn test_shearing_xy() {
    let transform = shearing(1.0, 0.0, 0.0, 0.0, 0.0, 0.0);
    let p = Tuple::point(2.0, 3.0, 4.0);
    assert!(transform.multiply_tuple(&p).unwrap().approx_eq(&Tuple::point(5.0, 3.0, 4.0), EPS));
}

#[test]
fn test_shearing_xz() {
    let transform = shearing(0.0, 1.0, 0.0, 0.0, 0.0, 0.0);
    let p = Tuple::point(2.0, 3.0, 4.0);
    assert!(transform.multiply_tuple(&p).unwrap().approx_eq(&Tuple::point(6.0, 3.0, 4.0), EPS));
}

#[test]
fn test_shearing_yx() {
    let transform = shearing(0.0, 0.0, 1.0, 0.0, 0.0, 0.0);
    let p = Tuple::point(2.0, 3.0, 4.0);
    assert!(transform.multiply_tuple(&p).unwrap().approx_eq(&Tuple::point(2.0, 5.0, 4.0), EPS));
}

#[test]
fn test_shearing_yz() {
    let transform = shearing(0.0, 0.0, 0.0, 1.0, 0.0, 0.0);
    let p = Tuple::point(2.0, 3.0, 4.0);
    assert!(transform.multiply_tuple(&p).unwrap().approx_eq(&Tuple::point(2.0, 7.0, 4.0), EPS));
}

#[test]
fn test_shearing_zx() {
    let transform = shearing(0.0, 0.0, 0.0, 0.0, 1.0, 0.0);
    let p = Tuple::point(2.0, 3.0, 4.0);
    assert!(transform.multiply_tuple(&p).unwrap().approx_eq(&Tuple::point(2.0, 3.0, 6.0), EPS));
}

#[test]
fn test_shearing_zy() {
    let transform = shearing(0.0, 0.0, 0.0, 0.0, 0.0, 1.0);
    let p = Tuple::point(2.0, 3.0, 4.0);
    assert!(transform.multiply_tuple(&p).unwrap().approx_eq(&Tuple::point(2.0, 3.0, 7.0), EPS));
}

#[test]
fn test_transform_sequence() {
    let p = Tuple::point(1.0, 0.0, 1.0);
    let a = rotation_x((PI / 2.0).cos(), (PI / 2.0).sin());
    let b = scaling(5.0, 5.0, 5.0);
    let c = translation(10.0, 5.0, 7.0);
    let p2 = a.multiply_tuple(&p).unwrap();
    let p3 = b.multiply_tuple(&p2).unwrap();
    let p4 = c.multiply_tuple(&p3).unwrap();
    assert!(p2.approx_eq(&Tuple::point(1.0, -1.0, 0.0), EPS));
    // 5 * cos(pi / 2) is about 3.1e-16 in f64, a little over one epsilon.
    assert!(p3.approx_eq(&Tuple::point(5.0, -5.0, 0.0), 2.0 * EPS));
    assert!(p4.approx_eq(&Tuple::point(15.0, 0.0, 7.0), EPS));
}

#[test]
fn test_transform_sequence_chained() {
    let p = Tuple::point(1.0, 0.0, 1.0);
    let a = rotation_x((PI / 2.0).cos(), (PI / 2.0).sin());
    let b = scaling(5.0, 5.0, 5.0);
    let c = translation(10.0, 5.0, 7.0);
    let t = c.multiply(&b).unwrap().multiply(&a).unwrap();
    assert!(t.multiply_tuple(&p).unwrap().approx_eq(&Tuple::point(15.0, 0.0, 7.0), EPS));
}

#[test]
fn translation_cells_are_placed() {
    let t: Matrix<i64> = translation(5, -3, 2);
    assert_eq!(t.values(), vec![1, 0, 0, 5, 0, 1, 0, -3, 0, 0, 1, 2, 0, 0, 0, 1]);
    let s: Matrix<i64> = shearing(1, 2, 3, 4, 5, 6);
    assert_eq!(s.values(), vec![1, 1, 2, 0, 3, 1, 4, 0, 5, 6, 1, 0, 0, 0, 0, 1]);
}

#[test]
fn integer_translation_moves_points_not_vectors() {
    let t: Matrix<i64> = translation(5, -3, 2);
    let v = Tuple::vector(-3, 4, 5);
    let p = Tuple::point(-3, 4, 5);
    assert_eq!(t.multiply_tuple(&v).unwrap(), v);
    assert_eq!(t.multiply_tuple(&p).unwrap(), p.add(&Tuple::vector(5, -3, 2)));
}

#[test]
fn quarter_turns_with_integer_entries() {
    let p = Tuple::<i64>::point(0, 0, 1);
    assert_eq!(rotation_y(0, 1).multiply_tuple(&p).unwrap(), Tuple::point(1, 0, 0));
    let q = Tuple::<i64>::point(0, 1, 0);
    assert_eq!(rotation_x(0, 1).multiply_tuple(&q).unwrap(), Tuple::point(0, 0, 1));
    assert_eq!(rotation_z(0, 1).multiply_tuple(&q).unwrap(), Tuple::point(-1, 0, 0));
}
