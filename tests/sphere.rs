use raytracer::sphere::{Intersection, Object, Ray, Sphere};
use raytracer::tuple::Tuple;

const EPS: f64 = f64::EPSILON;

#[test]
fn test_create_sphere() {
    Sphere::new();
}

#[test]
fn test_intersect() {
    let r = Ray::new(Tuple::point(0.0, 1.0, -5.0), Tuple::vector(0.0, 0.0, 1.0));
    let s = Sphere::new();
    let xs = s.intersect(&r, f64::sqrt);
    assert_eq!(xs.len(), 2);
    assert_eq!(xs[0].value, 5.0);
    assert_eq!(xs[1].value, 5.0);
}

#[test]
fn test_intersect_miss() {
    let r = Ray::new(Tuple::point(0.0, 2.0, -5.0), Tuple::vector(0.0, 0.0, 1.0));
    let s = Sphere::new();
    let xs = s.intersect(&r, f64::sqrt);
    assert_eq!(xs.len(), 0);
}

#[test]
fn test_ray_inside_sphere() {
    let r = Ray::new(Tuple::point(0.0, 0.0, 0.0), Tuple::vector(0.0, 0.0, 1.0));
    let s = Sphere::new();
    let xs = s.intersect(&r, f64::sqrt);
    assert_eq!(xs.len(), 2);
    assert_eq!(xs[0].value, -1.0);
    assert_eq!(xs[1].value, 1.0);
}

#[test]
fn test_ray_behind_sphere() {
    let r = Ray::new(Tuple::point(0.0, 0.0, 5.0), Tuple::vector(0.0, 0.0, 1.0));
    let s = Sphere::new();
    let xs = s.intersect(&r, f64::sqrt);
    assert_eq!(xs.len(), 2);
    assert_eq!(xs[0].value, -6.0);
    assert_eq!(xs[1].value, -4.0);
}

#[test]
fn test_intersection_object() {
    let s = Sphere::new();
    let i = Intersection::new(3.5, Object::Sphere(s));
    assert!((i.value - 3.5_f64).abs() <= EPS);
    assert_eq!(i.object, Object::Sphere(s));
}

#[test]
fn test_intersect_set_object() {
    let r = Ray::new(Tuple::point(0.0, 0.0, -5.0), Tuple::vector(0.0, 0.0, 1.0));
    let s = Sphere::new();
    let xs = s.intersect(&r, f64::sqrt);
    assert_eq!(xs.len(), 2);
    assert_eq!(xs[0].object, Object::Sphere(s));
    assert_eq!(xs[1].object, Object::Sphere(s));
}

#[test]
fn hits_come_nearest_first() {
    let r = Ray::new(Tuple::point(0.0, 0.0, -5.0), Tuple::vector(0.0, 0.0, 1.0));
    let xs = Sphere::new().intersect(&r, f64::sqrt);
    assert_eq!(xs[0].value, 4.0);
    assert_eq!(xs[1].value, 6.0);
}

#[test]
fn integer_ray_with_integer_root() {
    let r = Ray::new(Tuple::<i64>::point(0, 0, -5), Tuple::vector(0, 0, 1));
    let root = |d: i64| (d as f64).sqrt() as i64;
    let xs = Sphere::new().intersect(&r, root);
    assert_eq!(xs.len(), 2);
    assert_eq!((xs[0].value, xs[1].value), (4, 6));
    let miss = Ray::new(Tuple::<i64>::point(0, 2, -5), Tuple::vector(0, 0, 1));
    assert!(Sphere::new().intersect(&miss, root).is_empty());
}

#[test]
fn intersections_compare_by_value_and_object() {
    let s = Sphere::new();
    let a = Intersection::new(1.0, Object::Sphere(s));
    let b = Intersection::new(1.0 + 1e-17, Object::Sphere(s));
    let c = Intersection::new(1.5, Object::Sphere(s));
    assert!(a.approx_eq(&b, EPS));
    assert!(!a.approx_eq(&c, EPS));
}
