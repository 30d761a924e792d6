//! Rays, the unit sphere at the origin, and the intersections between them.
use crate::matrix::{constant, exact_arithmetic, one, within, zero, Scalar};
use crate::tuple::{dot_defined, point_of, sub_defined, tuple_dot, tuple_sub, Tuple};
use core::ops::Neg;
use vstd::prelude::*;
use vstd::std_specs::cmp::PartialOrdSpec;
use vstd::std_specs::convert::FromSpec;
use vstd::std_specs::ops::{AddSpec, DivSpec, MulSpec, NegSpec, SubSpec};

verus! {

/// The unit sphere centred at the origin. All spheres are interchangeable.
#[derive(Clone, Copy, Debug, PartialEq, Eq, Structural)]
pub struct Sphere;

/// Something a ray can hit.
#[derive(Clone, Copy, Debug, PartialEq, Eq, Structural)]
pub enum Object {
    Sphere(Sphere),
}

/// A ray parameter `value` at which the ray meets `object`.
#[derive(Clone, Copy, Debug, PartialEq)]
pub struct Intersection<T> {
    pub value: T,
    pub object: Object,
}

/// A half-line: an origin point and a direction vector.
#[derive(Clone, Copy, Debug, PartialEq)]
pub struct Ray<T> {
    pub origin: Tuple<T>,
    pub direction: Tuple<T>,
}

impl<T> Intersection<T> {
    pub fn new(value: T, object: Object) -> (r: Intersection<T>)
        ensures
            r == (Intersection { value, object }),
    {
        Intersection { value, object }
    }

    /// The same object, hit at parameters within `tolerance` of each other.
    pub fn approx_eq(&self, other: &Intersection<T>, tolerance: T) -> (r: bool)
        where
            T: Scalar + PartialOrd,
        requires
            T::obeys_sub_spec(),
            T::obeys_neg_spec(),
            T::obeys_partial_cmp_spec(),
            tolerance.neg_req(),
            self.value.sub_req(other.value),
        ensures
            r == (within(self.value.sub_spec(other.value), tolerance) && self.object == other.object),
    {
        let low = tolerance.neg();
        let d = self.value - other.value;
        low <= d && d <= tolerance && self.object == other.object
    }
}

impl<T> Ray<T> {
    pub fn new(origin: Tuple<T>, direction: Tuple<T>) -> (r: Ray<T>)
        ensures
            r == (Ray { origin, direction }),
    {
        Ray { origin, direction }
    }
}

/// The vector from the sphere's centre to the ray's origin.
pub open spec fn sphere_to_ray<T: Scalar>(ray: Ray<T>) -> Tuple<T> {
    tuple_sub(ray.origin, point_of(zero::<T>(), zero::<T>(), zero::<T>()))
}

/// `a` of the quadratic in the ray parameter: `direction . direction`.
pub open spec fn quad_a<T: Scalar>(ray: Ray<T>) -> T {
    tuple_dot(ray.direction, ray.direction)
}

/// `b` of the quadratic: `2 * (direction . sphere_to_ray)`.
pub open spec fn quad_b<T: Scalar>(ray: Ray<T>) -> T {
    constant::<T>(2).mul_spec(tuple_dot(ray.direction, sphere_to_ray(ray)))
}

/// `c` of the quadratic: `sphere_to_ray . sphere_to_ray - 1`.
pub open spec fn quad_c<T: Scalar>(ray: Ray<T>) -> T {
    tuple_dot(sphere_to_ray(ray), sphere_to_ray(ray)).sub_spec(one::<T>())
}

/// `b * b - 4 * a * c`.
pub open spec fn discriminant<T: Scalar>(ray: Ray<T>) -> T {
    quad_b(ray).mul_spec(quad_b(ray)).sub_spec(
        constant::<T>(4).mul_spec(quad_a(ray)).mul_spec(quad_c(ray)),
    )
}

/// The nearer root `(-b - root) / (2 * a)`, where `root` is the square root of
/// the discriminant.
pub open spec fn near_root<T: Scalar + core::ops::Div<Output = T>>(ray: Ray<T>, root: T) -> T {
    quad_b(ray).neg_spec().sub_spec(root).div_spec(constant::<T>(2).mul_spec(quad_a(ray)))
}

/// The farther root `(-b + root) / (2 * a)`.
pub open spec fn far_root<T: Scalar + core::ops::Div<Output = T>>(ray: Ray<T>, root: T) -> T {
    quad_b(ray).neg_spec().add_spec(root).div_spec(constant::<T>(2).mul_spec(quad_a(ray)))
}

/// The discriminant is below zero: the ray misses.
pub open spec fn misses<T: Scalar + PartialOrd>(ray: Ray<T>) -> bool {
    discriminant(ray).partial_cmp_spec(&zero::<T>()) == Some(core::cmp::Ordering::Less)
}

/// Every step of the intersection test stays within the domain of the scalar
/// operations, whatever square root of the discriminant `sqrt` returns.
pub open spec fn intersect_defined<T: Scalar + core::ops::Div<Output = T> + PartialOrd, F: Fn(T) -> T>(
    ray: Ray<T>,
    sqrt: F,
) -> bool {
    let s = sphere_to_ray(ray);
    let a = quad_a(ray);
    let b = quad_b(ray);
    let c = quad_c(ray);
    &&& sub_defined(ray.origin, point_of(zero::<T>(), zero::<T>(), zero::<T>()))
    &&& dot_defined(ray.direction, ray.direction)
    &&& dot_defined(ray.direction, s)
    &&& dot_defined(s, s)
    &&& constant::<T>(2).mul_req(tuple_dot(ray.direction, s))
    &&& tuple_dot(s, s).sub_req(one::<T>())
    &&& b.mul_req(b)
    &&& constant::<T>(4).mul_req(a)
    &&& constant::<T>(4).mul_spec(a).mul_req(c)
    &&& b.mul_spec(b).sub_req(constant::<T>(4).mul_spec(a).mul_spec(c))
    &&& !misses(ray) ==> {
        &&& sqrt.requires((discriminant(ray),))
        &&& b.neg_req()
        &&& constant::<T>(2).mul_req(a)
        &&& forall|root: T|
            #[trigger] sqrt.ensures((discriminant(ray),), root) ==> {
                &&& b.neg_spec().sub_req(root)
                &&& b.neg_spec().add_req(root)
                &&& b.neg_spec().sub_spec(root).div_req(constant::<T>(2).mul_spec(a))
                &&& b.neg_spec().add_spec(root).div_req(constant::<T>(2).mul_spec(a))
            }
    }
}

impl Sphere {
    pub fn new() -> (r: Sphere)
        ensures
            r == Sphere,
    {
        Sphere
    }

    /// The parameters at which `ray` meets the sphere, nearest first: none
    /// when the discriminant is below zero, else the two roots of the
    /// quadratic (equal for a tangent ray), each tagged with this sphere.
    /// `sqrt` supplies the square root of the discriminant.
    pub fn intersect<T, F>(&self, ray: &Ray<T>, sqrt: F) -> (r: Vec<Intersection<T>>)
        where
            T: Scalar + core::ops::Div<Output = T> + PartialOrd,
            F: Fn(T) -> T,
        requires
            exact_arithmetic::<T>(),
            T::obeys_div_spec(),
            T::obeys_partial_cmp_spec(),
            intersect_defined(*ray, sqrt),
        ensures
            misses(*ray) ==> r@.len() == 0,
            !misses(*ray) ==> exists|root: T|
                {
                    &&& #[trigger] sqrt.ensures((discriminant(*ray),), root)
                    &&& r@ == seq![
                        Intersection { value: near_root(*ray, root), object: Object::Sphere(*self) },
                        Intersection { value: far_root(*ray, root), object: Object::Sphere(*self) },
                    ]
                },
    {
        let zero = T::from(0i8);
        let two = T::from(2i8);
        let four = T::from(4i8);
        let centre = Tuple::point(zero, zero, zero);
        let s = ray.origin.subtract(&centre);
        let a = ray.direction.dot(&ray.direction);
        let b = two * ray.direction.dot(&s);
        let c = s.dot(&s) - T::from(1i8);
        let disc = b * b - four * a * c;
        if disc < zero {
            Vec::new()
        } else {
            let root = sqrt(disc);
            let minus_b = b.neg();
            let denominator = two * a;
            let near = (minus_b - root) / denominator;
            let far = (minus_b + root) / denominator;
            let mut hits: Vec<Intersection<T>> = Vec::new();
            hits.push(Intersection::new(near, Object::Sphere(*self)));
            hits.push(Intersection::new(far, Object::Sphere(*self)));
            proof {
                assert(hits@ =~= seq![
                    Intersection { value: near_root(*ray, root), object: Object::Sphere(*self) },
                    Intersection { value: far_root(*ray, root), object: Object::Sphere(*self) },
                ]);
            }
            hits
        }
    }
}

} // verus!
