//! Homogeneous coordinates: four components, where `w == 1` marks a point and
//! `w == 0` a free vector.
use crate::matrix::{one, zero, Scalar};
use core::ops::Neg;
use vstd::prelude::*;
use vstd::std_specs::cmp::{PartialEqSpec, PartialOrdSpec};
use vstd::std_specs::convert::FromSpec;
use vstd::std_specs::ops::{AddSpec, DivSpec, MulSpec, NegSpec, SubSpec};

verus! {

/// A four-component homogeneous coordinate.
#[derive(Clone, Copy, Debug, PartialEq)]
pub struct Tuple<T> {
    pub x: T,
    pub y: T,
    pub z: T,
    pub w: T,
}

/// Component-wise `a + b`.
pub open spec fn tuple_add<T: Scalar>(a: Tuple<T>, b: Tuple<T>) -> Tuple<T> {
    Tuple { x: a.x.add_spec(b.x), y: a.y.add_spec(b.y), z: a.z.add_spec(b.z), w: a.w.add_spec(b.w) }
}

/// Component-wise `a - b`.
pub open spec fn tuple_sub<T: Scalar>(a: Tuple<T>, b: Tuple<T>) -> Tuple<T> {
    Tuple { x: a.x.sub_spec(b.x), y: a.y.sub_spec(b.y), z: a.z.sub_spec(b.z), w: a.w.sub_spec(b.w) }
}

/// Component-wise `-a`.
pub open spec fn tuple_neg<T: Scalar>(a: Tuple<T>) -> Tuple<T> {
    Tuple { x: a.x.neg_spec(), y: a.y.neg_spec(), z: a.z.neg_spec(), w: a.w.neg_spec() }
}

/// Every component times `k`.
pub open spec fn tuple_scale<T: Scalar>(a: Tuple<T>, k: T) -> Tuple<T> {
    Tuple { x: a.x.mul_spec(k), y: a.y.mul_spec(k), z: a.z.mul_spec(k), w: a.w.mul_spec(k) }
}

/// Every component divided by `k`.
pub open spec fn tuple_div<T: Scalar + core::ops::Div<Output = T>>(a: Tuple<T>, k: T) -> Tuple<T> {
    Tuple { x: a.x.div_spec(k), y: a.y.div_spec(k), z: a.z.div_spec(k), w: a.w.div_spec(k) }
}

/// `a.x*b.x + a.y*b.y + a.z*b.z + a.w*b.w`, summed left to right.
pub open spec fn tuple_dot<T: Scalar>(a: Tuple<T>, b: Tuple<T>) -> T {
    a.x.mul_spec(b.x).add_spec(a.y.mul_spec(b.y)).add_spec(a.z.mul_spec(b.z)).add_spec(
        a.w.mul_spec(b.w),
    )
}

/// The cross product of the first three components; always a vector.
pub open spec fn tuple_cross<T: Scalar>(a: Tuple<T>, b: Tuple<T>) -> Tuple<T> {
    Tuple {
        x: a.y.mul_spec(b.z).sub_spec(a.z.mul_spec(b.y)),
        y: a.z.mul_spec(b.x).sub_spec(a.x.mul_spec(b.z)),
        z: a.x.mul_spec(b.y).sub_spec(a.y.mul_spec(b.x)),
        w: zero::<T>(),
    }
}

/// The point `(x, y, z)`.
pub open spec fn point_of<T: Scalar>(x: T, y: T, z: T) -> Tuple<T> {
    Tuple { x, y, z, w: one::<T>() }
}

/// The vector `(x, y, z)`.
pub open spec fn vector_of<T: Scalar>(x: T, y: T, z: T) -> Tuple<T> {
    Tuple { x, y, z, w: zero::<T>() }
}

/// `a + b` stays within the domain of the scalar operations.
pub open spec fn add_defined<T: Scalar>(a: Tuple<T>, b: Tuple<T>) -> bool {
    a.x.add_req(b.x) && a.y.add_req(b.y) && a.z.add_req(b.z) && a.w.add_req(b.w)
}

/// `a - b` stays within the domain of the scalar operations.
pub open spec fn sub_defined<T: Scalar>(a: Tuple<T>, b: Tuple<T>) -> bool {
    a.x.sub_req(b.x) && a.y.sub_req(b.y) && a.z.sub_req(b.z) && a.w.sub_req(b.w)
}

/// The dot product of `a` and `b` stays within the domain of the scalar operations.
pub open spec fn dot_defined<T: Scalar>(a: Tuple<T>, b: Tuple<T>) -> bool {
    &&& a.x.mul_req(b.x) && a.y.mul_req(b.y) && a.z.mul_req(b.z) && a.w.mul_req(b.w)
    &&& a.x.mul_spec(b.x).add_req(a.y.mul_spec(b.y))
    &&& a.x.mul_spec(b.x).add_spec(a.y.mul_spec(b.y)).add_req(a.z.mul_spec(b.z))
    &&& a.x.mul_spec(b.x).add_spec(a.y.mul_spec(b.y)).add_spec(a.z.mul_spec(b.z)).add_req(
        a.w.mul_spec(b.w),
    )
}

/// The cross product of `a` and `b` stays within the domain of the scalar operations.
pub open spec fn cross_defined<T: Scalar>(a: Tuple<T>, b: Tuple<T>) -> bool {
    &&& a.y.mul_req(b.z) && a.z.mul_req(b.y) && a.y.mul_spec(b.z).sub_req(a.z.mul_spec(b.y))
    &&& a.z.mul_req(b.x) && a.x.mul_req(b.z) && a.z.mul_spec(b.x).sub_req(a.x.mul_spec(b.z))
    &&& a.x.mul_req(b.y) && a.y.mul_req(b.x) && a.x.mul_spec(b.y).sub_req(a.y.mul_spec(b.x))
}

impl<T: Scalar> Tuple<T> {
    pub fn new(x: T, y: T, z: T, w: T) -> (r: Tuple<T>)
        ensures
            r == (Tuple { x, y, z, w }),
    {
        Tuple { x, y, z, w }
    }

    /// The point `(x, y, z)`: `w` is one.
    pub fn point(x: T, y: T, z: T) -> (r: Tuple<T>)
        ensures
            r.x == x && r.y == y && r.z == z,
            T::obeys_from_spec() ==> r == point_of(x, y, z),
    {
        Tuple { x, y, z, w: T::from(1i8) }
    }

    /// The vector `(x, y, z)`: `w` is zero.
    pub fn vector(x: T, y: T, z: T) -> (r: Tuple<T>)
        ensures
            r.x == x && r.y == y && r.z == z,
            T::obeys_from_spec() ==> r == vector_of(x, y, z),
    {
        Tuple { x, y, z, w: T::from(0i8) }
    }

    /// Whether `w` equals one exactly.
    pub fn is_point(&self) -> (r: bool)
        where
            T: PartialEq,
        ensures
            T::obeys_from_spec() && T::obeys_eq_spec() ==> r == self.w.eq_spec(&one::<T>()),
    {
        let unit = T::from(1i8);
        self.w == unit
    }

    /// Whether `w` equals zero exactly.
    pub fn is_vector(&self) -> (r: bool)
        where
            T: PartialEq,
        ensures
            T::obeys_from_spec() && T::obeys_eq_spec() ==> r == self.w.eq_spec(&zero::<T>()),
    {
        let nothing = T::from(0i8);
        self.w == nothing
    }

    /// Component-wise sum.
    pub fn add(&self, other: &Tuple<T>) -> (r: Tuple<T>)
        requires
            add_defined(*self, *other),
        ensures
            T::obeys_add_spec() ==> r == tuple_add(*self, *other),
    {
        Tuple { x: self.x + other.x, y: self.y + other.y, z: self.z + other.z, w: self.w + other.w }
    }

    /// Component-wise difference.
    pub fn subtract(&self, other: &Tuple<T>) -> (r: Tuple<T>)
        requires
            sub_defined(*self, *other),
        ensures
            T::obeys_sub_spec() ==> r == tuple_sub(*self, *other),
    {
        Tuple { x: self.x - other.x, y: self.y - other.y, z: self.z - other.z, w: self.w - other.w }
    }

    /// Every component negated.
    pub fn negate(&self) -> (r: Tuple<T>)
        requires
            self.x.neg_req() && self.y.neg_req() && self.z.neg_req() && self.w.neg_req(),
        ensures
            T::obeys_neg_spec() ==> r == tuple_neg(*self),
    {
        Tuple { x: self.x.neg(), y: self.y.neg(), z: self.z.neg(), w: self.w.neg() }
    }

    /// Every component multiplied by `k`.
    pub fn scale(&self, k: T) -> (r: Tuple<T>)
        requires
            self.x.mul_req(k) && self.y.mul_req(k) && self.z.mul_req(k) && self.w.mul_req(k),
        ensures
            T::obeys_mul_spec() ==> r == tuple_scale(*self, k),
    {
        Tuple { x: self.x * k, y: self.y * k, z: self.z * k, w: self.w * k }
    }

    /// Every component divided by `k`.
    pub fn divide(&self, k: T) -> (r: Tuple<T>)
        where
            T: core::ops::Div<Output = T>,
        requires
            self.x.div_req(k) && self.y.div_req(k) && self.z.div_req(k) && self.w.div_req(k),
        ensures
            T::obeys_div_spec() ==> r == tuple_div(*self, k),
    {
        Tuple { x: self.x / k, y: self.y / k, z: self.z / k, w: self.w / k }
    }

    /// The dot product over all four components.
    pub fn dot(&self, other: &Tuple<T>) -> (r: T)
        requires
            T::obeys_add_spec(),
            T::obeys_mul_spec(),
            dot_defined(*self, *other),
        ensures
            r == tuple_dot(*self, *other),
    {
        let xx = self.x * other.x;
        let yy = self.y * other.y;
        let zz = self.z * other.z;
        let ww = self.w * other.w;
        let xy = xx + yy;
        let xyz = xy + zz;
        xyz + ww
    }

    /// The length `sqrt(x*x + y*y + z*z + w*w)`; `sqrt` supplies the square root.
    pub fn magnitude<F: Fn(T) -> T>(&self, sqrt: F) -> (r: T)
        requires
            T::obeys_add_spec(),
            T::obeys_mul_spec(),
            dot_defined(*self, *self),
            sqrt.requires((tuple_dot(*self, *self),)),
        ensures
            sqrt.ensures((tuple_dot(*self, *self),), r),
    {
        let squared = self.dot(self);
        sqrt(squared)
    }

    /// The tuple divided by its magnitude, or `None` when the magnitude is
    /// zero; `sqrt` supplies the square root.
    pub fn normalize<F: Fn(T) -> T>(&self, sqrt: F) -> (r: Option<Tuple<T>>)
        where
            T: PartialEq + core::ops::Div<Output = T>,
        requires
            T::obeys_add_spec(),
            T::obeys_mul_spec(),
            T::obeys_eq_spec(),
            T::obeys_from_spec(),
            dot_defined(*self, *self),
            sqrt.requires((tuple_dot(*self, *self),)),
            forall|m: T|
                #[trigger] sqrt.ensures((tuple_dot(*self, *self),), m) && !m.eq_spec(&zero::<T>())
                    ==> self.x.div_req(m) && self.y.div_req(m) && self.z.div_req(m) && self.w.div_req(
                    m,
                ),
        ensures
            exists|m: T|
                {
                    &&& #[trigger] sqrt.ensures((tuple_dot(*self, *self),), m)
                    &&& m.eq_spec(&zero::<T>()) ==> r == None::<Tuple<T>>
                    &&& !m.eq_spec(&zero::<T>()) ==> T::obeys_div_spec() ==> r == Some(
                        tuple_div(*self, m),
                    )
                    &&& !m.eq_spec(&zero::<T>()) ==> r is Some
                },
    {
        let length = self.magnitude(sqrt);
        let nothing = T::from(0i8);
        if length == nothing {
            None
        } else {
            Some(self.divide(length))
        }
    }

    /// The cross product of the first three components, as a vector.
    pub fn cross(&self, other: &Tuple<T>) -> (r: Tuple<T>)
        requires
            T::obeys_sub_spec(),
            T::obeys_mul_spec(),
            cross_defined(*self, *other),
        ensures
            T::obeys_from_spec() ==> r == tuple_cross(*self, *other),
    {
        let yz = self.y * other.z;
        let zy = self.z * other.y;
        let zx = self.z * other.x;
        let xz = self.x * other.z;
        let xy = self.x * other.y;
        let yx = self.y * other.x;
        Tuple::vector(yz - zy, zx - xz, xy - yx)
    }

    /// Every component of `self - other` lies within `tolerance` of zero.
    pub fn approx_eq(&self, other: &Tuple<T>, tolerance: T) -> (r: bool)
        where
            T: PartialOrd,
        requires
            T::obeys_sub_spec(),
            T::obeys_neg_spec(),
            T::obeys_partial_cmp_spec(),
            tolerance.neg_req(),
            sub_defined(*self, *other),
        ensures
            r == {
                &&& crate::matrix::within(self.x.sub_spec(other.x), tolerance)
                &&& crate::matrix::within(self.y.sub_spec(other.y), tolerance)
                &&& crate::matrix::within(self.z.sub_spec(other.z), tolerance)
                &&& crate::matrix::within(self.w.sub_spec(other.w), tolerance)
            },
    {
        let low = tolerance.neg();
        let d = self.subtract(other);
        (low <= d.x && d.x <= tolerance) && (low <= d.y && d.y <= tolerance) && (low <= d.z && d.z
            <= tolerance) && (low <= d.w && d.w <= tolerance)
    }
}

} // verus!
