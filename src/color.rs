//! Colours: red, green and blue channels of any scalar type, and colours
//! quantised to integer channels as a pixmap stores them.
use crate::matrix::{within, Scalar};
use core::ops::Neg;
use vstd::prelude::*;
use vstd::std_specs::cmp::PartialOrdSpec;
use vstd::std_specs::convert::FromSpec;
use vstd::std_specs::ops::{AddSpec, MulSpec, NegSpec, SubSpec};

verus! {

/// A colour with one value per channel; 0 is dark and 1 full intensity.
#[derive(Clone, Copy, Debug, PartialEq)]
pub struct Color<T> {
    pub r: T,
    pub g: T,
    pub b: T,
}

/// Channel-wise `a + b`.
pub open spec fn color_add<T: Scalar>(a: Color<T>, b: Color<T>) -> Color<T> {
    Color { r: a.r.add_spec(b.r), g: a.g.add_spec(b.g), b: a.b.add_spec(b.b) }
}

/// Channel-wise `a - b`.
pub open spec fn color_sub<T: Scalar>(a: Color<T>, b: Color<T>) -> Color<T> {
    Color { r: a.r.sub_spec(b.r), g: a.g.sub_spec(b.g), b: a.b.sub_spec(b.b) }
}

/// Every channel times `k`.
pub open spec fn color_scale<T: Scalar>(a: Color<T>, k: T) -> Color<T> {
    Color { r: a.r.mul_spec(k), g: a.g.mul_spec(k), b: a.b.mul_spec(k) }
}

/// Channel-wise product (the Hadamard product).
pub open spec fn color_blend<T: Scalar>(a: Color<T>, b: Color<T>) -> Color<T> {
    Color { r: a.r.mul_spec(b.r), g: a.g.mul_spec(b.g), b: a.b.mul_spec(b.b) }
}

impl<T: Scalar> Color<T> {
    pub fn new(r: T, g: T, b: T) -> (c: Color<T>)
        ensures
            c == (Color { r, g, b }),
    {
        Color { r, g, b }
    }

    /// The colour with every channel zero.
    pub fn zero() -> (c: Color<T>)
        ensures
            T::obeys_from_spec() ==> c == (Color {
                r: crate::matrix::zero::<T>(),
                g: crate::matrix::zero::<T>(),
                b: crate::matrix::zero::<T>(),
            }),
    {
        let z = T::from(0i8);
        Color { r: z, g: z, b: z }
    }

    /// Channel-wise sum.
    pub fn add(&self, other: &Color<T>) -> (c: Color<T>)
        requires
            self.r.add_req(other.r) && self.g.add_req(other.g) && self.b.add_req(other.b),
        ensures
            T::obeys_add_spec() ==> c == color_add(*self, *other),
    {
        Color { r: self.r + other.r, g: self.g + other.g, b: self.b + other.b }
    }

    /// Channel-wise difference.
    pub fn subtract(&self, other: &Color<T>) -> (c: Color<T>)
        requires
            self.r.sub_req(other.r) && self.g.sub_req(other.g) && self.b.sub_req(other.b),
        ensures
            T::obeys_sub_spec() ==> c == color_sub(*self, *other),
    {
        Color { r: self.r - other.r, g: self.g - other.g, b: self.b - other.b }
    }

    /// Every channel negated.
    pub fn negate(&self) -> (c: Color<T>)
        requires
            self.r.neg_req() && self.g.neg_req() && self.b.neg_req(),
        ensures
            T::obeys_neg_spec() ==> c == (Color {
                r: self.r.neg_spec(),
                g: self.g.neg_spec(),
                b: self.b.neg_spec(),
            }),
    {
        Color { r: self.r.neg(), g: self.g.neg(), b: self.b.neg() }
    }

    /// Every channel multiplied by `k`.
    pub fn scale(&self, k: T) -> (c: Color<T>)
        requires
            self.r.mul_req(k) && self.g.mul_req(k) && self.b.mul_req(k),
        ensures
            T::obeys_mul_spec() ==> c == color_scale(*self, k),
    {
        Color { r: self.r * k, g: self.g * k, b: self.b * k }
    }

    /// Channel-wise product: how a surface of colour `other` tints light of colour `self`.
    pub fn blend(&self, other: &Color<T>) -> (c: Color<T>)
        requires
            self.r.mul_req(other.r) && self.g.mul_req(other.g) && self.b.mul_req(other.b),
        ensures
            T::obeys_mul_spec() ==> c == color_blend(*self, *other),
    {
        Color { r: self.r * other.r, g: self.g * other.g, b: self.b * other.b }
    }

    /// Every channel of `self - other` lies within `tolerance` of zero.
    pub fn approx_eq(&self, other: &Color<T>, tolerance: T) -> (r: bool)
        where
            T: PartialOrd,
        requires
            T::obeys_sub_spec(),
            T::obeys_neg_spec(),
            T::obeys_partial_cmp_spec(),
            tolerance.neg_req(),
            self.r.sub_req(other.r) && self.g.sub_req(other.g) && self.b.sub_req(other.b),
        ensures
            r == {
                &&& within(self.r.sub_spec(other.r), tolerance)
                &&& within(self.g.sub_spec(other.g), tolerance)
                &&& within(self.b.sub_spec(other.b), tolerance)
            },
    {
        let low = tolerance.neg();
        let d = self.subtract(other);
        (low <= d.r && d.r <= tolerance) && (low <= d.g && d.g <= tolerance) && (low <= d.b && d.b
            <= tolerance)
    }
}

/// A colour with integer channels, each between zero and the pixmap's maximum.
#[derive(Clone, Copy, Debug, PartialEq, Eq, Structural)]
pub struct ColorInt {
    pub r: u32,
    pub g: u32,
    pub b: u32,
}

impl ColorInt {
    pub fn new(r: u32, g: u32, b: u32) -> (c: ColorInt)
        ensures
            c == (ColorInt { r, g, b }),
    {
        ColorInt { r, g, b }
    }
}

} // verus!
