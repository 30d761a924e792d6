//! Geometric kernel of a ray tracer: homogeneous tuples, a generic matrix
//! library with cofactor determinants and inverses, affine transformation
//! builders, rays and the unit sphere they are intersected with, and a pixel
//! canvas that encodes itself as a plain portable pixmap.
//!
//! The arithmetic is generic over its scalar type. Contracts state results in
//! the scalar's own operations, as vstd specifies them, and are exact for the
//! machine integers. Floating-point scalars run through the same code without
//! panicking, but vstd leaves their arithmetic unspecified: for them the
//! preconditions that speak of that arithmetic cannot be established, and the
//! contracts promise nothing. Square roots, which the scalar operations do not
//! provide, are supplied by the caller.

pub mod canvas;
pub mod color;
pub mod matrix;
pub mod sphere;
pub mod transformation;
pub mod tuple;
