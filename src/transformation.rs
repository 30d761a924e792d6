//! Builders for the 4 x 4 affine transformations. Each starts from the
//! identity and overwrites a few cells; they compose by matrix
//! multiplication, the rightmost factor applying first.
use crate::matrix::{in_grid, one, row_apply, transform, transform_defined, zero, Matrix, Scalar};
use crate::tuple::{tuple_add, vector_of, Tuple};
use core::ops::Neg;
use vstd::prelude::*;
use vstd::std_specs::convert::FromSpec;
use vstd::std_specs::ops::NegSpec;

verus! {

/// The identity's cell `(i, j)`.
pub open spec fn identity_cell<T: Scalar>(i: int, j: int) -> T {
    if i == j {
        one::<T>()
    } else {
        zero::<T>()
    }
}

/// The cells of `translation(x, y, z)`: the identity with `x, y, z` down the
/// last column.
pub open spec fn translation_cells<T: Scalar>(x: T, y: T, z: T) -> spec_fn(int, int) -> T {
    |i: int, j: int|
        if i == 0 && j == 3 {
            x
        } else if i == 1 && j == 3 {
            y
        } else if i == 2 && j == 3 {
            z
        } else {
            identity_cell::<T>(i, j)
        }
}

/// The cells of `scaling(x, y, z)`: `x, y, z` on the first three diagonal cells.
pub open spec fn scaling_cells<T: Scalar>(x: T, y: T, z: T) -> spec_fn(int, int) -> T {
    |i: int, j: int|
        if i == 0 && j == 0 {
            x
        } else if i == 1 && j == 1 {
            y
        } else if i == 2 && j == 2 {
            z
        } else {
            identity_cell::<T>(i, j)
        }
}

/// The cells of a rotation about the x axis by the angle with cosine `c` and sine `s`.
pub open spec fn rotation_x_cells<T: Scalar>(c: T, s: T) -> spec_fn(int, int) -> T {
    |i: int, j: int|
        if i == 1 && j == 1 {
            c
        } else if i == 1 && j == 2 {
            s.neg_spec()
        } else if i == 2 && j == 1 {
            s
        } else if i == 2 && j == 2 {
            c
        } else {
            identity_cell::<T>(i, j)
        }
}

/// The cells of a rotation about the y axis by the angle with cosine `c` and sine `s`.
pub open spec fn rotation_y_cells<T: Scalar>(c: T, s: T) -> spec_fn(int, int) -> T {
    |i: int, j: int|
        if i == 0 && j == 0 {
            c
        } else if i == 0 && j == 2 {
            s
        } else if i == 2 && j == 0 {
            s.neg_spec()
        } else if i == 2 && j == 2 {
            c
        } else {
            identity_cell::<T>(i, j)
        }
}

/// The cells of a rotation about the z axis by the angle with cosine `c` and sine `s`.
pub open spec fn rotation_z_cells<T: Scalar>(c: T, s: T) -> spec_fn(int, int) -> T {
    |i: int, j: int|
        if i == 0 && j == 0 {
            c
        } else if i == 0 && j == 1 {
            s.neg_spec()
        } else if i == 1 && j == 0 {
            s
        } else if i == 1 && j == 1 {
            c
        } else {
            identity_cell::<T>(i, j)
        }
}

/// The cells of `shearing(xy, xz, yx, yz, zx, zy)`: each factor moves one
/// coordinate in proportion to another.
pub open spec fn shearing_cells<T: Scalar>(xy: T, xz: T, yx: T, yz: T, zx: T, zy: T) -> spec_fn(
    int,
    int,
) -> T {
    |i: int, j: int|
        if i == 0 && j == 1 {
            xy
        } else if i == 0 && j == 2 {
            xz
        } else if i == 1 && j == 0 {
            yx
        } else if i == 1 && j == 2 {
            yz
        } else if i == 2 && j == 0 {
            zx
        } else if i == 2 && j == 1 {
            zy
        } else {
            identity_cell::<T>(i, j)
        }
}

/// The 4 x 4 identity with cell `(row, col)` overwritten by each entry of `cells`.
fn identity_with<T: Scalar>(cells: &Vec<(usize, usize, T)>) -> (r: Matrix<T>)
    requires
        forall|k: int| 0 <= k < cells@.len() ==> #[trigger] cells@[k].0 < 4 && cells@[k].1 < 4,
    ensures
        r.has_shape(4, 4),
        T::obeys_from_spec() ==> forall|i: int, j: int|
            in_grid(i, j, 4, 4) ==> #[trigger] r.at(i, j) == last_write(cells@, i, j, cells@.len()),
{
    let mut m: Matrix<T> = Matrix::identity_matrix(4);
    let mut k: usize = 0;
    while k < cells.len()
        invariant
            k <= cells@.len(),
            forall|k: int| 0 <= k < cells@.len() ==> #[trigger] cells@[k].0 < 4 && cells@[k].1 < 4,
            m.has_shape(4, 4),
            T::obeys_from_spec() ==> forall|i: int, j: int|
                in_grid(i, j, 4, 4) ==> #[trigger] m.at(i, j) == last_write(cells@, i, j, k as nat),
        decreases cells@.len() - k,
    {
        let (row, col, v) = cells[k];
        let ghost before = m;
        let _ = m.set(row, col, v);
        proof {
            assert(cells@[k as int].0 < 4 && cells@[k as int].1 < 4);
            assert forall|i: int, j: int| in_grid(i, j, 4, 4) implies #[trigger] m.at(i, j) == if i
                == row && j == col {
                v
            } else {
                before.at(i, j)
            } by {
                assert(0 <= i * 4 + j < 16);
            }
        }
        k += 1;
    }
    m
}

/// The value that the first `k` writes of `cells` leave in cell `(i, j)` of the identity.
pub open spec fn last_write<T: Scalar>(cells: Seq<(usize, usize, T)>, i: int, j: int, k: nat) -> T
    decreases k,
{
    if k == 0 {
        identity_cell::<T>(i, j)
    } else if cells[k - 1].0 == i && cells[k - 1].1 == j {
        cells[k - 1].2
    } else {
        last_write(cells, i, j, (k - 1) as nat)
    }
}
/// Moves points by `(x, y, z)`; vectors, whose `w` is zero, stay as they are.
pub fn translation<T: Scalar>(x: T, y: T, z: T) -> (r: Matrix<T>)
    ensures
        r.has_shape(4, 4),
        T::obeys_from_spec() ==> forall|i: int, j: int|
            in_grid(i, j, 4, 4) ==> #[trigger] r.at(i, j) == translation_cells(x, y, z)(i, j),
{
    let cells: Vec<(usize, usize, T)> = vec![(0, 3, x), (1, 3, y), (2, 3, z)];
    let r = identity_with(&cells);
    proof {
        reveal_with_fuel(last_write, 4);
    }
    r
}

/// Scales the three axes by `x`, `y` and `z`.
pub fn scaling<T: Scalar>(x: T, y: T, z: T) -> (r: Matrix<T>)
    ensures
        r.has_shape(4, 4),
        T::obeys_from_spec() ==> forall|i: int, j: int|
            in_grid(i, j, 4, 4) ==> #[trigger] r.at(i, j) == scaling_cells(x, y, z)(i, j),
{
    let cells: Vec<(usize, usize, T)> = vec![(0, 0, x), (1, 1, y), (2, 2, z)];
    let r = identity_with(&cells);
    proof {
        reveal_with_fuel(last_write, 4);
    }
    r
}

/// Rotates about the x axis by the angle whose cosine is `c` and sine is `s`
/// (right-handed).
pub fn rotation_x<T: Scalar>(c: T, s: T) -> (r: Matrix<T>)
    requires
        s.neg_req(),
    ensures
        r.has_shape(4, 4),
        T::obeys_from_spec() && T::obeys_neg_spec() ==> forall|i: int, j: int|
            in_grid(i, j, 4, 4) ==> #[trigger] r.at(i, j) == rotation_x_cells(c, s)(i, j),
{
    let negated = s.neg();
    let cells: Vec<(usize, usize, T)> = vec![(1, 1, c), (1, 2, negated), (2, 1, s), (2, 2, c)];
    let r = identity_with(&cells);
    proof {
        reveal_with_fuel(last_write, 5);
    }
    r
}

/// Rotates about the y axis by the angle whose cosine is `c` and sine is `s`
/// (right-handed).
pub fn rotation_y<T: Scalar>(c: T, s: T) -> (r: Matrix<T>)
    requires
        s.neg_req(),
    ensures
        r.has_shape(4, 4),
        T::obeys_from_spec() && T::obeys_neg_spec() ==> forall|i: int, j: int|
            in_grid(i, j, 4, 4) ==> #[trigger] r.at(i, j) == rotation_y_cells(c, s)(i, j),
{
    let negated = s.neg();
    let cells: Vec<(usize, usize, T)> = vec![(0, 0, c), (0, 2, s), (2, 0, negated), (2, 2, c)];
    let r = identity_with(&cells);
    proof {
        reveal_with_fuel(last_write, 5);
    }
    r
}

/// Rotates about the z axis by the angle whose cosine is `c` and sine is `s`
/// (right-handed).
pub fn rotation_z<T: Scalar>(c: T, s: T) -> (r: Matrix<T>)
    requires
        s.neg_req(),
    ensures
        r.has_shape(4, 4),
        T::obeys_from_spec() && T::obeys_neg_spec() ==> forall|i: int, j: int|
            in_grid(i, j, 4, 4) ==> #[trigger] r.at(i, j) == rotation_z_cells(c, s)(i, j),
{
    let negated = s.neg();
    let cells: Vec<(usize, usize, T)> = vec![(0, 0, c), (0, 1, negated), (1, 0, s), (1, 1, c)];
    let r = identity_with(&cells);
    proof {
        reveal_with_fuel(last_write, 5);
    }
    r
}

/// Shears: `xy` moves x in proportion to y, `xz` x in proportion to z, and so on.
pub fn shearing<T: Scalar>(xy: T, xz: T, yx: T, yz: T, zx: T, zy: T) -> (r: Matrix<T>)
    ensures
        r.has_shape(4, 4),
        T::obeys_from_spec() ==> forall|i: int, j: int|
            in_grid(i, j, 4, 4) ==> #[trigger] r.at(i, j) == shearing_cells(xy, xz, yx, yz, zx, zy)(i, j),
{
    let cells: Vec<(usize, usize, T)> = vec![(0, 1, xy), (0, 2, xz), (1, 0, yx), (1, 2, yz), (2, 0, zx), (2, 1, zy)];
    let r = identity_with(&cells);
    proof {
        reveal_with_fuel(last_write, 7);
    }
    r
}

/// Row `i` of a grid applied to `t`, for integer entries, in ordinary arithmetic.
proof fn lemma_row_apply_i64(c: spec_fn(int, int) -> i64, i: int, t: Tuple<i64>)
    requires
        crate::matrix::row_apply_defined(c, i, t),
    ensures
        row_apply(c, i, t) == c(i, 0) * t.x + c(i, 1) * t.y + c(i, 2) * t.z + c(i, 3) * t.w,
{
}

/// A translation leaves every vector as it is: applied to a vector `v`
/// (`w == 0`), `translation(x, y, z)` gives `v` back.
pub proof fn law_translation_fixes_vectors(x: i64, y: i64, z: i64, m: Matrix<i64>, v: Tuple<i64>)
    requires
        m.has_shape(4, 4),
        forall|i: int, j: int|
            in_grid(i, j, 4, 4) ==> #[trigger] m.at(i, j) == translation_cells(x, y, z)(i, j),
        v.w == 0,
        transform_defined(m.cell_fn(), v),
    ensures
        transform(m.cell_fn(), v) == v,
{
    assert(m.at(0, 0) == 1 && m.at(0, 1) == 0 && m.at(0, 2) == 0 && m.at(0, 3) == x);
    assert(m.at(1, 0) == 0 && m.at(1, 1) == 1 && m.at(1, 2) == 0 && m.at(1, 3) == y);
    assert(m.at(2, 0) == 0 && m.at(2, 1) == 0 && m.at(2, 2) == 1 && m.at(2, 3) == z);
    assert(m.at(3, 0) == 0 && m.at(3, 1) == 0 && m.at(3, 2) == 0 && m.at(3, 3) == 1);
    let c = m.cell_fn();
    lemma_row_apply_i64(c, 0, v);
    lemma_row_apply_i64(c, 1, v);
    lemma_row_apply_i64(c, 2, v);
    lemma_row_apply_i64(c, 3, v);
    assert(c(0, 0) == m.at(0, 0) && c(0, 1) == m.at(0, 1) && c(0, 2) == m.at(0, 2) && c(0, 3) == m.at(0, 3));
    assert(c(0, 0) * v.x + c(0, 1) * v.y + c(0, 2) * v.z + c(0, 3) * v.w == v.x) by (nonlinear_arith)
        requires
            c(0, 0) == m.at(0, 0) && c(0, 1) == m.at(0, 1) && c(0, 2) == m.at(0, 2) && c(0, 3) == m.at(0, 3),
            m.at(0, 0) == 1 && m.at(0, 1) == 0 && m.at(0, 2) == 0,
            m.at(0, 3) == x,
            v.w == 0,
    ;
    assert(c(1, 0) == m.at(1, 0) && c(1, 1) == m.at(1, 1) && c(1, 2) == m.at(1, 2) && c(1, 3) == m.at(1, 3));
    assert(c(1, 0) * v.x + c(1, 1) * v.y + c(1, 2) * v.z + c(1, 3) * v.w == v.y) by (nonlinear_arith)
        requires
            c(1, 0) == m.at(1, 0) && c(1, 1) == m.at(1, 1) && c(1, 2) == m.at(1, 2) && c(1, 3) == m.at(1, 3),
            m.at(1, 0) == 0 && m.at(1, 1) == 1 && m.at(1, 2) == 0,
            m.at(1, 3) == y,
            v.w == 0,
    ;
    assert(c(2, 0) == m.at(2, 0) && c(2, 1) == m.at(2, 1) && c(2, 2) == m.at(2, 2) && c(2, 3) == m.at(2, 3));
    assert(c(2, 0) * v.x + c(2, 1) * v.y + c(2, 2) * v.z + c(2, 3) * v.w == v.z) by (nonlinear_arith)
        requires
            c(2, 0) == m.at(2, 0) && c(2, 1) == m.at(2, 1) && c(2, 2) == m.at(2, 2) && c(2, 3) == m.at(2, 3),
            m.at(2, 0) == 0 && m.at(2, 1) == 0 && m.at(2, 2) == 1,
            m.at(2, 3) == z,
            v.w == 0,
    ;
    assert(c(3, 0) == m.at(3, 0) && c(3, 1) == m.at(3, 1) && c(3, 2) == m.at(3, 2) && c(3, 3) == m.at(3, 3));
    assert(c(3, 0) * v.x + c(3, 1) * v.y + c(3, 2) * v.z + c(3, 3) * v.w == v.w) by (nonlinear_arith)
        requires
            c(3, 0) == m.at(3, 0) && c(3, 1) == m.at(3, 1) && c(3, 2) == m.at(3, 2) && c(3, 3) == m.at(3, 3),
            m.at(3, 0) == 0 && m.at(3, 1) == 0 && m.at(3, 2) == 0,
            m.at(3, 3) == 1,
            v.w == 0,
    ;
}

/// A translation moves every point: applied to a point `p` (`w == 1`),
/// `translation(x, y, z)` gives `p + vector(x, y, z)`.
pub proof fn law_translation_moves_points(x: i64, y: i64, z: i64, m: Matrix<i64>, p: Tuple<i64>)
    requires
        m.has_shape(4, 4),
        forall|i: int, j: int|
            in_grid(i, j, 4, 4) ==> #[trigger] m.at(i, j) == translation_cells(x, y, z)(i, j),
        p.w == 1,
        transform_defined(m.cell_fn(), p),
    ensures
        transform(m.cell_fn(), p) == tuple_add(p, vector_of(x, y, z)),
{
    assert(m.at(0, 0) == 1 && m.at(0, 1) == 0 && m.at(0, 2) == 0 && m.at(0, 3) == x);
    assert(m.at(1, 0) == 0 && m.at(1, 1) == 1 && m.at(1, 2) == 0 && m.at(1, 3) == y);
    assert(m.at(2, 0) == 0 && m.at(2, 1) == 0 && m.at(2, 2) == 1 && m.at(2, 3) == z);
    assert(m.at(3, 0) == 0 && m.at(3, 1) == 0 && m.at(3, 2) == 0 && m.at(3, 3) == 1);
    let c = m.cell_fn();
    lemma_row_apply_i64(c, 0, p);
    lemma_row_apply_i64(c, 1, p);
    lemma_row_apply_i64(c, 2, p);
    lemma_row_apply_i64(c, 3, p);
    assert(c(0, 0) == m.at(0, 0) && c(0, 1) == m.at(0, 1) && c(0, 2) == m.at(0, 2) && c(0, 3) == m.at(0, 3));
    assert(c(0, 0) * p.x + c(0, 1) * p.y + c(0, 2) * p.z + c(0, 3) * p.w == p.x + x) by (nonlinear_arith)
        requires
            c(0, 0) == m.at(0, 0) && c(0, 1) == m.at(0, 1) && c(0, 2) == m.at(0, 2) && c(0, 3) == m.at(0, 3),
            m.at(0, 0) == 1 && m.at(0, 1) == 0 && m.at(0, 2) == 0,
            m.at(0, 3) == x,
            p.w == 1,
    ;
    assert(c(1, 0) == m.at(1, 0) && c(1, 1) == m.at(1, 1) && c(1, 2) == m.at(1, 2) && c(1, 3) == m.at(1, 3));
    assert(c(1, 0) * p.x + c(1, 1) * p.y + c(1, 2) * p.z + c(1, 3) * p.w == p.y + y) by (nonlinear_arith)
        requires
            c(1, 0) == m.at(1, 0) && c(1, 1) == m.at(1, 1) && c(1, 2) == m.at(1, 2) && c(1, 3) == m.at(1, 3),
            m.at(1, 0) == 0 && m.at(1, 1) == 1 && m.at(1, 2) == 0,
            m.at(1, 3) == y,
            p.w == 1,
    ;
    assert(c(2, 0) == m.at(2, 0) && c(2, 1) == m.at(2, 1) && c(2, 2) == m.at(2, 2) && c(2, 3) == m.at(2, 3));
    assert(c(2, 0) * p.x + c(2, 1) * p.y + c(2, 2) * p.z + c(2, 3) * p.w == p.z + z) by (nonlinear_arith)
        requires
            c(2, 0) == m.at(2, 0) && c(2, 1) == m.at(2, 1) && c(2, 2) == m.at(2, 2) && c(2, 3) == m.at(2, 3),
            m.at(2, 0) == 0 && m.at(2, 1) == 0 && m.at(2, 2) == 1,
            m.at(2, 3) == z,
            p.w == 1,
    ;
    assert(c(3, 0) == m.at(3, 0) && c(3, 1) == m.at(3, 1) && c(3, 2) == m.at(3, 2) && c(3, 3) == m.at(3, 3));
    assert(c(3, 0) * p.x + c(3, 1) * p.y + c(3, 2) * p.z + c(3, 3) * p.w == 1) by (nonlinear_arith)
        requires
            c(3, 0) == m.at(3, 0) && c(3, 1) == m.at(3, 1) && c(3, 2) == m.at(3, 2) && c(3, 3) == m.at(3, 3),
            m.at(3, 0) == 0 && m.at(3, 1) == 0 && m.at(3, 2) == 0,
            m.at(3, 3) == 1,
            p.w == 1,
    ;
}

} // verus!
