//! A width x height grid of scalars stored row by row in one vector.
//! Here `width` counts rows and `height` counts columns: the entry at
//! `(row, col)` is stored at `row * height + col`.
use crate::tuple::Tuple;
use vstd::prelude::*;
use core::ops::Neg;
use vstd::std_specs::cmp::PartialOrdSpec;
use vstd::std_specs::convert::FromSpec;
use vstd::std_specs::ops::{AddSpec, DivSpec, MulSpec, NegSpec, SubSpec};

verus! {

/// The conditions under which a matrix operation refuses to work.
#[derive(Clone, Copy, Debug, PartialEq, Eq, Structural)]
pub enum MatrixError {
    /// The shapes of the operands do not fit the operation.
    DimensionMismatch,
    /// A row or column lies outside the matrix.
    IndexOutOfRange,
    /// The determinant lies within the tolerance of zero.
    NotInvertible,
}

/// The scalar types that the arithmetic of this module works over: copyable
/// values with `+`, `-`, `*`, unary `-`, and small integer constants.
pub trait Scalar: Copy + core::ops::Add<Output = Self> + core::ops::Sub<Output = Self> + core::ops::Mul<
    Output = Self,
> + core::ops::Neg<Output = Self> + From<i8> {

}

impl<T: Copy + core::ops::Add<Output = T> + core::ops::Sub<Output = T> + core::ops::Mul<
    Output = T,
> + core::ops::Neg<Output = T> + From<i8>> Scalar for T {

}

/// The scalar's zero.
pub open spec fn zero<T: Scalar>() -> T {
    T::from_spec(0i8)
}

/// The scalar's one.
pub open spec fn one<T: Scalar>() -> T {
    T::from_spec(1i8)
}

/// The scalar's `k`.
pub open spec fn constant<T: Scalar>(k: i8) -> T {
    T::from_spec(k)
}

/// Whether `(i, j)` names a cell of a `rows x cols` grid.
pub open spec fn in_grid(i: int, j: int, rows: nat, cols: nat) -> bool {
    0 <= i < rows && 0 <= j < cols
}

/// The flat position of the cell `(i, j)` in a grid with `cols` columns.
pub open spec fn flat(i: int, j: int, cols: nat) -> int {
    i * cols + j
}

/// Every cell of a grid has its own flat position, inside the storage.
pub proof fn lemma_flat_bounds(i: int, j: int, rows: nat, cols: nat)
    requires
        in_grid(i, j, rows, cols),
    ensures
        0 <= flat(i, j, cols) < rows * cols,
{
    assert(0 <= i * cols) by (nonlinear_arith)
        requires
            0 <= i,
    ;
    assert(i * cols + cols <= rows * cols) by (nonlinear_arith)
        requires
            i < rows,
    ;
}

/// The index in the full grid of position `k` once index `removed` is deleted.
pub open spec fn skip(k: int, removed: int) -> int {
    if k < removed {
        k
    } else {
        k + 1
    }
}

/// Cells earlier in row-major order have smaller flat positions.
pub proof fn lemma_flat_order(a: int, b: int, i: int, j: int, cols: nat)
    requires
        0 <= a,
        0 <= b < cols,
        0 <= j,
        a < i || (a == i && b < j),
    ensures
        flat(a, b, cols) < flat(i, j, cols),
{
    if a < i {
        assert(a * cols + cols <= i * cols) by (nonlinear_arith)
            requires
                a < i,
                0 <= cols,
        ;
    }
}

/// Distinct cells have distinct flat positions.
pub proof fn lemma_flat_injective(a: int, b: int, i: int, j: int, cols: nat)
    requires
        0 <= a,
        0 <= i,
        0 <= b < cols,
        0 <= j < cols,
        flat(a, b, cols) == flat(i, j, cols),
    ensures
        a == i,
        b == j,
{
    if a < i {
        lemma_flat_order(a, b, i, j, cols);
    } else if i < a {
        lemma_flat_order(i, j, a, b, cols);
    } else {
    }
}

/// Every position of the storage of a `rows x cols` grid belongs to a cell.
pub proof fn lemma_cell_of(k: int, rows: nat, cols: nat)
    requires
        0 <= k < rows * cols,
    ensures
        in_grid(k / cols as int, k % cols as int, rows, cols),
        flat(k / cols as int, k % cols as int, cols) == k,
{
    assert(cols > 0) by (nonlinear_arith)
        requires
            0 <= k < rows * cols,
    ;
    let i = k / cols as int;
    let j = k % cols as int;
    assert(k == i * cols + j && 0 <= j < cols) by (nonlinear_arith)
        requires
            cols > 0,
            i == k / cols as int,
            j == k % cols as int,
    ;
    assert(0 <= i < rows) by (nonlinear_arith)
        requires
            k == i * cols + j,
            0 <= j < cols,
            0 <= k < rows * cols,
    ;
}

/// The dot product of row `i` of `a` with column `j` of `b` over the first `k`
/// terms, summed from zero in the scalar arithmetic's own operations.
pub open spec fn dot<T: Scalar>(a: &Matrix<T>, b: &Matrix<T>, i: int, j: int, k: nat) -> T
    decreases k,
{
    if k == 0 {
        zero::<T>()
    } else {
        dot(a, b, i, j, (k - 1) as nat).add_spec(a.at(i, k - 1).mul_spec(b.at(k - 1, j)))
    }
}

/// Every step of the dot products of `a`'s rows with `b`'s columns stays
/// within the domain of the scalar operations (no overflow, for integers).
pub open spec fn product_defined<T: Scalar>(a: &Matrix<T>, b: &Matrix<T>) -> bool {
    forall|i: int, j: int, k: nat|
        0 <= i < a.rows() && 0 <= j < b.cols() && k < a.cols() ==> {
            &&& a.at(i, k as int).mul_req(b.at(k as int, j))
            &&& #[trigger] dot(a, b, i, j, k).add_req(a.at(i, k as int).mul_spec(b.at(k as int, j)))
        }
}

/// The cells that remain when row `row` and column `col` are deleted.
pub open spec fn minor_cells<T>(cell: spec_fn(int, int) -> T, row: int, col: int) -> spec_fn(
    int,
    int,
) -> T {
    |i: int, j: int| cell(skip(i, row), skip(j, col))
}

/// `v`, negated when `parity` is odd: the sign of a cofactor.
pub open spec fn signed<T: core::ops::Neg<Output = T>>(v: T, parity: int) -> T {
    if parity % 2 == 1 {
        v.neg_spec()
    } else {
        v
    }
}

/// The determinant of the `n x n` grid `cell`: the entry itself for one cell,
/// `a*d - b*c` for two by two, and otherwise the cofactor expansion along row 0.
pub open spec fn det<T: Scalar>(cell: spec_fn(int, int) -> T, n: nat) -> T
    decreases n, n + 2,
{
    if n <= 1 {
        cell(0, 0)
    } else if n == 2 {
        cell(0, 0).mul_spec(cell(1, 1)).sub_spec(cell(0, 1).mul_spec(cell(1, 0)))
    } else {
        expansion(cell, n, n)
    }
}

/// The sum of the first `c` terms (at least one) of the cofactor expansion of
/// the `n x n` grid `cell` along row 0.
pub open spec fn expansion<T: Scalar>(cell: spec_fn(int, int) -> T, n: nat, c: nat) -> T
    decreases n, c + 1,
{
    if c <= 1 {
        expansion_term(cell, n, 0)
    } else {
        expansion(cell, n, (c - 1) as nat).add_spec(expansion_term(cell, n, c - 1))
    }
}

/// Entry `(0, k)` times its cofactor.
pub open spec fn expansion_term<T: Scalar>(cell: spec_fn(int, int) -> T, n: nat, k: int) -> T
    decreases n, 0nat,
{
    if n == 0 {
        cell(0, k)
    } else {
        cell(0, k).mul_spec(signed(det(minor_cells(cell, 0, k), (n - 1) as nat), k))
    }
}

/// Every step of the determinant's computation stays within the domain of
/// the scalar operations (no overflow, for integers).
pub open spec fn det_defined<T: Scalar>(cell: spec_fn(int, int) -> T, n: nat) -> bool
    decreases n, n + 2,
{
    if n <= 1 {
        true
    } else if n == 2 {
        &&& cell(0, 0).mul_req(cell(1, 1))
        &&& cell(0, 1).mul_req(cell(1, 0))
        &&& cell(0, 0).mul_spec(cell(1, 1)).sub_req(cell(0, 1).mul_spec(cell(1, 0)))
    } else {
        expansion_defined(cell, n, n)
    }
}

/// The first `c` terms of the expansion and their partial sums stay within
/// the domain of the scalar operations.
pub open spec fn expansion_defined<T: Scalar>(cell: spec_fn(int, int) -> T, n: nat, c: nat) -> bool
    decreases n, c + 1,
{
    if c <= 1 {
        term_defined(cell, n, 0)
    } else {
        &&& expansion_defined(cell, n, (c - 1) as nat)
        &&& term_defined(cell, n, c - 1)
        &&& expansion(cell, n, (c - 1) as nat).add_req(expansion_term(cell, n, c - 1))
    }
}

/// Entry `(0, k)` times its cofactor stays within the domain of the scalar operations.
pub open spec fn term_defined<T: Scalar>(cell: spec_fn(int, int) -> T, n: nat, k: int) -> bool
    decreases n, 0nat,
{
    &&& n >= 1
    &&& det_defined(minor_cells(cell, 0, k), (n - 1) as nat)
    &&& k % 2 == 1 ==> det(minor_cells(cell, 0, k), (n - 1) as nat).neg_req()
    &&& cell(0, k).mul_req(signed(det(minor_cells(cell, 0, k), (n - 1) as nat), k))
}

/// The cofactor at `(row, col)` of the `n x n` grid `cell`.
pub open spec fn cofactor<T: Scalar>(cell: spec_fn(int, int) -> T, n: nat, row: int, col: int) -> T {
    signed(det(minor_cells(cell, row, col), (n - 1) as nat), row + col)
}

/// The cofactor at `(row, col)` stays within the domain of the scalar operations.
pub open spec fn cofactor_defined<T: Scalar>(
    cell: spec_fn(int, int) -> T,
    n: nat,
    row: int,
    col: int,
) -> bool {
    &&& det_defined(minor_cells(cell, row, col), (n - 1) as nat)
    &&& (row + col) % 2 == 1 ==> det(minor_cells(cell, row, col), (n - 1) as nat).neg_req()
}

/// Two grids that agree on their first `n x n` cells have the same
/// determinant, defined on the same terms.
pub proof fn lemma_det_agree<T: Scalar>(f: spec_fn(int, int) -> T, g: spec_fn(int, int) -> T, n: nat)
    requires
        forall|i: int, j: int| in_grid(i, j, n, n) ==> #[trigger] f(i, j) == g(i, j),
    ensures
        n >= 1 ==> det(f, n) == det(g, n),
        n >= 1 ==> det_defined(f, n) == det_defined(g, n),
    decreases n, n + 2,
{
    if n >= 3 {
        lemma_expansion_agree(f, g, n, n);
    } else if n >= 1 {
        assert(f(0, 0) == g(0, 0));
        if n == 2 {
            assert(f(0, 1) == g(0, 1));
            assert(f(1, 0) == g(1, 0));
            assert(f(1, 1) == g(1, 1));
        }
    }
}

proof fn lemma_expansion_agree<T: Scalar>(
    f: spec_fn(int, int) -> T,
    g: spec_fn(int, int) -> T,
    n: nat,
    c: nat,
)
    requires
        n >= 2,
        c <= n,
        forall|i: int, j: int| in_grid(i, j, n, n) ==> #[trigger] f(i, j) == g(i, j),
    ensures
        expansion(f, n, c) == expansion(g, n, c),
        expansion_defined(f, n, c) == expansion_defined(g, n, c),
    decreases n, c + 1,
{
    if c > 1 {
        lemma_expansion_agree(f, g, n, (c - 1) as nat);
    }
    let k: int = if c <= 1 {
        0
    } else {
        c - 1
    };
    let fm = minor_cells(f, 0, k);
    let gm = minor_cells(g, 0, k);
    assert forall|i: int, j: int| in_grid(i, j, (n - 1) as nat, (n - 1) as nat) implies #[trigger] fm(
        i,
        j,
    ) == gm(i, j) by {
        assert(f(skip(i, 0), skip(j, k)) == g(skip(i, 0), skip(j, k)));
    }
    lemma_det_agree(fm, gm, (n - 1) as nat);
    assert(f(0, k) == g(0, k));
    assert(det(fm, (n - 1) as nat) == det(gm, (n - 1) as nat));
    assert(expansion_term(f, n, k) == expansion_term(g, n, k));
    assert(term_defined(f, n, k) == term_defined(g, n, k));
}

/// A prefix of an expansion whose computation stays in the scalar domain does too.
proof fn lemma_expansion_defined_prefix<T: Scalar>(cell: spec_fn(int, int) -> T, n: nat, c: nat, d: nat)
    requires
        1 <= d <= c,
        expansion_defined(cell, n, c),
    ensures
        expansion_defined(cell, n, d),
        term_defined(cell, n, d - 1),
        d > 1 ==> expansion(cell, n, (d - 1) as nat).add_req(expansion_term(cell, n, d - 1)),
    decreases c,
{
    if d < c {
        lemma_expansion_defined_prefix(cell, n, (c - 1) as nat, d);
    }
}

/// `v` lies within `tolerance` of zero: `-tolerance <= v <= tolerance` in the
/// scalar's own order.
pub open spec fn within<T: Scalar + PartialOrd>(v: T, tolerance: T) -> bool {
    &&& tolerance.neg_spec().partial_cmp_spec(&v) matches Some(
        core::cmp::Ordering::Less
        | core::cmp::Ordering::Equal,
    )
    &&& v.partial_cmp_spec(&tolerance) matches Some(
        core::cmp::Ordering::Less
        | core::cmp::Ordering::Equal,
    )
}

/// The arithmetic that the cofactor algorithm relies on follows the
/// specification that vstd gives it.
pub open spec fn exact_arithmetic<T: Scalar>() -> bool {
    &&& T::obeys_from_spec()
    &&& T::obeys_add_spec()
    &&& T::obeys_sub_spec()
    &&& T::obeys_mul_spec()
    &&& T::obeys_neg_spec()
}

/// Every cofactor of the `n x n` grid `cell` can be computed within the
/// domain of the scalar operations.
pub open spec fn cofactors_defined<T: Scalar>(cell: spec_fn(int, int) -> T, n: nat) -> bool {
    forall|i: int, j: int| in_grid(i, j, n, n) ==> #[trigger] cofactor_defined(cell, n, i, j)
}

/// Row `i` of the grid `cell` times the tuple `t` read as a column, summed
/// from zero left to right.
pub open spec fn row_apply<T: Scalar>(cell: spec_fn(int, int) -> T, i: int, t: Tuple<T>) -> T {
    zero::<T>().add_spec(cell(i, 0).mul_spec(t.x)).add_spec(cell(i, 1).mul_spec(t.y)).add_spec(
        cell(i, 2).mul_spec(t.z),
    ).add_spec(cell(i, 3).mul_spec(t.w))
}

/// The 4 x 4 grid `cell` applied to the tuple `t`.
pub open spec fn transform<T: Scalar>(cell: spec_fn(int, int) -> T, t: Tuple<T>) -> Tuple<T> {
    Tuple {
        x: row_apply(cell, 0, t),
        y: row_apply(cell, 1, t),
        z: row_apply(cell, 2, t),
        w: row_apply(cell, 3, t),
    }
}

/// Row `i` of `cell` applied to `t` stays within the domain of the scalar operations.
pub open spec fn row_apply_defined<T: Scalar>(cell: spec_fn(int, int) -> T, i: int, t: Tuple<T>) -> bool {
    &&& cell(i, 0).mul_req(t.x) && cell(i, 1).mul_req(t.y)
    &&& cell(i, 2).mul_req(t.z) && cell(i, 3).mul_req(t.w)
    &&& zero::<T>().add_req(cell(i, 0).mul_spec(t.x))
    &&& zero::<T>().add_spec(cell(i, 0).mul_spec(t.x)).add_req(cell(i, 1).mul_spec(t.y))
    &&& zero::<T>().add_spec(cell(i, 0).mul_spec(t.x)).add_spec(cell(i, 1).mul_spec(t.y)).add_req(
        cell(i, 2).mul_spec(t.z),
    )
    &&& zero::<T>().add_spec(cell(i, 0).mul_spec(t.x)).add_spec(cell(i, 1).mul_spec(t.y)).add_spec(
        cell(i, 2).mul_spec(t.z),
    ).add_req(cell(i, 3).mul_spec(t.w))
}

/// Applying `cell` to `t` stays within the domain of the scalar operations.
pub open spec fn transform_defined<T: Scalar>(cell: spec_fn(int, int) -> T, t: Tuple<T>) -> bool {
    &&& row_apply_defined(cell, 0, t)
    &&& row_apply_defined(cell, 1, t)
    &&& row_apply_defined(cell, 2, t)
    &&& row_apply_defined(cell, 3, t)
}

/// A matrix of entries of type `T`: `width` rows and `height` columns.
#[derive(Debug, PartialEq)]
pub struct Matrix<T> {
    width: usize,
    height: usize,
    data: Vec<T>,
}

impl<T: Copy> Clone for Matrix<T> {
    fn clone(&self) -> (r: Self)
        ensures
            r.same(self),
    {
        proof {
            use_type_invariant(self);
        }
        Matrix { width: self.width, height: self.height, data: self.values() }
    }
}

impl<T> Matrix<T> {
    #[verifier::type_invariant]
    spec fn storage_fits(&self) -> bool {
        self.data@.len() == self.width * self.height
    }

    /// Number of rows.
    pub closed spec fn rows(&self) -> nat {
        self.width as nat
    }

    /// Number of columns.
    pub closed spec fn cols(&self) -> nat {
        self.height as nat
    }

    /// The entries in row-major order.
    pub closed spec fn entries(&self) -> Seq<T> {
        self.data@
    }

    /// The entry in row `i` and column `j`.
    pub open spec fn at(&self, i: int, j: int) -> T {
        self.entries()[flat(i, j, self.cols())]
    }

    /// The matrix has `rows x cols` cells and storage for exactly those.
    pub open spec fn has_shape(&self, rows: nat, cols: nat) -> bool {
        &&& self.rows() == rows
        &&& self.cols() == cols
        &&& self.entries().len() == rows * cols
    }

    /// Same shape as `other`, with equal entries.
    pub open spec fn same(&self, other: &Matrix<T>) -> bool {
        &&& self.rows() == other.rows()
        &&& self.cols() == other.cols()
        &&& self.entries() == other.entries()
    }

    /// Two matrices of one shape that agree on every cell are the same.
    pub proof fn lemma_same_cells(&self, other: &Matrix<T>)
        requires
            self.has_shape(other.rows(), other.cols()),
            other.has_shape(other.rows(), other.cols()),
            forall|i: int, j: int|
                in_grid(i, j, other.rows(), other.cols()) ==> #[trigger] self.at(i, j) == other.at(
                    i,
                    j,
                ),
        ensures
            self.same(other),
    {
        assert forall|k: int| 0 <= k < self.entries().len() implies self.entries()[k]
            == other.entries()[k] by {
            lemma_cell_of(k, other.rows(), other.cols());
            assert(self.at(k / other.cols() as int, k % other.cols() as int) == other.at(
                k / other.cols() as int,
                k % other.cols() as int,
            ));
        }
        assert(self.entries() =~= other.entries());
    }

    /// The cells as a function of row and column.
    pub open spec fn cell_fn(&self) -> spec_fn(int, int) -> T {
        |i: int, j: int| self.at(i, j)
    }

    /// Number of rows.
    pub fn width(&self) -> (r: usize)
        ensures
            r == self.rows(),
            self.has_shape(self.rows(), self.cols()),
    {
        proof {
            use_type_invariant(self);
        }
        self.width
    }

    /// Number of columns.
    pub fn height(&self) -> (r: usize)
        ensures
            r == self.cols(),
            self.has_shape(self.rows(), self.cols()),
    {
        proof {
            use_type_invariant(self);
        }
        self.height
    }

    /// A copy of the entries in row-major order.
    pub fn values(&self) -> (r: Vec<T>)
        where
            T: Copy,
        ensures
            r@ == self.entries(),
    {
        let mut out: Vec<T> = Vec::new();
        let mut k: usize = 0;
        while k < self.data.len()
            invariant
                k <= self.data@.len(),
                out@ == self.data@.subrange(0, k as int),
            decreases self.data@.len() - k,
        {
            out.push(self.data[k]);
            k += 1;
            proof {
                assert(out@ =~= self.data@.subrange(0, k as int));
            }
        }
        proof {
            assert(out@ =~= self.data@);
        }
        out
    }

    /// Builds a `rows x cols` matrix whose entry `(i, j)` is `f(i, j)`.
    fn tabulate<F: Fn(usize, usize) -> T>(rows: usize, cols: usize, f: F) -> (r: Matrix<T>)
        requires
            rows * cols <= usize::MAX,
            forall|i: usize, j: usize| i < rows && j < cols ==> f.requires((i, j)),
        ensures
            r.has_shape(rows as nat, cols as nat),
            forall|i: int, j: int|
                in_grid(i, j, rows as nat, cols as nat) ==> f.ensures(
                    (i as usize, j as usize),
                    #[trigger] r.at(i, j),
                ),
    {
        let mut data: Vec<T> = Vec::new();
        let mut i: usize = 0;
        while i < rows
            invariant
                i <= rows,
                rows * cols <= usize::MAX,
                forall|i: usize, j: usize| i < rows && j < cols ==> f.requires((i, j)),
                data@.len() == i * cols,
                forall|a: int, b: int|
                    0 <= a < i && 0 <= b < cols ==> f.ensures(
                        (a as usize, b as usize),
                        #[trigger] data@[flat(a, b, cols as nat)],
                    ),
            decreases rows - i,
        {
            let mut j: usize = 0;
            while j < cols
                invariant
                    i < rows,
                    j <= cols,
                    rows * cols <= usize::MAX,
                    forall|i: usize, j: usize| i < rows && j < cols ==> f.requires((i, j)),
                    data@.len() == i * cols + j,
                    forall|a: int, b: int|
                        (0 <= a < i && 0 <= b < cols) || (a == i && 0 <= b < j) ==> f.ensures(
                            (a as usize, b as usize),
                            #[trigger] data@[flat(a, b, cols as nat)],
                        ),
                decreases cols - j,
            {
                proof {
                    lemma_flat_bounds(i as int, j as int, rows as nat, cols as nat);
                }
                let v = f(i, j);
                let ghost before = data@;
                data.push(v);
                proof {
                    assert forall|a: int, b: int|
                        (0 <= a < i && 0 <= b < cols) || (a == i && 0 <= b < j + 1) implies f.ensures(
                            (a as usize, b as usize),
                            #[trigger] data@[flat(a, b, cols as nat)],
                        ) by {
                        if a == i && b == j {
                        } else {
                            lemma_flat_order(a, b, i as int, j as int, cols as nat);
                            assert(data@[flat(a, b, cols as nat)] == before[flat(a, b, cols as nat)]);
                        }
                    }
                }
                j += 1;
            }
            proof {
                assert((i + 1) * cols == i * cols + cols) by (nonlinear_arith);
            }
            i += 1;
        }
        Matrix { width: rows, height: cols, data }
    }

    /// A `width x height` matrix of zeros.
    pub fn size(width: usize, height: usize) -> (r: Matrix<T>)
        where
            T: Scalar,
        requires
            width * height <= usize::MAX,
        ensures
            r.has_shape(width as nat, height as nat),
            T::obeys_from_spec() ==> forall|i: int, j: int|
                in_grid(i, j, width as nat, height as nat) ==> #[trigger] r.at(i, j) == zero::<T>(),
    {
        let zero = T::from(0i8);
        Self::tabulate(width, height, |i: usize, j: usize| -> (v: T)
            ensures
                v == zero,
            { zero })
    }

    /// A matrix of the given shape over the row-major `data`; refused when
    /// `data` does not hold exactly `width * height` entries.
    pub fn new(width: usize, height: usize, data: Vec<T>) -> (r: Result<Matrix<T>, MatrixError>)
        ensures
            match r {
                Ok(m) => {
                    &&& data@.len() == width * height
                    &&& m.has_shape(width as nat, height as nat)
                    &&& m.entries() == data@
                },
                Err(e) => e == MatrixError::DimensionMismatch && data@.len() != width * height,
            },
    {
        let len = data.len();
        match width.checked_mul(height) {
            Some(n) => {
                if len == n {
                    Ok(Matrix { width, height, data })
                } else {
                    Err(MatrixError::DimensionMismatch)
                }
            },
            None => {
                Err(MatrixError::DimensionMismatch)
            },
        }
    }

    /// A matrix of the same shape as `self` with ones on the diagonal and
    /// zeros elsewhere.
    pub fn identity(&self) -> (r: Matrix<T>)
        where
            T: Scalar,
        ensures
            r.has_shape(self.rows(), self.cols()),
            T::obeys_from_spec() ==> forall|i: int, j: int|
                in_grid(i, j, self.rows(), self.cols()) ==> #[trigger] r.at(i, j) == if i == j {
                    one::<T>()
                } else {
                    zero::<T>()
                },
    {
        let zero = T::from(0i8);
        let one = T::from(1i8);
        proof {
            use_type_invariant(self);
        }
        let _ = self.data.len();
        Self::tabulate(self.width, self.height, |i: usize, j: usize| -> (v: T)
            ensures
                v == if i == j {
                    one
                } else {
                    zero
                },
            {
                if i == j {
                    one
                } else {
                    zero
                }
            })
    }

    /// The `n x n` identity matrix.
    pub fn identity_matrix(n: usize) -> (r: Matrix<T>)
        where
            T: Scalar,
        requires
            n * n <= usize::MAX,
        ensures
            r.has_shape(n as nat, n as nat),
            T::obeys_from_spec() ==> forall|i: int, j: int|
                in_grid(i, j, n as nat, n as nat) ==> #[trigger] r.at(i, j) == if i == j {
                    one::<T>()
                } else {
                    zero::<T>()
                },
    {
        let zero = T::from(0i8);
        let one = T::from(1i8);
        Self::tabulate(n, n, |i: usize, j: usize| -> (v: T)
            ensures
                v == if i == j {
                    one
                } else {
                    zero
                },
            {
                if i == j {
                    one
                } else {
                    zero
                }
            })
    }

    /// The entry at `(row, col)`, or `IndexOutOfRange` outside the matrix.
    pub fn get(&self, row: usize, col: usize) -> (r: Result<T, MatrixError>)
        where
            T: Copy,
        ensures
            match r {
                Ok(v) => in_grid(row as int, col as int, self.rows(), self.cols()) && v == self.at(
                    row as int,
                    col as int,
                ),
                Err(e) => e == MatrixError::IndexOutOfRange && !in_grid(
                    row as int,
                    col as int,
                    self.rows(),
                    self.cols(),
                ),
            },
    {
        proof {
            use_type_invariant(self);
        }
        let _ = self.data.len();
        if row < self.width && col < self.height {
            proof {
                lemma_flat_bounds(row as int, col as int, self.rows(), self.cols());
            }
            Ok(self.data[row * self.height + col])
        } else {
            Err(MatrixError::IndexOutOfRange)
        }
    }

    /// Overwrites the entry at `(row, col)`; outside the matrix nothing changes
    /// and `IndexOutOfRange` is returned.
    pub fn set(&mut self, row: usize, col: usize, value: T) -> (r: Result<(), MatrixError>)
        where
            T: Copy,
        ensures
            final(self).rows() == old(self).rows(),
            final(self).cols() == old(self).cols(),
            final(self).entries().len() == old(self).rows() * old(self).cols(),
            match r {
                Ok(_) => {
                    &&& in_grid(row as int, col as int, old(self).rows(), old(self).cols())
                    &&& final(self).entries() == old(self).entries().update(
                        flat(row as int, col as int, old(self).cols()),
                        value,
                    )
                },
                Err(e) => {
                    &&& e == MatrixError::IndexOutOfRange
                    &&& !in_grid(row as int, col as int, old(self).rows(), old(self).cols())
                    &&& final(self).entries() == old(self).entries()
                },
            },
    {
        proof {
            use_type_invariant(&*self);
        }
        let _ = self.data.len();
        if row < self.width && col < self.height {
            let w = self.width;
            let h = self.height;
            let data = &self.data;
            let m = Self::tabulate(w, h, |i: usize, j: usize| -> (v: T)
                requires
                    i < w,
                    j < h,
                    data@.len() == w * h,
                    w * h <= usize::MAX,
                ensures
                    v == if i == row && j == col {
                        value
                    } else {
                        data@[flat(i as int, j as int, h as nat)]
                    },
                {
                    if i == row && j == col {
                        value
                    } else {
                        proof {
                            lemma_flat_bounds(i as int, j as int, w as nat, h as nat);
                        }
                        data[i * h + j]
                    }
                });
            proof {
                let updated = old(self).entries().update(flat(row as int, col as int, h as nat), value);
                lemma_flat_bounds(row as int, col as int, w as nat, h as nat);
                assert forall|k: int| 0 <= k < updated.len() implies m.entries()[k] == updated[k] by {
                    lemma_cell_of(k, w as nat, h as nat);
                    let i = k / h as int;
                    let j = k % h as int;
                    assert(m.at(i, j) == m.entries()[k]);
                    if i == row && j == col {
                    } else {
                        if k == flat(row as int, col as int, h as nat) {
                            lemma_flat_injective(i, j, row as int, col as int, h as nat);
                        }
                    }
                }
                assert(m.entries() =~= updated);
            }
            *self = m;
            Ok(())
        } else {
            Err(MatrixError::IndexOutOfRange)
        }
    }

    /// Rows become columns: entry `(i, j)` of the result is entry `(j, i)` of `self`.
    pub fn transpose(&self) -> (r: Matrix<T>)
        where
            T: Copy,
        ensures
            r.has_shape(self.cols(), self.rows()),
            forall|i: int, j: int|
                in_grid(i, j, self.cols(), self.rows()) ==> #[trigger] r.at(i, j) == self.at(j, i),
    {
        proof {
            use_type_invariant(self);
        }
        let w = self.width;
        let h = self.height;
        let data = &self.data;
        let _ = data.len();
        proof {
            assert(h * w == w * h) by (nonlinear_arith);
        }
        Self::tabulate(h, w, |i: usize, j: usize| -> (v: T)
            requires
                i < h,
                j < w,
                data@.len() == w * h,
                w * h <= usize::MAX,
            ensures
                v == data@[flat(j as int, i as int, h as nat)],
            {
                proof {
                    lemma_flat_bounds(j as int, i as int, w as nat, h as nat);
                }
                data[j * h + i]
            })
    }

    /// The matrix left when row `row` and column `col` are deleted.
    pub fn submatrix(&self, row: usize, col: usize) -> (r: Result<Matrix<T>, MatrixError>)
        where
            T: Copy,
        ensures
            match r {
                Ok(m) => {
                    &&& in_grid(row as int, col as int, self.rows(), self.cols())
                    &&& m.has_shape((self.rows() - 1) as nat, (self.cols() - 1) as nat)
                    &&& forall|i: int, j: int|
                        in_grid(i, j, m.rows(), m.cols()) ==> #[trigger] m.at(i, j) == self.at(
                            skip(i, row as int),
                            skip(j, col as int),
                        )
                },
                Err(e) => e == MatrixError::IndexOutOfRange && !in_grid(
                    row as int,
                    col as int,
                    self.rows(),
                    self.cols(),
                ),
            },
    {
        proof {
            use_type_invariant(self);
        }
        if row >= self.width || col >= self.height {
            return Err(MatrixError::IndexOutOfRange);
        }
        let w = self.width;
        let h = self.height;
        let data = &self.data;
        let _ = data.len();
        proof {
            assert((w - 1) * (h - 1) <= w * h) by (nonlinear_arith)
                requires
                    w >= 1,
                    h >= 1,
            ;
        }
        Ok(
            Self::tabulate(w - 1, h - 1, |i: usize, j: usize| -> (v: T)
                requires
                    i < w - 1,
                    j < h - 1,
                    row < w,
                    col < h,
                    data@.len() == w * h,
                    w * h <= usize::MAX,
                ensures
                    v == data@[flat(skip(i as int, row as int), skip(j as int, col as int), h as nat)],
                {
                    let si: usize = if i < row {
                        i
                    } else {
                        i + 1
                    };
                    let sj: usize = if j < col {
                        j
                    } else {
                        j + 1
                    };
                    proof {
                        lemma_flat_bounds(si as int, sj as int, w as nat, h as nat);
                    }
                    data[si * h + sj]
                }),
        )
    }

    /// Entry-wise sum; `DimensionMismatch` unless both shapes are equal.
    pub fn add(&self, other: &Matrix<T>) -> (r: Result<Matrix<T>, MatrixError>)
        where
            T: Copy + core::ops::Add<Output = T>,
        requires
            self.rows() == other.rows() && self.cols() == other.cols() ==> forall|i: int, j: int|
                in_grid(i, j, self.rows(), self.cols()) ==> #[trigger] self.at(i, j).add_req(
                    other.at(i, j),
                ),
        ensures
            match r {
                Ok(m) => {
                    &&& self.rows() == other.rows() && self.cols() == other.cols()
                    &&& m.has_shape(self.rows(), self.cols())
                    &&& forall|i: int, j: int|
                        in_grid(i, j, self.rows(), self.cols()) ==> T::obeys_add_spec() ==> #[trigger] m.at(
                            i,
                            j,
                        ) == self.at(i, j).add_spec(other.at(i, j))
                },
                Err(e) => e == MatrixError::DimensionMismatch && (self.rows() != other.rows()
                    || self.cols() != other.cols()),
            },
    {
        proof {
            use_type_invariant(self);
            use_type_invariant(other);
        }
        if self.width != other.width || self.height != other.height {
            return Err(MatrixError::DimensionMismatch);
        }
        let w = self.width;
        let h = self.height;
        let a = &self.data;
        let b = &other.data;
        let _ = a.len();
        Ok(
            Self::tabulate(w, h, |i: usize, j: usize| -> (v: T)
                requires
                    i < w,
                    j < h,
                    a@.len() == w * h,
                    b@.len() == w * h,
                    w * h <= usize::MAX,
                    a@ == self.entries(),
                    b@ == other.entries(),
                    self.cols() == h,
                    forall|i: int, j: int|
                        in_grid(i, j, w as nat, h as nat) ==> #[trigger] self.at(i, j).add_req(
                            other.at(i, j),
                        ),
                ensures
                    T::obeys_add_spec() ==> v == a@[flat(i as int, j as int, h as nat)].add_spec(
                        b@[flat(i as int, j as int, h as nat)],
                    ),
                {
                    proof {
                        lemma_flat_bounds(i as int, j as int, w as nat, h as nat);
                    }
                    assert(self.at(i as int, j as int).add_req(other.at(i as int, j as int)));
                    let k = i * h + j;
                    a[k] + b[k]
                }),
        )
    }

    /// Entry-wise difference; `DimensionMismatch` unless both shapes are equal.
    pub fn subtract(&self, other: &Matrix<T>) -> (r: Result<Matrix<T>, MatrixError>)
        where
            T: Copy + core::ops::Sub<Output = T>,
        requires
            self.rows() == other.rows() && self.cols() == other.cols() ==> forall|i: int, j: int|
                in_grid(i, j, self.rows(), self.cols()) ==> #[trigger] self.at(i, j).sub_req(
                    other.at(i, j),
                ),
        ensures
            match r {
                Ok(m) => {
                    &&& self.rows() == other.rows() && self.cols() == other.cols()
                    &&& m.has_shape(self.rows(), self.cols())
                    &&& forall|i: int, j: int|
                        in_grid(i, j, self.rows(), self.cols()) ==> T::obeys_sub_spec() ==> #[trigger] m.at(
                            i,
                            j,
                        ) == self.at(i, j).sub_spec(other.at(i, j))
                },
                Err(e) => e == MatrixError::DimensionMismatch && (self.rows() != other.rows()
                    || self.cols() != other.cols()),
            },
    {
        proof {
            use_type_invariant(self);
            use_type_invariant(other);
        }
        if self.width != other.width || self.height != other.height {
            return Err(MatrixError::DimensionMismatch);
        }
        let w = self.width;
        let h = self.height;
        let a = &self.data;
        let b = &other.data;
        let _ = a.len();
        Ok(
            Self::tabulate(w, h, |i: usize, j: usize| -> (v: T)
                requires
                    i < w,
                    j < h,
                    a@.len() == w * h,
                    b@.len() == w * h,
                    w * h <= usize::MAX,
                    a@ == self.entries(),
                    b@ == other.entries(),
                    self.cols() == h,
                    forall|i: int, j: int|
                        in_grid(i, j, w as nat, h as nat) ==> #[trigger] self.at(i, j).sub_req(
                            other.at(i, j),
                        ),
                ensures
                    T::obeys_sub_spec() ==> v == a@[flat(i as int, j as int, h as nat)].sub_spec(
                        b@[flat(i as int, j as int, h as nat)],
                    ),
                {
                    proof {
                        lemma_flat_bounds(i as int, j as int, w as nat, h as nat);
                    }
                    assert(self.at(i as int, j as int).sub_req(other.at(i as int, j as int)));
                    let k = i * h + j;
                    a[k] - b[k]
                }),
        )
    }

    /// Every entry multiplied by the scalar `k`.
    pub fn scale(&self, k: T) -> (r: Matrix<T>)
        where
            T: Copy + core::ops::Mul<Output = T>,
        requires
            forall|i: int, j: int|
                in_grid(i, j, self.rows(), self.cols()) ==> #[trigger] self.at(i, j).mul_req(k),
        ensures
            r.has_shape(self.rows(), self.cols()),
            forall|i: int, j: int|
                in_grid(i, j, self.rows(), self.cols()) ==> T::obeys_mul_spec() ==> #[trigger] r.at(i, j)
                    == self.at(i, j).mul_spec(k),
    {
        proof {
            use_type_invariant(self);
        }
        let w = self.width;
        let h = self.height;
        let a = &self.data;
        let _ = a.len();
        Self::tabulate(w, h, |i: usize, j: usize| -> (v: T)
            requires
                i < w,
                j < h,
                a@.len() == w * h,
                w * h <= usize::MAX,
                a@ == self.entries(),
                self.cols() == h,
                forall|i: int, j: int|
                    in_grid(i, j, w as nat, h as nat) ==> #[trigger] self.at(i, j).mul_req(k),
            ensures
                T::obeys_mul_spec() ==> v == a@[flat(i as int, j as int, h as nat)].mul_spec(k),
            {
                proof {
                    lemma_flat_bounds(i as int, j as int, w as nat, h as nat);
                }
                assert(self.at(i as int, j as int).mul_req(k));
                a[i * h + j] * k
            })
    }

    /// The dot product of row `i` of `self` with column `j` of `other`.
    fn row_times_col(&self, other: &Matrix<T>, i: usize, j: usize) -> (r: T)
        where
            T: Scalar,
        requires
            exact_arithmetic::<T>(),
            self.cols() == other.rows(),
            i < self.rows(),
            j < other.cols(),
            product_defined(self, other),
        ensures
            r == dot(self, other, i as int, j as int, self.cols()),
    {
        proof {
            use_type_invariant(self);
            use_type_invariant(other);
        }
        let n = self.height;
        let _ = self.data.len();
        let _ = other.data.len();
        let mut sum = T::from(0i8);
        let mut k: usize = 0;
        while k < n
            invariant
                k <= n,
                n == self.cols(),
                self.has_shape(self.rows(), self.cols()),
                other.has_shape(other.rows(), other.cols()),
                self.entries().len() <= usize::MAX,
                other.entries().len() <= usize::MAX,
                self.cols() == other.rows(),
                i < self.rows(),
                j < other.cols(),
                exact_arithmetic::<T>(),
                product_defined(self, other),
                sum == dot(self, other, i as int, j as int, k as nat),
            decreases n - k,
        {
            proof {
                lemma_flat_bounds(i as int, k as int, self.rows(), self.cols());
                lemma_flat_bounds(k as int, j as int, other.rows(), other.cols());
                assert(dot(self, other, i as int, j as int, k as nat).add_req(
                    self.at(i as int, k as int).mul_spec(other.at(k as int, j as int)),
                ));
                assert(self.at(i as int, k as int).mul_req(other.at(k as int, j as int)));
            }
            let p = self.data[i * n + k] * other.data[k * other.height + j];
            sum = sum + p;
            k += 1;
        }
        sum
    }

    /// The matrix product `self * other`: `self.height` must equal
    /// `other.width`, else `DimensionMismatch`. The result has `self`'s rows
    /// and `other`'s columns; each entry is the dot product of a row of `self`
    /// with a column of `other`, summed from zero.
    pub fn multiply(&self, other: &Matrix<T>) -> (r: Result<Matrix<T>, MatrixError>)
        where
            T: Scalar,
        requires
            exact_arithmetic::<T>(),
            self.rows() * other.cols() <= usize::MAX,
            self.cols() == other.rows() ==> product_defined(self, other),
        ensures
            match r {
                Ok(m) => {
                    &&& self.cols() == other.rows()
                    &&& m.has_shape(self.rows(), other.cols())
                    &&& forall|i: int, j: int|
                        in_grid(i, j, self.rows(), other.cols()) ==> #[trigger] m.at(i, j) == dot(
                            self,
                            other,
                            i,
                            j,
                            self.cols(),
                        )
                },
                Err(e) => e == MatrixError::DimensionMismatch && self.cols() != other.rows(),
            },
    {
        proof {
            use_type_invariant(self);
            use_type_invariant(other);
        }
        if self.height != other.width {
            return Err(MatrixError::DimensionMismatch);
        }
        let rows = self.width;
        let cols = other.height;
        Ok(
            Self::tabulate(rows, cols, |i: usize, j: usize| -> (v: T)
                requires
                    i < rows,
                    j < cols,
                    rows == self.rows(),
                    cols == other.cols(),
                    self.cols() == other.rows(),
                    exact_arithmetic::<T>(),
                    product_defined(self, other),
                ensures
                    v == dot(self, other, i as int, j as int, self.cols()),
                { self.row_times_col(other, i, j) }),
        )
    }

    /// The cofactor at `(row, col)` of a square matrix of size two or more.
    fn cofactor_of(&self, row: usize, col: usize) -> (r: T)
        where
            T: Scalar,
        requires
            T::obeys_add_spec(),
            T::obeys_sub_spec(),
            T::obeys_mul_spec(),
            T::obeys_neg_spec(),
            self.rows() == self.cols(),
            self.rows() >= 2,
            row < self.rows(),
            col < self.cols(),
            cofactor_defined(self.cell_fn(), self.rows(), row as int, col as int),
        ensures
            r == cofactor(self.cell_fn(), self.rows(), row as int, col as int),
        decreases self.rows(), 0nat,
    {
        proof {
            use_type_invariant(self);
        }
        match self.submatrix(row, col) {
            Ok(sub) => {
                let ghost n = self.rows();
                let ghost target = minor_cells(self.cell_fn(), row as int, col as int);
                proof {
                    assert forall|i: int, j: int| in_grid(i, j, (n - 1) as nat, (n - 1) as nat) implies #[trigger] sub.cell_fn()(
                        i,
                        j,
                    ) == target(i, j) by {
                        assert(sub.at(i, j) == self.at(skip(i, row as int), skip(j, col as int)));
                    }
                    lemma_det_agree(sub.cell_fn(), target, (n - 1) as nat);
                }
                let d = sub.det_square();
                if row % 2 != col % 2 {
                    d.neg()
                } else {
                    d
                }
            },
            Err(_) => {
                proof {
                    assert(false);
                }
                self.data[0]
            },
        }
    }

    /// The determinant of a square matrix with at least one row.
    fn det_square(&self) -> (r: T)
        where
            T: Scalar,
        requires
            T::obeys_add_spec(),
            T::obeys_sub_spec(),
            T::obeys_mul_spec(),
            T::obeys_neg_spec(),
            self.rows() == self.cols(),
            self.rows() >= 1,
            det_defined(self.cell_fn(), self.rows()),
        ensures
            r == det(self.cell_fn(), self.rows()),
        decreases self.rows(), 1nat,
    {
        proof {
            use_type_invariant(self);
        }
        let n = self.width;
        let _ = self.data.len();
        if n == 1 {
            proof {
                lemma_flat_bounds(0, 0, 1, 1);
            }
            self.data[0]
        } else if n == 2 {
            proof {
                assert(self.width * self.height == 4) by (nonlinear_arith)
                    requires
                        self.width == 2,
                        self.height == 2,
                ;
                assert(self.at(0, 0) == self.data@[0]);
                assert(self.at(0, 1) == self.data@[1]);
                assert(self.at(1, 0) == self.data@[2]);
                assert(self.at(1, 1) == self.data@[3]);
            }
            self.data[0] * self.data[3] - self.data[1] * self.data[2]
        } else {
            let ghost cell = self.cell_fn();
            proof {
                lemma_expansion_defined_prefix(cell, n as nat, n as nat, 1);
                lemma_flat_bounds(0, 0, n as nat, n as nat);
            }
            let first = self.data[0];
            let cof = self.cofactor_of(0, 0);
            proof {
                assert(first == self.at(0, 0));
                assert(cof == signed(det(minor_cells(cell, 0, 0), (n - 1) as nat), 0));
                assert(expansion(cell, n as nat, 1) == expansion_term(cell, n as nat, 0));
                assert(term_defined(cell, n as nat, 0));
            }
            let mut sum = first * cof;
            let mut c: usize = 1;
            while c < n
                invariant
                    1 <= c <= n,
                    n == self.rows(),
                    n == self.cols(),
                    n >= 3,
                    cell == self.cell_fn(),
                    self.has_shape(n as nat, n as nat),
                    T::obeys_add_spec(),
                    T::obeys_sub_spec(),
                    T::obeys_mul_spec(),
                    T::obeys_neg_spec(),
                    expansion_defined(cell, n as nat, n as nat),
                    sum == expansion(cell, n as nat, c as nat),
                decreases n - c,
            {
                proof {
                    lemma_expansion_defined_prefix(cell, n as nat, n as nat, (c + 1) as nat);
                    lemma_flat_bounds(0, c as int, n as nat, n as nat);
                }
                let t = self.data[c] * self.cofactor_of(0, c);
                sum = sum + t;
                c += 1;
            }
            sum
        }
    }

    /// The determinant; `DimensionMismatch` unless the matrix is square with
    /// at least one row.
    pub fn determinant(&self) -> (r: Result<T, MatrixError>)
        where
            T: Scalar,
        requires
            T::obeys_add_spec(),
            T::obeys_sub_spec(),
            T::obeys_mul_spec(),
            T::obeys_neg_spec(),
            self.rows() == self.cols() ==> det_defined(self.cell_fn(), self.rows()),
        ensures
            match r {
                Ok(d) => self.rows() == self.cols() && self.rows() >= 1 && d == det(
                    self.cell_fn(),
                    self.rows(),
                ),
                Err(e) => e == MatrixError::DimensionMismatch && (self.rows() != self.cols()
                    || self.rows() == 0),
            },
    {
        if self.width() != self.height() || self.width() == 0 {
            Err(MatrixError::DimensionMismatch)
        } else {
            Ok(self.det_square())
        }
    }

    /// The determinant of the submatrix without row `row` and column `col`.
    /// `DimensionMismatch` unless the matrix is square with at least two rows;
    /// then `IndexOutOfRange` unless `(row, col)` lies inside it.
    pub fn minor(&self, row: usize, col: usize) -> (r: Result<T, MatrixError>)
        where
            T: Scalar,
        requires
            T::obeys_add_spec(),
            T::obeys_sub_spec(),
            T::obeys_mul_spec(),
            T::obeys_neg_spec(),
            self.rows() == self.cols() && in_grid(row as int, col as int, self.rows(), self.cols())
                ==> det_defined(minor_cells(self.cell_fn(), row as int, col as int), (self.rows() - 1) as nat),
        ensures
            match r {
                Ok(d) => {
                    &&& self.rows() == self.cols() && self.rows() >= 2
                    &&& in_grid(row as int, col as int, self.rows(), self.cols())
                    &&& d == det(minor_cells(self.cell_fn(), row as int, col as int), (self.rows() - 1) as nat)
                },
                Err(e) => if self.rows() == self.cols() && self.rows() >= 2 {
                    e == MatrixError::IndexOutOfRange && !in_grid(row as int, col as int, self.rows(), self.cols())
                } else {
                    e == MatrixError::DimensionMismatch
                },
            },
    {
        if self.width() != self.height() || self.width() < 2 {
            return Err(MatrixError::DimensionMismatch);
        }
        match self.submatrix(row, col) {
            Ok(sub) => {
                let ghost n = self.rows();
                let ghost target = minor_cells(self.cell_fn(), row as int, col as int);
                proof {
                    assert forall|i: int, j: int| in_grid(i, j, (n - 1) as nat, (n - 1) as nat) implies #[trigger] sub.cell_fn()(
                        i,
                        j,
                    ) == target(i, j) by {
                        assert(sub.at(i, j) == self.at(skip(i, row as int), skip(j, col as int)));
                    }
                    lemma_det_agree(sub.cell_fn(), target, (n - 1) as nat);
                }
                Ok(sub.det_square())
            },
            Err(e) => Err(e),
        }
    }

    /// The minor at `(row, col)`, negated when `row + col` is odd. Errors as
    /// for `minor`.
    pub fn cofactor(&self, row: usize, col: usize) -> (r: Result<T, MatrixError>)
        where
            T: Scalar,
        requires
            T::obeys_add_spec(),
            T::obeys_sub_spec(),
            T::obeys_mul_spec(),
            T::obeys_neg_spec(),
            self.rows() == self.cols() && in_grid(row as int, col as int, self.rows(), self.cols())
                ==> cofactor_defined(self.cell_fn(), self.rows(), row as int, col as int),
        ensures
            match r {
                Ok(d) => {
                    &&& self.rows() == self.cols() && self.rows() >= 2
                    &&& in_grid(row as int, col as int, self.rows(), self.cols())
                    &&& d == cofactor(self.cell_fn(), self.rows(), row as int, col as int)
                },
                Err(e) => if self.rows() == self.cols() && self.rows() >= 2 {
                    e == MatrixError::IndexOutOfRange && !in_grid(row as int, col as int, self.rows(), self.cols())
                } else {
                    e == MatrixError::DimensionMismatch
                },
            },
    {
        if self.width() != self.height() || self.width() < 2 {
            return Err(MatrixError::DimensionMismatch);
        }
        if row >= self.width() || col >= self.height() {
            return Err(MatrixError::IndexOutOfRange);
        }
        Ok(self.cofactor_of(row, col))
    }

    /// The transposed matrix of cofactors: entry `(i, j)` is the cofactor at
    /// `(j, i)`. `DimensionMismatch` unless the matrix is square with at least
    /// two rows.
    pub fn adjugate(&self) -> (r: Result<Matrix<T>, MatrixError>)
        where
            T: Scalar,
        requires
            exact_arithmetic::<T>(),
            self.rows() == self.cols() ==> cofactors_defined(self.cell_fn(), self.rows()),
        ensures
            match r {
                Ok(m) => {
                    &&& self.rows() == self.cols() && self.rows() >= 2
                    &&& m.has_shape(self.rows(), self.cols())
                    &&& forall|i: int, j: int|
                        in_grid(i, j, self.rows(), self.cols()) ==> #[trigger] m.at(i, j) == cofactor(
                            self.cell_fn(),
                            self.rows(),
                            j,
                            i,
                        )
                },
                Err(e) => e == MatrixError::DimensionMismatch && (self.rows() != self.cols()
                    || self.rows() < 2),
            },
    {
        proof {
            use_type_invariant(self);
        }
        let n = self.width();
        if n != self.height() || n < 2 {
            return Err(MatrixError::DimensionMismatch);
        }
        let _ = self.data.len();
        Ok(
            Self::tabulate(n, n, |i: usize, j: usize| -> (v: T)
                requires
                    i < n,
                    j < n,
                    n == self.rows(),
                    n == self.cols(),
                    n >= 2,
                    exact_arithmetic::<T>(),
                    cofactors_defined(self.cell_fn(), self.rows()),
                ensures
                    v == cofactor(self.cell_fn(), n as nat, j as int, i as int),
                {
                    assert(cofactor_defined(self.cell_fn(), n as nat, j as int, i as int));
                    self.cofactor_of(j, i)
                }),
        )
    }

    /// The inverse `adjugate / determinant`. `DimensionMismatch` unless the
    /// matrix is square with at least two rows; `NotInvertible` when the
    /// determinant lies within `tolerance` of zero.
    pub fn inverse(&self, tolerance: T) -> (r: Result<Matrix<T>, MatrixError>)
        where
            T: Scalar + core::ops::Div<Output = T> + PartialOrd,
        requires
            exact_arithmetic::<T>(),
            T::obeys_div_spec(),
            T::obeys_partial_cmp_spec(),
            tolerance.neg_req(),
            self.rows() == self.cols() ==> {
                &&& det_defined(self.cell_fn(), self.rows())
                &&& cofactors_defined(self.cell_fn(), self.rows())
                &&& !within(det(self.cell_fn(), self.rows()), tolerance) ==> forall|i: int, j: int|
                    in_grid(i, j, self.rows(), self.cols()) ==> #[trigger] cofactor(
                        self.cell_fn(),
                        self.rows(),
                        j,
                        i,
                    ).div_req(det(self.cell_fn(), self.rows()))
            },
        ensures
            match r {
                Ok(m) => {
                    &&& self.rows() == self.cols() && self.rows() >= 2
                    &&& !within(det(self.cell_fn(), self.rows()), tolerance)
                    &&& m.has_shape(self.rows(), self.cols())
                    &&& forall|i: int, j: int|
                        in_grid(i, j, self.rows(), self.cols()) ==> #[trigger] m.at(i, j) == cofactor(
                            self.cell_fn(),
                            self.rows(),
                            j,
                            i,
                        ).div_spec(det(self.cell_fn(), self.rows()))
                },
                Err(e) => if self.rows() == self.cols() && self.rows() >= 2 {
                    e == MatrixError::NotInvertible && within(det(self.cell_fn(), self.rows()), tolerance)
                } else {
                    e == MatrixError::DimensionMismatch
                },
            },
    {
        let n = self.width();
        if n != self.height() || n < 2 {
            return Err(MatrixError::DimensionMismatch);
        }
        let d = self.det_square();
        let low = tolerance.neg();
        if low <= d && d <= tolerance {
            return Err(MatrixError::NotInvertible);
        }
        let adj = match self.adjugate() {
            Ok(m) => m,
            Err(e) => {
                return Err(e);
            },
        };
        proof {
            use_type_invariant(&adj);
        }
        let a = &adj.data;
        let _ = a.len();
        Ok(
            Self::tabulate(n, n, |i: usize, j: usize| -> (v: T)
                requires
                    i < n,
                    j < n,
                    a@ == adj.entries(),
                    adj.has_shape(n as nat, n as nat),
                    n * n <= usize::MAX,
                    T::obeys_div_spec(),
                    forall|i: int, j: int|
                        in_grid(i, j, n as nat, n as nat) ==> #[trigger] adj.at(i, j).div_req(d),
                ensures
                    v == adj.at(i as int, j as int).div_spec(d),
                {
                    proof {
                        lemma_flat_bounds(i as int, j as int, n as nat, n as nat);
                    }
                    assert(adj.at(i as int, j as int).div_req(d));
                    a[i * n + j] / d
                }),
        )
    }

    /// Same shape, and every entry of `self - other` within `tolerance` of zero.
    pub fn approx_eq(&self, other: &Matrix<T>, tolerance: T) -> (r: bool)
        where
            T: Scalar + PartialOrd,
        requires
            T::obeys_sub_spec(),
            T::obeys_neg_spec(),
            T::obeys_partial_cmp_spec(),
            tolerance.neg_req(),
            self.rows() == other.rows() && self.cols() == other.cols() ==> forall|i: int, j: int|
                in_grid(i, j, self.rows(), self.cols()) ==> #[trigger] self.at(i, j).sub_req(
                    other.at(i, j),
                ),
        ensures
            r == {
                &&& self.rows() == other.rows()
                &&& self.cols() == other.cols()
                &&& forall|i: int, j: int|
                    in_grid(i, j, self.rows(), self.cols()) ==> within(
                        #[trigger] self.at(i, j).sub_spec(other.at(i, j)),
                        tolerance,
                    )
            },
    {
        proof {
            use_type_invariant(self);
            use_type_invariant(other);
        }
        if self.width != other.width || self.height != other.height {
            return false;
        }
        let low = tolerance.neg();
        let w = self.width;
        let h = self.height;
        let _ = self.data.len();
        let mut i: usize = 0;
        while i < w
            invariant
                i <= w,
                w == self.rows(),
                h == self.cols(),
                w == other.rows(),
                h == other.cols(),
                self.has_shape(w as nat, h as nat),
                other.has_shape(w as nat, h as nat),
                w * h <= usize::MAX,
                low == tolerance.neg_spec(),
                T::obeys_sub_spec(),
                T::obeys_partial_cmp_spec(),
                forall|i: int, j: int|
                    in_grid(i, j, w as nat, h as nat) ==> #[trigger] self.at(i, j).sub_req(
                        other.at(i, j),
                    ),
                forall|a: int, b: int|
                    0 <= a < i && 0 <= b < h ==> within(
                        #[trigger] self.at(a, b).sub_spec(other.at(a, b)),
                        tolerance,
                    ),
            decreases w - i,
        {
            let mut j: usize = 0;
            while j < h
                invariant
                    i < w,
                    j <= h,
                    w == self.rows(),
                    h == self.cols(),
                    w == other.rows(),
                    h == other.cols(),
                    self.has_shape(w as nat, h as nat),
                    other.has_shape(w as nat, h as nat),
                    w * h <= usize::MAX,
                    low == tolerance.neg_spec(),
                    T::obeys_sub_spec(),
                    T::obeys_partial_cmp_spec(),
                    forall|i: int, j: int|
                        in_grid(i, j, w as nat, h as nat) ==> #[trigger] self.at(i, j).sub_req(
                            other.at(i, j),
                        ),
                    forall|a: int, b: int|
                        (0 <= a < i && 0 <= b < h) || (a == i && 0 <= b < j) ==> within(
                            #[trigger] self.at(a, b).sub_spec(other.at(a, b)),
                            tolerance,
                        ),
                decreases h - j,
            {
                proof {
                    lemma_flat_bounds(i as int, j as int, w as nat, h as nat);
                    assert(self.at(i as int, j as int).sub_req(other.at(i as int, j as int)));
                }
                let k = i * h + j;
                let diff = self.data[k] - other.data[k];
                if !(low <= diff && diff <= tolerance) {
                    return false;
                }
                j += 1;
            }
            i += 1;
        }
        true
    }

    /// Row `i` of a 4 x 4 matrix times `t` read as a column.
    fn row_times_tuple(&self, i: usize, t: &Tuple<T>) -> (r: T)
        where
            T: Scalar,
        requires
            exact_arithmetic::<T>(),
            self.rows() == 4,
            self.cols() == 4,
            i < 4,
            row_apply_defined(self.cell_fn(), i as int, *t),
        ensures
            r == row_apply(self.cell_fn(), i as int, *t),
    {
        proof {
            use_type_invariant(self);
        }
        let k = i * 4;
        let xt = self.data[k] * t.x;
        let yt = self.data[k + 1] * t.y;
        let zt = self.data[k + 2] * t.z;
        let wt = self.data[k + 3] * t.w;
        let zero = T::from(0i8);
        let s0 = zero + xt;
        let s1 = s0 + yt;
        let s2 = s1 + zt;
        s2 + wt
    }

    /// The 4 x 4 matrix applied to `t` read as a column; `DimensionMismatch`
    /// unless the matrix is 4 x 4.
    pub fn multiply_tuple(&self, t: &Tuple<T>) -> (r: Result<Tuple<T>, MatrixError>)
        where
            T: Scalar,
        requires
            exact_arithmetic::<T>(),
            self.rows() == 4 && self.cols() == 4 ==> transform_defined(self.cell_fn(), *t),
        ensures
            match r {
                Ok(u) => self.rows() == 4 && self.cols() == 4 && u == transform(self.cell_fn(), *t),
                Err(e) => e == MatrixError::DimensionMismatch && !(self.rows() == 4 && self.cols()
                    == 4),
            },
    {
        if self.width() != 4 || self.height() != 4 {
            return Err(MatrixError::DimensionMismatch);
        }
        Ok(
            Tuple {
                x: self.row_times_tuple(0, t),
                y: self.row_times_tuple(1, t),
                z: self.row_times_tuple(2, t),
                w: self.row_times_tuple(3, t),
            },
        )
    }
}

/// Transposing the identity gives the identity back: if `id` is the `n x n`
/// identity and `t` its transpose, then `t` and `id` are the same matrix.
pub proof fn law_transpose_identity<T: Scalar>(n: nat, id: Matrix<T>, t: Matrix<T>)
    requires
        id.has_shape(n, n),
        forall|i: int, j: int|
            in_grid(i, j, n, n) ==> #[trigger] id.at(i, j) == if i == j {
                one::<T>()
            } else {
                zero::<T>()
            },
        t.has_shape(id.cols(), id.rows()),
        forall|i: int, j: int| in_grid(i, j, id.cols(), id.rows()) ==> #[trigger] t.at(i, j) == id.at(j, i),
    ensures
        t.same(&id),
{
    assert forall|i: int, j: int| in_grid(i, j, n, n) implies #[trigger] t.at(i, j) == id.at(i, j) by {
        assert(id.at(j, i) == if j == i {
            one::<T>()
        } else {
            zero::<T>()
        });
    }
    t.lemma_same_cells(&id);
}

/// Transposing twice gives the matrix back: if `t` is the transpose of `m`
/// and `tt` the transpose of `t`, then `tt` and `m` are the same matrix.
pub proof fn law_transpose_twice<T>(m: Matrix<T>, t: Matrix<T>, tt: Matrix<T>)
    requires
        m.has_shape(m.rows(), m.cols()),
        t.has_shape(m.cols(), m.rows()),
        forall|i: int, j: int| in_grid(i, j, m.cols(), m.rows()) ==> #[trigger] t.at(i, j) == m.at(j, i),
        tt.has_shape(t.cols(), t.rows()),
        forall|i: int, j: int| in_grid(i, j, t.cols(), t.rows()) ==> #[trigger] tt.at(i, j) == t.at(j, i),
    ensures
        tt.same(&m),
{
    assert forall|i: int, j: int| in_grid(i, j, m.rows(), m.cols()) implies #[trigger] tt.at(i, j)
        == m.at(i, j) by {
        assert(t.at(j, i) == m.at(i, j));
    }
    tt.lemma_same_cells(&m);
}

/// A 2 x 2 integer matrix times its adjugate is its determinant times the
/// identity: the exact identity behind `m * inverse(m) == identity`.
pub proof fn law_product_with_adjugate_2x2(m: Matrix<i64>, adj: Matrix<i64>)
    requires
        m.has_shape(2, 2),
        adj.has_shape(2, 2),
        forall|i: int, j: int|
            in_grid(i, j, 2, 2) ==> #[trigger] adj.at(i, j) == cofactor(m.cell_fn(), 2, j, i),
        cofactors_defined(m.cell_fn(), 2),
        product_defined(&m, &adj),
    ensures
        forall|i: int, j: int|
            in_grid(i, j, 2, 2) ==> #[trigger] dot(&m, &adj, i, j, 2) == if i == j {
                m.at(0, 0) * m.at(1, 1) - m.at(0, 1) * m.at(1, 0)
            } else {
                0
            },
{
    let a = m.at(0, 0);
    let b = m.at(0, 1);
    let c = m.at(1, 0);
    let d = m.at(1, 1);
    assert(cofactor_defined(m.cell_fn(), 2, 1, 0) && cofactor_defined(m.cell_fn(), 2, 0, 1));
    assert(adj.at(0, 0) == d);
    assert(adj.at(0, 1) == -b);
    assert(adj.at(1, 0) == -c);
    assert(adj.at(1, 1) == a);
    assert forall|i: int, j: int| in_grid(i, j, 2, 2) implies #[trigger] dot(&m, &adj, i, j, 2) == if i
        == j {
        a * d - b * c
    } else {
        0
    } by {
        assert(dot(&m, &adj, i, j, 0) == 0);
        assert(dot(&m, &adj, i, j, 0).add_req(m.at(i, 0).mul_spec(adj.at(0, j))));
        assert(dot(&m, &adj, i, j, 1).add_req(m.at(i, 1).mul_spec(adj.at(1, j))));
        assert(m.at(i, 0).mul_req(adj.at(0, j)) && m.at(i, 1).mul_req(adj.at(1, j)));
        assert(dot(&m, &adj, i, j, 1) == m.at(i, 0) * adj.at(0, j));
        assert(dot(&m, &adj, i, j, 2) == m.at(i, 0) * adj.at(0, j) + m.at(i, 1) * adj.at(1, j));
        if i == 0 && j == 0 {
            assert(a * d + b * (-c) == a * d - b * c) by (nonlinear_arith);
        }
        if i == 0 && j == 1 {
            assert(a * (-b) + b * a == 0) by (nonlinear_arith);
        }
        if i == 1 && j == 0 {
            assert(c * d + d * (-c) == 0) by (nonlinear_arith);
        }
        if i == 1 && j == 1 {
            assert(c * (-b) + d * a == a * d - b * c) by (nonlinear_arith);
        }
    }
}

} // verus!
