use crate::matrix::{cell, lemma_cell_index, lemma_next_row, Matrix, MatrixError};
use crate::numbers::is_default;
use core::ops::{Add, Mul, Sub};
use vstd::prelude::*;
use vstd::std_specs::ops::{AddSpec, MulSpec, SubSpec};

verus! {

/// The element-wise sum of two sequences of one length.
pub open spec fn seq_sum<T: Add<Output = T>>(a: Seq<T>, b: Seq<T>) -> Seq<T> {
    Seq::new(a.len(), |i: int| a[i].add_spec(b[i]))
}

/// The element-wise difference of two sequences of one length.
pub open spec fn seq_diff<T: Sub<Output = T>>(a: Seq<T>, b: Seq<T>) -> Seq<T> {
    Seq::new(a.len(), |i: int| a[i].sub_spec(b[i]))
}

/// Every element multiplied by `s`.
pub open spec fn seq_scaled<T: Mul<Output = T>>(a: Seq<T>, s: T) -> Seq<T> {
    Seq::new(a.len(), |i: int| a[i].mul_spec(s))
}

/// `z + s[0] + s[1] + ... + s[n - 1]`, added left to right.
pub open spec fn sum_prefix<T: Add<Output = T>>(z: T, s: Seq<T>, n: int) -> T
    decreases n,
{
    if n <= 0 {
        z
    } else {
        sum_prefix(z, s, n - 1).add_spec(s[n - 1])
    }
}

/// Every partial sum of `sum_prefix(z, s, n)` is defined (does not overflow).
pub open spec fn sum_fits<T: Add<Output = T>>(z: T, s: Seq<T>, n: int) -> bool {
    forall|k: int| 0 <= k < n ==> #[trigger] sum_prefix(z, s, k).add_req(s[k])
}

/// `z + a[0] * b[0] + ... + a[n - 1] * b[n - 1]`, accumulated left to right.
pub open spec fn dot_prefix<T: Add<Output = T> + Mul<Output = T>>(
    z: T,
    a: Seq<T>,
    b: Seq<T>,
    n: int,
) -> T
    decreases n,
{
    if n <= 0 {
        z
    } else {
        dot_prefix(z, a, b, n - 1).add_spec(a[n - 1].mul_spec(b[n - 1]))
    }
}

/// Every product and partial sum of `dot_prefix(z, a, b, n)` is defined.
pub open spec fn dot_fits<T: Add<Output = T> + Mul<Output = T>>(
    z: T,
    a: Seq<T>,
    b: Seq<T>,
    n: int,
) -> bool {
    forall|k: int|
        0 <= k < n ==> a[k].mul_req(b[k]) && #[trigger] dot_prefix(z, a, b, k).add_req(
            a[k].mul_spec(b[k]),
        )
}

impl<T> Matrix<T> {
    /// Row `i` as a sequence.
    pub open spec fn row_of(&self, i: int) -> Seq<T> {
        Seq::new(self.col_size as nat, |c: int| self.at(i, c))
    }

    /// Column `j` as a sequence.
    pub open spec fn col_of(&self, j: int) -> Seq<T> {
        Seq::new(self.row_size as nat, |r: int| self.at(r, j))
    }

    /// The diagonal `(k, k)`, for `k` below the smaller extent.
    pub open spec fn diag_of(&self) -> Seq<T> {
        let n = if self.row_size < self.col_size {
            self.row_size
        } else {
            self.col_size
        };
        Seq::new(n as nat, |k: int| self.at(k, k))
    }
}

impl<T: Copy + Add<Output = T>> Matrix<T> {
    /// The element-wise sum, or `ShapeMismatch` when the shapes differ.
    pub fn add(&self, other: &Matrix<T>) -> (r: Result<Matrix<T>, MatrixError>)
        requires
            self.wf(),
            other.wf(),
            self.same_shape(other) ==> forall|i: int|
                0 <= i < self.data@.len() ==> #[trigger] self.data@[i].add_req(other.data@[i]),
        ensures
            r is Ok <==> self.same_shape(other),
            r is Err ==> r == Err::<Matrix<T>, MatrixError>(MatrixError::ShapeMismatch),
            r matches Ok(m) ==> m.wf() && m.same_shape(self) && m.data@.len() == self.data@.len()
                && (T::obeys_add_spec() ==> m.data@ == seq_sum(self.data@, other.data@)),
    {
        if self.row_size != other.row_size || self.col_size != other.col_size {
            return Err(MatrixError::ShapeMismatch);
        }
        let n = self.data.len();
        let mut out: Vec<T> = Vec::new();
        let mut i: usize = 0;
        while i < n
            invariant
                self.wf(),
                other.wf(),
                self.same_shape(other),
                n == self.data@.len(),
                forall|q: int|
                    0 <= q < self.data@.len() ==> #[trigger] self.data@[q].add_req(other.data@[q]),
                i <= n,
                out@.len() == i,
                T::obeys_add_spec() ==> forall|q: int|
                    0 <= q < i ==> out@[q] == #[trigger] self.data@[q].add_spec(other.data@[q]),
            decreases n - i,
        {
            out.push(self.data[i] + other.data[i]);
            i += 1;
        }
        proof {
            if T::obeys_add_spec() {
                assert(out@ == seq_sum(self.data@, other.data@));
            }
        }
        Ok(Matrix { data: out, row_size: self.row_size, col_size: self.col_size })
    }
}

impl<T: Copy + Sub<Output = T>> Matrix<T> {
    /// The element-wise difference, or `ShapeMismatch` when the shapes differ.
    pub fn sub(&self, other: &Matrix<T>) -> (r: Result<Matrix<T>, MatrixError>)
        requires
            self.wf(),
            other.wf(),
            self.same_shape(other) ==> forall|i: int|
                0 <= i < self.data@.len() ==> #[trigger] self.data@[i].sub_req(other.data@[i]),
        ensures
            r is Ok <==> self.same_shape(other),
            r is Err ==> r == Err::<Matrix<T>, MatrixError>(MatrixError::ShapeMismatch),
            r matches Ok(m) ==> m.wf() && m.same_shape(self) && m.data@.len() == self.data@.len()
                && (T::obeys_sub_spec() ==> m.data@ == seq_diff(self.data@, other.data@)),
    {
        if self.row_size != other.row_size || self.col_size != other.col_size {
            return Err(MatrixError::ShapeMismatch);
        }
        let n = self.data.len();
        let mut out: Vec<T> = Vec::new();
        let mut i: usize = 0;
        while i < n
            invariant
                self.wf(),
                other.wf(),
                self.same_shape(other),
                n == self.data@.len(),
                forall|q: int|
                    0 <= q < self.data@.len() ==> #[trigger] self.data@[q].sub_req(other.data@[q]),
                i <= n,
                out@.len() == i,
                T::obeys_sub_spec() ==> forall|q: int|
                    0 <= q < i ==> out@[q] == #[trigger] self.data@[q].sub_spec(other.data@[q]),
            decreases n - i,
        {
            out.push(self.data[i] - other.data[i]);
            i += 1;
        }
        proof {
            if T::obeys_sub_spec() {
                assert(out@ == seq_diff(self.data@, other.data@));
            }
        }
        Ok(Matrix { data: out, row_size: self.row_size, col_size: self.col_size })
    }
}

impl<T: Copy + Mul<Output = T>> Matrix<T> {
    /// Every element multiplied by `scalar`; the shape is kept.
    pub fn scalar_multiply(&self, scalar: T) -> (r: Matrix<T>)
        requires
            self.wf(),
            forall|i: int| 0 <= i < self.data@.len() ==> #[trigger] self.data@[i].mul_req(scalar),
        ensures
            r.wf(),
            r.same_shape(self),
            r.data@.len() == self.data@.len(),
            T::obeys_mul_spec() ==> r.data@ == seq_scaled(self.data@, scalar),
    {
        let n = self.data.len();
        let mut out: Vec<T> = Vec::new();
        let mut i: usize = 0;
        while i < n
            invariant
                self.wf(),
                n == self.data@.len(),
                forall|q: int| 0 <= q < self.data@.len() ==> #[trigger] self.data@[q].mul_req(scalar),
                i <= n,
                out@.len() == i,
                T::obeys_mul_spec() ==> forall|q: int|
                    0 <= q < i ==> out@[q] == #[trigger] self.data@[q].mul_spec(scalar),
            decreases n - i,
        {
            out.push(self.data[i] * scalar);
            i += 1;
        }
        proof {
            if T::obeys_mul_spec() {
                assert(out@ == seq_scaled(self.data@, scalar));
            }
        }
        Matrix { data: out, row_size: self.row_size, col_size: self.col_size }
    }
}

impl<T: Copy + Default + Add<Output = T>> Matrix<T> {
    /// The sum of the diagonal entries, starting from `T::default()` (zero).
    /// The contract covers element types whose `+` has an exact specification,
    /// with no partial sum overflowing.
    pub fn trace(&self) -> (r: T)
        requires
            self.wf(),
            T::obeys_add_spec(),
            forall|z: T| is_default(z) ==> sum_fits(z, self.diag_of(), self.diag_of().len() as int),
        ensures
            exists|z: T| is_default(z) && r == sum_prefix(z, self.diag_of(), self.diag_of().len() as int),
    {
        let z = T::default();
        proof {
            assert(is_default(z));
        }
        let n = if self.row_size < self.col_size {
            self.row_size
        } else {
            self.col_size
        };
        let ghost d = self.diag_of();
        let mut acc = z;
        let mut k: usize = 0;
        while k < n
            invariant
                self.wf(),
                T::obeys_add_spec(),
                d == self.diag_of(),
                n == d.len(),
                sum_fits(z, d, n as int),
                k <= n,
                acc == sum_prefix(z, d, k as int),
            decreases n - k,
        {
            proof {
                lemma_cell_index(self.row_size as int, self.col_size as int, k as int, k as int);
                assert(sum_prefix(z, d, k as int).add_req(d[k as int]));
            }
            acc = acc + self.data[k * self.col_size + k];
            k += 1;
        }
        acc
    }
}

impl<T: Copy + Default + Add<Output = T> + Mul<Output = T>> Matrix<T> {
    /// Entry `(i, j)` of `self * other`: row `i` of `self` against column `j` of
    /// `other`, accumulated from `z`.
    pub open spec fn product_at(&self, other: &Matrix<T>, z: T, i: int, j: int) -> T {
        dot_prefix(z, self.row_of(i), other.col_of(j), self.col_size as int)
    }

    /// Every entry of `self * other` can be accumulated from `z` without overflow.
    pub open spec fn product_fits(&self, other: &Matrix<T>, z: T) -> bool {
        forall|i: int, j: int|
            0 <= i < self.row_size && 0 <= j < other.col_size ==> #[trigger] dot_fits(
                z,
                self.row_of(i),
                other.col_of(j),
                self.col_size as int,
            )
    }

    /// The matrix product, of shape `(self.rows, other.cols)`, or
    /// `ShapeMismatch` when `self.cols != other.rows`. Entry `(i, j)` is
    /// `sum_k self[i, k] * other[k, j]`, accumulated in ascending `k` from zero.
    /// The contract covers element types whose `+` and `*` have exact
    /// specifications (the primitive integers), with no step overflowing.
    pub fn multiply(&self, other: &Matrix<T>) -> (r: Result<Matrix<T>, MatrixError>)
        requires
            self.wf(),
            other.wf(),
            self.col_size == other.row_size ==> {
                &&& T::obeys_add_spec()
                &&& T::obeys_mul_spec()
                &&& self.row_size as int * other.col_size as int <= usize::MAX
                &&& forall|z: T| is_default(z) ==> self.product_fits(other, z)
            },
        ensures
            r is Ok <==> self.col_size == other.row_size,
            r is Err ==> r == Err::<Matrix<T>, MatrixError>(MatrixError::ShapeMismatch),
            r matches Ok(m) ==> {
                &&& m.wf()
                &&& m.row_size == self.row_size
                &&& m.col_size == other.col_size
                &&& exists|z: T|
                    is_default(z) && forall|i: int, j: int|
                        0 <= i < self.row_size && 0 <= j < other.col_size ==> #[trigger] m.at(i, j)
                            == self.product_at(other, z, i, j)
            },
    {
        if self.col_size != other.row_size {
            return Err(MatrixError::ShapeMismatch);
        }
        let z = T::default();
        proof {
            assert(is_default(z));
        }
        let rows = self.row_size;
        let inner = self.col_size;
        let cols = other.col_size;
        let mut out: Vec<T> = Vec::new();
        let mut i: usize = 0;
        while i < rows
            invariant
                self.wf(),
                other.wf(),
                rows == self.row_size,
                inner == self.col_size,
                inner == other.row_size,
                cols == other.col_size,
                T::obeys_add_spec(),
                T::obeys_mul_spec(),
                rows as int * cols as int <= usize::MAX,
                self.product_fits(other, z),
                i <= rows,
                out@.len() == i * cols,
                forall|ii: int, jj: int|
                    0 <= ii < i && 0 <= jj < cols ==> #[trigger] cell(out@, cols as int, ii, jj)
                        == self.product_at(other, z, ii, jj),
            decreases rows - i,
        {
            let mut j: usize = 0;
            while j < cols
                invariant
                    self.wf(),
                    other.wf(),
                    rows == self.row_size,
                    inner == self.col_size,
                    inner == other.row_size,
                    cols == other.col_size,
                    T::obeys_add_spec(),
                    T::obeys_mul_spec(),
                    rows as int * cols as int <= usize::MAX,
                    self.product_fits(other, z),
                    i < rows,
                    j <= cols,
                    out@.len() == i * cols + j,
                    forall|ii: int, jj: int|
                        0 <= ii < i && 0 <= jj < cols ==> #[trigger] cell(out@, cols as int, ii, jj)
                            == self.product_at(other, z, ii, jj),
                    forall|jj: int|
                        0 <= jj < j ==> #[trigger] cell(out@, cols as int, i as int, jj)
                            == self.product_at(other, z, i as int, jj),
                decreases cols - j,
            {
                let ghost a = self.row_of(i as int);
                let ghost b = other.col_of(j as int);
                proof {
                    assert(dot_fits(z, a, b, inner as int));
                    lemma_cell_index(rows as int, cols as int, i as int, j as int);
                }
                let mut acc = z;
                let mut k: usize = 0;
                while k < inner
                    invariant
                        self.wf(),
                        other.wf(),
                        rows == self.row_size,
                        inner == self.col_size,
                        inner == other.row_size,
                        cols == other.col_size,
                        T::obeys_add_spec(),
                        T::obeys_mul_spec(),
                        i < rows,
                        j < cols,
                        a == self.row_of(i as int),
                        b == other.col_of(j as int),
                        dot_fits(z, a, b, inner as int),
                        k <= inner,
                        acc == dot_prefix(z, a, b, k as int),
                    decreases inner - k,
                {
                    proof {
                        lemma_cell_index(rows as int, inner as int, i as int, k as int);
                        lemma_cell_index(inner as int, cols as int, k as int, j as int);
                        assert(dot_prefix(z, a, b, k as int).add_req(a[k as int].mul_spec(b[k as int])));
                    }
                    let x = self.data[i * inner + k];
                    let y = other.data[k * cols + j];
                    acc = acc + x * y;
                    k += 1;
                }
                let ghost before = out@;
                out.push(acc);
                proof {
                    assert forall|ii: int, jj: int|
                        0 <= ii < i && 0 <= jj < cols implies #[trigger] cell(out@, cols as int, ii, jj)
                            == self.product_at(other, z, ii, jj) by {
                        lemma_cell_index(i as int, cols as int, ii, jj);
                        assert(cell(out@, cols as int, ii, jj) == cell(before, cols as int, ii, jj));
                    }
                    assert forall|jj: int|
                        0 <= jj <= j implies #[trigger] cell(out@, cols as int, i as int, jj)
                            == self.product_at(other, z, i as int, jj) by {
                        if jj < j {
                            assert(cell(out@, cols as int, i as int, jj) == cell(before, cols as int, i as int, jj));
                        }
                    }
                }
                j += 1;
            }
            proof {
                lemma_next_row(i as int, cols as int);
            }
            i += 1;
        }
        let m = Matrix { data: out, row_size: rows, col_size: cols };
        proof {
            assert(m.data@.len() == rows as int * cols as int);
            assert forall|ii: int, jj: int|
                0 <= ii < rows && 0 <= jj < cols implies #[trigger] m.at(ii, jj)
                    == self.product_at(other, z, ii, jj) by {
                assert(cell(out@, cols as int, ii, jj) == self.product_at(other, z, ii, jj));
            }
        }
        Ok(m)
    }
}

} // verus!
