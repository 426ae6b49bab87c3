use crate::numbers::is_default;
use vstd::prelude::*;

verus! {

/// Why a matrix operation or construction was refused.
#[derive(Debug, Clone, Copy, PartialEq, Eq, Structural)]
pub enum MatrixError {
    /// The shapes of the operands do not fit the operation.
    ShapeMismatch,
    /// The supplied buffer does not hold `rows * cols` elements.
    ConstructionError,
}

/// A dense matrix stored row-major: the element at `(r, c)` lives at
/// `data[r * col_size + c]`.
#[derive(Debug, Clone)]
pub struct Matrix<T> {
    pub data: Vec<T>,
    pub row_size: usize,
    pub col_size: usize,
}

/// The element at `(r, c)` of a row-major buffer with `cols` columns.
pub open spec fn cell<T>(s: Seq<T>, cols: int, r: int, c: int) -> T {
    s[r * cols + c]
}

/// A cell index of a `rows` by `cols` buffer is in bounds, and the next one
/// does not pass the end of its row.
pub proof fn lemma_cell_index(rows: int, cols: int, r: int, c: int)
    requires
        0 <= r < rows,
        0 <= c < cols,
    ensures
        0 <= r * cols + c < rows * cols,
        r * cols + c + 1 <= (r + 1) * cols,
{
    assert(0 <= r * cols + c < rows * cols) by (nonlinear_arith)
        requires
            0 <= r < rows,
            0 <= c < cols,
    ;
    assert(r * cols + c + 1 <= (r + 1) * cols) by (nonlinear_arith)
        requires
            0 <= r < rows,
            0 <= c < cols,
    ;
}

/// One more row of `cols` elements.
pub proof fn lemma_next_row(r: int, cols: int)
    ensures
        r * cols + cols == (r + 1) * cols,
{
    assert(r * cols + cols == (r + 1) * cols) by (nonlinear_arith);
}

impl<T> Matrix<T> {
    /// The buffer holds exactly `rows * cols` elements (a count that fits in
    /// `usize`).
    pub open spec fn wf(&self) -> bool {
        &&& self.data@.len() == self.row_size as int * self.col_size as int
        &&& self.data@.len() <= usize::MAX
    }

    /// The element at `(r, c)`.
    pub open spec fn at(&self, r: int, c: int) -> T {
        cell(self.data@, self.col_size as int, r, c)
    }

    /// `self` is well formed, has shape `(other.cols, other.rows)`, and
    /// `self[j, i] == other[i, j]`.
    pub open spec fn is_transpose_of(&self, other: &Matrix<T>) -> bool {
        &&& self.wf()
        &&& self.row_size == other.col_size
        &&& self.col_size == other.row_size
        &&& forall|i: int, j: int|
            0 <= i < other.row_size && 0 <= j < other.col_size ==> #[trigger] self.at(j, i)
                == other.at(i, j)
    }

    pub open spec fn same_shape<U>(&self, other: &Matrix<U>) -> bool {
        self.row_size == other.row_size && self.col_size == other.col_size
    }

    /// The number of rows.
    pub fn rows(&self) -> (r: usize)
        ensures
            r == self.row_size,
    {
        self.row_size
    }

    /// The number of columns.
    pub fn cols(&self) -> (r: usize)
        ensures
            r == self.col_size,
    {
        self.col_size
    }

    /// The row-major buffer.
    pub fn data(&self) -> (r: &Vec<T>)
        ensures
            r@ == self.data@,
    {
        &self.data
    }

    /// A matrix of the given shape over the supplied row-major buffer, or
    /// `ConstructionError` when the buffer does not hold `rows * cols` elements.
    pub fn from_data(rows: usize, cols: usize, data: Vec<T>) -> (r: Result<Matrix<T>, MatrixError>)
        ensures
            data@.len() == rows as int * cols as int <==> r is Ok,
            r is Err ==> r == Err::<Matrix<T>, MatrixError>(MatrixError::ConstructionError),
            r matches Ok(m) ==> m.wf() && m.row_size == rows && m.col_size == cols && m.data@
                == data@,
    {
        if rows.checked_mul(cols) != Some(data.len()) {
            return Err(MatrixError::ConstructionError);
        }
        Ok(Matrix { data, row_size: rows, col_size: cols })
    }
}

impl<T: Copy> Matrix<T> {
    /// The element at `(row, col)`, or `None` when either index is out of range.
    pub fn get(&self, row: usize, col: usize) -> (r: Option<T>)
        requires
            self.wf(),
        ensures
            r is Some <==> row < self.row_size && col < self.col_size,
            r matches Some(v) ==> v == self.at(row as int, col as int),
    {
        if row >= self.row_size || col >= self.col_size {
            return None;
        }
        proof {
            lemma_cell_index(self.row_size as int, self.col_size as int, row as int, col as int);
        }
        Some(self.data[row * self.col_size + col])
    }

    /// A handle to the element at `(row, col)` for update in place, or `None`
    /// when either index is out of range.
    pub fn get_mut(&mut self, row: usize, col: usize) -> (r: Option<&mut T>)
        requires
            old(self).wf(),
        ensures
            r is Some <==> row < old(self).row_size && col < old(self).col_size,
            r matches Some(x) ==> *x == old(self).at(row as int, col as int),
            final(self).wf(),
            final(self).same_shape(old(self)),
            r matches Some(x) ==> final(self).data@ == old(self).data@.update(
                row * old(self).col_size + col,
                *final(x),
            ),
            r is None ==> final(self).data@ == old(self).data@,
    {
        if row >= self.row_size || col >= self.col_size {
            return None;
        }
        proof {
            lemma_cell_index(self.row_size as int, self.col_size as int, row as int, col as int);
        }
        let idx = row * self.col_size + col;
        Some(&mut self.data[idx])
    }

    /// Writes `value` at `(row, col)` and returns `true`; leaves the matrix as it
    /// was and returns `false` when either index is out of range.
    pub fn set(&mut self, row: usize, col: usize, value: T) -> (r: bool)
        requires
            old(self).wf(),
        ensures
            r <==> row < old(self).row_size && col < old(self).col_size,
            final(self).wf(),
            final(self).same_shape(old(self)),
            r ==> final(self).data@ == old(self).data@.update(
                row * old(self).col_size + col,
                value,
            ),
            !r ==> final(self).data@ == old(self).data@,
    {
        if row >= self.row_size || col >= self.col_size {
            return false;
        }
        proof {
            lemma_cell_index(self.row_size as int, self.col_size as int, row as int, col as int);
        }
        let idx = row * self.col_size + col;
        self.data.set(idx, value);
        true
    }

    /// A copy of row `i`, or `None` when `i` is out of range.
    pub fn row(&self, i: usize) -> (r: Option<Vec<T>>)
        requires
            self.wf(),
        ensures
            r is Some <==> i < self.row_size,
            r matches Some(v) ==> v@.len() == self.col_size && forall|c: int|
                0 <= c < self.col_size ==> v@[c] == #[trigger] self.at(i as int, c),
    {
        if i >= self.row_size {
            return None;
        }
        let mut out: Vec<T> = Vec::new();
        let mut c: usize = 0;
        while c < self.col_size
            invariant
                self.wf(),
                i < self.row_size,
                c <= self.col_size,
                out@.len() == c,
                forall|k: int| 0 <= k < c ==> out@[k] == #[trigger] self.at(i as int, k),
            decreases self.col_size - c,
        {
            proof {
                lemma_cell_index(self.row_size as int, self.col_size as int, i as int, c as int);
            }
            out.push(self.data[i * self.col_size + c]);
            c += 1;
        }
        Some(out)
    }

    /// A copy of column `j`, or `None` when `j` is out of range.
    pub fn column(&self, j: usize) -> (r: Option<Vec<T>>)
        requires
            self.wf(),
        ensures
            r is Some <==> j < self.col_size,
            r matches Some(v) ==> v@.len() == self.row_size && forall|k: int|
                0 <= k < self.row_size ==> v@[k] == #[trigger] self.at(k, j as int),
    {
        if j >= self.col_size {
            return None;
        }
        let mut out: Vec<T> = Vec::new();
        let mut i: usize = 0;
        while i < self.row_size
            invariant
                self.wf(),
                j < self.col_size,
                i <= self.row_size,
                out@.len() == i,
                forall|k: int| 0 <= k < i ==> out@[k] == #[trigger] self.at(k, j as int),
            decreases self.row_size - i,
        {
            proof {
                lemma_cell_index(self.row_size as int, self.col_size as int, i as int, j as int);
            }
            out.push(self.data[i * self.col_size + j]);
            i += 1;
        }
        Some(out)
    }

    /// The elements `(k, k)` for `k` below the smaller of the two extents.
    pub fn diagonal(&self) -> (r: Vec<T>)
        requires
            self.wf(),
        ensures
            r@ == self.diag_of(),
    {
        let n = if self.row_size < self.col_size {
            self.row_size
        } else {
            self.col_size
        };
        let mut out: Vec<T> = Vec::new();
        let mut k: usize = 0;
        while k < n
            invariant
                self.wf(),
                n == self.diag_of().len(),
                k <= n,
                out@.len() == k,
                forall|q: int| 0 <= q < k ==> out@[q] == #[trigger] self.at(q, q),
            decreases n - k,
        {
            proof {
                lemma_cell_index(self.row_size as int, self.col_size as int, k as int, k as int);
            }
            out.push(self.data[k * self.col_size + k]);
            k += 1;
        }
        assert(out@ == self.diag_of());
        out
    }

    /// The transpose: shape `(cols, rows)` with `out[j, i] == self[i, j]`.
    pub fn transpose(&self) -> (r: Matrix<T>)
        requires
            self.wf(),
        ensures
            r.is_transpose_of(self),
    {
        let rows = self.row_size;
        let cols = self.col_size;
        let mut out: Vec<T> = Vec::new();
        let mut j: usize = 0;
        while j < cols
            invariant
                self.wf(),
                rows == self.row_size,
                cols == self.col_size,
                j <= cols,
                out@.len() == j * rows,
                forall|jj: int, ii: int|
                    0 <= jj < j && 0 <= ii < rows ==> #[trigger] cell(out@, rows as int, jj, ii)
                        == self.at(ii, jj),
            decreases cols - j,
        {
            let mut i: usize = 0;
            while i < rows
                invariant
                    self.wf(),
                    rows == self.row_size,
                    cols == self.col_size,
                    j < cols,
                    i <= rows,
                    out@.len() == j * rows + i,
                    forall|jj: int, ii: int|
                        0 <= jj < j && 0 <= ii < rows ==> #[trigger] cell(
                            out@,
                            rows as int,
                            jj,
                            ii,
                        ) == self.at(ii, jj),
                    forall|ii: int|
                        0 <= ii < i ==> #[trigger] cell(out@, rows as int, j as int, ii)
                            == self.at(ii, j as int),
                decreases rows - i,
            {
                proof {
                    lemma_cell_index(rows as int, cols as int, i as int, j as int);
                    lemma_cell_index(cols as int, rows as int, j as int, i as int);
                }
                let v = self.data[i * cols + j];
                let ghost before = out@;
                out.push(v);
                proof {
                    assert forall|jj: int, ii: int|
                        0 <= jj < j && 0 <= ii < rows implies #[trigger] cell(
                            out@,
                            rows as int,
                            jj,
                            ii,
                        ) == self.at(ii, jj) by {
                        lemma_cell_index(j as int, rows as int, jj, ii);
                        assert(cell(out@, rows as int, jj, ii) == cell(before, rows as int, jj, ii));
                    }
                    assert forall|ii: int|
                        0 <= ii <= i implies #[trigger] cell(out@, rows as int, j as int, ii)
                            == self.at(ii, j as int) by {
                        if ii < i {
                            assert(cell(out@, rows as int, j as int, ii) == cell(
                                before,
                                rows as int,
                                j as int,
                                ii,
                            ));
                        }
                    }
                }
                i += 1;
            }
            proof {
                lemma_next_row(j as int, rows as int);
            }
            j += 1;
        }
        proof {
            lemma_next_row(cols as int, rows as int);
            assert(out@.len() == cols as int * rows as int) by (nonlinear_arith)
                requires
                    out@.len() == j * rows,
                    j == cols,
            ;
        }
        Matrix { data: out, row_size: cols, col_size: rows }
    }
}

impl<T: Copy + Default> Matrix<T> {
    /// A `rows` by `cols` matrix filled with `T::default()` (zero).
    pub fn new(rows: usize, cols: usize) -> (r: Matrix<T>)
        requires
            rows as int * cols as int <= usize::MAX,
        ensures
            r.wf(),
            r.row_size == rows,
            r.col_size == cols,
            exists|z: T| is_default(z) && r.data@ == Seq::new(r.data@.len(), |i: int| z),
    {
        let z = T::default();
        proof {
            assert(is_default(z));
        }
        let n = rows * cols;
        let mut out: Vec<T> = Vec::new();
        let mut k: usize = 0;
        while k < n
            invariant
                k <= n,
                out@.len() == k,
                forall|q: int| 0 <= q < k ==> out@[q] == z,
            decreases n - k,
        {
            out.push(z);
            k += 1;
        }
        assert(out@ == Seq::new(out@.len(), |i: int| z));
        Matrix { data: out, row_size: rows, col_size: cols }
    }
}

} // verus!
