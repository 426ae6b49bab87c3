use crate::activation::{relu_grad_seq, relu_seq};
use crate::arith::{dot_fits, dot_prefix, seq_diff, seq_scaled, seq_sum, sum_fits, sum_prefix};
use crate::matrix::{cell, lemma_cell_index, Matrix};
use crate::numbers::is_default;
use vstd::arithmetic::div_mod::{lemma_div_pos_is_pos, lemma_fundamental_div_mod, lemma_mod_bound};
use vstd::prelude::*;
use vstd::std_specs::cmp::PartialOrdIs;
use vstd::std_specs::ops::{AddSpec, MulSpec};

verus! {

/// Transposing twice gives back the matrix itself.
pub proof fn law_transpose_involution<T>(a: Matrix<T>, t: Matrix<T>, tt: Matrix<T>)
    requires
        a.wf(),
        t.is_transpose_of(&a),
        tt.is_transpose_of(&t),
    ensures
        tt.same_shape(&a),
        tt.data@ == a.data@,
{
    let rows = a.row_size as int;
    let cols = a.col_size as int;
    assert forall|q: int| 0 <= q < a.data@.len() implies tt.data@[q] == a.data@[q] by {
        assert(cols > 0) by (nonlinear_arith)
            requires
                0 <= q < rows * cols,
                cols >= 0,
        ;
        let r = q / cols;
        let c = q % cols;
        lemma_fundamental_div_mod(q, cols);
        lemma_mod_bound(q, cols);
        lemma_div_pos_is_pos(q, cols);
        assert(r < rows) by (nonlinear_arith)
            requires
                q == cols * r + c,
                0 <= c,
                cols > 0,
                q < rows * cols,
        ;
        assert(tt.at(r, c) == t.at(c, r));
        assert(q == r * cols + c) by (nonlinear_arith)
            requires
                q == cols * r + c,
        ;
    }
    assert(tt.data@ =~= a.data@);
}

/// Adding the zero matrix of the same shape changes nothing.
pub proof fn law_add_zero(a: Matrix<i64>, zero: Matrix<i64>, z: i64)
    requires
        a.wf(),
        zero.wf(),
        zero.same_shape(&a),
        is_default(z),
        zero.data@ == Seq::new(zero.data@.len(), |i: int| z),
    ensures
        seq_sum(a.data@, zero.data@) == a.data@,
{
    assert(seq_sum(a.data@, zero.data@) =~= a.data@);
}

/// A matrix minus itself is the zero matrix of its shape.
pub proof fn law_sub_self(a: Matrix<i64>, z: i64)
    requires
        a.wf(),
        is_default(z),
    ensures
        seq_diff(a.data@, a.data@) == Seq::new(a.data@.len(), |i: int| z),
{
    assert(seq_diff(a.data@, a.data@) =~= Seq::new(a.data@.len(), |i: int| z));
}

/// Scalar multiplication distributes over addition, wherever no step overflows.
pub proof fn law_scalar_distributes(a: Matrix<i64>, b: Matrix<i64>, s: i64)
    requires
        a.wf(),
        b.wf(),
        a.same_shape(&b),
        forall|i: int|
            0 <= i < a.data@.len() ==> {
                &&& i64::MIN <= #[trigger] a.data@[i] + b.data@[i] <= i64::MAX
                &&& i64::MIN <= (a.data@[i] + b.data@[i]) * s <= i64::MAX
                &&& i64::MIN <= a.data@[i] * s <= i64::MAX
                &&& i64::MIN <= b.data@[i] * s <= i64::MAX
            },
    ensures
        seq_scaled(seq_sum(a.data@, b.data@), s) == seq_sum(
            seq_scaled(a.data@, s),
            seq_scaled(b.data@, s),
        ),
{
    assert forall|i: int| 0 <= i < a.data@.len() implies #[trigger] seq_scaled(
        seq_sum(a.data@, b.data@),
        s,
    )[i] == seq_sum(seq_scaled(a.data@, s), seq_scaled(b.data@, s))[i] by {
        let x = a.data@[i] as int;
        let y = b.data@[i] as int;
        assert((x + y) * s == x * s + y * s) by (nonlinear_arith);
    }
    assert(seq_scaled(seq_sum(a.data@, b.data@), s) =~= seq_sum(
        seq_scaled(a.data@, s),
        seq_scaled(b.data@, s),
    ));
}

/// ReLU never yields a negative element, and leaves a matrix of positive
/// elements as it is.
pub proof fn law_relu_non_negative(a: Matrix<i64>, z: i64)
    requires
        a.wf(),
        is_default(z),
    ensures
        forall|i: int| 0 <= i < a.data@.len() ==> #[trigger] relu_seq(a.data@, z)[i] >= 0,
        (forall|i: int| 0 <= i < a.data@.len() ==> #[trigger] a.data@[i] > 0) ==> relu_seq(
            a.data@,
            z,
        ) == a.data@,
{
    if forall|i: int| 0 <= i < a.data@.len() ==> #[trigger] a.data@[i] > 0 {
        assert(relu_seq(a.data@, z) =~= a.data@);
    }
}

/// The ReLU gradient holds only the values zero and one, with one exactly
/// where the element is at least zero.
pub proof fn law_relu_gradient<T: PartialOrd>(a: Matrix<T>, z: T, one: T)
    requires
        a.wf(),
    ensures
        forall|i: int|
            0 <= i < a.data@.len() ==> {
                let g = #[trigger] relu_grad_seq(a.data@, z, one)[i];
                &&& g == z || g == one
                &&& a.data@[i].is_ge(&z) ==> g == one
                &&& !a.data@[i].is_ge(&z) ==> g == z
            },
{
}

/// `m` is the identity matrix of order `n`.
pub open spec fn is_identity(m: Matrix<i64>, n: int) -> bool {
    &&& m.wf()
    &&& m.row_size == n
    &&& m.col_size == n
    &&& forall|i: int, j: int|
        0 <= i < n && 0 <= j < n ==> #[trigger] m.at(i, j) == if i == j {
            1i64
        } else {
            0i64
        }
}

/// Against the unit vector `e` at position `p`, the dot product picks `u[p]`.
pub proof fn lemma_dot_unit(u: Seq<i64>, e: Seq<i64>, p: int, k: int)
    requires
        0 <= k <= u.len(),
        e.len() == u.len(),
        forall|q: int| 0 <= q < e.len() ==> #[trigger] e[q] == if q == p {
            1i64
        } else {
            0i64
        },
    ensures
        dot_prefix(0i64, u, e, k) == (if 0 <= p < k {
            u[p]
        } else {
            0i64
        }),
        dot_prefix(0i64, e, u, k) == (if 0 <= p < k {
            u[p]
        } else {
            0i64
        }),
    decreases k,
{
    if k > 0 {
        lemma_dot_unit(u, e, p, k - 1);
        let x = u[k - 1];
        if k - 1 == p {
            assert(e[k - 1] == 1i64);
            assert(x.mul_spec(e[k - 1]) == x);
        } else {
            assert(e[k - 1] == 0i64);
            assert(x.mul_spec(e[k - 1]) == 0i64);
        }
    }
}

/// Multiplying by the identity, on either side, gives back the matrix.
pub proof fn law_multiply_identity(a: Matrix<i64>, id: Matrix<i64>, z: i64)
    requires
        a.wf(),
        a.row_size == a.col_size,
        is_identity(id, a.row_size as int),
        is_default(z),
    ensures
        forall|i: int, j: int|
            0 <= i < a.row_size && 0 <= j < a.col_size ==> #[trigger] a.product_at(&id, z, i, j)
                == a.at(i, j),
        forall|i: int, j: int|
            0 <= i < a.row_size && 0 <= j < a.col_size ==> #[trigger] id.product_at(&a, z, i, j)
                == a.at(i, j),
{
    let n = a.row_size as int;
    assert forall|i: int, j: int| 0 <= i < n && 0 <= j < n implies #[trigger] a.product_at(
        &id,
        z,
        i,
        j,
    ) == a.at(i, j) by {
        let e = id.col_of(j);
        assert forall|q: int| 0 <= q < e.len() implies #[trigger] e[q] == if q == j {
            1i64
        } else {
            0i64
        } by {
            assert(id.at(q, j) == e[q]);
        }
        lemma_dot_unit(a.row_of(i), e, j, n);
    }
    assert forall|i: int, j: int| 0 <= i < n && 0 <= j < n implies #[trigger] id.product_at(
        &a,
        z,
        i,
        j,
    ) == a.at(i, j) by {
        let e = id.row_of(i);
        assert forall|q: int| 0 <= q < e.len() implies #[trigger] e[q] == if q == i {
            1i64
        } else {
            0i64
        } by {
            assert(id.at(i, q) == e[q]);
        }
        lemma_dot_unit(a.col_of(j), e, i, n);
    }
}

/// `f(0) + f(1) + ... + f(n - 1)` over the integers.
pub open spec fn isum(f: spec_fn(int) -> int, n: int) -> int
    decreases n,
{
    if n <= 0 {
        0
    } else {
        isum(f, n - 1) + f(n - 1)
    }
}

pub proof fn lemma_isum_ext(f: spec_fn(int) -> int, g: spec_fn(int) -> int, n: int)
    requires
        forall|k: int| 0 <= k < n ==> #[trigger] f(k) == g(k),
    ensures
        isum(f, n) == isum(g, n),
    decreases n,
{
    if n > 0 {
        lemma_isum_ext(f, g, n - 1);
    }
}

pub proof fn lemma_isum_add(f: spec_fn(int) -> int, g: spec_fn(int) -> int, n: int)
    ensures
        isum(|k: int| f(k) + g(k), n) == isum(f, n) + isum(g, n),
    decreases n,
{
    if n > 0 {
        lemma_isum_add(f, g, n - 1);
    }
}

pub proof fn lemma_isum_zero(f: spec_fn(int) -> int, n: int)
    requires
        forall|k: int| 0 <= k < n ==> #[trigger] f(k) == 0,
    ensures
        isum(f, n) == 0,
    decreases n,
{
    if n > 0 {
        lemma_isum_zero(f, n - 1);
    }
}

/// A finite double sum can be taken in either order.
pub proof fn lemma_isum_swap(f: spec_fn(int, int) -> int, n: int, m: int)
    ensures
        isum(|i: int| isum(|k: int| f(i, k), m), n) == isum(|k: int| isum(|i: int| f(i, k), n), m),
    decreases n,
{
    if n > 0 {
        lemma_isum_swap(f, n - 1, m);
        let prev = |k: int| isum(|i: int| f(i, k), n - 1);
        let last = |k: int| f(n - 1, k);
        let cur = |k: int| isum(|i: int| f(i, k), n);
        let split = |k: int| prev(k) + last(k);
        assert forall|k: int| 0 <= k < m implies #[trigger] cur(k) == split(k) by {
            assert(isum(|i: int| f(i, k), n) == isum(|i: int| f(i, k), n - 1) + f(n - 1, k));
        }
        lemma_isum_ext(cur, split, m);
        lemma_isum_add(prev, last, m);
        assert(isum(|i: int| isum(|k: int| f(i, k), m), n) == isum(
            |i: int| isum(|k: int| f(i, k), m),
            n - 1,
        ) + isum(|k: int| f(n - 1, k), m));
        assert(isum(cur, m) == isum(prev, m) + isum(last, m));
    } else {
        let cur = |k: int| isum(|i: int| f(i, k), n);
        assert forall|k: int| 0 <= k < m implies #[trigger] cur(k) == 0 by {}
        lemma_isum_zero(cur, m);
    }
}

/// Where no step overflows, the accumulated dot product is the exact one.
pub proof fn lemma_dot_exact(u: Seq<i64>, v: Seq<i64>, n: int, k: int)
    requires
        0 <= k <= n,
        n <= u.len(),
        n <= v.len(),
        dot_fits(0i64, u, v, n),
    ensures
        dot_prefix(0i64, u, v, k) as int == isum(|q: int| u[q] * v[q], k),
    decreases k,
{
    if k > 0 {
        lemma_dot_exact(u, v, n, k - 1);
        assert(dot_prefix(0i64, u, v, k - 1).add_req(u[k - 1].mul_spec(v[k - 1])));
    }
}

/// Where no step overflows, the accumulated sum is the exact one.
pub proof fn lemma_sum_exact(s: Seq<i64>, n: int, k: int)
    requires
        0 <= k <= n,
        n <= s.len(),
        sum_fits(0i64, s, n),
    ensures
        sum_prefix(0i64, s, k) as int == isum(|q: int| s[q] as int, k),
    decreases k,
{
    if k > 0 {
        lemma_sum_exact(s, n, k - 1);
        assert(sum_prefix(0i64, s, k - 1).add_req(s[k - 1]));
    }
}

/// The diagonal of `a * b`, accumulated from `z`.
pub open spec fn product_diag(a: Matrix<i64>, b: Matrix<i64>, z: i64) -> Seq<i64> {
    Seq::new(a.row_size as nat, |i: int| a.product_at(&b, z, i, i))
}

/// For square matrices of one order, `trace(a * b) == trace(b * a)` wherever
/// no step of the two products or the two traces overflows.
pub proof fn law_trace_cyclic(a: Matrix<i64>, b: Matrix<i64>, z: i64)
    requires
        a.wf(),
        b.wf(),
        a.row_size == a.col_size,
        b.row_size == a.row_size,
        b.col_size == a.row_size,
        is_default(z),
        a.product_fits(&b, z),
        b.product_fits(&a, z),
        sum_fits(z, product_diag(a, b, z), a.row_size as int),
        sum_fits(z, product_diag(b, a, z), a.row_size as int),
    ensures
        sum_prefix(z, product_diag(a, b, z), a.row_size as int) == sum_prefix(
            z,
            product_diag(b, a, z),
            a.row_size as int,
        ),
{
    let n = a.row_size as int;
    let f = |i: int, k: int| a.at(i, k) * b.at(k, i);
    let dab = product_diag(a, b, z);
    let dba = product_diag(b, a, z);
    let dab_i = |q: int| dab[q] as int;
    let dba_i = |q: int| dba[q] as int;
    let rows_f = |i: int| isum(|k: int| f(i, k), n);
    let cols_f = |k: int| isum(|i: int| f(i, k), n);
    assert forall|i: int| 0 <= i < n implies #[trigger] dab_i(i) == rows_f(i) by {
        assert(dot_fits(z, a.row_of(i), b.col_of(i), n));
        lemma_dot_exact(a.row_of(i), b.col_of(i), n, n);
        let lhs = |q: int| a.row_of(i)[q] * b.col_of(i)[q];
        let rhs = |k: int| f(i, k);
        assert forall|q: int| 0 <= q < n implies #[trigger] lhs(q) == rhs(q) by {}
        lemma_isum_ext(lhs, rhs, n);
    }
    assert forall|k: int| 0 <= k < n implies #[trigger] dba_i(k) == cols_f(k) by {
        assert(dot_fits(z, b.row_of(k), a.col_of(k), n));
        lemma_dot_exact(b.row_of(k), a.col_of(k), n, n);
        let lhs = |q: int| b.row_of(k)[q] * a.col_of(k)[q];
        let rhs = |i: int| f(i, k);
        assert forall|i: int| 0 <= i < n implies #[trigger] lhs(i) == rhs(i) by {
            assert(b.at(k, i) * a.at(i, k) == a.at(i, k) * b.at(k, i)) by (nonlinear_arith);
        }
        lemma_isum_ext(lhs, rhs, n);
    }
    lemma_sum_exact(dab, n, n);
    lemma_sum_exact(dba, n, n);
    lemma_isum_ext(dab_i, rows_f, n);
    lemma_isum_ext(dba_i, cols_f, n);
    lemma_isum_swap(f, n, n);
}

} // verus!
