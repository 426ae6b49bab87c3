use crate::matrix::Matrix;
use crate::numbers::{is_default, is_one};
use core::ops::Mul;
use vstd::prelude::*;
use vstd::std_specs::cmp::{PartialOrdIs, PartialOrdSpec};
use vstd::std_specs::ops::MulSpec;

verus! {

/// ReLU of one element against the zero `z`: `max(z, x)`.
pub open spec fn relu_of<T: PartialOrd>(x: T, z: T) -> T {
    if x.is_lt(&z) {
        z
    } else {
        x
    }
}

/// Leaky ReLU of one element: `x` where `x >= z`, else `x * alpha`.
pub open spec fn leaky_relu_of<T: PartialOrd + Mul<Output = T>>(x: T, z: T, alpha: T) -> T {
    if x.is_lt(&z) {
        x.mul_spec(alpha)
    } else {
        x
    }
}

/// The ReLU gradient of one element: `one` where `x >= z`, else `z`.
pub open spec fn relu_grad_of<T: PartialOrd>(x: T, z: T, one: T) -> T {
    if x.is_ge(&z) {
        one
    } else {
        z
    }
}

/// Every product that leaky ReLU forms is defined: `s[i] * alpha` for each
/// element below zero (for each element, where the order is unspecified).
pub open spec fn leaky_relu_fits<T: PartialOrd + Default + Mul<Output = T>>(s: Seq<T>, alpha: T) -> bool {
    forall|z: T, i: int|
        #![trigger is_default(z), s[i]]
        is_default(z) && 0 <= i < s.len() && (T::obeys_partial_cmp_spec() ==> s[i].is_lt(&z))
            ==> s[i].mul_req(alpha)
}

/// `relu_of` applied to every element.
pub open spec fn relu_seq<T: PartialOrd>(s: Seq<T>, z: T) -> Seq<T> {
    Seq::new(s.len(), |i: int| relu_of(s[i], z))
}

/// `leaky_relu_of` applied to every element.
pub open spec fn leaky_relu_seq<T: PartialOrd + Mul<Output = T>>(s: Seq<T>, z: T, alpha: T) -> Seq<T> {
    Seq::new(s.len(), |i: int| leaky_relu_of(s[i], z, alpha))
}

/// `relu_grad_of` applied to every element.
pub open spec fn relu_grad_seq<T: PartialOrd>(s: Seq<T>, z: T, one: T) -> Seq<T> {
    Seq::new(s.len(), |i: int| relu_grad_of(s[i], z, one))
}

impl<T: Copy + PartialOrd + Default> Matrix<T> {
    /// ReLU applied element-wise: negative elements become zero.
    pub fn relu(&self) -> (r: Matrix<T>)
        requires
            self.wf(),
        ensures
            r.wf(),
            r.same_shape(self),
            r.data@.len() == self.data@.len(),
            exists|z: T|
                is_default(z) && (T::obeys_partial_cmp_spec() ==> r.data@ == relu_seq(
                    self.data@,
                    z,
                )),
    {
        let z = T::default();
        proof {
            assert(is_default(z));
        }
        let n = self.data.len();
        let mut out: Vec<T> = Vec::new();
        let mut i: usize = 0;
        while i < n
            invariant
                n == self.data@.len(),
                i <= n,
                out@.len() == i,
                T::obeys_partial_cmp_spec() ==> forall|q: int|
                    0 <= q < i ==> out@[q] == #[trigger] relu_of(self.data@[q], z),
            decreases n - i,
        {
            let x = self.data[i];
            if x < z {
                out.push(z);
            } else {
                out.push(x);
            }
            i += 1;
        }
        proof {
            if T::obeys_partial_cmp_spec() {
                assert(out@ == relu_seq(self.data@, z));
            }
        }
        Matrix { data: out, row_size: self.row_size, col_size: self.col_size }
    }
}

impl<T: Copy + PartialOrd + Default + Mul<Output = T>> Matrix<T> {
    /// Leaky ReLU applied element-wise: negative elements are multiplied by
    /// `alpha`, the others kept.
    pub fn leaky_relu(&self, alpha: T) -> (r: Matrix<T>)
        requires
            self.wf(),
            leaky_relu_fits(self.data@, alpha),
        ensures
            r.wf(),
            r.same_shape(self),
            r.data@.len() == self.data@.len(),
            exists|z: T|
                is_default(z) && (T::obeys_partial_cmp_spec() && T::obeys_mul_spec() ==> r.data@
                    == leaky_relu_seq(self.data@, z, alpha)),
    {
        let z = T::default();
        proof {
            assert(is_default(z));
        }
        let n = self.data.len();
        let mut out: Vec<T> = Vec::new();
        let mut i: usize = 0;
        while i < n
            invariant
                n == self.data@.len(),
                leaky_relu_fits(self.data@, alpha),
                is_default(z),
                i <= n,
                out@.len() == i,
                T::obeys_partial_cmp_spec() && T::obeys_mul_spec() ==> forall|q: int|
                    0 <= q < i ==> out@[q] == #[trigger] leaky_relu_of(self.data@[q], z, alpha),
            decreases n - i,
        {
            let x = self.data[i];
            if x < z {
                proof {
                    assert(is_default(z) && 0 <= i < self.data@.len());
                }
                out.push(x * alpha);
            } else {
                out.push(x);
            }
            i += 1;
        }
        proof {
            if T::obeys_partial_cmp_spec() && T::obeys_mul_spec() {
                assert(out@ == leaky_relu_seq(self.data@, z, alpha));
            }
        }
        Matrix { data: out, row_size: self.row_size, col_size: self.col_size }
    }
}

impl<T: Copy + PartialOrd + Default + From<u8>> Matrix<T> {
    /// The gradient of ReLU element-wise: one where the element is at least
    /// zero (the derivative at zero is taken to be one), zero elsewhere.
    pub fn relu_backward(&self) -> (r: Matrix<T>)
        requires
            self.wf(),
        ensures
            r.wf(),
            r.same_shape(self),
            r.data@.len() == self.data@.len(),
            exists|z: T|
                is_default(z) && exists|one: T|
                    is_one(one) && (T::obeys_partial_cmp_spec() ==> r.data@ == relu_grad_seq(
                        self.data@,
                        z,
                        one,
                    )),
    {
        let z = T::default();
        let one = T::from(1u8);
        proof {
            assert(is_default(z));
            assert(is_one(one));
        }
        let n = self.data.len();
        let mut out: Vec<T> = Vec::new();
        let mut i: usize = 0;
        while i < n
            invariant
                n == self.data@.len(),
                i <= n,
                out@.len() == i,
                T::obeys_partial_cmp_spec() ==> forall|q: int|
                    0 <= q < i ==> out@[q] == #[trigger] relu_grad_of(self.data@[q], z, one),
            decreases n - i,
        {
            let x = self.data[i];
            if x >= z {
                out.push(one);
            } else {
                out.push(z);
            }
            i += 1;
        }
        proof {
            if T::obeys_partial_cmp_spec() {
                assert(out@ == relu_grad_seq(self.data@, z, one));
            }
        }
        Matrix { data: out, row_size: self.row_size, col_size: self.col_size }
    }
}

} // verus!
