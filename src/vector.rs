use crate::arith::{dot_fits, dot_prefix};
use crate::numbers::{is_default, Numeric};
use vstd::prelude::*;
use vstd::std_specs::ops::{AddSpec, MulSpec};

verus! {

/// Products over free-standing vectors.
pub trait VectorOps<T: Numeric> {
    /// The elements of the vector.
    spec fn elems(&self) -> Seq<T>;

    /// The dot product `a[0] * b[0] + ... + a[n - 1] * b[n - 1]`, accumulated
    /// from zero; `None` when the lengths differ.
    fn dot_product(&self, b: &[T]) -> (r: Option<T>)
        requires
            T::obeys_add_spec(),
            T::obeys_mul_spec(),
            self.elems().len() == b@.len() ==> forall|z: T|
                is_default(z) ==> dot_fits(z, self.elems(), b@, b@.len() as int),
        ensures
            r is Some <==> self.elems().len() == b@.len(),
            r matches Some(v) ==> exists|z: T|
                is_default(z) && v == dot_prefix(z, self.elems(), b@, b@.len() as int),
    ;

    /// The dot product of the vector with itself.
    fn squared_norm(&self) -> (r: T)
        requires
            T::obeys_add_spec(),
            T::obeys_mul_spec(),
            forall|z: T|
                is_default(z) ==> dot_fits(z, self.elems(), self.elems(), self.elems().len() as int),
        ensures
            exists|z: T|
                is_default(z) && r == dot_prefix(
                    z,
                    self.elems(),
                    self.elems(),
                    self.elems().len() as int,
                ),
    ;
}

/// `z + a[0] * b[0] + ... + a[n - 1] * b[n - 1]` over the first `n` elements.
fn dot_from<T: Numeric>(z: T, a: &[T], b: &[T], n: usize) -> (r: T)
    requires
        T::obeys_add_spec(),
        T::obeys_mul_spec(),
        n <= a@.len(),
        n <= b@.len(),
        dot_fits(z, a@, b@, n as int),
    ensures
        r == dot_prefix(z, a@, b@, n as int),
{
    let mut acc = z;
    let mut k: usize = 0;
    while k < n
        invariant
            T::obeys_add_spec(),
            T::obeys_mul_spec(),
            n <= a@.len(),
            n <= b@.len(),
            dot_fits(z, a@, b@, n as int),
            k <= n,
            acc == dot_prefix(z, a@, b@, k as int),
        decreases n - k,
    {
        proof {
            assert(dot_prefix(z, a@, b@, k as int).add_req(a@[k as int].mul_spec(b@[k as int])));
        }
        acc = acc + a[k] * b[k];
        k += 1;
    }
    acc
}

impl<T: Numeric> VectorOps<T> for Vec<T> {
    open spec fn elems(&self) -> Seq<T> {
        self@
    }

    fn dot_product(&self, b: &[T]) -> (r: Option<T>) {
        if self.len() != b.len() {
            return None;
        }
        let z = T::default();
        proof {
            assert(is_default(z));
        }
        Some(dot_from(z, self.as_slice(), b, b.len()))
    }

    fn squared_norm(&self) -> (r: T) {
        let z = T::default();
        proof {
            assert(is_default(z));
        }
        dot_from(z, self.as_slice(), self.as_slice(), self.len())
    }
}

} // verus!
