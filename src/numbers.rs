use vstd::prelude::*;

verus! {

/// Element types that a matrix can compute with: copyable values with an
/// ordering, a default (zero) value, addition and multiplication.
pub trait Numeric: Copy + PartialOrd + Default + core::ops::Add<Output = Self> + core::ops::Mul<
    Output = Self,
> {

}

impl<T> Numeric for T where
    T: Copy + PartialOrd + Default + core::ops::Add<Output = T> + core::ops::Mul<Output = T>,
 {

}

/// Marker for the primitive integer element types.
pub trait Integers {

}

impl Integers for i8 {

}

impl Integers for i16 {

}

impl Integers for i32 {

}

impl Integers for i64 {

}

impl Integers for i128 {

}

impl Integers for u8 {

}

impl Integers for u16 {

}

impl Integers for u32 {

}

impl Integers for u64 {

}

impl Integers for u128 {

}

/// `z` is a value that `T::default()` may return: the additive identity of
/// every primitive numeric type.
pub open spec fn is_default<T: Default>(z: T) -> bool {
    call_ensures(T::default, (), z)
}

/// `o` is a value that `T::from(1u8)` may return.
pub open spec fn is_one<T: From<u8>>(o: T) -> bool {
    call_ensures(T::from, (1u8,), o)
}

} // verus!
