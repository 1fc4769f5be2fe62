//! The arithmetic of an element type, as the kernels see it.
//!
//! Nothing is known of what `x + y` or `x * y` is for an arbitrary type, and
//! for the floating-point numbers the result of an operation is deliberately
//! left open: it may differ from one machine to the next. An operation is
//! therefore described by a relation between its operands and a result, and
//! the kernels' contracts are built from these relations.
use core::ops::Add;
use core::ops::Mul;
use vstd::prelude::*;

verus! {

/// An element type of the kernels: a copyable number with a zero (its
/// default value), an addition and a multiplication.
pub trait Scalar: Copy + Default + Add<Output = Self> + Mul<Output = Self> {

}

impl<T: Copy + Default + Add<Output = T> + Mul<Output = T>> Scalar for T {

}

/// An accumulator type for elements of type `T`: a scalar into which every
/// element converts.
pub trait Widens<T>: Scalar + From<T> {

}

impl<T, W: Scalar + From<T>> Widens<T> for W {

}

/// `z` is a value that `T::default()` may return: the zero from which the
/// kernels start to add.
pub open spec fn is_zero<T: Scalar>(z: T) -> bool {
    call_ensures(T::default, (), z)
}

/// `r` is a value that `x + y` may return.
pub open spec fn is_sum<T: Scalar>(x: T, y: T, r: T) -> bool {
    call_ensures(<T as Add>::add, (x, y), r)
}

/// `r` is a value that `x * y` may return.
pub open spec fn is_product<T: Scalar>(x: T, y: T, r: T) -> bool {
    call_ensures(<T as Mul>::mul, (x, y), r)
}

/// `w` is a value that `W::from(x)` may return.
pub open spec fn is_widened<T, W: Widens<T>>(x: T, w: W) -> bool {
    call_ensures(<W as From<T>>::from, (x,), w)
}

/// Addition of `T` accepts every pair of operands.
pub open spec fn total_addition<T: Scalar>() -> bool {
    forall|x: T, y: T| call_requires(<T as Add>::add, (x, y))
}

/// Multiplication of `T` accepts every pair of operands.
pub open spec fn total_multiplication<T: Scalar>() -> bool {
    forall|x: T, y: T| call_requires(<T as Mul>::mul, (x, y))
}

/// Addition and multiplication of `T` accept every pair of operands.
pub open spec fn total_arithmetic<T: Scalar>() -> bool {
    total_addition::<T>() && total_multiplication::<T>()
}

/// Zero added to zero gives zero.
pub open spec fn zero_plus_zero_is_zero<T: Scalar>() -> bool {
    forall|x: T, y: T, r: T| is_zero(x) && is_zero(y) && #[trigger] is_sum(x, y, r) ==> is_zero(r)
}

/// `T` has one zero, and each sum of `T` has one result.
pub open spec fn deterministic_addition<T: Scalar>() -> bool {
    &&& forall|y: T, z: T| #[trigger] is_zero(y) && #[trigger] is_zero(z) ==> y == z
    &&& forall|x: T, y: T, r: T, s: T|
        #[trigger] is_sum(x, y, r) && #[trigger] is_sum(x, y, s) ==> r == s
}

/// Each product of `T` has one result.
pub open spec fn deterministic_multiplication<T: Scalar>() -> bool {
    forall|x: T, y: T, r: T, s: T|
        #[trigger] is_product(x, y, r) && #[trigger] is_product(x, y, s) ==> r == s
}

/// The conversion from `T` to `W` has one result.
pub open spec fn deterministic_widening<T, W: Widens<T>>() -> bool {
    forall|x: T, v: W, w: W| #[trigger] is_widened(x, v) && #[trigger] is_widened(x, w) ==> v == w
}

} // verus!
