//! The numeric interface of the compiler's value domain.
//!
//! Constants in expression trees are stored as the raw 32-bit pattern of the
//! scalar float they denote, and every stage of the pipeline is specified
//! against an arbitrary implementation of this trait. A caller supplies the
//! concrete arithmetic (an unverified float-backed implementation, or the
//! symbolic [`crate::ir::expr::Expr`] implementation in this crate); each
//! executable method promises to return exactly what its specification
//! counterpart describes, so everything proved over the trait holds for
//! every implementation that keeps that promise.

use vstd::prelude::*;

verus! {

pub trait Number: Sized {
    /// The value of `self + other`.
    spec fn spec_add(self, other: Self) -> Self;

    /// The value of `self - other`.
    spec fn spec_sub(self, other: Self) -> Self;

    /// The value of `self * other`.
    spec fn spec_mul(self, other: Self) -> Self;

    /// The value of `self / other`.
    spec fn spec_div(self, other: Self) -> Self;

    /// `consequent` if `self` is at least zero, `alternative` otherwise
    /// (in the sense of the implementing domain).
    spec fn spec_if_positive(self, consequent: Self, alternative: Self) -> Self;

    /// The value denoted by a raw 32-bit float pattern.
    spec fn spec_from_bits(bits: u32) -> Self;

    fn add(&self, other: &Self) -> (r: Self)
        ensures
            r == self.spec_add(*other),
    ;

    fn sub(&self, other: &Self) -> (r: Self)
        ensures
            r == self.spec_sub(*other),
    ;

    fn mul(&self, other: &Self) -> (r: Self)
        ensures
            r == self.spec_mul(*other),
    ;

    fn div(&self, other: &Self) -> (r: Self)
        ensures
            r == self.spec_div(*other),
    ;

    fn if_positive(&self, consequent: &Self, alternative: &Self) -> (r: Self)
        ensures
            r == self.spec_if_positive(*consequent, *alternative),
    ;

    fn from_bits(bits: u32) -> (r: Self)
        ensures
            r == Self::spec_from_bits(bits),
    ;

    /// An exact copy of the value.
    fn dup(&self) -> (r: Self)
        ensures
            r == *self,
    ;
}

} // verus!
