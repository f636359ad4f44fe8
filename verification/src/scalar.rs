//! The abstract numeric type that every tape and driver is generic over.
//!
//! Each operation comes in two parts: a spec function that serves as the
//! mathematical model of the operation (`add_spec`, `sin_spec`, ...) and an
//! executable method whose contract ties it to that model.  The model makes
//! every operation a deterministic function of its operands, which is what
//! the tape interpreters' contracts (replay determinism, idempotence) rest
//! on.  Nothing else is assumed: the model does not satisfy ring axioms, so
//! it is also an honest description of floating-point arithmetic, where a
//! client implements these methods with hardware operations.

use vstd::prelude::*;

verus! {

/// A numeric type with the elementary operations the operation set needs.
///
/// Implementors provide a spec-level model for each operation and executable
/// code that agrees with it.  The library implements it for `AFloat` (duals
/// over any scalar); clients implement it for their base numeric type.
pub trait Scalar: Sized + Copy {
    /// Model of the additive identity.
    spec fn zero_spec() -> Self;

    /// Model of the multiplicative identity.
    spec fn one_spec() -> Self;

    /// Model of addition.
    spec fn add_spec(a: Self, b: Self) -> Self;

    /// Model of subtraction.
    spec fn sub_spec(a: Self, b: Self) -> Self;

    /// Model of multiplication.
    spec fn mul_spec(a: Self, b: Self) -> Self;

    /// Model of division.
    spec fn div_spec(a: Self, b: Self) -> Self;

    /// Model of negation.
    spec fn neg_spec(a: Self) -> Self;

    /// Model of the absolute value.
    spec fn abs_spec(a: Self) -> Self;

    /// Model of the sine.
    spec fn sin_spec(a: Self) -> Self;

    /// Model of the cosine.
    spec fn cos_spec(a: Self) -> Self;

    /// Model of the tangent.
    spec fn tan_spec(a: Self) -> Self;

    /// Model of the exponential.
    spec fn exp_spec(a: Self) -> Self;

    /// Model of the natural logarithm.
    spec fn ln_spec(a: Self) -> Self;

    /// Model of the arcsine.
    spec fn asin_spec(a: Self) -> Self;

    /// Model of the arccosine.
    spec fn acos_spec(a: Self) -> Self;

    /// Model of the arctangent.
    spec fn atan_spec(a: Self) -> Self;

    /// Model of exponentiation with an arbitrary exponent.
    spec fn powf_spec(a: Self, b: Self) -> Self;

    /// Model of the square root.
    spec fn sqrt_spec(a: Self) -> Self;

    /// Model of the order test `a < b`.
    spec fn lt_spec(a: Self, b: Self) -> bool;

    /// Model of the numeric equality test.  For a floating-point client this
    /// is the hardware comparison, which need not coincide with structural
    /// equality.
    spec fn eq_spec(a: Self, b: Self) -> bool;

    fn zero() -> (r: Self)
        ensures
            r == Self::zero_spec(),
    ;

    fn one() -> (r: Self)
        ensures
            r == Self::one_spec(),
    ;

    fn add(a: Self, b: Self) -> (r: Self)
        ensures
            r == Self::add_spec(a, b),
    ;

    fn sub(a: Self, b: Self) -> (r: Self)
        ensures
            r == Self::sub_spec(a, b),
    ;

    fn mul(a: Self, b: Self) -> (r: Self)
        ensures
            r == Self::mul_spec(a, b),
    ;

    fn div(a: Self, b: Self) -> (r: Self)
        ensures
            r == Self::div_spec(a, b),
    ;

    fn neg(a: Self) -> (r: Self)
        ensures
            r == Self::neg_spec(a),
    ;

    fn abs(a: Self) -> (r: Self)
        ensures
            r == Self::abs_spec(a),
    ;

    fn sin(a: Self) -> (r: Self)
        ensures
            r == Self::sin_spec(a),
    ;

    fn cos(a: Self) -> (r: Self)
        ensures
            r == Self::cos_spec(a),
    ;

    fn tan(a: Self) -> (r: Self)
        ensures
            r == Self::tan_spec(a),
    ;

    fn exp(a: Self) -> (r: Self)
        ensures
            r == Self::exp_spec(a),
    ;

    fn ln(a: Self) -> (r: Self)
        ensures
            r == Self::ln_spec(a),
    ;

    fn asin(a: Self) -> (r: Self)
        ensures
            r == Self::asin_spec(a),
    ;

    fn acos(a: Self) -> (r: Self)
        ensures
            r == Self::acos_spec(a),
    ;

    fn atan(a: Self) -> (r: Self)
        ensures
            r == Self::atan_spec(a),
    ;

    fn powf(a: Self, b: Self) -> (r: Self)
        ensures
            r == Self::powf_spec(a, b),
    ;

    fn sqrt(a: Self) -> (r: Self)
        ensures
            r == Self::sqrt_spec(a),
    ;

    fn lt(a: Self, b: Self) -> (r: bool)
        ensures
            r == Self::lt_spec(a, b),
    ;

    fn eq_val(a: Self, b: Self) -> (r: bool)
        ensures
            r == Self::eq_spec(a, b),
    ;
}

} // verus!
