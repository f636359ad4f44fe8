//! The dual scalar: a value, its directional derivative, and an optional
//! binding to a recording context.
//!
//! Arithmetic on `AFloat` computes the value and the forward-mode tangent
//! immediately, so the type works as plain tapeless forward AD.  A value
//! that was handed out by a recording context additionally remembers the
//! context id and its slot there; the context's `record_op` uses that
//! binding to append instructions.  Combining values pre-bound to two
//! different contexts is a caller error and is excluded by contract.
//!
//! `AFloat<S>` itself implements [`Scalar`], so duals nest: forward-over-
//! forward derivatives come from instantiating the scalar with another
//! dual.  The nested operations are pure and leave the result unbound.

use vstd::prelude::*;

use crate::operation::{first_order_spec, first_order_value, op_arity, opt_or, zero_order_spec,
    zero_order_value, OpCode};
use crate::scalar::Scalar;

verus! {

/// Floating point variable type for tapeless forward-mode automatic differentiation
#[derive(Debug, Clone, Copy)]
pub struct AFloat<S: Scalar> {
    /// Zero-order value
    pub v: S,
    /// First order value
    pub dv: S,
    /// Context id and value id
    pub ctx: Option<(usize, usize)>,
}

/// The context binding two operands may carry when combined: at most one
/// context id among them.
pub open spec fn compatible_bindings<S: Scalar>(arg1: AFloat<S>, arg2: Option<AFloat<S>>) -> bool {
    match (arg1.ctx, arg2) {
        (Some((c1, _)), Some(b)) => match b.ctx {
            Some((c2, _)) => c1 == c2,
            None => true,
        },
        _ => true,
    }
}

impl<S: Scalar> AFloat<S> {
    /// Create a variable from its zero- and first-order value
    pub fn new(v: S, dv: S) -> (r: Self)
        ensures
            r == (AFloat { v, dv, ctx: None::<(usize, usize)> }),
    {
        Self { v, dv, ctx: None }
    }

    /// Get the zero-order value
    pub fn value(&self) -> (r: S)
        ensures
            r == self.v,
    {
        self.v
    }

    /// Borrow the zero-order value mutably
    pub fn value_mut(&mut self) -> (r: &mut S)
        ensures
            *r == old(self).v,
            *final(self) == (AFloat { v: *final(r), ..*old(self) }),
    {
        &mut self.v
    }

    /// Get the first-order value
    pub fn dvalue(&self) -> (r: S)
        ensures
            r == self.dv,
    {
        self.dv
    }

    /// Borrow the first-order value mutably
    pub fn dvalue_mut(&mut self) -> (r: &mut S)
        ensures
            *r == old(self).dv,
            *final(self) == (AFloat { dv: *final(r), ..*old(self) }),
    {
        &mut self.dv
    }

    /// Combine one or two duals through an elementary operation, without
    /// recording: value and tangent follow the opcode's semantics, and the
    /// result is unbound.  The result of a recorded combination is built by
    /// `AContext::record_op` instead.
    pub fn from_op(opcode: OpCode, arg1: Self, arg2: Option<Self>) -> (r: Self)
        requires
            op_arity(opcode) >= 1,
            op_arity(opcode) == 2 ==> arg2.is_some(),
            compatible_bindings(arg1, arg2),
        ensures
            r.v == zero_order_spec(opcode, arg1.v, opt_or(spec_values(arg2), arg1.v)),
            r.dv == first_order_spec(
                opcode,
                arg1.v,
                opt_or(spec_values(arg2), arg1.v),
                arg1.dv,
                opt_or(spec_dvalues(arg2), arg1.dv),
            ),
            r.ctx.is_none(),
    {
        let a2: Option<S> = match arg2 {
            Some(b) => Some(b.v),
            None => None,
        };
        let d2: Option<S> = match arg2 {
            Some(b) => Some(b.dv),
            None => None,
        };
        let v = zero_order_value(opcode, arg1.v, a2);
        let dv = first_order_value(opcode, arg1.v, a2, arg1.dv, d2);
        Self { v, dv, ctx: None }
    }

    pub(crate) fn set_context(&mut self, ctx_id: usize, val_id: usize)
        ensures
            *final(self) == (AFloat { ctx: Some((ctx_id, val_id)), ..*old(self) }),
    {
        self.ctx = Some((ctx_id, val_id));
    }

    /// The context binding, if any.
    pub fn context(&self) -> (r: Option<(usize, usize)>)
        ensures
            r == self.ctx,
    {
        self.ctx
    }
}

/// The value components of an optional second operand.
pub open spec fn spec_values<S: Scalar>(o: Option<AFloat<S>>) -> Option<S> {
    match o {
        Some(b) => Some(b.v),
        None => None,
    }
}

/// The tangent components of an optional second operand.
pub open spec fn spec_dvalues<S: Scalar>(o: Option<AFloat<S>>) -> Option<S> {
    match o {
        Some(b) => Some(b.dv),
        None => None,
    }
}

impl<S: Scalar> Scalar for AFloat<S> {
    open spec fn zero_spec() -> Self {
        AFloat { v: S::zero_spec(), dv: S::zero_spec(), ctx: None }
    }

    open spec fn one_spec() -> Self {
        AFloat { v: S::one_spec(), dv: S::zero_spec(), ctx: None }
    }

    open spec fn add_spec(a: Self, b: Self) -> Self {
        AFloat { v: S::add_spec(a.v, b.v), dv: S::add_spec(a.dv, b.dv), ctx: None }
    }

    open spec fn sub_spec(a: Self, b: Self) -> Self {
        AFloat { v: S::sub_spec(a.v, b.v), dv: S::sub_spec(a.dv, b.dv), ctx: None }
    }

    open spec fn mul_spec(a: Self, b: Self) -> Self {
        AFloat {
            v: S::mul_spec(a.v, b.v),
            dv: S::add_spec(S::mul_spec(a.dv, b.v), S::mul_spec(a.v, b.dv)),
            ctx: None,
        }
    }

    open spec fn div_spec(a: Self, b: Self) -> Self {
        AFloat {
            v: S::div_spec(a.v, b.v),
            dv: S::div_spec(
                S::sub_spec(S::mul_spec(a.dv, b.v), S::mul_spec(a.v, b.dv)),
                S::mul_spec(b.v, b.v),
            ),
            ctx: None,
        }
    }

    open spec fn neg_spec(a: Self) -> Self {
        AFloat { v: S::neg_spec(a.v), dv: S::neg_spec(a.dv), ctx: None }
    }

    open spec fn abs_spec(a: Self) -> Self {
        AFloat {
            v: S::abs_spec(a.v),
            dv: S::sub_spec(S::abs_spec(S::add_spec(a.v, a.dv)), S::abs_spec(a.v)),
            ctx: None,
        }
    }

    open spec fn sin_spec(a: Self) -> Self {
        AFloat { v: S::sin_spec(a.v), dv: S::mul_spec(a.dv, S::cos_spec(a.v)), ctx: None }
    }

    open spec fn cos_spec(a: Self) -> Self {
        AFloat {
            v: S::cos_spec(a.v),
            dv: S::mul_spec(S::neg_spec(a.dv), S::sin_spec(a.v)),
            ctx: None,
        }
    }

    open spec fn tan_spec(a: Self) -> Self {
        AFloat {
            v: S::tan_spec(a.v),
            dv: S::mul_spec(
                a.dv,
                S::div_spec(S::one_spec(), S::mul_spec(S::cos_spec(a.v), S::cos_spec(a.v))),
            ),
            ctx: None,
        }
    }

    open spec fn exp_spec(a: Self) -> Self {
        AFloat { v: S::exp_spec(a.v), dv: S::mul_spec(a.dv, S::exp_spec(a.v)), ctx: None }
    }

    open spec fn ln_spec(a: Self) -> Self {
        AFloat {
            v: S::ln_spec(a.v),
            dv: S::mul_spec(a.dv, S::div_spec(S::one_spec(), a.v)),
            ctx: None,
        }
    }

    open spec fn asin_spec(a: Self) -> Self {
        AFloat {
            v: S::asin_spec(a.v),
            dv: S::div_spec(
                a.dv,
                S::sqrt_spec(S::sub_spec(S::one_spec(), S::mul_spec(a.v, a.v))),
            ),
            ctx: None,
        }
    }

    open spec fn acos_spec(a: Self) -> Self {
        AFloat {
            v: S::acos_spec(a.v),
            dv: S::div_spec(
                S::neg_spec(a.dv),
                S::sqrt_spec(S::sub_spec(S::one_spec(), S::mul_spec(a.v, a.v))),
            ),
            ctx: None,
        }
    }

    open spec fn atan_spec(a: Self) -> Self {
        AFloat {
            v: S::atan_spec(a.v),
            dv: S::div_spec(a.dv, S::add_spec(S::one_spec(), S::mul_spec(a.v, a.v))),
            ctx: None,
        }
    }

    open spec fn powf_spec(a: Self, b: Self) -> Self {
        AFloat {
            v: S::powf_spec(a.v, b.v),
            dv: first_order_spec(OpCode::Powf, a.v, b.v, a.dv, b.dv),
            ctx: None,
        }
    }

    open spec fn sqrt_spec(a: Self) -> Self {
        AFloat {
            v: S::sqrt_spec(a.v),
            dv: S::div_spec(
                a.dv,
                S::mul_spec(S::add_spec(S::one_spec(), S::one_spec()), S::sqrt_spec(a.v)),
            ),
            ctx: None,
        }
    }

    open spec fn lt_spec(a: Self, b: Self) -> bool {
        S::lt_spec(a.v, b.v)
    }

    open spec fn eq_spec(a: Self, b: Self) -> bool {
        S::eq_spec(a.v, b.v)
    }

    fn zero() -> (r: Self) {
        AFloat { v: S::zero(), dv: S::zero(), ctx: None }
    }

    fn one() -> (r: Self) {
        AFloat { v: S::one(), dv: S::zero(), ctx: None }
    }

    fn add(a: Self, b: Self) -> (r: Self) {
        AFloat { v: S::add(a.v, b.v), dv: S::add(a.dv, b.dv), ctx: None }
    }

    fn sub(a: Self, b: Self) -> (r: Self) {
        AFloat { v: S::sub(a.v, b.v), dv: S::sub(a.dv, b.dv), ctx: None }
    }

    fn mul(a: Self, b: Self) -> (r: Self) {
        AFloat {
            v: S::mul(a.v, b.v),
            dv: S::add(S::mul(a.dv, b.v), S::mul(a.v, b.dv)),
            ctx: None,
        }
    }

    fn div(a: Self, b: Self) -> (r: Self) {
        AFloat {
            v: S::div(a.v, b.v),
            dv: S::div(S::sub(S::mul(a.dv, b.v), S::mul(a.v, b.dv)), S::mul(b.v, b.v)),
            ctx: None,
        }
    }

    fn neg(a: Self) -> (r: Self) {
        AFloat { v: S::neg(a.v), dv: S::neg(a.dv), ctx: None }
    }

    fn abs(a: Self) -> (r: Self) {
        AFloat {
            v: S::abs(a.v),
            dv: S::sub(S::abs(S::add(a.v, a.dv)), S::abs(a.v)),
            ctx: None,
        }
    }

    fn sin(a: Self) -> (r: Self) {
        AFloat { v: S::sin(a.v), dv: S::mul(a.dv, S::cos(a.v)), ctx: None }
    }

    fn cos(a: Self) -> (r: Self) {
        AFloat { v: S::cos(a.v), dv: S::mul(S::neg(a.dv), S::sin(a.v)), ctx: None }
    }

    fn tan(a: Self) -> (r: Self) {
        AFloat {
            v: S::tan(a.v),
            dv: S::mul(a.dv, S::div(S::one(), S::mul(S::cos(a.v), S::cos(a.v)))),
            ctx: None,
        }
    }

    fn exp(a: Self) -> (r: Self) {
        AFloat { v: S::exp(a.v), dv: S::mul(a.dv, S::exp(a.v)), ctx: None }
    }

    fn ln(a: Self) -> (r: Self) {
        AFloat { v: S::ln(a.v), dv: S::mul(a.dv, S::div(S::one(), a.v)), ctx: None }
    }

    fn asin(a: Self) -> (r: Self) {
        AFloat {
            v: S::asin(a.v),
            dv: S::div(a.dv, S::sqrt(S::sub(S::one(), S::mul(a.v, a.v)))),
            ctx: None,
        }
    }

    fn acos(a: Self) -> (r: Self) {
        AFloat {
            v: S::acos(a.v),
            dv: S::div(S::neg(a.dv), S::sqrt(S::sub(S::one(), S::mul(a.v, a.v)))),
            ctx: None,
        }
    }

    fn atan(a: Self) -> (r: Self) {
        AFloat {
            v: S::atan(a.v),
            dv: S::div(a.dv, S::add(S::one(), S::mul(a.v, a.v))),
            ctx: None,
        }
    }

    fn powf(a: Self, b: Self) -> (r: Self) {
        let dv = first_order_value(OpCode::Powf, a.v, Some(b.v), a.dv, Some(b.dv));
        AFloat { v: S::powf(a.v, b.v), dv, ctx: None }
    }

    fn sqrt(a: Self) -> (r: Self) {
        AFloat {
            v: S::sqrt(a.v),
            dv: S::div(a.dv, S::mul(S::add(S::one(), S::one()), S::sqrt(a.v))),
            ctx: None,
        }
    }

    fn lt(a: Self, b: Self) -> (r: bool) {
        S::lt(a.v, b.v)
    }

    fn eq_val(a: Self, b: Self) -> (r: bool) {
        S::eq_val(a.v, b.v)
    }
}

} // verus!
