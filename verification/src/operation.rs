//! The closed set of elementary instructions and their semantics.
//!
//! An [`Operation`] names an opcode, the slot its result is written to and
//! the slots of its operands.  Three interpretations are given to each
//! opcode: the value itself (`zero_order_spec`), the forward-mode tangent
//! (`first_order_spec`) and the reverse-mode adjoint accumulation
//! (`reverse_step_spec`).  Each has an executable counterpart proved against
//! it.

use vstd::pervasive::VecAdditionalExecFns;
use vstd::prelude::*;

use crate::scalar::Scalar;

verus! {

/// Enum of possible elementary operations
#[derive(Debug, Clone, Copy, PartialEq, Eq, Structural)]
pub enum OpCode {
    Nop,
    Const,
    Add,
    Sub,
    Mul,
    Div,
    Sin,
    Cos,
    Tan,
    Abs,
    Exp,
    Ln,
    Asin,
    Acos,
    Atan,
    Powf,
}

/// Representation of a single elementary operation and inputs and output
#[derive(Debug, Clone, Copy, PartialEq)]
pub struct Operation {
    /// Op code of the operation
    pub opcode: OpCode,
    /// Result id
    pub vid: usize,
    /// Argument 1 id
    pub arg1: Option<usize>,
    /// Argument 2 id
    pub arg2: Option<usize>,
}

/// Number of operand slots an opcode reads.
pub open spec fn op_arity(code: OpCode) -> int {
    match code {
        OpCode::Nop => 0,
        OpCode::Const => 0,
        OpCode::Add => 2,
        OpCode::Sub => 2,
        OpCode::Mul => 2,
        OpCode::Div => 2,
        OpCode::Powf => 2,
        OpCode::Sin => 1,
        OpCode::Cos => 1,
        OpCode::Tan => 1,
        OpCode::Abs => 1,
        OpCode::Exp => 1,
        OpCode::Ln => 1,
        OpCode::Asin => 1,
        OpCode::Acos => 1,
        OpCode::Atan => 1,
    }
}

/// Well-formedness of one instruction against a value buffer of length
/// `len`: the operand count matches the opcode's arity, every referenced
/// slot is in range, and operands strictly precede the result slot
/// (instructions are recorded in dependency order).
pub open spec fn op_wf(op: Operation, len: nat) -> bool {
    match op.opcode {
        OpCode::Nop => op.arg1.is_none() && op.arg2.is_none(),
        OpCode::Const => op.vid < len && op.arg1.is_none() && op.arg2.is_none(),
        _ => {
            &&& op.vid < len
            &&& op.arg1.is_some()
            &&& op.arg1.unwrap() < op.vid
            &&& if op_arity(op.opcode) == 2 {
                op.arg2.is_some() && op.arg2.unwrap() < op.vid
            } else {
                op.arg2.is_none()
            }
        },
    }
}

/// The second operand where present, else the fallback `d`.
pub open spec fn opt_or<S>(o: Option<S>, d: S) -> S {
    match o {
        Some(x) => x,
        None => d,
    }
}

/// Value semantics of a computing opcode applied to operand values `a1`,
/// `a2` (`a2` is ignored by unary opcodes).
pub open spec fn zero_order_spec<S: Scalar>(code: OpCode, a1: S, a2: S) -> S {
    match code {
        OpCode::Add => S::add_spec(a1, a2),
        OpCode::Sub => S::sub_spec(a1, a2),
        OpCode::Mul => S::mul_spec(a1, a2),
        OpCode::Div => S::div_spec(a1, a2),
        OpCode::Sin => S::sin_spec(a1),
        OpCode::Cos => S::cos_spec(a1),
        OpCode::Tan => S::tan_spec(a1),
        OpCode::Abs => S::abs_spec(a1),
        OpCode::Exp => S::exp_spec(a1),
        OpCode::Ln => S::ln_spec(a1),
        OpCode::Asin => S::asin_spec(a1),
        OpCode::Acos => S::acos_spec(a1),
        OpCode::Atan => S::atan_spec(a1),
        OpCode::Powf => S::powf_spec(a1, a2),
        _ => a1,
    }
}

/// Forward-mode tangent semantics of a computing opcode: the derivative of
/// the result from operand values `a1`, `a2` and operand tangents `d1`,
/// `d2`.
pub open spec fn first_order_spec<S: Scalar>(code: OpCode, a1: S, a2: S, d1: S, d2: S) -> S {
    match code {
        OpCode::Add => S::add_spec(d1, d2),
        OpCode::Sub => S::sub_spec(d1, d2),
        OpCode::Mul => S::add_spec(S::mul_spec(d1, a2), S::mul_spec(a1, d2)),
        OpCode::Div => S::div_spec(
            S::sub_spec(S::mul_spec(d1, a2), S::mul_spec(a1, d2)),
            S::mul_spec(a2, a2),
        ),
        OpCode::Sin => S::mul_spec(d1, S::cos_spec(a1)),
        OpCode::Cos => S::mul_spec(S::neg_spec(d1), S::sin_spec(a1)),
        OpCode::Tan => S::mul_spec(
            d1,
            S::div_spec(S::one_spec(), S::mul_spec(S::cos_spec(a1), S::cos_spec(a1))),
        ),
        OpCode::Abs => S::sub_spec(S::abs_spec(S::add_spec(a1, d1)), S::abs_spec(a1)),
        OpCode::Exp => S::mul_spec(d1, S::exp_spec(a1)),
        OpCode::Ln => S::mul_spec(d1, S::div_spec(S::one_spec(), a1)),
        OpCode::Asin => S::div_spec(d1, S::sqrt_spec(S::sub_spec(S::one_spec(), S::mul_spec(a1, a1)))),
        OpCode::Acos => S::div_spec(
            S::neg_spec(d1),
            S::sqrt_spec(S::sub_spec(S::one_spec(), S::mul_spec(a1, a1))),
        ),
        OpCode::Atan => S::div_spec(d1, S::add_spec(S::one_spec(), S::mul_spec(a1, a1))),
        OpCode::Powf => {
            let rv1 = if !S::eq_spec(d1, S::zero_spec()) {
                S::mul_spec(S::mul_spec(a2, S::powf_spec(a1, S::sub_spec(a2, S::one_spec()))), d1)
            } else {
                S::zero_spec()
            };
            let rv2 = if !S::eq_spec(d2, S::zero_spec()) {
                S::mul_spec(S::mul_spec(S::ln_spec(a1), S::powf_spec(a1, a2)), d2)
            } else {
                S::zero_spec()
            };
            S::add_spec(rv1, rv2)
        },
        _ => d1,
    }
}

/// Evaluate a computing opcode on operand values.
pub fn zero_order_value<S: Scalar>(code: OpCode, arg1: S, arg2: Option<S>) -> (r: S)
    requires
        op_arity(code) >= 1,
        op_arity(code) == 2 ==> arg2.is_some(),
    ensures
        r == zero_order_spec(code, arg1, opt_or(arg2, arg1)),
{
    match code {
        OpCode::Add => S::add(arg1, arg2.unwrap()),
        OpCode::Sub => S::sub(arg1, arg2.unwrap()),
        OpCode::Mul => S::mul(arg1, arg2.unwrap()),
        OpCode::Div => S::div(arg1, arg2.unwrap()),
        OpCode::Sin => S::sin(arg1),
        OpCode::Cos => S::cos(arg1),
        OpCode::Tan => S::tan(arg1),
        OpCode::Abs => S::abs(arg1),
        OpCode::Exp => S::exp(arg1),
        OpCode::Ln => S::ln(arg1),
        OpCode::Asin => S::asin(arg1),
        OpCode::Acos => S::acos(arg1),
        OpCode::Atan => S::atan(arg1),
        OpCode::Powf => S::powf(arg1, arg2.unwrap()),
        _ => {
            proof {
                assert(false);
            }
            arg1
        },
    }
}

/// Evaluate the forward-mode tangent of a computing opcode.
pub fn first_order_value<S: Scalar>(
    code: OpCode,
    arg1: S,
    arg2: Option<S>,
    darg1: S,
    darg2: Option<S>,
) -> (r: S)
    requires
        op_arity(code) >= 1,
        op_arity(code) == 2 ==> arg2.is_some() && darg2.is_some(),
    ensures
        r == first_order_spec(code, arg1, opt_or(arg2, arg1), darg1, opt_or(darg2, darg1)),
{
    match code {
        OpCode::Add => S::add(darg1, darg2.unwrap()),
        OpCode::Sub => S::sub(darg1, darg2.unwrap()),
        OpCode::Mul => S::add(
            S::mul(darg1, arg2.unwrap()),
            S::mul(arg1, darg2.unwrap()),
        ),
        OpCode::Div => S::div(
            S::sub(S::mul(darg1, arg2.unwrap()), S::mul(arg1, darg2.unwrap())),
            S::mul(arg2.unwrap(), arg2.unwrap()),
        ),
        OpCode::Sin => S::mul(darg1, S::cos(arg1)),
        OpCode::Cos => S::mul(S::neg(darg1), S::sin(arg1)),
        OpCode::Tan => S::mul(darg1, S::div(S::one(), S::mul(S::cos(arg1), S::cos(arg1)))),
        OpCode::Abs => S::sub(S::abs(S::add(arg1, darg1)), S::abs(arg1)),
        OpCode::Exp => S::mul(darg1, S::exp(arg1)),
        OpCode::Ln => S::mul(darg1, S::div(S::one(), arg1)),
        OpCode::Asin => S::div(darg1, S::sqrt(S::sub(S::one(), S::mul(arg1, arg1)))),
        OpCode::Acos => S::div(S::neg(darg1), S::sqrt(S::sub(S::one(), S::mul(arg1, arg1)))),
        OpCode::Atan => S::div(darg1, S::add(S::one(), S::mul(arg1, arg1))),
        OpCode::Powf => {
            let x = arg1;
            let y = arg2.unwrap();
            let dx = darg1;
            let dy = darg2.unwrap();
            let rv1 = if !S::eq_val(dx, S::zero()) {
                S::mul(S::mul(y, S::powf(x, S::sub(y, S::one()))), dx)
            } else {
                S::zero()
            };
            let rv2 = if !S::eq_val(dy, S::zero()) {
                S::mul(S::mul(S::ln(x), S::powf(x, y)), dy)
            } else {
                S::zero()
            };
            S::add(rv1, rv2)
        },
        _ => {
            proof {
                assert(false);
            }
            arg1
        },
    }
}

impl Operation {
    pub fn nop() -> (r: Self)
        ensures
            r == (Operation { opcode: OpCode::Nop, vid: 0, arg1: None::<usize>, arg2: None::<usize> }),
    {
        Self { opcode: OpCode::Nop, vid: 0, arg1: None, arg2: None }
    }

    pub fn constant(vid: usize) -> (r: Self)
        ensures
            r == (Operation { opcode: OpCode::Const, vid, arg1: None::<usize>, arg2: None::<usize> }),
    {
        Self { opcode: OpCode::Const, vid, arg1: None, arg2: None }
    }

    pub fn add(vid: usize, lhs: usize, rhs: usize) -> (r: Self)
        ensures
            r == (Operation { opcode: OpCode::Add, vid, arg1: Some(lhs), arg2: Some(rhs) }),
    {
        Self { opcode: OpCode::Add, vid, arg1: Some(lhs), arg2: Some(rhs) }
    }

    pub fn sub(vid: usize, lhs: usize, rhs: usize) -> (r: Self)
        ensures
            r == (Operation { opcode: OpCode::Sub, vid, arg1: Some(lhs), arg2: Some(rhs) }),
    {
        Self { opcode: OpCode::Sub, vid, arg1: Some(lhs), arg2: Some(rhs) }
    }

    pub fn mul(vid: usize, lhs: usize, rhs: usize) -> (r: Self)
        ensures
            r == (Operation { opcode: OpCode::Mul, vid, arg1: Some(lhs), arg2: Some(rhs) }),
    {
        Self { opcode: OpCode::Mul, vid, arg1: Some(lhs), arg2: Some(rhs) }
    }

    pub fn div(vid: usize, lhs: usize, rhs: usize) -> (r: Self)
        ensures
            r == (Operation { opcode: OpCode::Div, vid, arg1: Some(lhs), arg2: Some(rhs) }),
    {
        Self { opcode: OpCode::Div, vid, arg1: Some(lhs), arg2: Some(rhs) }
    }

    pub fn sin(vid: usize, idx: usize) -> (r: Self)
        ensures
            r == (Operation { opcode: OpCode::Sin, vid, arg1: Some(idx), arg2: None::<usize> }),
    {
        Self { opcode: OpCode::Sin, vid, arg1: Some(idx), arg2: None }
    }

    pub fn cos(vid: usize, idx: usize) -> (r: Self)
        ensures
            r == (Operation { opcode: OpCode::Cos, vid, arg1: Some(idx), arg2: None::<usize> }),
    {
        Self { opcode: OpCode::Cos, vid, arg1: Some(idx), arg2: None }
    }

    pub fn tan(vid: usize, idx: usize) -> (r: Self)
        ensures
            r == (Operation { opcode: OpCode::Tan, vid, arg1: Some(idx), arg2: None::<usize> }),
    {
        Self { opcode: OpCode::Tan, vid, arg1: Some(idx), arg2: None }
    }

    pub fn abs(vid: usize, idx: usize) -> (r: Self)
        ensures
            r == (Operation { opcode: OpCode::Abs, vid, arg1: Some(idx), arg2: None::<usize> }),
    {
        Self { opcode: OpCode::Abs, vid, arg1: Some(idx), arg2: None }
    }

    pub fn exp(vid: usize, idx: usize) -> (r: Self)
        ensures
            r == (Operation { opcode: OpCode::Exp, vid, arg1: Some(idx), arg2: None::<usize> }),
    {
        Self { opcode: OpCode::Exp, vid, arg1: Some(idx), arg2: None }
    }

    pub fn ln(vid: usize, idx: usize) -> (r: Self)
        ensures
            r == (Operation { opcode: OpCode::Ln, vid, arg1: Some(idx), arg2: None::<usize> }),
    {
        Self { opcode: OpCode::Ln, vid, arg1: Some(idx), arg2: None }
    }

    pub fn asin(vid: usize, idx: usize) -> (r: Self)
        ensures
            r == (Operation { opcode: OpCode::Asin, vid, arg1: Some(idx), arg2: None::<usize> }),
    {
        Self { opcode: OpCode::Asin, vid, arg1: Some(idx), arg2: None }
    }

    pub fn acos(vid: usize, idx: usize) -> (r: Self)
        ensures
            r == (Operation { opcode: OpCode::Acos, vid, arg1: Some(idx), arg2: None::<usize> }),
    {
        Self { opcode: OpCode::Acos, vid, arg1: Some(idx), arg2: None }
    }

    pub fn atan(vid: usize, idx: usize) -> (r: Self)
        ensures
            r == (Operation { opcode: OpCode::Atan, vid, arg1: Some(idx), arg2: None::<usize> }),
    {
        Self { opcode: OpCode::Atan, vid, arg1: Some(idx), arg2: None }
    }

    pub fn powf(vid: usize, base: usize, exponent: usize) -> (r: Self)
        ensures
            r == (Operation { opcode: OpCode::Powf, vid, arg1: Some(base), arg2: Some(exponent) }),
    {
        Self { opcode: OpCode::Powf, vid, arg1: Some(base), arg2: Some(exponent) }
    }
}

/// One replay step: the effect of an instruction on the value buffer.
/// `Nop` and `Const` leave the buffer untouched (a constant's value is
/// already stored there).
pub open spec fn zero_order_step<S: Scalar>(v: Seq<S>, op: Operation) -> Seq<S> {
    if op.opcode == OpCode::Nop || op.opcode == OpCode::Const {
        v
    } else {
        let a1 = v[op.arg1.unwrap() as int];
        let a2 = if op.arg2.is_some() {
            v[op.arg2.unwrap() as int]
        } else {
            a1
        };
        v.update(op.vid as int, zero_order_spec(op.opcode, a1, a2))
    }
}

/// One forward-propagation step: the effect of an instruction on the
/// tangent buffer `dv`, reading operand values from `v`.
pub open spec fn first_order_step<S: Scalar>(v: Seq<S>, dv: Seq<S>, op: Operation) -> Seq<S> {
    if op.opcode == OpCode::Nop {
        dv
    } else if op.opcode == OpCode::Const {
        dv.update(op.vid as int, S::zero_spec())
    } else {
        let a1 = v[op.arg1.unwrap() as int];
        let a2 = if op.arg2.is_some() {
            v[op.arg2.unwrap() as int]
        } else {
            a1
        };
        let d1 = dv[op.arg1.unwrap() as int];
        let d2 = if op.arg2.is_some() {
            dv[op.arg2.unwrap() as int]
        } else {
            d1
        };
        dv.update(op.vid as int, first_order_spec(op.opcode, a1, a2, d1, d2))
    }
}

/// One reverse-accumulation step: the effect of an instruction on the
/// adjoint buffer `vbar`, reading recorded values from `v`.  Adjoints are
/// added into the operands' accumulators, never overwritten; the two
/// updates of a binary opcode happen in operand order.  `Abs` has no
/// reverse rule here: reverse propagation of kinks is the business of the
/// abs-normal decomposition.
pub open spec fn reverse_step_spec<S: Scalar>(v: Seq<S>, vbar: Seq<S>, op: Operation) -> Seq<S> {
    match op.opcode {
        OpCode::Nop => vbar,
        OpCode::Const => vbar,
        OpCode::Abs => vbar,
        OpCode::Add => {
            let i = op.arg1.unwrap() as int;
            let j = op.arg2.unwrap() as int;
            let k = op.vid as int;
            let b1 = vbar.update(i, S::add_spec(vbar[i], vbar[k]));
            b1.update(j, S::add_spec(b1[j], b1[k]))
        },
        OpCode::Sub => {
            let i = op.arg1.unwrap() as int;
            let j = op.arg2.unwrap() as int;
            let k = op.vid as int;
            let b1 = vbar.update(i, S::add_spec(vbar[i], vbar[k]));
            b1.update(j, S::add_spec(b1[j], S::neg_spec(b1[k])))
        },
        OpCode::Mul => {
            let i = op.arg1.unwrap() as int;
            let j = op.arg2.unwrap() as int;
            let k = op.vid as int;
            let b1 = vbar.update(i, S::add_spec(vbar[i], S::mul_spec(vbar[k], v[j])));
            b1.update(j, S::add_spec(b1[j], S::mul_spec(b1[k], v[i])))
        },
        OpCode::Div => {
            let i = op.arg1.unwrap() as int;
            let j = op.arg2.unwrap() as int;
            let k = op.vid as int;
            let b1 = vbar.update(
                i,
                S::add_spec(vbar[i], S::div_spec(S::mul_spec(vbar[k], S::one_spec()), v[j])),
            );
            b1.update(
                j,
                S::add_spec(
                    b1[j],
                    S::mul_spec(b1[k], S::div_spec(S::neg_spec(v[i]), S::mul_spec(v[j], v[j]))),
                ),
            )
        },
        OpCode::Powf => {
            let i = op.arg1.unwrap() as int;
            let j = op.arg2.unwrap() as int;
            let k = op.vid as int;
            let x = v[i];
            let y = v[j];
            let b1 = vbar.update(
                i,
                S::add_spec(
                    vbar[i],
                    S::mul_spec(
                        S::mul_spec(vbar[k], y),
                        S::powf_spec(x, S::sub_spec(y, S::one_spec())),
                    ),
                ),
            );
            b1.update(
                j,
                S::add_spec(
                    b1[j],
                    S::mul_spec(S::mul_spec(b1[k], S::ln_spec(x)), S::powf_spec(x, y)),
                ),
            )
        },
        _ => {
            let i = op.arg1.unwrap() as int;
            let k = op.vid as int;
            vbar.update(
                i,
                S::add_spec(
                    vbar[i],
                    S::mul_spec(
                        vbar[k],
                        first_order_spec(op.opcode, v[i], v[i], S::one_spec(), S::one_spec()),
                    ),
                ),
            )
        },
    }
}

impl Operation {
    /// Replay this instruction against the value buffer.
    pub fn zero_order<S: Scalar>(self, v: &mut Vec<S>)
        requires
            op_wf(self, old(v)@.len() as nat),
        ensures
            final(v)@ == zero_order_step(old(v)@, self),
    {
        match self.opcode {
            OpCode::Nop => {},
            OpCode::Const => {},
            _ => {
                let a1: S = v[self.arg1.unwrap()];
                let a2: Option<S> = match self.arg2 {
                    Some(j) => Some(v[j]),
                    None => None,
                };
                let r = zero_order_value(self.opcode, a1, a2);
                v.set(self.vid, r);
            },
        }
    }

    /// Propagate forward-mode tangents through this instruction.
    pub fn first_order<S: Scalar>(self, v: &Vec<S>, dv: &mut Vec<S>)
        requires
            op_wf(self, v@.len() as nat),
            old(dv)@.len() == v@.len(),
        ensures
            final(dv)@ == first_order_step(v@, old(dv)@, self),
    {
        match self.opcode {
            OpCode::Nop => {},
            OpCode::Const => {
                dv.set(self.vid, S::zero());
            },
            _ => {
                let a1: S = v[self.arg1.unwrap()];
                let d1: S = dv[self.arg1.unwrap()];
                let a2: Option<S> = match self.arg2 {
                    Some(j) => Some(v[j]),
                    None => None,
                };
                let d2: Option<S> = match self.arg2 {
                    Some(j) => Some(dv[j]),
                    None => None,
                };
                let r = first_order_value(self.opcode, a1, a2, d1, d2);
                dv.set(self.vid, r);
            },
        }
    }

    /// Accumulate reverse-mode adjoints through this instruction.
    pub fn first_order_reverse<S: Scalar>(self, v: &Vec<S>, vbar: &mut Vec<S>)
        requires
            op_wf(self, v@.len() as nat),
            old(vbar)@.len() == v@.len(),
            self.opcode != OpCode::Abs,
        ensures
            final(vbar)@ == reverse_step_spec(v@, old(vbar)@, self),
    {
        match self.opcode {
            OpCode::Nop => {},
            OpCode::Const => {},
            OpCode::Abs => {
                proof {
                    assert(false);
                }
            },
            OpCode::Add => {
                let i = self.arg1.unwrap();
                let j = self.arg2.unwrap();
                let t1 = S::add(vbar[i], vbar[self.vid]);
                vbar.set(i, t1);
                let t2 = S::add(vbar[j], vbar[self.vid]);
                vbar.set(j, t2);
            },
            OpCode::Sub => {
                let i = self.arg1.unwrap();
                let j = self.arg2.unwrap();
                let t1 = S::add(vbar[i], vbar[self.vid]);
                vbar.set(i, t1);
                let t2 = S::add(vbar[j], S::neg(vbar[self.vid]));
                vbar.set(j, t2);
            },
            OpCode::Mul => {
                let i = self.arg1.unwrap();
                let j = self.arg2.unwrap();
                let t1 = S::add(vbar[i], S::mul(vbar[self.vid], v[j]));
                vbar.set(i, t1);
                let t2 = S::add(vbar[j], S::mul(vbar[self.vid], v[i]));
                vbar.set(j, t2);
            },
            OpCode::Div => {
                let i = self.arg1.unwrap();
                let j = self.arg2.unwrap();
                let t1 = S::add(vbar[i], S::div(S::mul(vbar[self.vid], S::one()), v[j]));
                vbar.set(i, t1);
                let t2 = S::add(
                    vbar[j],
                    S::mul(vbar[self.vid], S::div(S::neg(v[i]), S::mul(v[j], v[j]))),
                );
                vbar.set(j, t2);
            },
            OpCode::Powf => {
                let i = self.arg1.unwrap();
                let j = self.arg2.unwrap();
                let x = v[i];
                let y = v[j];
                let t1 = S::add(
                    vbar[i],
                    S::mul(S::mul(vbar[self.vid], y), S::powf(x, S::sub(y, S::one()))),
                );
                vbar.set(i, t1);
                let t2 = S::add(vbar[j], S::mul(S::mul(vbar[self.vid], S::ln(x)), S::powf(x, y)));
                vbar.set(j, t2);
            },
            _ => {
                let i = self.arg1.unwrap();
                let d = first_order_value(self.opcode, v[i], None, S::one(), None);
                let t1 = S::add(vbar[i], S::mul(vbar[self.vid], d));
                vbar.set(i, t1);
            },
        }
    }
}

} // verus!
