//! The recording context: owns the growing instruction list and value
//! buffer of one function-recording session.
//!
//! A context hands out bound [`AFloat`]s for independents, records every
//! combination performed through [`AContext::record_op`], marks dependents,
//! and finally freezes the session into an [`ATape`].  Slots are allocated
//! monotonically and never reused, which is where the tape's slot
//! discipline ([`recording_wf`]) comes from; every method both requires and
//! re-establishes it.
//!
//! A context is an explicit handle: values carry the id of the context
//! they are bound to, and combining values bound to different contexts is
//! excluded by contract, mirroring the fail-fast cross-context check of
//! the recording model.

use vstd::prelude::*;

use crate::afloat::AFloat;
use crate::operation::{first_order_spec, first_order_value, op_arity, opt_or, zero_order_spec,
    zero_order_value, OpCode, Operation};
use crate::scalar::Scalar;
use crate::tape::{copy_vec, recording_wf, ATape};

verus! {

/// Records a function evaluation
#[derive(Debug)]
pub struct AContext<S: Scalar> {
    /// Identity of this context, checked when combining bound values
    pub cid: usize,
    /// Independent variable slots, in argument order
    pub indeps: Vec<usize>,
    /// Dependent variable slots, in output order (duplicates allowed)
    pub deps: Vec<usize>,
    /// Recorded instruction sequence
    pub ops: Vec<Operation>,
    /// Value buffer, parallel to the slot space
    pub vals: Vec<S>,
}

/// A value may be combined under a context when it is unbound or bound to
/// that context with an in-range slot.
pub open spec fn binding_ok<S: Scalar>(a: AFloat<S>, ctx: &AContext<S>) -> bool {
    match a.ctx {
        Some((c, vid)) => c == ctx.cid && (vid as int) < ctx.vals@.len(),
        None => true,
    }
}

/// A value whose binding, if any, is to this context and whose bound
/// slot holds exactly the value it carries.  Recording keeps this for
/// everything it hands out; it is what lets a dependent slot's recorded
/// value be read off the dual that was marked dependent.
pub open spec fn binding_holds_value<S: Scalar>(a: AFloat<S>, ctx: &AContext<S>) -> bool {
    match a.ctx {
        Some((c, vid)) => c == ctx.cid && (vid as int) < ctx.vals@.len() && ctx.vals@[vid as int]
            == a.v,
        None => true,
    }
}

/// The effect of binding a possibly-unbound value before recording an
/// operation on it: a bound value contributes its slot; an unbound one is
/// recorded as a constant in a fresh slot.  Returns the extended buffers
/// and the operand slot.
pub open spec fn promote_spec<S: Scalar>(
    vals: Seq<S>,
    ops: Seq<Operation>,
    a: AFloat<S>,
) -> (Seq<S>, Seq<Operation>, usize) {
    match a.ctx {
        Some((c, vid)) => (vals, ops, vid),
        None => (
            vals.push(a.v),
            ops.push(
                Operation {
                    opcode: OpCode::Const,
                    vid: vals.len() as usize,
                    arg1: None,
                    arg2: None,
                },
            ),
            vals.len() as usize,
        ),
    }
}

impl<S: Scalar> AContext<S> {
    /// The slot discipline, stated over this context's buffers.
    pub open spec fn wf(&self) -> bool {
        recording_wf(self.indeps@, self.deps@, self.ops@, self.vals@.len() as nat)
    }

    /// Create a new AContext under the identity `cid`.
    ///
    /// The id is what tells live contexts apart when bound values are
    /// combined ([`binding_ok`] admits a value only under the context
    /// carrying its id), so a caller who keeps several contexts alive at
    /// once must hand each a distinct id: id minting is ambient state and
    /// deliberately lives outside this core.  A context that never meets
    /// values of another context may use any id.
    pub fn new(cid: usize) -> (r: Self)
        ensures
            r.cid == cid,
            r.indeps@ == Seq::<usize>::empty(),
            r.deps@ == Seq::<usize>::empty(),
            r.ops@ == Seq::<Operation>::empty(),
            r.vals@ == Seq::<S>::empty(),
            r.wf(),
    {
        AContext { cid, indeps: Vec::new(), deps: Vec::new(), ops: Vec::new(), vals: Vec::new() }
    }

    /// Get the context id
    pub fn cid(&self) -> (r: usize)
        ensures
            r == self.cid,
    {
        self.cid
    }

    /// Mark a variable as independent: allocate a fresh slot holding its
    /// value, append the slot to the independent list and bind the
    /// variable to it.
    pub fn set_indep(&mut self, x: &mut AFloat<S>)
        requires
            old(self).wf(),
        ensures
            final(self).cid == old(self).cid,
            final(self).vals@ == old(self).vals@.push(old(x).v),
            final(self).indeps@ == old(self).indeps@.push(old(self).vals@.len() as usize),
            final(self).deps@ == old(self).deps@,
            final(self).ops@ == old(self).ops@,
            *final(x) == (AFloat {
                ctx: Some((old(self).cid, old(self).vals@.len() as usize)),
                ..*old(x)
            }),
            final(self).wf(),
    {
        let vid = self.vals.len();
        self.vals.push(x.value());
        x.set_context(self.cid, vid);
        self.indeps.push(vid);
    }

    /// Mark a variable as dependent: a bound variable contributes its
    /// slot; an unbound one is first recorded as a constant.
    pub fn set_dep(&mut self, x: &AFloat<S>)
        requires
            old(self).wf(),
            binding_ok(*x, old(self)),
        ensures
            final(self).cid == old(self).cid,
            final(self).indeps@ == old(self).indeps@,
            ({
                let (v2, o2, vid) = promote_spec(old(self).vals@, old(self).ops@, *x);
                final(self).vals@ == v2 && final(self).ops@ == o2 && final(self).deps@ == old(
                    self,
                ).deps@.push(vid)
            }),
            final(self).wf(),
    {
        let vid: usize = match x.context() {
            Some((cid, vid)) => vid,
            None => {
                let vid = self.vals.len();
                self.vals.push(x.value());
                self.ops.push(Operation { opcode: OpCode::Const, vid, arg1: None, arg2: None });
                vid
            },
        };
        self.deps.push(vid);
    }

    /// Create independent var
    pub fn new_indep(&mut self, value: S) -> (r: AFloat<S>)
        requires
            old(self).wf(),
        ensures
            final(self).cid == old(self).cid,
            final(self).vals@ == old(self).vals@.push(value),
            final(self).indeps@ == old(self).indeps@.push(old(self).vals@.len() as usize),
            final(self).deps@ == old(self).deps@,
            final(self).ops@ == old(self).ops@,
            r == (AFloat {
                v: value,
                dv: S::zero_spec(),
                ctx: Some((old(self).cid, old(self).vals@.len() as usize)),
            }),
            final(self).wf(),
    {
        let mut indep = AFloat::new(value, S::zero());
        self.set_indep(&mut indep);
        indep
    }

    /// Create independent vector
    pub fn new_indep_vec(&mut self, length: usize, value: S) -> (r: Vec<AFloat<S>>)
        requires
            old(self).wf(),
        ensures
            final(self).cid == old(self).cid,
            final(self).deps@ == old(self).deps@,
            final(self).ops@ == old(self).ops@,
            final(self).vals@.len() == old(self).vals@.len() + length,
            forall|i: int|
                old(self).vals@.len() <= i < final(self).vals@.len() ==> #[trigger] final(self).vals@[i] == value,
            forall|i: int|
                0 <= i < old(self).vals@.len() ==> #[trigger] final(self).vals@[i] == old(self).vals@[i],
            final(self).indeps@.len() == old(self).indeps@.len() + length,
            forall|i: int|
                0 <= i < old(self).indeps@.len() ==> #[trigger] final(self).indeps@[i] == old(self).indeps@[i],
            forall|i: int|
                old(self).indeps@.len() <= i < final(self).indeps@.len() ==> #[trigger] final(self).indeps@[i] == (old(self).vals@.len() + (i - old(self).indeps@.len())) as usize,
            r@.len() == length,
            forall|i: int|
                0 <= i < length ==> r@[i] == (AFloat {
                    v: value,
                    dv: S::zero_spec(),
                    ctx: Some((old(self).cid, (old(self).vals@.len() + i) as usize)),
                }),
            final(self).wf(),
    {
        let mut vec: Vec<AFloat<S>> = Vec::new();
        let mut i: usize = 0;
        while i < length
            invariant
                i <= length,
                self.wf(),
                self.cid == old(self).cid,
                self.deps@ == old(self).deps@,
                self.ops@ == old(self).ops@,
                self.vals@.len() == old(self).vals@.len() + i,
                forall|j: int|
                    old(self).vals@.len() <= j < self.vals@.len() ==> #[trigger] self.vals@[j]
                        == value,
                forall|j: int|
                    0 <= j < old(self).vals@.len() ==> #[trigger] self.vals@[j] == old(self).vals@[j],
                self.indeps@.len() == old(self).indeps@.len() + i,
                forall|j: int|
                    0 <= j < old(self).indeps@.len() ==> #[trigger] self.indeps@[j] == old(self).indeps@[j],
                forall|j: int|
                    old(self).indeps@.len() <= j < self.indeps@.len() ==> #[trigger] self.indeps@[j]
                        == (old(self).vals@.len() + (j - old(self).indeps@.len())) as usize,
                vec@.len() == i,
                forall|j: int|
                    0 <= j < i ==> vec@[j] == (AFloat {
                        v: value,
                        dv: S::zero_spec(),
                        ctx: Some((old(self).cid, (old(self).vals@.len() + j) as usize)),
                    }),
            decreases length - i,
        {
            let x = self.new_indep(value);
            vec.push(x);
            i += 1;
        }
        vec
    }

    /// Mark every element of a vector as dependent, in order.
    pub fn set_dep_slice(&mut self, slice: &Vec<AFloat<S>>)
        requires
            old(self).wf(),
            forall|i: int| 0 <= i < slice@.len() ==> binding_ok(#[trigger] slice@[i], old(self)),
        ensures
            final(self).cid == old(self).cid,
            final(self).indeps@ == old(self).indeps@,
            ({
                let (v2, o2, d2) = set_dep_fold(
                    old(self).vals@,
                    old(self).ops@,
                    old(self).deps@,
                    slice@,
                    slice@.len() as int,
                );
                final(self).vals@ == v2 && final(self).ops@ == o2 && final(self).deps@ == d2
            }),
            final(self).wf(),
    {
        let n = slice.len();
        let mut i: usize = 0;
        while i < n
            invariant
                i <= n,
                n == slice@.len(),
                self.wf(),
                self.cid == old(self).cid,
                self.indeps@ == old(self).indeps@,
                forall|j: int| 0 <= j < slice@.len() ==> binding_ok(#[trigger] slice@[j], old(self)),
                old(self).vals@.len() <= self.vals@.len(),
                ({
                    let (v2, o2, d2) = set_dep_fold(
                        old(self).vals@,
                        old(self).ops@,
                        old(self).deps@,
                        slice@,
                        i as int,
                    );
                    self.vals@ == v2 && self.ops@ == o2 && self.deps@ == d2
                }),
            decreases n - i,
        {
            proof {
                assert(binding_ok(slice@[i as int], old(self)));
                assert(binding_ok(slice@[i as int], self));
            }
            self.set_dep(&slice[i]);
            i += 1;
        }
    }

    /// Record an operation: allocate a fresh slot holding `val` and append
    /// an instruction writing it.
    pub fn record(&mut self, opcode: OpCode, val: S, arg1: Option<usize>, arg2: Option<usize>) -> (vid:
        usize)
        requires
            old(self).wf(),
            opcode != OpCode::Nop,
            op_arity(opcode) == 0 ==> arg1.is_none() && arg2.is_none(),
            op_arity(opcode) >= 1 ==> arg1.is_some() && (arg1.unwrap() as int) < old(
                self,
            ).vals@.len(),
            op_arity(opcode) == 1 ==> arg2.is_none(),
            op_arity(opcode) == 2 ==> arg2.is_some() && (arg2.unwrap() as int) < old(
                self,
            ).vals@.len(),
        ensures
            vid == old(self).vals@.len(),
            final(self).cid == old(self).cid,
            final(self).indeps@ == old(self).indeps@,
            final(self).deps@ == old(self).deps@,
            final(self).vals@ == old(self).vals@.push(val),
            final(self).ops@ == old(self).ops@.push(
                Operation { opcode, vid: old(self).vals@.len() as usize, arg1, arg2 },
            ),
            final(self).wf(),
    {
        let vid = self.vals.len();
        self.vals.push(val);
        self.ops.push(Operation { opcode, vid, arg1, arg2 });
        vid
    }

    /// Combine one or two values through an elementary operation and
    /// record it: value and tangent are computed immediately; unbound
    /// operands are first recorded as constants; the result is bound to
    /// the freshly written slot.
    pub fn record_op(&mut self, opcode: OpCode, arg1: AFloat<S>, arg2: Option<AFloat<S>>) -> (r:
        AFloat<S>)
        requires
            old(self).wf(),
            op_arity(opcode) >= 1,
            op_arity(opcode) == 2 <==> arg2.is_some(),
            binding_ok(arg1, old(self)),
            arg2.is_some() ==> binding_ok(arg2.unwrap(), old(self)),
        ensures
            final(self).cid == old(self).cid,
            final(self).indeps@ == old(self).indeps@,
            final(self).deps@ == old(self).deps@,
            ({
                let (v1, o1, s1) = promote_spec(old(self).vals@, old(self).ops@, arg1);
                let (v2, o2, s2opt) = if arg2.is_some() {
                    let (v2, o2, s2) = promote_spec(v1, o1, arg2.unwrap());
                    (v2, o2, Some(s2))
                } else {
                    (v1, o1, None)
                };
                let rv = zero_order_spec(
                    opcode,
                    arg1.v,
                    opt_or(crate::afloat::spec_values(arg2), arg1.v),
                );
                final(self).vals@ == v2.push(rv) && final(self).ops@ == o2.push(
                    Operation { opcode, vid: v2.len() as usize, arg1: Some(s1), arg2: s2opt },
                ) && r == (AFloat {
                    v: rv,
                    dv: first_order_spec(
                        opcode,
                        arg1.v,
                        opt_or(crate::afloat::spec_values(arg2), arg1.v),
                        arg1.dv,
                        opt_or(crate::afloat::spec_dvalues(arg2), arg1.dv),
                    ),
                    ctx: Some((old(self).cid, v2.len() as usize)),
                })
            }),
            final(self).wf(),
    {
        let a2: Option<S> = match arg2 {
            Some(b) => Some(b.v),
            None => None,
        };
        let d2: Option<S> = match arg2 {
            Some(b) => Some(b.dv),
            None => None,
        };
        let v = zero_order_value(opcode, arg1.v, a2);
        let dv = first_order_value(opcode, arg1.v, a2, arg1.dv, d2);
        let s1: usize = match arg1.context() {
            Some((_, vid)) => vid,
            None => self.record(OpCode::Const, arg1.value(), None, None),
        };
        let s2: Option<usize> = match arg2 {
            Some(b) => match b.context() {
                Some((_, vid)) => Some(vid),
                None => Some(self.record(OpCode::Const, b.value(), None, None)),
            },
            None => None,
        };
        let vid = self.record(opcode, v, Some(s1), s2);
        AFloat { v, dv, ctx: Some((self.cid, vid)) }
    }

    /// Freeze the recording into an independent tape.
    pub fn tape(&self) -> (t: ATape<S>)
        ensures
            t.indeps@ == self.indeps@,
            t.deps@ == self.deps@,
            t.ops@ == self.ops@,
            t.vals@ == self.vals@,
    {
        ATape {
            indeps: copy_vec(&self.indeps),
            deps: copy_vec(&self.deps),
            ops: copy_vec(&self.ops),
            vals: copy_vec(&self.vals),
        }
    }
}

/// Marking values dependent appends one dependent slot per value and
/// only ever extends the value buffer.
pub proof fn lemma_set_dep_fold_len<S: Scalar>(
    vals: Seq<S>,
    ops: Seq<Operation>,
    deps: Seq<usize>,
    items: Seq<AFloat<S>>,
    n: int,
)
    requires
        0 <= n <= items.len(),
    ensures
        ({
            let (v2, o2, d2) = set_dep_fold(vals, ops, deps, items, n);
            &&& d2.len() == deps.len() + n
            &&& v2.len() >= vals.len()
            &&& forall|i: int| 0 <= i < vals.len() ==> #[trigger] v2[i] == vals[i]
        }),
    decreases n,
{
    if n > 0 {
        lemma_set_dep_fold_len(vals, ops, deps, items, n - 1);
    }
}

/// When every value marked dependent carries its own slot value (or is
/// unbound), each new dependent slot holds exactly the value of the dual
/// that was marked: the recorded outputs are the values handed in.
pub proof fn lemma_set_dep_fold_values<S: Scalar>(
    vals: Seq<S>,
    ops: Seq<Operation>,
    deps: Seq<usize>,
    items: Seq<AFloat<S>>,
    n: int,
)
    requires
        0 <= n <= items.len(),
        set_dep_fold(vals, ops, deps, items, n).0.len() <= usize::MAX as int,
        forall|i: int|
            0 <= i < items.len() ==> match (#[trigger] items[i]).ctx {
                Some((c, vid)) => (vid as int) < vals.len() && vals[vid as int] == items[i].v,
                None => true,
            },
    ensures
        ({
            let (v2, o2, d2) = set_dep_fold(vals, ops, deps, items, n);
            &&& d2.len() == deps.len() + n
            &&& forall|p: int|
                deps.len() <= p < d2.len() ==> ((#[trigger] d2[p]) as int) < v2.len() && v2[d2[p] as int]
                    == items[p - deps.len()].v
        }),
    decreases n,
{
    lemma_set_dep_fold_len(vals, ops, deps, items, n);
    if n > 0 {
        let (v1, o1, d1) = set_dep_fold(vals, ops, deps, items, n - 1);
        let (v2, o2, d2) = set_dep_fold(vals, ops, deps, items, n);
        assert(v1.len() <= v2.len()) by {
            match items[n - 1].ctx {
                Some((c, vid)) => {
                    assert(v2 == v1);
                },
                None => {
                    assert(v2 == v1.push(items[n - 1].v));
                },
            }
        }
        lemma_set_dep_fold_values(vals, ops, deps, items, n - 1);
        lemma_set_dep_fold_len(vals, ops, deps, items, n - 1);
        assert forall|p: int|
            deps.len() <= p < d2.len() implies ((#[trigger] d2[p]) as int) < v2.len() && v2[d2[p] as int]
            == items[p - deps.len()].v by {
            if p < d2.len() - 1 {
                assert((d1[p] as int) < v1.len() && v1[d1[p] as int] == items[p - deps.len()].v);
                assert(d2[p] == d1[p]);
                match items[n - 1].ctx {
                    Some((c, vid)) => {
                        assert(v2 == v1);
                    },
                    None => {
                        assert(v2 == v1.push(items[n - 1].v));
                    },
                }
            } else {
                match items[n - 1].ctx {
                    Some((c, vid)) => {
                        assert(v2 == v1 && d2 == d1.push(vid));
                        assert(v1[vid as int] == vals[vid as int]);
                    },
                    None => {
                        assert(v2 == v1.push(items[n - 1].v));
                        assert(d2 == d1.push(v1.len() as usize));
                    },
                }
            }
        }
    }
}

/// The effect of marking the first `n` values of `items` dependent, in
/// order: bound values contribute their slot, unbound ones are recorded as
/// constants first.
pub open spec fn set_dep_fold<S: Scalar>(
    vals: Seq<S>,
    ops: Seq<Operation>,
    deps: Seq<usize>,
    items: Seq<AFloat<S>>,
    n: int,
) -> (Seq<S>, Seq<Operation>, Seq<usize>)
    decreases n,
{
    if n <= 0 {
        (vals, ops, deps)
    } else {
        let (v1, o1, d1) = set_dep_fold(vals, ops, deps, items, n - 1);
        let (v2, o2, vid) = promote_spec(v1, o1, items[n - 1]);
        (v2, o2, d1.push(vid))
    }
}

} // verus!
