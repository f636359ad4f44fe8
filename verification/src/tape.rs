//! The frozen, replayable recording of a function evaluation.
//!
//! An [`ATape`] holds the independent and dependent slot lists, the
//! instruction sequence and a value buffer.  Replaying (`zero_order`)
//! overwrites the independent slots with a new argument vector and executes
//! every instruction in recorded order; forward and reverse propagation run
//! the tangent and adjoint semantics against the already-replayed value
//! buffer.  Each interpreter's contract is a fold of the per-instruction
//! step functions of [`crate::operation`], so the buffers produced are
//! pinned exactly.
//!
//! Well-formedness ([`recording_wf`]) captures the slot discipline a
//! recording context establishes: every referenced slot is in range,
//! operands strictly precede results, result slots of distinct instructions
//! are distinct and increasing, and no instruction overwrites an
//! independent slot.  Replay idempotence
//! ([`lemma_replay_idempotent`]) is proved from exactly these facts.

use vstd::pervasive::VecAdditionalExecFns;
use vstd::prelude::*;

use crate::operation::{first_order_step, op_arity, op_wf, reverse_step_spec, zero_order_spec,
    zero_order_step, OpCode, Operation};
use crate::scalar::Scalar;

verus! {

/// True of instructions that write to the value buffer during replay
/// (`Nop` and `Const` do not: a constant's value is already stored).
pub open spec fn is_computing(op: Operation) -> bool {
    op_arity(op.opcode) >= 1
}

/// The slot discipline of a recording: all slots in range, operands before
/// results, non-`Nop` result slots strictly increasing in recording order,
/// independent slots distinct and never written by an instruction.
pub open spec fn recording_wf(
    indeps: Seq<usize>,
    deps: Seq<usize>,
    ops: Seq<Operation>,
    len: nat,
) -> bool {
    &&& forall|i: int| 0 <= i < indeps.len() ==> (#[trigger] indeps[i]) < len
    &&& forall|i: int| 0 <= i < deps.len() ==> (#[trigger] deps[i]) < len
    &&& forall|k: int| 0 <= k < ops.len() ==> op_wf(#[trigger] ops[k], len)
    &&& forall|k1: int, k2: int|
        #![trigger ops[k1], ops[k2]]
        0 <= k1 < k2 < ops.len() && ops[k1].opcode != OpCode::Nop && ops[k2].opcode
            != OpCode::Nop ==> ops[k1].vid < ops[k2].vid
    &&& forall|k: int, i: int|
        #![trigger ops[k], indeps[i]]
        0 <= k < ops.len() && 0 <= i < indeps.len() && is_computing(ops[k]) ==> ops[k].vid
            != indeps[i]
    &&& forall|i1: int, i2: int|
        #![trigger indeps[i1], indeps[i2]]
        0 <= i1 < i2 < indeps.len() ==> indeps[i1] != indeps[i2]
}

/// Overwrite the slots `idx[0..n]` of `v` with `x[0..n]`, in order.
pub open spec fn seed_rec<S>(v: Seq<S>, idx: Seq<usize>, x: Seq<S>, n: int) -> Seq<S>
    decreases n,
{
    if n <= 0 {
        v
    } else {
        seed_rec(v, idx, x, n - 1).update(idx[n - 1] as int, x[n - 1])
    }
}

/// Overwrite the slots `idx` of `v` with `x`.
pub open spec fn seed_spec<S>(v: Seq<S>, idx: Seq<usize>, x: Seq<S>) -> Seq<S> {
    seed_rec(v, idx, x, idx.len() as int)
}

/// Execute the first `n` instructions against the value buffer.
pub open spec fn replay_rec<S: Scalar>(v: Seq<S>, ops: Seq<Operation>, n: int) -> Seq<S>
    decreases n,
{
    if n <= 0 {
        v
    } else {
        zero_order_step(replay_rec(v, ops, n - 1), ops[n - 1])
    }
}

/// Execute every instruction against the value buffer.
pub open spec fn replay_ops<S: Scalar>(v: Seq<S>, ops: Seq<Operation>) -> Seq<S> {
    replay_rec(v, ops, ops.len() as int)
}

/// The value buffer after replaying a recording at the argument vector `x`.
pub open spec fn replay_full<S: Scalar>(
    vals: Seq<S>,
    indeps: Seq<usize>,
    ops: Seq<Operation>,
    x: Seq<S>,
) -> Seq<S> {
    replay_ops(seed_spec(vals, indeps, x), ops)
}

/// Propagate tangents through the first `n` instructions.
pub open spec fn forward_rec<S: Scalar>(
    v: Seq<S>,
    dv: Seq<S>,
    ops: Seq<Operation>,
    n: int,
) -> Seq<S>
    decreases n,
{
    if n <= 0 {
        dv
    } else {
        first_order_step(v, forward_rec(v, dv, ops, n - 1), ops[n - 1])
    }
}

/// Accumulate adjoints through the last `n` instructions, walked backwards.
pub open spec fn reverse_rec<S: Scalar>(
    v: Seq<S>,
    vbar: Seq<S>,
    ops: Seq<Operation>,
    n: int,
) -> Seq<S>
    decreases n,
{
    if n <= 0 {
        vbar
    } else {
        reverse_step_spec(v, reverse_rec(v, vbar, ops, n - 1), ops[ops.len() - n])
    }
}

/// A buffer of `len` zeros.
pub open spec fn zero_seq<S: Scalar>(len: nat) -> Seq<S> {
    Seq::new(len, |i: int| S::zero_spec())
}

/// The values of `v` at the slots `idx`.
pub open spec fn gather_spec<S>(v: Seq<S>, idx: Seq<usize>) -> Seq<S> {
    Seq::new(idx.len(), |i: int| v[idx[i] as int])
}

/// Seed an adjoint buffer: add `y[i]` into slot `deps[i]` for `i < n`
/// (duplicate dependent slots accumulate).
pub open spec fn accum_rec<S: Scalar>(vbar: Seq<S>, deps: Seq<usize>, y: Seq<S>, n: int) -> Seq<S>
    decreases n,
{
    if n <= 0 {
        vbar
    } else {
        let b = accum_rec(vbar, deps, y, n - 1);
        b.update(deps[n - 1] as int, S::add_spec(b[deps[n - 1] as int], y[n - 1]))
    }
}

/// Number of `Abs` instructions among the first `n`.
pub open spec fn count_abs_rec(ops: Seq<Operation>, n: int) -> nat
    decreases n,
{
    if n <= 0 {
        0
    } else {
        count_abs_rec(ops, n - 1) + if ops[n - 1].opcode == OpCode::Abs {
            1nat
        } else {
            0nat
        }
    }
}

/// Number of `Abs` instructions on a tape.
pub open spec fn count_abs(ops: Seq<Operation>) -> nat {
    count_abs_rec(ops, ops.len() as int)
}

/// The largest of the first `n` entries of an index list (zero when
/// empty).
pub open spec fn seq_max_usize(s: Seq<usize>, n: int) -> int
    decreases n,
{
    if n <= 0 {
        0
    } else {
        let p = seq_max_usize(s, n - 1);
        if s[n - 1] as int > p {
            s[n - 1] as int
        } else {
            p
        }
    }
}

/// The largest result slot among the first `n` instructions (zero when
/// empty).
pub open spec fn vid_max(ops: Seq<Operation>, n: int) -> int
    decreases n,
{
    if n <= 0 {
        0
    } else {
        let p = vid_max(ops, n - 1);
        if ops[n - 1].vid as int > p {
            ops[n - 1].vid as int
        } else {
            p
        }
    }
}

/// The largest of three values.
pub open spec fn max3(a: int, b: int, c: int) -> int {
    if a >= b && a >= c {
        a
    } else if b >= c {
        b
    } else {
        c
    }
}

/// Copy a vector of plain values.
pub fn copy_vec<T: Copy>(v: &Vec<T>) -> (r: Vec<T>)
    ensures
        r@ == v@,
{
    let mut r: Vec<T> = Vec::new();
    let n = v.len();
    let mut i: usize = 0;
    while i < n
        invariant
            i <= n,
            n == v@.len(),
            r@ == v@.take(i as int),
        decreases n - i,
    {
        r.push(v[i]);
        proof {
            assert(r@ =~= v@.take(i + 1 as int));
        }
        i += 1;
    }
    proof {
        assert(r@ =~= v@);
    }
    r
}

/// Evaluation procedure and intermediate values of a function evaluation.
#[derive(Debug, Clone)]
pub struct ATape<S: Scalar> {
    /// Independent variable indices
    pub indeps: Vec<usize>,
    /// Dependent variable indices
    pub deps: Vec<usize>,
    /// Recorded instruction sequence
    pub ops: Vec<Operation>,
    /// Value buffer, parallel to the slot space
    pub vals: Vec<S>,
}

impl<S: Scalar> ATape<S> {
    /// The slot discipline, stated over this tape's buffers.
    pub open spec fn wf(&self) -> bool {
        recording_wf(self.indeps@, self.deps@, self.ops@, self.vals@.len() as nat)
    }

    /// The value buffer replaying this tape at `x` produces.
    pub open spec fn replay_with(&self, x: Seq<S>) -> Seq<S> {
        replay_full(self.vals@, self.indeps@, self.ops@, x)
    }

    /// The dependent tangents forward propagation of `dx` produces.
    pub open spec fn forward_with(&self, dx: Seq<S>) -> Seq<S> {
        gather_spec(
            forward_rec(
                self.vals@,
                seed_spec(zero_seq(self.vals@.len() as nat), self.indeps@, dx),
                self.ops@,
                self.ops@.len() as int,
            ),
            self.deps@,
        )
    }

    /// The independent adjoints reverse propagation of `ybar` produces.
    pub open spec fn reverse_with(&self, ybar: Seq<S>) -> Seq<S> {
        gather_spec(
            reverse_rec(
                self.vals@,
                accum_rec(
                    zero_seq(self.vals@.len() as nat),
                    self.deps@,
                    ybar,
                    self.deps@.len() as int,
                ),
                self.ops@,
                self.ops@.len() as int,
            ),
            self.indeps@,
        )
    }

    /// Independent variable indices
    pub fn indeps(&self) -> (r: &Vec<usize>)
        ensures
            r@ == self.indeps@,
    {
        &self.indeps
    }

    /// Dependent variable indices
    pub fn deps(&self) -> (r: &Vec<usize>)
        ensures
            r@ == self.deps@,
    {
        &self.deps
    }

    /// Recorded instructions
    pub fn ops(&self) -> (r: &Vec<Operation>)
        ensures
            r@ == self.ops@,
    {
        &self.ops
    }

    /// Get intermediate values
    pub fn values(&self) -> (r: &Vec<S>)
        ensures
            r@ == self.vals@,
    {
        &self.vals
    }

    /// Borrow the intermediate values mutably
    pub fn values_mut(&mut self) -> (r: &mut Vec<S>)
        ensures
            *r == old(self).vals,
            final(self).vals == *final(r),
            final(self).indeps == old(self).indeps,
            final(self).deps == old(self).deps,
            final(self).ops == old(self).ops,
    {
        &mut self.vals
    }

    /// Number of independents
    pub fn num_indeps(&self) -> (r: usize)
        ensures
            r == self.indeps@.len(),
    {
        self.indeps.len()
    }

    /// Number of dependents
    pub fn num_deps(&self) -> (r: usize)
        ensures
            r == self.deps@.len(),
    {
        self.deps.len()
    }

    /// Number of abs-function operations
    pub fn num_abs(&self) -> (r: usize)
        ensures
            r == count_abs(self.ops@),
    {
        let m = self.ops.len();
        let mut count: usize = 0;
        let mut k: usize = 0;
        while k < m
            invariant
                k <= m,
                m == self.ops@.len(),
                count == count_abs_rec(self.ops@, k as int),
                count <= k,
            decreases m - k,
        {
            if self.ops[k].opcode == OpCode::Abs {
                count += 1;
            }
            k += 1;
        }
        count
    }

    /// Maximum value idx on this tape
    pub fn max_id(&self) -> (r: usize)
        ensures
            r as int == max3(
                seq_max_usize(self.indeps@, self.indeps@.len() as int),
                seq_max_usize(self.deps@, self.deps@.len() as int),
                vid_max(self.ops@, self.ops@.len() as int),
            ),
    {
        let mut best: usize = 0;
        let n = self.indeps.len();
        let mut i: usize = 0;
        while i < n
            invariant
                i <= n,
                n == self.indeps@.len(),
                best as int == seq_max_usize(self.indeps@, i as int),
            decreases n - i,
        {
            if self.indeps[i] > best {
                best = self.indeps[i];
            }
            i += 1;
        }
        let ghost indep_max = best as int;
        let m = self.deps.len();
        let mut j: usize = 0;
        let mut dep_best: usize = 0;
        while j < m
            invariant
                j <= m,
                m == self.deps@.len(),
                dep_best as int == seq_max_usize(self.deps@, j as int),
            decreases m - j,
        {
            if self.deps[j] > dep_best {
                dep_best = self.deps[j];
            }
            j += 1;
        }
        if dep_best > best {
            best = dep_best;
        }
        let nops = self.ops.len();
        let mut k: usize = 0;
        let mut op_best: usize = 0;
        while k < nops
            invariant
                k <= nops,
                nops == self.ops@.len(),
                op_best as int == vid_max(self.ops@, k as int),
            decreases nops - k,
        {
            if self.ops[k].vid > op_best {
                op_best = self.ops[k].vid;
            }
            k += 1;
        }
        if op_best > best {
            best = op_best;
        }
        best
    }

    /// Stored arguments of the function
    pub fn x(&self) -> (r: Vec<S>)
        requires
            self.wf(),
        ensures
            r@ == gather_spec(self.vals@, self.indeps@),
    {
        gather_values(&self.vals, &self.indeps)
    }

    /// Stored result of the function
    pub fn y(&self) -> (r: Vec<S>)
        requires
            self.wf(),
        ensures
            r@ == gather_spec(self.vals@, self.deps@),
    {
        gather_values(&self.vals, &self.deps)
    }

    /// Re-evaluate the recording at a new argument vector: copy `x` into
    /// the independent slots, then execute every instruction in recorded
    /// order against the shared value buffer.
    pub fn zero_order(&mut self, x: &Vec<S>)
        requires
            old(self).wf(),
            x@.len() == old(self).indeps@.len(),
        ensures
            final(self).indeps@ == old(self).indeps@,
            final(self).deps@ == old(self).deps@,
            final(self).ops@ == old(self).ops@,
            final(self).vals@ == old(self).replay_with(x@),
            final(self).wf(),
    {
        proof {
            lemma_seed_len(old(self).vals@, old(self).indeps@, x@, old(self).indeps@.len() as int);
        }
        let n = self.indeps.len();
        let ghost vals0 = self.vals@;
        let mut i: usize = 0;
        while i < n
            invariant
                i <= n,
                n == self.indeps@.len(),
                x@.len() == n,
                self.indeps@ == old(self).indeps@,
                self.deps@ == old(self).deps@,
                self.ops@ == old(self).ops@,
                self.vals@ == seed_rec(vals0, self.indeps@, x@, i as int),
                self.vals@.len() == vals0.len(),
                old(self).wf(),
                vals0 == old(self).vals@,
            decreases n - i,
        {
            proof {
                lemma_seed_len(vals0, self.indeps@, x@, i + 1 as int);
            }
            let slot = self.indeps[i];
            self.vals.set(slot, x[i]);
            i += 1;
        }
        let m = self.ops.len();
        let ghost seeded = self.vals@;
        let mut k: usize = 0;
        while k < m
            invariant
                k <= m,
                m == self.ops@.len(),
                self.indeps@ == old(self).indeps@,
                self.deps@ == old(self).deps@,
                self.ops@ == old(self).ops@,
                self.vals@ == replay_rec(seeded, self.ops@, k as int),
                self.vals@.len() == seeded.len(),
                seeded.len() == old(self).vals@.len(),
                seeded == seed_spec(old(self).vals@, old(self).indeps@, x@),
                old(self).wf(),
            decreases m - k,
        {
            let op = self.ops[k];
            op.zero_order(&mut self.vals);
            k += 1;
        }
    }

    /// Propagate a tangent vector forward through the recording, against
    /// the already-replayed value buffer, and gather the dependents'
    /// tangents.
    pub fn first_order_forward(&self, dx: &Vec<S>) -> (dy: Vec<S>)
        requires
            self.wf(),
            dx@.len() == self.indeps@.len(),
        ensures
            dy@ == self.forward_with(dx@),
            dy@.len() == self.deps@.len(),
    {
        let len = self.vals.len();
        let mut dv: Vec<S> = zero_vec(len);
        proof {
            assert(dv@ =~= zero_seq::<S>(len as nat));
            lemma_seed_len(dv@, self.indeps@, dx@, self.indeps@.len() as int);
        }
        let ghost dv0 = dv@;
        let n = self.indeps.len();
        let mut i: usize = 0;
        while i < n
            invariant
                i <= n,
                n == self.indeps@.len(),
                dx@.len() == n,
                self.wf(),
                dv@ == seed_rec(dv0, self.indeps@, dx@, i as int),
                dv@.len() == self.vals@.len(),
                dv0 == zero_seq::<S>(self.vals@.len() as nat),
            decreases n - i,
        {
            proof {
                lemma_seed_len(dv0, self.indeps@, dx@, i + 1 as int);
            }
            let slot = self.indeps[i];
            dv.set(slot, dx[i]);
            i += 1;
        }
        let ghost seeded = dv@;
        let m = self.ops.len();
        let mut k: usize = 0;
        while k < m
            invariant
                k <= m,
                m == self.ops@.len(),
                self.wf(),
                dv@ == forward_rec(self.vals@, seeded, self.ops@, k as int),
                dv@.len() == self.vals@.len(),
                seeded == seed_spec(zero_seq::<S>(self.vals@.len() as nat), self.indeps@, dx@),
            decreases m - k,
        {
            let op = self.ops[k];
            op.first_order(&self.vals, &mut dv);
            k += 1;
        }
        gather_values(&dv, &self.deps)
    }

    /// Propagate an adjoint vector backward through the recording, against
    /// the already-replayed value buffer, and gather the independents'
    /// adjoints.  A tape still containing a raw `Abs` instruction has no
    /// reverse semantics here; the abs-normal decomposition handles kinks.
    pub fn first_order_reverse(&self, ybar: &Vec<S>) -> (xbar: Vec<S>)
        requires
            self.wf(),
            ybar@.len() == self.deps@.len(),
            forall|k: int| 0 <= k < self.ops@.len() ==> (#[trigger] self.ops@[k]).opcode != OpCode::Abs,
        ensures
            xbar@ == self.reverse_with(ybar@),
            xbar@.len() == self.indeps@.len(),
    {
        let len = self.vals.len();
        let mut vbar: Vec<S> = zero_vec(len);
        proof {
            assert(vbar@ =~= zero_seq::<S>(len as nat));
        }
        let ghost vbar0 = vbar@;
        let n = self.deps.len();
        let mut i: usize = 0;
        while i < n
            invariant
                i <= n,
                n == self.deps@.len(),
                ybar@.len() == n,
                self.wf(),
                vbar@ == accum_rec(vbar0, self.deps@, ybar@, i as int),
                vbar@.len() == self.vals@.len(),
                vbar0 == zero_seq::<S>(self.vals@.len() as nat),
            decreases n - i,
        {
            proof {
                lemma_accum_len(vbar0, self.deps@, ybar@, i + 1 as int);
            }
            let slot = self.deps[i];
            let t = S::add(vbar[slot], ybar[i]);
            vbar.set(slot, t);
            i += 1;
        }
        let ghost seeded = vbar@;
        let m = self.ops.len();
        let mut k: usize = m;
        while k > 0
            invariant
                k <= m,
                m == self.ops@.len(),
                self.wf(),
                forall|j: int| 0 <= j < self.ops@.len() ==> (#[trigger] self.ops@[j]).opcode != OpCode::Abs,
                vbar@ == reverse_rec(self.vals@, seeded, self.ops@, (m - k) as int),
                vbar@.len() == self.vals@.len(),
                seeded == accum_rec(
                    zero_seq::<S>(self.vals@.len() as nat),
                    self.deps@,
                    ybar@,
                    self.deps@.len() as int,
                ),
            decreases k,
        {
            k -= 1;
            let op = self.ops[k];
            op.first_order_reverse(&self.vals, &mut vbar);
        }
        gather_values(&vbar, &self.indeps)
    }
}

/// A vector of `len` zero scalars.
pub fn zero_vec<S: Scalar>(len: usize) -> (r: Vec<S>)
    ensures
        r@.len() == len,
        forall|i: int| 0 <= i < len ==> r@[i] == S::zero_spec(),
{
    let mut r: Vec<S> = Vec::new();
    let mut i: usize = 0;
    while i < len
        invariant
            i <= len,
            r@.len() == i,
            forall|j: int| 0 <= j < i ==> r@[j] == S::zero_spec(),
        decreases len - i,
    {
        r.push(S::zero());
        i += 1;
    }
    r
}

/// Gather the values of `v` at the slots `idx`.
pub fn gather_values<S: Scalar>(v: &Vec<S>, idx: &Vec<usize>) -> (r: Vec<S>)
    requires
        forall|i: int| 0 <= i < idx@.len() ==> (#[trigger] idx@[i]) < v@.len(),
    ensures
        r@ == gather_spec(v@, idx@),
{
    let n = idx.len();
    let mut r: Vec<S> = Vec::new();
    let mut i: usize = 0;
    while i < n
        invariant
            i <= n,
            n == idx@.len(),
            forall|j: int| 0 <= j < idx@.len() ==> (#[trigger] idx@[j]) < v@.len(),
            r@.len() == i,
            forall|j: int| 0 <= j < i ==> r@[j] == v@[idx@[j] as int],
        decreases n - i,
    {
        r.push(v[idx[i]]);
        i += 1;
    }
    proof {
        assert(r@ =~= gather_spec(v@, idx@));
    }
    r
}

/// Seeding preserves the buffer length when all slots are in range.
pub proof fn lemma_seed_len<S>(v: Seq<S>, idx: Seq<usize>, x: Seq<S>, n: int)
    requires
        n <= idx.len(),
        forall|i: int| 0 <= i < idx.len() ==> (#[trigger] idx[i]) < v.len(),
    ensures
        seed_rec(v, idx, x, n).len() == v.len(),
    decreases n,
{
    if n > 0 {
        lemma_seed_len(v, idx, x, n - 1);
    }
}

/// Adjoint seeding preserves the buffer length when all slots are in range.
pub proof fn lemma_accum_len<S: Scalar>(v: Seq<S>, idx: Seq<usize>, y: Seq<S>, n: int)
    requires
        n <= idx.len(),
        forall|i: int| 0 <= i < idx.len() ==> (#[trigger] idx[i]) < v.len(),
    ensures
        accum_rec(v, idx, y, n).len() == v.len(),
    decreases n,
{
    if n > 0 {
        lemma_accum_len(v, idx, y, n - 1);
    }
}

/// Replay preserves the buffer length.
pub proof fn lemma_replay_len<S: Scalar>(v: Seq<S>, ops: Seq<Operation>, n: int)
    requires
        n <= ops.len(),
        forall|k: int| 0 <= k < ops.len() ==> op_wf(#[trigger] ops[k], v.len() as nat),
    ensures
        replay_rec(v, ops, n).len() == v.len(),
    decreases n,
{
    if n > 0 {
        lemma_replay_len(v, ops, n - 1);
    }
}

/// Replay only writes the result slots of computing instructions: any
/// other slot keeps its value.
pub proof fn lemma_replay_frame<S: Scalar>(v: Seq<S>, ops: Seq<Operation>, n: int, s: int)
    requires
        n <= ops.len(),
        0 <= s < v.len(),
        forall|k: int| 0 <= k < ops.len() ==> op_wf(#[trigger] ops[k], v.len() as nat),
        forall|k: int| 0 <= k < n && is_computing(#[trigger] ops[k]) ==> ops[k].vid != s,
    ensures
        replay_rec(v, ops, n)[s] == v[s],
    decreases n,
{
    if n > 0 {
        lemma_replay_frame(v, ops, n - 1, s);
        lemma_replay_len(v, ops, n - 1);
    }
}

/// Between two replay prefixes, a slot no instruction in the window writes
/// keeps its value.
pub proof fn lemma_replay_stable<S: Scalar>(
    v: Seq<S>,
    ops: Seq<Operation>,
    n1: int,
    n2: int,
    s: int,
)
    requires
        0 <= n1 <= n2 <= ops.len(),
        0 <= s < v.len(),
        forall|k: int| 0 <= k < ops.len() ==> op_wf(#[trigger] ops[k], v.len() as nat),
        forall|k: int| n1 <= k < n2 && is_computing(#[trigger] ops[k]) ==> ops[k].vid != s,
    ensures
        replay_rec(v, ops, n2)[s] == replay_rec(v, ops, n1)[s],
    decreases n2 - n1,
{
    if n2 > n1 {
        lemma_replay_stable(v, ops, n1, n2 - 1, s);
        lemma_replay_len(v, ops, n2 - 1);
    }
}

/// Seeding slots that already hold the seeded values changes nothing.
pub proof fn lemma_seed_noop<S>(v: Seq<S>, idx: Seq<usize>, x: Seq<S>, n: int)
    requires
        n <= idx.len(),
        x.len() == idx.len(),
        forall|i: int| 0 <= i < idx.len() ==> (#[trigger] idx[i]) < v.len(),
        forall|i: int| 0 <= i < idx.len() ==> v[(#[trigger] idx[i]) as int] == x[i],
    ensures
        seed_rec(v, idx, x, n) == v,
    decreases n,
{
    if n > 0 {
        lemma_seed_noop(v, idx, x, n - 1);
        assert(seed_rec(v, idx, x, n) =~= v);
    }
}

/// After seeding distinct in-range slots, each seeded slot holds its
/// seeded value and every other slot is unchanged.
pub proof fn lemma_seed_values<S>(v: Seq<S>, idx: Seq<usize>, x: Seq<S>, n: int)
    requires
        n <= idx.len(),
        x.len() == idx.len(),
        forall|i: int| 0 <= i < idx.len() ==> (#[trigger] idx[i]) < v.len(),
        forall|i1: int, i2: int|
            #![trigger idx[i1], idx[i2]]
            0 <= i1 < i2 < idx.len() ==> idx[i1] != idx[i2],
    ensures
        forall|i: int| 0 <= i < n ==> seed_rec(v, idx, x, n)[(#[trigger] idx[i]) as int] == x[i],
        forall|s: int|
            0 <= s < v.len() && (forall|i: int| 0 <= i < n ==> (#[trigger] idx[i]) as int != s)
                ==> seed_rec(v, idx, x, n)[s] == v[s],
    decreases n,
{
    if n > 0 {
        lemma_seed_values(v, idx, x, n - 1);
        lemma_seed_len(v, idx, x, n - 1);
    }
}

/// Replaying a recording is idempotent: replaying the buffer a replay
/// produced, at the same argument vector, reproduces that buffer exactly.
/// The value buffer after a replay is a fixed point of replaying.
pub proof fn lemma_replay_idempotent<S: Scalar>(
    vals: Seq<S>,
    indeps: Seq<usize>,
    deps: Seq<usize>,
    ops: Seq<Operation>,
    x: Seq<S>,
)
    requires
        recording_wf(indeps, deps, ops, vals.len() as nat),
        x.len() == indeps.len(),
    ensures
        replay_full(replay_full(vals, indeps, ops, x), indeps, ops, x) == replay_full(
            vals,
            indeps,
            ops,
            x,
        ),
{
    let w = seed_spec(vals, indeps, x);
    let v1 = replay_ops(w, ops);
    lemma_seed_len(vals, indeps, x, indeps.len() as int);
    lemma_replay_len(w, ops, ops.len() as int);
    // Independent slots hold x after the first replay: the seed put x
    // there and no computing instruction writes an independent slot.
    lemma_seed_values(vals, indeps, x, indeps.len() as int);
    assert forall|i: int| 0 <= i < indeps.len() implies v1[(#[trigger] indeps[i]) as int] == x[i] by {
        lemma_replay_frame(w, ops, ops.len() as int, indeps[i] as int);
    }
    // Hence the second seeding changes nothing.
    lemma_seed_noop(v1, indeps, x, indeps.len() as int);
    assert(seed_spec(v1, indeps, x) == v1);
    // And v1 is a fixed point of every replay prefix.
    lemma_replay_fixed(w, v1, ops, ops.len() as int);
    assert(replay_rec(v1, ops, ops.len() as int) == v1);
}

/// Buffers that agree everywhere except at the result slots of computing
/// instructions are driven together by replay: after the first `n`
/// instructions they also agree at every slot no later instruction
/// writes.
proof fn lemma_replay_agree<S: Scalar>(u1: Seq<S>, u2: Seq<S>, ops: Seq<Operation>, n: int)
    requires
        u1.len() == u2.len(),
        0 <= n <= ops.len(),
        forall|k: int| 0 <= k < ops.len() ==> op_wf(#[trigger] ops[k], u1.len() as nat),
        forall|k1: int, k2: int|
            #![trigger ops[k1], ops[k2]]
            0 <= k1 < k2 < ops.len() && ops[k1].opcode != OpCode::Nop && ops[k2].opcode
                != OpCode::Nop ==> ops[k1].vid < ops[k2].vid,
        forall|s: int|
            0 <= s < u1.len() && (forall|k: int|
                0 <= k < ops.len() && is_computing(#[trigger] ops[k]) ==> ops[k].vid != s)
                ==> #[trigger] u1[s] == u2[s],
    ensures
        forall|s: int|
            0 <= s < u1.len() && (forall|k: int|
                n <= k < ops.len() && is_computing(#[trigger] ops[k]) ==> ops[k].vid != s)
                ==> #[trigger] replay_rec(u1, ops, n)[s] == replay_rec(u2, ops, n)[s],
    decreases n,
{
    lemma_replay_len(u1, ops, n);
    lemma_replay_len(u2, ops, n);
    if n > 0 {
        lemma_replay_agree(u1, u2, ops, n - 1);
        lemma_replay_len(u1, ops, n - 1);
        lemma_replay_len(u2, ops, n - 1);
        let a1 = replay_rec(u1, ops, n - 1);
        let a2 = replay_rec(u2, ops, n - 1);
        let op = ops[n - 1];
        assert forall|s: int|
            0 <= s < u1.len() && (forall|k: int|
                n <= k < ops.len() && is_computing(#[trigger] ops[k]) ==> ops[k].vid != s)
                implies #[trigger] replay_rec(u1, ops, n)[s] == replay_rec(u2, ops, n)[s] by {
            if is_computing(op) && op.vid == s {
                // This step writes `s` in both buffers, from operands no
                // instruction at or after this one can have written.
                let i = op.arg1.unwrap() as int;
                assert forall|k: int|
                    n - 1 <= k < ops.len() && is_computing(#[trigger] ops[k]) implies ops[k].vid
                    != i by {
                    if k > n - 1 {
                        assert(ops[n - 1].vid < ops[k].vid);
                    }
                }
                assert(a1[i] == a2[i]);
                if op.arg2.is_some() {
                    let j = op.arg2.unwrap() as int;
                    assert forall|k: int|
                        n - 1 <= k < ops.len() && is_computing(#[trigger] ops[k]) implies
                        ops[k].vid != j by {
                        if k > n - 1 {
                            assert(ops[n - 1].vid < ops[k].vid);
                        }
                    }
                    assert(a1[j] == a2[j]);
                }
            } else {
                // This step leaves `s` alone in both buffers, and `s` was
                // already in agreement.
                assert forall|k: int|
                    n - 1 <= k < ops.len() && is_computing(#[trigger] ops[k]) implies ops[k].vid
                    != s by {}
                assert(a1[s] == a2[s]);
            }
        }
    }
}

/// Replaying at `x` is independent of prior replay history: replaying a
/// buffer some earlier replay produced gives exactly the buffer a direct
/// replay of the recording at `x` gives.
pub proof fn lemma_replay_history_independent<S: Scalar>(
    vals: Seq<S>,
    indeps: Seq<usize>,
    deps: Seq<usize>,
    ops: Seq<Operation>,
    x_prior: Seq<S>,
    x: Seq<S>,
)
    requires
        recording_wf(indeps, deps, ops, vals.len() as nat),
        x_prior.len() == indeps.len(),
        x.len() == indeps.len(),
    ensures
        replay_full(replay_full(vals, indeps, ops, x_prior), indeps, ops, x) == replay_full(
            vals,
            indeps,
            ops,
            x,
        ),
{
    let w = seed_spec(vals, indeps, x_prior);
    lemma_seed_len(vals, indeps, x_prior, indeps.len() as int);
    let v1 = replay_ops(w, ops);
    lemma_replay_len(w, ops, ops.len() as int);
    let b1 = seed_spec(v1, indeps, x);
    let b2 = seed_spec(vals, indeps, x);
    lemma_seed_len(v1, indeps, x, indeps.len() as int);
    lemma_seed_len(vals, indeps, x, indeps.len() as int);
    lemma_seed_values(v1, indeps, x, indeps.len() as int);
    lemma_seed_values(vals, indeps, x, indeps.len() as int);
    lemma_seed_values(vals, indeps, x_prior, indeps.len() as int);
    // The two seeded buffers agree everywhere but at computing result
    // slots: independents hold `x`, and slots replay never writes kept
    // their original values through the earlier replay.
    assert forall|s: int|
        0 <= s < b1.len() && (forall|k: int|
            0 <= k < ops.len() && is_computing(#[trigger] ops[k]) ==> ops[k].vid != s)
            implies #[trigger] b1[s] == b2[s] by {
        if exists|i: int| 0 <= i < indeps.len() && indeps[i] as int == s {
            let i = choose|i: int| 0 <= i < indeps.len() && indeps[i] as int == s;
            assert(b1[indeps[i] as int] == x[i]);
            assert(b2[indeps[i] as int] == x[i]);
        } else {
            assert(forall|i: int| 0 <= i < indeps.len() ==> indeps[i] as int != s);
            assert(b1[s] == v1[s]);
            assert(b2[s] == vals[s]);
            lemma_replay_frame(w, ops, ops.len() as int, s);
            assert(v1[s] == w[s]);
            assert(w[s] == vals[s]);
        }
    }
    lemma_replay_agree(b1, b2, ops, ops.len() as int);
    lemma_replay_len(b1, ops, ops.len() as int);
    lemma_replay_len(b2, ops, ops.len() as int);
    assert forall|s: int| 0 <= s < b1.len() implies replay_rec(b1, ops, ops.len() as int)[s]
        == replay_rec(b2, ops, ops.len() as int)[s] by {
        assert(forall|k: int|
            ops.len() <= k < ops.len() && is_computing(#[trigger] ops[k]) ==> ops[k].vid != s);
    }
    assert(replay_ops(b1, ops) =~= replay_ops(b2, ops));
}

/// The buffer a full replay produced is left unchanged by replaying any
/// prefix of the instructions again.
proof fn lemma_replay_fixed<S: Scalar>(w: Seq<S>, v1: Seq<S>, ops: Seq<Operation>, n: int)
    requires
        0 <= n <= ops.len(),
        v1 == replay_rec(w, ops, ops.len() as int),
        forall|k: int| 0 <= k < ops.len() ==> op_wf(#[trigger] ops[k], w.len() as nat),
        forall|k1: int, k2: int|
            #![trigger ops[k1], ops[k2]]
            0 <= k1 < k2 < ops.len() && ops[k1].opcode != OpCode::Nop && ops[k2].opcode
                != OpCode::Nop ==> ops[k1].vid < ops[k2].vid,
    ensures
        replay_rec(v1, ops, n) == v1,
    decreases n,
{
    lemma_replay_len(w, ops, ops.len() as int);
    if n > 0 {
        lemma_replay_fixed(w, v1, ops, n - 1);
        let op = ops[n - 1];
        if is_computing(op) {
            let i = op.arg1.unwrap() as int;
            let u_prev = replay_rec(w, ops, n - 1);
            let u_n = replay_rec(w, ops, n);
            lemma_replay_len(w, ops, n - 1);
            lemma_replay_len(w, ops, n);
            // The operands of this instruction are stable from step n-1 on:
            // every later computing instruction writes a strictly larger slot.
            assert forall|k: int|
                n - 1 <= k < ops.len() && is_computing(#[trigger] ops[k]) implies ops[k].vid
                > op.arg1.unwrap() by {}
            lemma_replay_stable(w, ops, n - 1, ops.len() as int, i);
            assert(v1[i] == u_prev[i]);
            if op.arg2.is_some() {
                let j = op.arg2.unwrap() as int;
                lemma_replay_stable(w, ops, n - 1, ops.len() as int, j);
                assert(v1[j] == u_prev[j]);
            }
            // The result slot is stable from step n on.
            lemma_replay_stable(w, ops, n, ops.len() as int, op.vid as int);
            assert(v1[op.vid as int] == u_n[op.vid as int]);
            assert(zero_order_step(v1, op) =~= v1);
        } else {
            assert(zero_order_step(v1, op) == v1);
        }
    }
}

} // verus!
