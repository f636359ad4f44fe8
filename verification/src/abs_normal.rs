//! The abs-normal decomposition of a piecewise-smooth tape.
//!
//! The kink variables of a tape are exactly the operands of its `Abs`
//! instructions.  An [`AbsNormalTape`] extends the independent list with
//! the kink result slots and prepends the kink argument slots to the
//! dependent list, and blinds every `Abs` instruction to a no-op, so that
//! derivative propagation never differentiates through a kink silently.
//! Four structural views (`Z`: inputs to kink arguments, `L`: kink
//! magnitudes to kink arguments, `J`: inputs to outputs, `Y`: kink
//! magnitudes to outputs) select sub-ranges of the combined lists; each is
//! a matrix in operator form, multiplied by evaluating the blinded tape
//! (forward for columns, reverse for rows).  [`abs_normal`] materializes
//! the dense form and the offset vectors `a = z - L|z|`, `b = -Y|z|`.

use vstd::prelude::*;

use crate::dense::{abs_seq, col_seq, dot_spec, identity_mat, mat_view, mat_vec_mul, unit_seq,
    vec_abs, vec_neg, vec_sub};
use crate::operation::{op_wf, OpCode, Operation};
use crate::scalar::Scalar;
use crate::tape::{copy_vec, count_abs, count_abs_rec, forward_rec, gather_spec, gather_values,
    is_computing, recording_wf, reverse_rec, seed_spec, zero_seq, ATape};

verus! {

/// The indices of the `Abs` instructions among the first `k`, in order.
pub open spec fn abs_positions_rec(ops: Seq<Operation>, k: int) -> Seq<int>
    decreases k,
{
    if k <= 0 {
        Seq::<int>::empty()
    } else {
        let p = abs_positions_rec(ops, k - 1);
        if ops[k - 1].opcode == OpCode::Abs {
            p.push(k - 1)
        } else {
            p
        }
    }
}

/// The indices of all `Abs` instructions, in order.
pub open spec fn abs_positions(ops: Seq<Operation>) -> Seq<int> {
    abs_positions_rec(ops, ops.len() as int)
}

/// The result slots of the `Abs` instructions, in program order.
pub open spec fn abs_vids(ops: Seq<Operation>) -> Seq<usize> {
    abs_positions(ops).map(|i: int, p: int| ops[p].vid)
}

/// The argument slots of the `Abs` instructions, in program order.
pub open spec fn abs_args(ops: Seq<Operation>) -> Seq<usize> {
    abs_positions(ops).map(|i: int, p: int| ops[p].arg1.unwrap())
}

/// An instruction with its kink blinded: `Abs` becomes a no-op.
pub open spec fn blind_one(op: Operation) -> Operation {
    if op.opcode == OpCode::Abs {
        Operation { opcode: OpCode::Nop, vid: 0, arg1: None, arg2: None }
    } else {
        op
    }
}

/// The instruction sequence with every `Abs` blinded to a no-op.
pub open spec fn blind_spec(ops: Seq<Operation>) -> Seq<Operation> {
    ops.map(|i: int, op: Operation| blind_one(op))
}

/// The `Abs` positions of a prefix are in range, increasing, point at
/// `Abs` instructions, and count them.
pub proof fn lemma_abs_positions(ops: Seq<Operation>, k: int)
    requires
        k <= ops.len(),
    ensures
        abs_positions_rec(ops, k).len() == count_abs_rec(ops, k),
        forall|i: int|
            0 <= i < abs_positions_rec(ops, k).len() ==> 0 <= #[trigger] abs_positions_rec(
                ops,
                k,
            )[i] < k,
        forall|i: int|
            0 <= i < abs_positions_rec(ops, k).len() ==> ops[abs_positions_rec(ops, k)[i]].opcode
                == OpCode::Abs,
        forall|i1: int, i2: int|
            #![trigger abs_positions_rec(ops, k)[i1], abs_positions_rec(ops, k)[i2]]
            0 <= i1 < i2 < abs_positions_rec(ops, k).len() ==> abs_positions_rec(ops, k)[i1]
                < abs_positions_rec(ops, k)[i2],
    decreases k,
{
    if k > 0 {
        lemma_abs_positions(ops, k - 1);
    }
}

/// The combined independent list of the abs-normal view: the tape's
/// independents followed by the kink result slots.
pub open spec fn anf_indeps<S: Scalar>(t: ATape<S>) -> Seq<usize> {
    t.indeps@ + abs_vids(t.ops@)
}

/// The combined dependent list of the abs-normal view: the kink argument
/// slots followed by the tape's dependents.
pub open spec fn anf_deps<S: Scalar>(t: ATape<S>) -> Seq<usize> {
    abs_args(t.ops@) + t.deps@
}

/// The blinded view keeps the slot discipline, contains no `Abs`, and its
/// combined lists are well formed against the same buffer.
pub proof fn lemma_anf_wf<S: Scalar>(t: ATape<S>)
    requires
        t.wf(),
    ensures
        recording_wf(anf_indeps(t), anf_deps(t), blind_spec(t.ops@), t.vals@.len() as nat),
        forall|k: int|
            0 <= k < blind_spec(t.ops@).len() ==> (#[trigger] blind_spec(t.ops@)[k]).opcode
                != OpCode::Abs,
        abs_vids(t.ops@).len() == count_abs(t.ops@),
        abs_args(t.ops@).len() == count_abs(t.ops@),
{
    let ops = t.ops@;
    let len = t.vals@.len() as nat;
    let pos = abs_positions(ops);
    let ci = anf_indeps(t);
    let cd = anf_deps(t);
    let bo = blind_spec(ops);
    let n = t.indeps@.len() as int;
    let s = pos.len() as int;
    lemma_abs_positions(ops, ops.len() as int);
    assert(abs_vids(ops).len() == count_abs(ops));
    assert forall|i: int| 0 <= i < ci.len() implies (#[trigger] ci[i]) < len by {
        if i >= n {
            assert(ci[i] == ops[pos[i - n]].vid);
            assert(op_wf(ops[pos[i - n]], len));
        }
    }
    assert forall|i: int| 0 <= i < cd.len() implies (#[trigger] cd[i]) < len by {
        if i < s {
            assert(cd[i] == ops[pos[i]].arg1.unwrap());
            assert(op_wf(ops[pos[i]], len));
        }
    }
    assert forall|k: int| 0 <= k < bo.len() implies op_wf(#[trigger] bo[k], len) by {
        assert(bo[k] == blind_one(ops[k]));
        assert(op_wf(ops[k], len));
    }
    assert forall|k1: int, k2: int|
        #![trigger bo[k1], bo[k2]]
        0 <= k1 < k2 < bo.len() && bo[k1].opcode != OpCode::Nop && bo[k2].opcode
            != OpCode::Nop implies bo[k1].vid < bo[k2].vid by {
        assert(bo[k1] == blind_one(ops[k1]));
        assert(bo[k2] == blind_one(ops[k2]));
    }
    assert forall|k: int, i: int|
        #![trigger bo[k], ci[i]]
        0 <= k < bo.len() && 0 <= i < ci.len() && is_computing(bo[k]) implies bo[k].vid
            != ci[i] by {
        assert(bo[k] == blind_one(ops[k]));
        assert(is_computing(ops[k]) && ops[k].opcode != OpCode::Abs);
        if i < n {
            assert(ci[i] == t.indeps@[i]);
        } else {
            let p = pos[i - n];
            assert(ci[i] == ops[p].vid);
            assert(ops[p].opcode == OpCode::Abs);
            assert(k != p);
            if k < p {
                assert(ops[k].vid < ops[p].vid);
            } else {
                assert(ops[p].vid < ops[k].vid);
            }
        }
    }
    assert forall|i1: int, i2: int|
        #![trigger ci[i1], ci[i2]]
        0 <= i1 < i2 < ci.len() implies ci[i1] != ci[i2] by {
        if i1 < n && i2 < n {
            assert(ci[i1] == t.indeps@[i1] && ci[i2] == t.indeps@[i2]);
        } else if i1 < n {
            let p = pos[i2 - n];
            assert(ci[i2] == ops[p].vid);
            assert(ops[p].opcode == OpCode::Abs);
            assert(is_computing(ops[p]));
            assert(ci[i1] == t.indeps@[i1]);
            assert(ops[p].vid != t.indeps@[i1]);
        } else {
            let p1 = pos[i1 - n];
            let p2 = pos[i2 - n];
            assert(p1 < p2);
            assert(ops[p1].opcode == OpCode::Abs && ops[p2].opcode == OpCode::Abs);
            assert(ops[p1].vid < ops[p2].vid);
        }
    }
    assert forall|k: int| 0 <= k < bo.len() implies (#[trigger] bo[k]).opcode != OpCode::Abs by {
        assert(bo[k] == blind_one(ops[k]));
    }
}

/// One of the four structural views of an abs-normal decomposition.
#[derive(Debug, Clone, Copy, PartialEq, Eq, Structural)]
pub enum AnfPart {
    /// Inputs to kink arguments
    Z,
    /// Kink magnitudes to kink arguments
    L,
    /// Inputs to outputs
    J,
    /// Kink magnitudes to outputs
    Y,
}

/// The independent slots a view reads: the input block or the kink block.
pub open spec fn view_indeps<S: Scalar>(t: ATape<S>, p: AnfPart) -> Seq<usize> {
    match p {
        AnfPart::Z | AnfPart::J => anf_indeps(t).take(t.indeps@.len() as int),
        AnfPart::L | AnfPart::Y => anf_indeps(t).skip(t.indeps@.len() as int),
    }
}

/// The dependent slots a view produces: the kink block or the output
/// block.
pub open spec fn view_deps<S: Scalar>(t: ATape<S>, p: AnfPart) -> Seq<usize> {
    match p {
        AnfPart::Z | AnfPart::L => anf_deps(t).take(count_abs(t.ops@) as int),
        AnfPart::J | AnfPart::Y => anf_deps(t).skip(count_abs(t.ops@) as int),
    }
}

/// A right-multiplication of a view by a direction column: forward
/// propagation of the column through the blinded tape, projected on the
/// view's dependents.
pub open spec fn anf_forward<S: Scalar>(t: ATape<S>, p: AnfPart, dx: Seq<S>) -> Seq<S> {
    gather_spec(
        forward_rec(
            t.vals@,
            seed_spec(zero_seq(t.vals@.len() as nat), view_indeps(t, p), dx),
            blind_spec(t.ops@),
            t.ops@.len() as int,
        ),
        view_deps(t, p),
    )
}

/// A left-multiplication of a view by an adjoint row: reverse propagation
/// of the row through the blinded tape, projected on the view's
/// independents.
pub open spec fn anf_reverse<S: Scalar>(t: ATape<S>, p: AnfPart, ybar: Seq<S>) -> Seq<S> {
    gather_spec(
        reverse_rec(
            t.vals@,
            accum_of(t, p, ybar),
            blind_spec(t.ops@),
            t.ops@.len() as int,
        ),
        view_indeps(t, p),
    )
}

/// The adjoint buffer seeded at a view's dependents.
pub open spec fn accum_of<S: Scalar>(t: ATape<S>, p: AnfPart, ybar: Seq<S>) -> Seq<S> {
    crate::tape::accum_rec(
        zero_seq(t.vals@.len() as nat),
        view_deps(t, p),
        ybar,
        view_deps(t, p).len() as int,
    )
}

/// Copy the sub-range `[from, to)` of an index vector.
pub fn slice_range(v: &Vec<usize>, from: usize, to: usize) -> (r: Vec<usize>)
    requires
        from <= to <= v@.len(),
    ensures
        r@ == v@.subrange(from as int, to as int),
{
    let mut r: Vec<usize> = Vec::new();
    let mut i: usize = from;
    while i < to
        invariant
            from <= i <= to <= v@.len(),
            r@ == v@.subrange(from as int, i as int),
        decreases to - i,
    {
        r.push(v[i]);
        proof {
            assert(r@ =~= v@.subrange(from as int, i + 1 as int));
        }
        i += 1;
    }
    r
}

/// Wraps a tape containing abs-calls and decomposes it for algorithms
/// specific to piecewise-smooth functions.
#[derive(Debug)]
pub struct AbsNormalTape<S: Scalar> {
    /// The underlying recording
    pub inner: ATape<S>,
    /// Combined independent slots: inputs, then kink results
    pub indeps: Vec<usize>,
    /// Combined dependent slots: kink arguments, then outputs
    pub deps: Vec<usize>,
    /// Blinded instructions: every `Abs` replaced by a no-op
    pub ops: Vec<Operation>,
    /// Number of inputs
    pub n: usize,
    /// Number of outputs
    pub m: usize,
    /// Number of kinks
    pub s: usize,
}

impl<S: Scalar> AbsNormalTape<S> {
    /// The construction invariant tying the combined lists and blinded
    /// instructions to the underlying tape.
    pub open spec fn wf(&self) -> bool {
        &&& self.inner.wf()
        &&& self.n == self.inner.indeps@.len()
        &&& self.m == self.inner.deps@.len()
        &&& self.s == count_abs(self.inner.ops@)
        &&& self.indeps@ == anf_indeps(self.inner)
        &&& self.deps@ == anf_deps(self.inner)
        &&& self.ops@ == blind_spec(self.inner.ops@)
    }

    /// Decompose a tape: extend the independents with the kink results,
    /// prepend the kink arguments to the dependents, and blind the kinks.
    pub fn new(inner: ATape<S>) -> (r: Self)
        requires
            inner.wf(),
        ensures
            r.wf(),
            r.inner == inner,
    {
        let ghost iops = inner.ops@;
        let n = inner.num_indeps();
        let m = inner.num_deps();
        let s = inner.num_abs();

        let mut indeps = copy_vec(&inner.indeps);
        let nops = inner.ops.len();
        let mut k: usize = 0;
        while k < nops
            invariant
                k <= nops,
                nops == iops.len(),
                iops == inner.ops@,
                indeps@ == inner.indeps@ + abs_positions_rec(iops, k as int).map(
                    |i: int, p: int| iops[p].vid,
                ),
            decreases nops - k,
        {
            let op = inner.ops[k];
            if op.opcode == OpCode::Abs {
                indeps.push(op.vid);
                proof {
                    assert(abs_positions_rec(iops, k + 1 as int) == abs_positions_rec(
                        iops,
                        k as int,
                    ).push(k as int));
                    assert(abs_positions_rec(iops, k + 1 as int).map(|i: int, p: int| iops[p].vid)
                        =~= abs_positions_rec(iops, k as int).map(|i: int, p: int| iops[p].vid).push(
                        op.vid,
                    ));
                    assert(indeps@ =~= inner.indeps@ + abs_positions_rec(iops, k + 1 as int).map(
                        |i: int, p: int| iops[p].vid,
                    ));
                }
            } else {
                proof {
                    assert(abs_positions_rec(iops, k + 1 as int) == abs_positions_rec(
                        iops,
                        k as int,
                    ));
                }
            }
            k += 1;
        }

        let mut deps: Vec<usize> = Vec::new();
        let mut k2: usize = 0;
        while k2 < nops
            invariant
                k2 <= nops,
                nops == iops.len(),
                iops == inner.ops@,
                inner.wf(),
                deps@ == abs_positions_rec(iops, k2 as int).map(
                    |i: int, p: int| iops[p].arg1.unwrap(),
                ),
            decreases nops - k2,
        {
            let op = inner.ops[k2];
            if op.opcode == OpCode::Abs {
                proof {
                    assert(op_wf(iops[k2 as int], inner.vals@.len() as nat));
                }
                deps.push(op.arg1.unwrap());
                proof {
                    assert(abs_positions_rec(iops, k2 + 1 as int) == abs_positions_rec(
                        iops,
                        k2 as int,
                    ).push(k2 as int));
                    assert(abs_positions_rec(iops, k2 + 1 as int).map(
                        |i: int, p: int| iops[p].arg1.unwrap(),
                    ) =~= abs_positions_rec(iops, k2 as int).map(
                        |i: int, p: int| iops[p].arg1.unwrap(),
                    ).push(op.arg1.unwrap()));
                }
            } else {
                proof {
                    assert(abs_positions_rec(iops, k2 + 1 as int) == abs_positions_rec(
                        iops,
                        k2 as int,
                    ));
                }
            }
            k2 += 1;
        }
        let mut k3: usize = 0;
        while k3 < m
            invariant
                k3 <= m,
                m == inner.deps@.len(),
                deps@ == abs_args(inner.ops@) + inner.deps@.take(k3 as int),
            decreases m - k3,
        {
            deps.push(inner.deps[k3]);
            proof {
                assert(deps@ =~= abs_args(inner.ops@) + inner.deps@.take(k3 + 1 as int));
            }
            k3 += 1;
        }
        proof {
            assert(deps@ =~= anf_deps(inner));
        }

        let mut ops: Vec<Operation> = Vec::new();
        let mut k4: usize = 0;
        while k4 < nops
            invariant
                k4 <= nops,
                nops == iops.len(),
                iops == inner.ops@,
                ops@ == blind_spec(iops).take(k4 as int),
            decreases nops - k4,
        {
            let op = inner.ops[k4];
            if op.opcode == OpCode::Abs {
                ops.push(Operation::nop());
            } else {
                ops.push(op);
            }
            proof {
                assert(ops@ =~= blind_spec(iops).take(k4 + 1 as int));
            }
            k4 += 1;
        }
        proof {
            assert(ops@ =~= blind_spec(iops));
            lemma_abs_positions(iops, iops.len() as int);
            assert(indeps@ =~= anf_indeps(inner));
        }
        AbsNormalTape { inner, indeps, deps, ops, n, m, s }
    }

    /// Number of inputs
    pub fn n(&self) -> (r: usize)
        ensures
            r == self.n,
    {
        self.n
    }

    /// Number of outputs
    pub fn m(&self) -> (r: usize)
        ensures
            r == self.m,
    {
        self.m
    }

    /// Number of kinks
    pub fn s(&self) -> (r: usize)
        ensures
            r == self.s,
    {
        self.s
    }

    /// Stored arguments of the underlying recording
    pub fn x(&self) -> (r: Vec<S>)
        requires
            self.wf(),
        ensures
            r@ == gather_spec(self.inner.vals@, self.inner.indeps@),
    {
        self.inner.x()
    }

    /// Stored outputs of the underlying recording
    pub fn y(&self) -> (r: Vec<S>)
        requires
            self.wf(),
        ensures
            r@ == gather_spec(self.inner.vals@, self.inner.deps@),
    {
        self.inner.y()
    }

    /// Recorded kink argument values, in program order
    pub fn z(&self) -> (r: Vec<S>)
        requires
            self.wf(),
        ensures
            r@ == gather_spec(self.inner.vals@, abs_args(self.inner.ops@)),
            r@.len() == self.s,
    {
        proof {
            lemma_anf_wf(self.inner);
        }
        let zslots = slice_range(&self.deps, 0, self.s);
        proof {
            assert(zslots@ =~= abs_args(self.inner.ops@));
        }
        gather_values(&self.inner.vals, &zslots)
    }

    /// Materialize one structural view as a read-only tape over the
    /// blinded instructions: its forward and reverse propagation are the
    /// view's column and row products.
    pub fn view_tape(&self, p: AnfPart) -> (t: ATape<S>)
        requires
            self.wf(),
        ensures
            t.indeps@ == view_indeps(self.inner, p),
            t.deps@ == view_deps(self.inner, p),
            t.ops@ == blind_spec(self.inner.ops@),
            t.vals@ == self.inner.vals@,
            t.wf(),
            forall|k: int| 0 <= k < t.ops@.len() ==> (#[trigger] t.ops@[k]).opcode != OpCode::Abs,
            forall|dx: Seq<S>| #[trigger] t.forward_with(dx) == anf_forward(self.inner, p, dx),
            forall|ybar: Seq<S>| #[trigger] t.reverse_with(ybar) == anf_reverse(self.inner, p, ybar),
    {
        proof {
            lemma_anf_wf(self.inner);
        }
        let total = self.indeps.len();
        let vindeps = match p {
            AnfPart::Z | AnfPart::J => slice_range(&self.indeps, 0, self.n),
            AnfPart::L | AnfPart::Y => slice_range(&self.indeps, self.n, total),
        };
        let dtotal = self.deps.len();
        let vdeps = match p {
            AnfPart::Z | AnfPart::L => slice_range(&self.deps, 0, self.s),
            AnfPart::J | AnfPart::Y => slice_range(&self.deps, self.s, dtotal),
        };
        proof {
            assert(self.indeps@.len() == self.n + count_abs(self.inner.ops@));
            assert(self.deps@.len() == count_abs(self.inner.ops@) + self.m);
            assert(vindeps@ =~= view_indeps(self.inner, p));
            assert(vdeps@ =~= view_deps(self.inner, p));
            let ci = anf_indeps(self.inner);
            let cd = anf_deps(self.inner);
            let bo = blind_spec(self.inner.ops@);
            let len = self.inner.vals@.len() as nat;
            assert forall|i: int| 0 <= i < vindeps@.len() implies (#[trigger] vindeps@[i])
                < len by {
                assert(vindeps@[i] == ci[if p is Z || p is J {
                    i
                } else {
                    i + self.n
                }]);
            }
            assert forall|i: int| 0 <= i < vdeps@.len() implies (#[trigger] vdeps@[i]) < len by {
                assert(vdeps@[i] == cd[if p is Z || p is L {
                    i
                } else {
                    i + self.s
                }]);
            }
            assert forall|k: int, i: int|
                #![trigger bo[k], vindeps@[i]]
                0 <= k < bo.len() && 0 <= i < vindeps@.len() && is_computing(bo[k]) implies
                bo[k].vid != vindeps@[i] by {
                let off: int = if p is Z || p is J {
                    0
                } else {
                    self.n as int
                };
                assert(vindeps@[i] == ci[i + off]);
            }
            assert forall|i1: int, i2: int|
                #![trigger vindeps@[i1], vindeps@[i2]]
                0 <= i1 < i2 < vindeps@.len() implies vindeps@[i1] != vindeps@[i2] by {
                let off: int = if p is Z || p is J {
                    0
                } else {
                    self.n as int
                };
                assert(vindeps@[i1] == ci[i1 + off]);
                assert(vindeps@[i2] == ci[i2 + off]);
            }
            assert(recording_wf(vindeps@, vdeps@, bo, len));
        }
        ATape {
            indeps: vindeps,
            deps: vdeps,
            ops: copy_vec(&self.ops),
            vals: copy_vec(&self.inner.vals),
        }
    }
}

impl<S: Scalar> ATape<S> {
    /// Multiply this tape's linearization from the right by a matrix:
    /// one forward propagation per column.
    pub fn mul_right(&self, rhs: &Vec<Vec<S>>, cols: usize) -> (r: Vec<Vec<S>>)
        requires
            self.wf(),
            rhs@.len() == self.indeps@.len(),
            forall|i: int| 0 <= i < rhs@.len() ==> (#[trigger] rhs@[i])@.len() == cols,
        ensures
            r@.len() == self.deps@.len(),
            forall|i: int| 0 <= i < r@.len() ==> (#[trigger] r@[i])@.len() == cols,
            forall|i: int, j: int|
                #![trigger r@[i]@[j]]
                0 <= i < r@.len() && 0 <= j < cols ==> r@[i]@[j] == self.forward_with(
                    col_seq(mat_view(*rhs), j),
                )[i],
    {
        let mut colres: Vec<Vec<S>> = Vec::new();
        let mut j: usize = 0;
        while j < cols
            invariant
                j <= cols,
                self.wf(),
                rhs@.len() == self.indeps@.len(),
                forall|i: int| 0 <= i < rhs@.len() ==> (#[trigger] rhs@[i])@.len() == cols,
                colres@.len() == j,
                forall|jj: int|
                    0 <= jj < j ==> (#[trigger] colres@[jj])@ == self.forward_with(
                        col_seq(mat_view(*rhs), jj),
                    ),
            decreases cols - j,
        {
            let mut dx: Vec<S> = Vec::new();
            let nrows = rhs.len();
            let mut i: usize = 0;
            while i < nrows
                invariant
                    i <= nrows,
                    j < cols,
                    nrows == rhs@.len(),
                    forall|ii: int| 0 <= ii < rhs@.len() ==> (#[trigger] rhs@[ii])@.len() == cols,
                    dx@.len() == i,
                    forall|ii: int| 0 <= ii < i ==> #[trigger] dx@[ii] == rhs@[ii]@[j as int],
                decreases nrows - i,
            {
                dx.push(rhs[i][j]);
                i += 1;
            }
            proof {
                assert(dx@ =~= col_seq(mat_view(*rhs), j as int));
            }
            let dy = self.first_order_forward(&dx);
            colres.push(dy);
            j += 1;
        }
        let rows = self.deps.len();
        let mut r: Vec<Vec<S>> = Vec::new();
        let mut i: usize = 0;
        while i < rows
            invariant
                i <= rows,
                rows == self.deps@.len(),
                colres@.len() == cols,
                forall|jj: int|
                    0 <= jj < cols ==> (#[trigger] colres@[jj])@ == self.forward_with(
                        col_seq(mat_view(*rhs), jj),
                    ) && colres@[jj]@.len() == self.deps@.len(),
                r@.len() == i,
                forall|ii: int| 0 <= ii < i ==> (#[trigger] r@[ii])@.len() == cols,
                forall|ii: int, jj: int|
                    #![trigger r@[ii]@[jj]]
                    0 <= ii < i && 0 <= jj < cols ==> r@[ii]@[jj] == self.forward_with(
                        col_seq(mat_view(*rhs), jj),
                    )[ii],
            decreases rows - i,
        {
            let mut row: Vec<S> = Vec::new();
            let mut jj: usize = 0;
            while jj < cols
                invariant
                    jj <= cols,
                    i < rows,
                    rows == self.deps@.len(),
                    colres@.len() == cols,
                    forall|j2: int|
                        0 <= j2 < cols ==> (#[trigger] colres@[j2])@ == self.forward_with(
                            col_seq(mat_view(*rhs), j2),
                        ) && colres@[j2]@.len() == self.deps@.len(),
                    row@.len() == jj,
                    forall|j2: int|
                        0 <= j2 < jj ==> #[trigger] row@[j2] == self.forward_with(
                            col_seq(mat_view(*rhs), j2),
                        )[i as int],
                decreases cols - jj,
            {
                row.push(colres[jj][i]);
                jj += 1;
            }
            r.push(row);
            i += 1;
        }
        r
    }

    /// Multiply this tape's linearization from the left by a matrix: one
    /// reverse propagation per row.
    pub fn mul_left(&self, lhs: &Vec<Vec<S>>) -> (r: Vec<Vec<S>>)
        requires
            self.wf(),
            forall|i: int| 0 <= i < lhs@.len() ==> (#[trigger] lhs@[i])@.len() == self.deps@.len(),
            forall|k: int| 0 <= k < self.ops@.len() ==> (#[trigger] self.ops@[k]).opcode != OpCode::Abs,
        ensures
            r@.len() == lhs@.len(),
            forall|i: int|
                0 <= i < r@.len() ==> (#[trigger] r@[i])@ == self.reverse_with(lhs@[i]@)
                    && r@[i]@.len() == self.indeps@.len(),
    {
        let rows = lhs.len();
        let mut r: Vec<Vec<S>> = Vec::new();
        let mut i: usize = 0;
        while i < rows
            invariant
                i <= rows,
                rows == lhs@.len(),
                self.wf(),
                forall|ii: int|
                    0 <= ii < lhs@.len() ==> (#[trigger] lhs@[ii])@.len() == self.deps@.len(),
                forall|k: int|
                    0 <= k < self.ops@.len() ==> (#[trigger] self.ops@[k]).opcode != OpCode::Abs,
                r@.len() == i,
                forall|ii: int|
                    0 <= ii < i ==> (#[trigger] r@[ii])@ == self.reverse_with(lhs@[ii]@)
                        && r@[ii]@.len() == self.indeps@.len(),
            decreases rows - i,
        {
            let xbar = self.first_order_reverse(&lhs[i]);
            r.push(xbar);
            i += 1;
        }
        r
    }
}

/// Dense representation of an Abs-Normal Form
#[derive(Debug)]
pub struct AbsNormalForm<S: Scalar> {
    /// Kink offsets: `a = z - L |z|`
    pub a: Vec<S>,
    /// Inputs to kink arguments
    pub zmat: Vec<Vec<S>>,
    /// Kink magnitudes to kink arguments
    pub lmat: Vec<Vec<S>>,
    /// Output offsets: `b = -Y |z|`
    pub b: Vec<S>,
    /// Inputs to outputs
    pub jmat: Vec<Vec<S>>,
    /// Kink magnitudes to outputs
    pub ymat: Vec<Vec<S>>,
}

/// Derive a dense Abs-Normal form from a tape, evaluating each view
/// against the identity basis of whichever side is cheaper, and the
/// offset vectors from the recorded kink argument values:
/// `a = z - L |z|` and `b = -Y |z|` hold of the result by construction.
pub fn abs_normal<S: Scalar>(tape: ATape<S>) -> (anf: AbsNormalForm<S>)
    requires
        tape.wf(),
    ensures
        ({
            let n = tape.indeps@.len() as int;
            let m = tape.deps@.len() as int;
            let s = count_abs(tape.ops@) as int;
            let z = gather_spec(tape.vals@, abs_args(tape.ops@));
            &&& anf.zmat@.len() == s && forall|i: int|
                0 <= i < s ==> (#[trigger] anf.zmat@[i])@.len() == n
            &&& anf.lmat@.len() == s && forall|i: int|
                0 <= i < s ==> (#[trigger] anf.lmat@[i])@.len() == s
            &&& anf.jmat@.len() == m && forall|i: int|
                0 <= i < m ==> (#[trigger] anf.jmat@[i])@.len() == n
            &&& anf.ymat@.len() == m && forall|i: int|
                0 <= i < m ==> (#[trigger] anf.ymat@[i])@.len() == s
            &&& forall|i: int|
                0 <= i < s ==> (#[trigger] anf.lmat@[i])@ == anf_reverse(
                    tape,
                    AnfPart::L,
                    unit_seq(s as nat, i),
                )
            &&& (if n < s {
                forall|i: int, j: int|
                    #![trigger anf.zmat@[i]@[j]]
                    0 <= i < s && 0 <= j < n ==> anf.zmat@[i]@[j] == anf_forward(
                        tape,
                        AnfPart::Z,
                        unit_seq(n as nat, j),
                    )[i]
            } else {
                forall|i: int|
                    0 <= i < s ==> (#[trigger] anf.zmat@[i])@ == anf_reverse(
                        tape,
                        AnfPart::Z,
                        unit_seq(s as nat, i),
                    )
            })
            &&& (if n < m {
                forall|i: int, j: int|
                    #![trigger anf.jmat@[i]@[j]]
                    0 <= i < m && 0 <= j < n ==> anf.jmat@[i]@[j] == anf_forward(
                        tape,
                        AnfPart::J,
                        unit_seq(n as nat, j),
                    )[i]
            } else {
                forall|i: int|
                    0 <= i < m ==> (#[trigger] anf.jmat@[i])@ == anf_reverse(
                        tape,
                        AnfPart::J,
                        unit_seq(m as nat, i),
                    )
            })
            &&& (if s < m {
                forall|i: int, j: int|
                    #![trigger anf.ymat@[i]@[j]]
                    0 <= i < m && 0 <= j < s ==> anf.ymat@[i]@[j] == anf_forward(
                        tape,
                        AnfPart::Y,
                        unit_seq(s as nat, j),
                    )[i]
            } else {
                forall|i: int|
                    0 <= i < m ==> (#[trigger] anf.ymat@[i])@ == anf_reverse(
                        tape,
                        AnfPart::Y,
                        unit_seq(m as nat, i),
                    )
            })
            &&& anf.a@.len() == s && forall|i: int|
                0 <= i < s ==> #[trigger] anf.a@[i] == S::sub_spec(
                    z[i],
                    dot_spec(anf.lmat@[i]@, abs_seq(z), s),
                )
            &&& anf.b@.len() == m && forall|i: int|
                0 <= i < m ==> #[trigger] anf.b@[i] == S::neg_spec(
                    dot_spec(anf.ymat@[i]@, abs_seq(z), s),
                )
        }),
{
    let abs_tape = AbsNormalTape::new(tape);
    let n = abs_tape.n();
    let m = abs_tape.m();
    let s = abs_tape.s();

    let z_tape = abs_tape.view_tape(AnfPart::Z);
    let l_tape = abs_tape.view_tape(AnfPart::L);
    let j_tape = abs_tape.view_tape(AnfPart::J);
    let y_tape = abs_tape.view_tape(AnfPart::Y);
    proof {
        lemma_anf_wf(abs_tape.inner);
        assert(z_tape.indeps@.len() == n);
        assert(l_tape.indeps@.len() == s);
        assert(z_tape.deps@.len() == s);
        assert(j_tape.deps@.len() == m);
        assert(y_tape.indeps@.len() == s);
        assert(y_tape.deps@.len() == m);
        assert(j_tape.indeps@.len() == n);
        assert(l_tape.deps@.len() == s);
    }

    let zmat = if n < s {
        let idn = identity_mat(n);
        proof {
            assert forall|j: int| 0 <= j < n implies col_seq(mat_view(idn), j) =~= unit_seq::<S>(
                n as nat,
                j,
            ) by {}
        }
        z_tape.mul_right(&idn, n)
    } else {
        let ids = identity_mat(s);
        z_tape.mul_left(&ids)
    };

    let lmat = {
        let ids = identity_mat(s);
        l_tape.mul_left(&ids)
    };

    let jmat = if n < m {
        let idn = identity_mat(n);
        proof {
            assert forall|j: int| 0 <= j < n implies col_seq(mat_view(idn), j) =~= unit_seq::<S>(
                n as nat,
                j,
            ) by {}
        }
        j_tape.mul_right(&idn, n)
    } else {
        let idm = identity_mat(m);
        j_tape.mul_left(&idm)
    };

    let ymat = if s < m {
        let ids = identity_mat(s);
        proof {
            assert forall|j: int| 0 <= j < s implies col_seq(mat_view(ids), j) =~= unit_seq::<S>(
                s as nat,
                j,
            ) by {}
        }
        y_tape.mul_right(&ids, s)
    } else {
        let idm = identity_mat(m);
        y_tape.mul_left(&idm)
    };

    let z = abs_tape.z();
    let z_abs = vec_abs(&z);
    proof {
        assert(z_abs@ =~= abs_seq(z@));
    }
    let l_zabs = mat_vec_mul(&lmat, &z_abs);
    let a = vec_sub(&z, &l_zabs);
    let y_zabs = mat_vec_mul(&ymat, &z_abs);
    let b = vec_neg(&y_zabs);

    AbsNormalForm { a, zmat, lmat, b, jmat, ymat }
}

} // verus!
