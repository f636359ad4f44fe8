//! The function abstraction consumed by the derivative drivers.
//!
//! A [`Function`] is authored by the library's user: it declares its
//! input and output dimensions and evaluates dual scalars against a
//! recording context, recording what it computes.  Its spec model
//! `eval_duals_spec` fixes the value and tangent components of the result
//! as a function of the input pairs alone, so forward-mode drivers are
//! deterministic.  `tape_at` obtains the recording as a tape and carries
//! the implementor's promise that the recording is faithful: the tape's
//! replay and forward semantics ([`tape_duals`]) are the model itself,
//! which is what ties the tape-based drivers' results to the function.
//!
//! A [`Chain`] is a sequence of such functions evaluated back to back,
//! addressed by position; the generalized-Jacobian chain driver walks it
//! in reverse under the checkpointing scheduler.

use vstd::prelude::*;

use crate::acontext::{binding_holds_value, binding_ok, AContext};
use crate::afloat::AFloat;
use crate::scalar::Scalar;
use crate::tape::{forward_rec, gather_spec, replay_full, seed_spec, zero_seq, ATape};

verus! {

/// The (value, tangent) pairs a vector of duals carries.
pub open spec fn duals_of<S: Scalar>(v: Seq<AFloat<S>>) -> Seq<(S, S)> {
    v.map(|i: int, a: AFloat<S>| (a.v, a.dv))
}

/// The value components of a sequence of pairs.
pub open spec fn pair_values<S: Scalar>(p: Seq<(S, S)>) -> Seq<S> {
    p.map(|i: int, q: (S, S)| q.0)
}

/// The tangent components of a sequence of pairs.
pub open spec fn pair_tangents<S: Scalar>(p: Seq<(S, S)>) -> Seq<S> {
    p.map(|i: int, q: (S, S)| q.1)
}

/// A tape freshly recorded for a function of `n` inputs and `m` outputs
/// at the point `x`: well formed, with the inputs in the first slots.
pub open spec fn tape_for<S: Scalar>(t: ATape<S>, n: int, m: int, x: Seq<S>) -> bool {
    &&& t.wf()
    &&& t.indeps@.len() == n
    &&& t.deps@.len() == m
    &&& x.len() == n
    &&& t.vals@.len() >= n
    &&& forall|i: int| 0 <= i < n ==> #[trigger] t.indeps@[i] == i as usize
    &&& forall|i: int| 0 <= i < n ==> #[trigger] t.vals@[t.indeps@[i] as int] == x[i]
}

/// The dual semantics of a tape at given input pairs: replay at the
/// values, then propagate the tangents forward against the replayed
/// buffer, both read off at the dependents.
pub open spec fn tape_duals<S: Scalar>(t: ATape<S>, xp: Seq<(S, S)>) -> Seq<(S, S)> {
    let v = replay_full(t.vals@, t.indeps@, t.ops@, pair_values(xp));
    let dv = forward_rec(
        v,
        seed_spec(zero_seq(t.vals@.len() as nat), t.indeps@, pair_tangents(xp)),
        t.ops@,
        t.ops@.len() as int,
    );
    Seq::new(t.deps@.len(), |i: int| (v[t.deps@[i] as int], dv[t.deps@[i] as int]))
}

/// The tape records `func` faithfully: at every admissible input its
/// dual semantics are the function's own model.
pub open spec fn tape_matches<S: Scalar, F: Function<S>>(t: ATape<S>, func: F) -> bool {
    forall|xp: Seq<(S, S)>|
        xp.len() == func.n_spec() ==> #[trigger] tape_duals(t, xp) == func.eval_duals_spec(xp)
}

/// The tape records link `idx` of `chain` faithfully.
pub open spec fn link_matches<S: Scalar, C: Chain<S>>(t: ATape<S>, chain: C, idx: int) -> bool {
    forall|xp: Seq<(S, S)>|
        xp.len() == chain.n_spec(idx) ==> #[trigger] tape_duals(t, xp) == chain.eval_duals_spec(
            idx,
            xp,
        )
}

/// Abstraction of a function that can be examined by derivative drivers.
///
/// Implementors promise that evaluation only appends to the recording
/// context (it never disturbs existing slots or the marked lists) and
/// that the values and tangents it returns depend on the input pairs
/// alone, as fixed by `eval_duals_spec`.
pub trait Function<S: Scalar>: Sized {
    /// Dimension of the argument vector.
    spec fn n_spec(&self) -> nat;

    /// Dimension of the result vector.
    spec fn m_spec(&self) -> nat;

    /// The (value, tangent) pairs evaluation produces from the input
    /// pairs.
    spec fn eval_duals_spec(&self, x: Seq<(S, S)>) -> Seq<(S, S)>;

    /// Dimension of the argument vector.
    fn n(&self) -> (r: usize)
        ensures
            r == self.n_spec(),
    ;

    /// Dimension of the result vector.
    fn m(&self) -> (r: usize)
        ensures
            r == self.m_spec(),
    ;

    /// Evaluate the function on duals, recording into `ctx`.  Every
    /// returned dual's bound slot holds exactly the value the dual
    /// carries, so what the recording wrote can be read off the results.
    fn eval(&self, ctx: &mut AContext<S>, x: Vec<AFloat<S>>) -> (r: Vec<AFloat<S>>)
        requires
            old(ctx).wf(),
            x@.len() == self.n_spec(),
            forall|i: int| 0 <= i < x@.len() ==> binding_ok(#[trigger] x@[i], old(ctx)),
        ensures
            final(ctx).wf(),
            final(ctx).cid == old(ctx).cid,
            final(ctx).indeps@ == old(ctx).indeps@,
            final(ctx).deps@ == old(ctx).deps@,
            old(ctx).vals@.len() <= final(ctx).vals@.len(),
            forall|i: int|
                0 <= i < old(ctx).vals@.len() ==> #[trigger] final(ctx).vals@[i] == old(
                    ctx,
                ).vals@[i],
            r@.len() == self.m_spec(),
            forall|i: int| 0 <= i < r@.len() ==> binding_holds_value(#[trigger] r@[i], final(ctx)),
            duals_of(r@) == self.eval_duals_spec(duals_of(x@)),
    ;

    /// Record the function at the point `x` into a fresh tape whose
    /// replay and forward semantics are the function's own model.
    /// [`tape_of`] builds the tape; the faithfulness of the recording is
    /// the implementor's promise, stating that evaluation computes
    /// through the recorded instructions and nothing else.
    fn tape_at(&self, x: &Vec<S>) -> (t: ATape<S>)
        requires
            x@.len() == self.n_spec(),
        ensures
            tape_for(t, self.n_spec() as int, self.m_spec() as int, x@),
            gather_spec(t.vals@, t.deps@) == pair_values(
                self.eval_duals_spec(zero_seeded(x@)),
            ),
            forall|xp: Seq<(S, S)>|
                xp.len() == self.n_spec() ==> #[trigger] tape_duals(t, xp)
                    == self.eval_duals_spec(xp),
    ;
}

/// A chain of functions where each link takes its input from its
/// predecessor, addressed by position.
pub trait Chain<S: Scalar>: Sized {
    /// Number of links.
    spec fn len_spec(&self) -> nat;

    /// Input dimension of link `idx`.
    spec fn n_spec(&self, idx: int) -> nat;

    /// Output dimension of link `idx`.
    spec fn m_spec(&self, idx: int) -> nat;

    /// The (value, tangent) pairs link `idx` produces from its input
    /// pairs.
    spec fn eval_duals_spec(&self, idx: int, x: Seq<(S, S)>) -> Seq<(S, S)>;

    /// Number of links.
    fn len(&self) -> (r: usize)
        ensures
            r == self.len_spec(),
    ;

    /// Input dimension of link `idx`.
    fn n(&self, idx: usize) -> (r: usize)
        requires
            idx < self.len_spec(),
        ensures
            r == self.n_spec(idx as int),
    ;

    /// Output dimension of link `idx`.
    fn m(&self, idx: usize) -> (r: usize)
        requires
            idx < self.len_spec(),
        ensures
            r == self.m_spec(idx as int),
    ;

    /// Evaluate link `idx` on duals, recording into `ctx`.  Every
    /// returned dual's bound slot holds exactly the value the dual
    /// carries.
    fn eval(&self, idx: usize, ctx: &mut AContext<S>, x: Vec<AFloat<S>>) -> (r: Vec<AFloat<S>>)
        requires
            idx < self.len_spec(),
            old(ctx).wf(),
            x@.len() == self.n_spec(idx as int),
            forall|i: int| 0 <= i < x@.len() ==> binding_ok(#[trigger] x@[i], old(ctx)),
        ensures
            final(ctx).wf(),
            final(ctx).cid == old(ctx).cid,
            final(ctx).indeps@ == old(ctx).indeps@,
            final(ctx).deps@ == old(ctx).deps@,
            old(ctx).vals@.len() <= final(ctx).vals@.len(),
            forall|i: int|
                0 <= i < old(ctx).vals@.len() ==> #[trigger] final(ctx).vals@[i] == old(
                    ctx,
                ).vals@[i],
            r@.len() == self.m_spec(idx as int),
            forall|i: int| 0 <= i < r@.len() ==> binding_holds_value(#[trigger] r@[i], final(ctx)),
            duals_of(r@) == self.eval_duals_spec(idx as int, duals_of(x@)),
    ;

    /// Record link `idx` at the point `x` into a fresh tape whose replay
    /// and forward semantics are the link's own model.  [`tape_of_link`]
    /// builds the tape; the faithfulness of the recording is the
    /// implementor's promise.
    fn tape_at(&self, idx: usize, x: &Vec<S>) -> (t: ATape<S>)
        requires
            idx < self.len_spec(),
            x@.len() == self.n_spec(idx as int),
        ensures
            tape_for(t, self.n_spec(idx as int) as int, self.m_spec(idx as int) as int, x@),
            gather_spec(t.vals@, t.deps@) == pair_values(
                self.eval_duals_spec(idx as int, zero_seeded(x@)),
            ),
            forall|xp: Seq<(S, S)>|
                xp.len() == self.n_spec(idx as int) ==> #[trigger] tape_duals(t, xp)
                    == self.eval_duals_spec(idx as int, xp),
    ;
}

/// The input pairs of a recording evaluation: values from `x`, all
/// tangents zero.
pub open spec fn zero_seeded<S: Scalar>(x: Seq<S>) -> Seq<(S, S)> {
    Seq::new(x.len(), |i: int| (x[i], S::zero_spec()))
}

/// Record a function's evaluation at the point `x` into a fresh tape:
/// the independents are the first slots in argument order, holding `x`,
/// and the dependents are the function's outputs in output order,
/// holding the output values of the evaluation.  This states everything
/// `eval`'s contract gives; that the recorded instructions also compute
/// the model at other inputs is `tape_at`'s promise, which implementors
/// typically keep by building the tape right here.
pub fn tape_of<S: Scalar, F: Function<S>>(func: &F, x: &Vec<S>) -> (t: ATape<S>)
    requires
        x@.len() == func.n_spec(),
    ensures
        tape_for(t, func.n_spec() as int, func.m_spec() as int, x@),
        gather_spec(t.vals@, t.deps@) == pair_values(func.eval_duals_spec(zero_seeded(x@))),
{
    // No value of another context meets this ephemeral recording, so its
    // identity does not matter.
    let mut ctx: AContext<S> = AContext::new(0);
    let n = func.n();
    let mut input: Vec<AFloat<S>> = Vec::new();
    let mut i: usize = 0;
    while i < n
        invariant
            i <= n,
            n == func.n_spec(),
            x@.len() == n,
            ctx.wf(),
            ctx.cid == 0,
            ctx.deps@ == Seq::<usize>::empty(),
            ctx.vals@.len() == i,
            ctx.indeps@.len() == i,
            forall|j: int| 0 <= j < i ==> #[trigger] ctx.indeps@[j] == j as usize,
            forall|j: int| 0 <= j < i ==> #[trigger] ctx.vals@[j] == x@[j],
            input@.len() == i,
            forall|j: int|
                0 <= j < i ==> #[trigger] input@[j] == (AFloat {
                    v: x@[j],
                    dv: S::zero_spec(),
                    ctx: Some((0usize, j as usize)),
                }),
        decreases n - i,
    {
        let xi = ctx.new_indep(x[i]);
        input.push(xi);
        i += 1;
    }
    proof {
        assert forall|j: int| 0 <= j < input@.len() implies binding_ok(
            #[trigger] input@[j],
            &ctx,
        ) by {}
    }
    proof {
        assert(duals_of(input@) =~= zero_seeded(x@));
    }
    let output = func.eval(&mut ctx, input);
    proof {
        assert forall|j: int| 0 <= j < output@.len() implies binding_ok(
            #[trigger] output@[j],
            &ctx,
        ) by {
            assert(binding_holds_value(output@[j], &ctx));
        }
    }
    let ghost mid = ctx;
    ctx.set_dep_slice(&output);
    proof {
        assert(ctx.vals@.len() == ctx.vals.len());
        assert(ctx.vals@ == crate::acontext::set_dep_fold(
            mid.vals@,
            mid.ops@,
            mid.deps@,
            output@,
            output@.len() as int,
        ).0);
        crate::acontext::lemma_set_dep_fold_len(
            mid.vals@,
            mid.ops@,
            mid.deps@,
            output@,
            output@.len() as int,
        );
        crate::acontext::lemma_set_dep_fold_values(
            mid.vals@,
            mid.ops@,
            mid.deps@,
            output@,
            output@.len() as int,
        );
        // Each dependent slot holds the value of the dual marked there,
        // which the evaluation pinned to the function's model.
        assert forall|i: int| 0 <= i < ctx.deps@.len() implies #[trigger] gather_spec(
            ctx.vals@,
            ctx.deps@,
        )[i] == pair_values(func.eval_duals_spec(zero_seeded(x@)))[i] by {
            let (v2, o2, d2) = crate::acontext::set_dep_fold(
                mid.vals@,
                mid.ops@,
                mid.deps@,
                output@,
                output@.len() as int,
            );
            assert(ctx.vals@ == v2 && ctx.deps@ == d2);
            assert(mid.deps@.len() == 0);
            assert(v2[d2[i] as int] == output@[i].v);
            assert(duals_of(output@)[i] == (output@[i].v, output@[i].dv));
            assert(pair_values(func.eval_duals_spec(zero_seeded(x@)))[i] == duals_of(output@)[i].0);
        }
        assert(gather_spec(ctx.vals@, ctx.deps@) =~= pair_values(
            func.eval_duals_spec(zero_seeded(x@)),
        ));
    }
    ctx.tape()
}

/// Record one link of a chain at the point `x` into a fresh tape, with
/// the same shape guarantees as [`tape_of`].
pub fn tape_of_link<S: Scalar, C: Chain<S>>(chain: &C, idx: usize, x: &Vec<S>) -> (t: ATape<S>)
    requires
        idx < chain.len_spec(),
        x@.len() == chain.n_spec(idx as int),
    ensures
        tape_for(t, chain.n_spec(idx as int) as int, chain.m_spec(idx as int) as int, x@),
        gather_spec(t.vals@, t.deps@) == pair_values(
            chain.eval_duals_spec(idx as int, zero_seeded(x@)),
        ),
{
    // No value of another context meets this ephemeral recording, so its
    // identity does not matter.
    let mut ctx: AContext<S> = AContext::new(0);
    let n = x.len();
    let mut input: Vec<AFloat<S>> = Vec::new();
    let mut i: usize = 0;
    while i < n
        invariant
            i <= n,
            n == x@.len(),
            x@.len() == chain.n_spec(idx as int),
            idx < chain.len_spec(),
            ctx.wf(),
            ctx.cid == 0,
            ctx.deps@ == Seq::<usize>::empty(),
            ctx.vals@.len() == i,
            ctx.indeps@.len() == i,
            forall|j: int| 0 <= j < i ==> #[trigger] ctx.indeps@[j] == j as usize,
            forall|j: int| 0 <= j < i ==> #[trigger] ctx.vals@[j] == x@[j],
            input@.len() == i,
            forall|j: int|
                0 <= j < i ==> #[trigger] input@[j] == (AFloat {
                    v: x@[j],
                    dv: S::zero_spec(),
                    ctx: Some((0usize, j as usize)),
                }),
        decreases n - i,
    {
        let xi = ctx.new_indep(x[i]);
        input.push(xi);
        i += 1;
    }
    proof {
        assert forall|j: int| 0 <= j < input@.len() implies binding_ok(
            #[trigger] input@[j],
            &ctx,
        ) by {}
        assert(duals_of(input@) =~= zero_seeded(x@));
    }
    let output = chain.eval(idx, &mut ctx, input);
    proof {
        assert forall|j: int| 0 <= j < output@.len() implies binding_ok(
            #[trigger] output@[j],
            &ctx,
        ) by {
            assert(binding_holds_value(output@[j], &ctx));
        }
    }
    let ghost mid = ctx;
    ctx.set_dep_slice(&output);
    proof {
        assert(ctx.vals@.len() == ctx.vals.len());
        assert(ctx.vals@ == crate::acontext::set_dep_fold(
            mid.vals@,
            mid.ops@,
            mid.deps@,
            output@,
            output@.len() as int,
        ).0);
        crate::acontext::lemma_set_dep_fold_len(
            mid.vals@,
            mid.ops@,
            mid.deps@,
            output@,
            output@.len() as int,
        );
        crate::acontext::lemma_set_dep_fold_values(
            mid.vals@,
            mid.ops@,
            mid.deps@,
            output@,
            output@.len() as int,
        );
        assert forall|i2: int| 0 <= i2 < ctx.deps@.len() implies #[trigger] gather_spec(
            ctx.vals@,
            ctx.deps@,
        )[i2] == pair_values(chain.eval_duals_spec(idx as int, zero_seeded(x@)))[i2] by {
            let (v2, o2, d2) = crate::acontext::set_dep_fold(
                mid.vals@,
                mid.ops@,
                mid.deps@,
                output@,
                output@.len() as int,
            );
            assert(ctx.vals@ == v2 && ctx.deps@ == d2);
            assert(mid.deps@.len() == 0);
            assert(v2[d2[i2] as int] == output@[i2].v);
            assert(duals_of(output@)[i2] == (output@[i2].v, output@[i2].dv));
            assert(pair_values(chain.eval_duals_spec(idx as int, zero_seeded(x@)))[i2] == duals_of(
                output@,
            )[i2].0);
        }
        assert(gather_spec(ctx.vals@, ctx.deps@) =~= pair_values(
            chain.eval_duals_spec(idx as int, zero_seeded(x@)),
        ));
    }
    ctx.tape()
}

/// Create a jacobian using forward-mode automatic differentiation: one
/// dual evaluation per input, each seeded with a unit tangent.
pub fn jacobian_forward<S: Scalar, F: Function<S>>(func: &F, x: &Vec<S>) -> (jac: Vec<Vec<S>>)
    requires
        x@.len() == func.n_spec(),
    ensures
        jac@.len() == func.m_spec(),
        forall|i: int| 0 <= i < jac@.len() ==> (#[trigger] jac@[i])@.len() == func.n_spec(),
        forall|i: int, j: int|
            #![trigger jac@[i]@[j]]
            0 <= i < jac@.len() && 0 <= j < func.n_spec() ==> jac@[i]@[j]
                == func.eval_duals_spec(unit_seeded(x@, j))[i].1,
{
    let n = func.n();
    let m = func.m();
    let mut cols: Vec<Vec<S>> = Vec::new();
    let mut j: usize = 0;
    while j < n
        invariant
            j <= n,
            n == func.n_spec(),
            m == func.m_spec(),
            x@.len() == n,
            cols@.len() == j,
            forall|jj: int|
                0 <= jj < j ==> (#[trigger] cols@[jj])@.len() == m && forall|i: int|
                    0 <= i < m ==> cols@[jj]@[i] == func.eval_duals_spec(unit_seeded(x@, jj))[i].1,
        decreases n - j,
    {
        let mut input: Vec<AFloat<S>> = Vec::new();
        let mut i: usize = 0;
        while i < n
            invariant
                i <= n,
                j < n,
                n == x@.len(),
                input@.len() == i,
                forall|ii: int|
                    0 <= ii < i ==> #[trigger] input@[ii] == (AFloat {
                        v: x@[ii],
                        dv: (if ii == j {
                            S::one_spec()
                        } else {
                            S::zero_spec()
                        }),
                        ctx: None::<(usize, usize)>,
                    }),
            decreases n - i,
        {
            let d = if i == j {
                S::one()
            } else {
                S::zero()
            };
            input.push(AFloat::new(x[i], d));
            i += 1;
        }
        proof {
            assert(duals_of(input@) =~= unit_seeded(x@, j as int));
        }
        // No value of another context meets this ephemeral recording.
        let mut ctx: AContext<S> = AContext::new(0);
        let output = func.eval(&mut ctx, input);
        let mut dy: Vec<S> = Vec::new();
        let mut i2: usize = 0;
        while i2 < output.len()
            invariant
                i2 <= output@.len(),
                output@.len() == m,
                m == func.m_spec(),
                duals_of(output@) == func.eval_duals_spec(unit_seeded(x@, j as int)),
                dy@.len() == i2,
                forall|ii: int|
                    0 <= ii < i2 ==> #[trigger] dy@[ii] == func.eval_duals_spec(
                        unit_seeded(x@, j as int),
                    )[ii].1,
            decreases output@.len() - i2,
        {
            let d = output[i2].dvalue();
            proof {
                assert(duals_of(output@)[i2 as int] == (output@[i2 as int].v, output@[i2 as int].dv));
            }
            dy.push(d);
            i2 += 1;
        }
        cols.push(dy);
        j += 1;
    }
    let mut jac: Vec<Vec<S>> = Vec::new();
    let mut i: usize = 0;
    while i < m
        invariant
            i <= m,
            n == func.n_spec(),
            m == func.m_spec(),
            x@.len() == n,
            cols@.len() == n,
            forall|jj: int|
                0 <= jj < n ==> (#[trigger] cols@[jj])@.len() == m && forall|ii: int|
                    0 <= ii < m ==> cols@[jj]@[ii] == func.eval_duals_spec(unit_seeded(x@, jj))[ii].1,
            jac@.len() == i,
            forall|ii: int| 0 <= ii < i ==> (#[trigger] jac@[ii])@.len() == n,
            forall|ii: int, jj: int|
                #![trigger jac@[ii]@[jj]]
                0 <= ii < i && 0 <= jj < n ==> jac@[ii]@[jj] == func.eval_duals_spec(
                    unit_seeded(x@, jj),
                )[ii].1,
        decreases m - i,
    {
        let mut row: Vec<S> = Vec::new();
        let mut jj: usize = 0;
        while jj < n
            invariant
                jj <= n,
                i < m,
                cols@.len() == n,
                n == func.n_spec(),
                m == func.m_spec(),
                x@.len() == n,
                forall|j2: int|
                    0 <= j2 < n ==> (#[trigger] cols@[j2])@.len() == m && forall|ii: int|
                        0 <= ii < m ==> cols@[j2]@[ii] == func.eval_duals_spec(
                            unit_seeded(x@, j2),
                        )[ii].1,
                row@.len() == jj,
                forall|j2: int|
                    0 <= j2 < jj ==> #[trigger] row@[j2] == func.eval_duals_spec(
                        unit_seeded(x@, j2),
                    )[i as int].1,
            decreases n - jj,
        {
            row.push(cols[jj][i]);
            jj += 1;
        }
        jac.push(row);
        i += 1;
    }
    jac
}

/// The input pairs of a forward-mode column evaluation: values from `x`,
/// a unit tangent in component `j`.
pub open spec fn unit_seeded<S: Scalar>(x: Seq<S>, j: int) -> Seq<(S, S)> {
    Seq::new(
        x.len(),
        |i: int|
            (
                x[i],
                if i == j {
                    S::one_spec()
                } else {
                    S::zero_spec()
                },
            ),
    )
}

/// Create a jacobian using reverse-mode automatic differentiation: one
/// adjoint propagation per output, each seeded with a unit adjoint.
pub fn jacobian_reverse<S: Scalar>(tape: &ATape<S>) -> (jac: Vec<Vec<S>>)
    requires
        tape.wf(),
        forall|k: int|
            0 <= k < tape.ops@.len() ==> (#[trigger] tape.ops@[k]).opcode
                != crate::operation::OpCode::Abs,
    ensures
        jac@.len() == tape.deps@.len(),
        forall|i: int|
            0 <= i < jac@.len() ==> (#[trigger] jac@[i])@ == tape.reverse_with(
                crate::dense::unit_seq(tape.deps@.len() as nat, i),
            ),
{
    let m = tape.num_deps();
    let idm = crate::dense::identity_mat(m);
    tape.mul_left(&idm)
}

} // verus!
