//! The generalized-Jacobian driver for piecewise-smooth tapes.
//!
//! At a recorded point and a perturbation direction, the driver
//! decomposes the tape into its abs-normal views, propagates the kink
//! argument perturbation to a fixed point of `dz = (a + Z dx) + L |dz|`,
//! derives a sign for every kink (an explicit bit sequence resolves the
//! kinks whose argument is exactly zero, counted by `multiplicity`),
//! accumulates the kink-to-kink coupling `U = U L S + (G Y S)` to a fixed
//! point, and composes the result with an optional downstream Jacobian.
//! Both iterations run exactly `s` times, the kink count, which is
//! sufficient because each pass resolves one more level of kink
//! dependencies; the contract therefore pins every entry of the result.

use vstd::prelude::*;

use crate::abs_normal::{abs_args, anf_forward, anf_reverse, AbsNormalTape, AnfPart};
use crate::acontext::AContext;
use crate::afloat::AFloat;
use crate::function::{link_matches, pair_tangents, pair_values, tape_for, tape_matches, Chain,
    Function};
use crate::dense::{abs_seq, identity_mat, mat_add, mat_vec_mul, mat_view, scale_cols, unit_seq,
    vec_abs, vec_add, vec_neg, vec_sub, dot_spec};
use crate::scalar::Scalar;
use crate::tape::{count_abs, gather_spec, zero_vec, zero_seq, ATape};

verus! {

/// A generalized Jacobian: the homogeneous matrix, the inhomogeneous
/// offset, and the number of sign-ambiguous (exactly zero) kinks met
/// while deriving it.
#[derive(Debug)]
pub struct GeneralizedJacobian<S: Scalar> {
    /// Homogeneous part
    pub homogenous: Vec<Vec<S>>,
    /// Inhomogeneous part
    pub inhomogenous: Vec<S>,
    /// Number of exactly-zero kink arguments resolved by sign bits
    pub multiplicity: usize,
}

/// Bit `i` of a little-endian bit stream over bytes; positions past the
/// end read as zero.
pub open spec fn bit_of(bytes: Seq<u8>, i: int) -> bool {
    if i / 8 < bytes.len() {
        (bytes[i / 8] & (1u8 << (i % 8) as u8)) > 0
    } else {
        false
    }
}

/// A cursor over the bits of a byte sequence, least significant bit of
/// each byte first, padding with zero bits past the end.
#[derive(Debug)]
pub struct BitIter {
    /// The underlying bytes
    pub bytes: Vec<u8>,
    /// The position of the next bit to hand out
    pub idx: usize,
}

/// Start a bit cursor over a copy of the given bytes.
pub fn bit_iter(bytes: &Vec<u8>) -> (r: BitIter)
    ensures
        r.bytes@ == bytes@,
        r.idx == 0,
{
    BitIter { bytes: crate::tape::copy_vec(bytes), idx: 0 }
}

impl BitIter {
    /// The next bit of the stream.
    pub fn next(&mut self) -> (r: bool)
        requires
            old(self).idx < usize::MAX,
        ensures
            r == bit_of(old(self).bytes@, old(self).idx as int),
            final(self).bytes@ == old(self).bytes@,
            final(self).idx == old(self).idx + 1,
    {
        let byte_idx = self.idx / 8;
        let r = if byte_idx < self.bytes.len() {
            let bit_idx = self.idx % 8;
            let byte = self.bytes[byte_idx];
            (byte & (1u8 << bit_idx)) > 0
        } else {
            false
        };
        self.idx = self.idx + 1;
        r
    }
}

/// Read one bit of the sign stream without advancing a cursor.
pub fn bit_at(bytes: &Vec<u8>, i: usize) -> (r: bool)
    ensures
        r == bit_of(bytes@, i as int),
{
    let byte_idx = i / 8;
    if byte_idx < bytes.len() {
        let bit_idx = i % 8;
        let byte = bytes[byte_idx];
        (byte & (1u8 << bit_idx)) > 0
    } else {
        false
    }
}

/// The recorded kink argument values of a tape.
pub open spec fn gj_z<S: Scalar>(t: ATape<S>) -> Seq<S> {
    gather_spec(t.vals@, abs_args(t.ops@))
}

/// Pointwise sum of two equal-length sequences.
pub open spec fn add_seq<S: Scalar>(a: Seq<S>, b: Seq<S>) -> Seq<S> {
    Seq::new(a.len(), |i: int| S::add_spec(a[i], b[i]))
}

/// The kink offset vector `a = z - L |z|`.
pub open spec fn gj_a<S: Scalar>(t: ATape<S>) -> Seq<S> {
    let z = gj_z(t);
    Seq::new(z.len(), |i: int| S::sub_spec(z[i], anf_forward(t, AnfPart::L, abs_seq(z))[i]))
}

/// The output offset vector `b = -Y |z|`.
pub open spec fn gj_b<S: Scalar>(t: ATape<S>) -> Seq<S> {
    let w = anf_forward(t, AnfPart::Y, abs_seq(gj_z(t)));
    Seq::new(w.len(), |i: int| S::neg_spec(w[i]))
}

/// The inhomogeneous kink perturbation `a + Z dx`.
pub open spec fn gj_dzt<S: Scalar>(t: ATape<S>, dx: Seq<S>) -> Seq<S> {
    add_seq(gj_a(t), anf_forward(t, AnfPart::Z, dx))
}

/// `k` passes of the kink fixed-point map `dz -> dzt + L |dz|`.
pub open spec fn gj_dz_iter<S: Scalar>(t: ATape<S>, dx: Seq<S>, k: int) -> Seq<S>
    decreases k,
{
    if k <= 0 {
        gj_dzt(t, dx)
    } else {
        add_seq(gj_dzt(t, dx), anf_forward(t, AnfPart::L, abs_seq(gj_dz_iter(t, dx, k - 1))))
    }
}

/// The kink argument perturbation: the fixed-point map run once per kink.
pub open spec fn gj_dz<S: Scalar>(t: ATape<S>, dx: Seq<S>) -> Seq<S> {
    gj_dz_iter(t, dx, count_abs(t.ops@) as int)
}

/// A perturbation component whose sign is ambiguous: neither below nor
/// above zero under the scalar's order.
pub open spec fn tie<S: Scalar>(x: S) -> bool {
    !S::lt_spec(x, S::zero_spec()) && !S::lt_spec(S::zero_spec(), x)
}

/// Number of ambiguous components among the first `i`.
pub open spec fn count_ties_rec<S: Scalar>(dz: Seq<S>, i: int) -> int
    decreases i,
{
    if i <= 0 {
        0
    } else {
        count_ties_rec(dz, i - 1) + if tie(dz[i - 1]) {
            1int
        } else {
            0int
        }
    }
}

/// The sign vector: the sign of each nonzero perturbation component, and
/// for each ambiguous component the next bit of the sign stream (set bit
/// means positive).
pub open spec fn sigma_seq<S: Scalar>(dz: Seq<S>, bits: Seq<u8>) -> Seq<S> {
    Seq::new(
        dz.len(),
        |i: int|
            if S::lt_spec(dz[i], S::zero_spec()) {
                S::neg_spec(S::one_spec())
            } else if S::lt_spec(S::zero_spec(), dz[i]) {
                S::one_spec()
            } else if bit_of(bits, count_ties_rec(dz, i)) {
                S::one_spec()
            } else {
                S::neg_spec(S::one_spec())
            },
    )
}

/// The seed of the coupling iteration: the downstream matrix pushed
/// through `Y` and scaled by the signs, `G Y S`.
pub open spec fn gj_gys<S: Scalar>(t: ATape<S>, g2: Seq<Seq<S>>, sigma: Seq<S>) -> Seq<Seq<S>> {
    Seq::new(
        g2.len(),
        |i: int|
            Seq::new(
                sigma.len(),
                |j: int| S::mul_spec(anf_reverse(t, AnfPart::Y, g2[i])[j], sigma[j]),
            ),
    )
}

/// `k` passes of the coupling fixed-point map `U -> U L S + G Y S`.
pub open spec fn gj_u_iter<S: Scalar>(
    t: ATape<S>,
    gys: Seq<Seq<S>>,
    sigma: Seq<S>,
    k: int,
) -> Seq<Seq<S>>
    decreases k,
{
    if k <= 0 {
        gys
    } else {
        let prev = gj_u_iter(t, gys, sigma, k - 1);
        Seq::new(
            gys.len(),
            |i: int|
                Seq::new(
                    sigma.len(),
                    |j: int|
                        S::add_spec(
                            S::mul_spec(anf_reverse(t, AnfPart::L, prev[i])[j], sigma[j]),
                            gys[i][j],
                        ),
                ),
        )
    }
}

/// The exact relation between a tape, a direction, a sign stream, an
/// optional downstream Jacobian and the generalized Jacobian derived
/// from them.
pub open spec fn gj_post<S: Scalar>(
    tape: ATape<S>,
    dx: Seq<S>,
    bits: Seq<u8>,
    next: Option<GeneralizedJacobian<S>>,
    result: GeneralizedJacobian<S>,
) -> bool {
    let s = count_abs(tape.ops@) as int;
    let m = tape.deps@.len() as int;
    let dz = gj_dz(tape, dx);
    let sigma = sigma_seq(dz, bits);
    let g2: Seq<Seq<S>> = if next.is_some() {
        mat_view(next.unwrap().homogenous)
    } else {
        Seq::new(m as nat, |i: int| unit_seq(m as nat, i))
    };
    let gamma2: Seq<S> = if next.is_some() {
        next.unwrap().inhomogenous@
    } else {
        zero_seq(m as nat)
    };
    let mult0: int = if next.is_some() {
        next.unwrap().multiplicity as int
    } else {
        0
    };
    let q = g2.len() as int;
    let u = gj_u_iter(tape, gj_gys(tape, g2, sigma), sigma, s);
    &&& result.multiplicity as int == (if count_ties_rec(dz, s) + mult0 > usize::MAX as int {
        usize::MAX as int
    } else {
        count_ties_rec(dz, s) + mult0
    })
    &&& result.homogenous@.len() == q
    &&& forall|i: int|
        0 <= i < q ==> (#[trigger] result.homogenous@[i])@.len() == tape.indeps@.len()
    &&& forall|i: int, j: int|
        #![trigger result.homogenous@[i]@[j]]
        0 <= i < q && 0 <= j < tape.indeps@.len() ==> result.homogenous@[i]@[j] == S::add_spec(
            anf_reverse(tape, AnfPart::J, g2[i])[j],
            anf_reverse(tape, AnfPart::Z, u[i])[j],
        )
    &&& result.inhomogenous@.len() == q
    &&& forall|i: int|
        0 <= i < q ==> #[trigger] result.inhomogenous@[i] == S::add_spec(
            S::add_spec(gamma2[i], dot_spec(g2[i], gj_b(tape), m)),
            dot_spec(u[i], gj_a(tape), s),
        )
}

/// Derive the Generalized Jacobian of a tape at its recorded point, in
/// the perturbation direction `dx`, resolving exactly-zero kinks by the
/// bits of `sign_bits`, composed with the optional downstream Jacobian
/// `next`.  The sign stream must cover every tie-break the perturbation
/// needs: an exhausted stream is a caller error and is excluded here.
pub fn generalized_jacobian_tape<S: Scalar>(
    tape: ATape<S>,
    dx: &Vec<S>,
    sign_bits: &Vec<u8>,
    next: Option<GeneralizedJacobian<S>>,
) -> (result: GeneralizedJacobian<S>)
    requires
        tape.wf(),
        dx@.len() == tape.indeps@.len(),
        count_ties_rec(gj_dz(tape, dx@), count_abs(tape.ops@) as int) <= 8 * sign_bits@.len(),
        next.is_some() ==> next.unwrap().inhomogenous@.len() == next.unwrap().homogenous@.len()
            && forall|i: int|
            0 <= i < next.unwrap().homogenous@.len() ==> (#[trigger] next.unwrap().homogenous@[i])@.len()
                == tape.deps@.len(),
    ensures
        gj_post(tape, dx@, sign_bits@, next, result),
{
    let n = tape.indeps.len();
    let m = tape.deps.len();
    let ghost t = tape;
    let abs_tape = AbsNormalTape::new(tape);
    let s = abs_tape.s();
    proof {
        crate::abs_normal::lemma_anf_wf(t);
    }

    // Create subtapes
    let z_tape = abs_tape.view_tape(AnfPart::Z);
    let l_tape = abs_tape.view_tape(AnfPart::L);
    let j_tape = abs_tape.view_tape(AnfPart::J);
    let y_tape = abs_tape.view_tape(AnfPart::Y);

    // Calculate a and b
    let z = abs_tape.z();
    let z_abs = vec_abs(&z);
    proof {
        assert(z@ == gj_z(t));
        assert(z_abs@ =~= abs_seq(gj_z(t)));
    }
    let l_zabs = l_tape.first_order_forward(&z_abs);
    let a = vec_sub(&z, &l_zabs);
    let y_zabs = y_tape.first_order_forward(&z_abs);
    let b = vec_neg(&y_zabs);
    proof {
        assert(a@ =~= gj_a(t));
        assert(b@ =~= gj_b(t));
    }

    // Calculate the kink perturbation dz as a fixed point of
    // dz = dzt + L |dz|, reached within s passes.
    let z_dx = z_tape.first_order_forward(dx);
    let dzt = vec_add(&a, &z_dx);
    proof {
        assert(dzt@ =~= gj_dzt(t, dx@));
        assert(dzt@.len() == s);
    }
    let mut dz = crate::tape::copy_vec(&dzt);
    let mut it: usize = 0;
    while it < s
        invariant
            it <= s,
            s == count_abs(t.ops@),
            t.wf(),
            abs_tape.wf(),
            abs_tape.inner == t,
            dx@.len() == t.indeps@.len(),
            dzt@ == gj_dzt(t, dx@),
            dzt@.len() == s,
            l_tape.wf(),
            l_tape.indeps@.len() == s,
            l_tape.deps@.len() == s,
            forall|d: Seq<S>| #[trigger] l_tape.forward_with(d) == anf_forward(t, AnfPart::L, d),
            dz@ == gj_dz_iter(t, dx@, it as int),
            dz@.len() == s,
        decreases s - it,
    {
        let dz_abs = vec_abs(&dz);
        proof {
            assert(dz_abs@ =~= abs_seq(gj_dz_iter(t, dx@, it as int)));
        }
        let l_dz = l_tape.first_order_forward(&dz_abs);
        let dz2 = vec_add(&dzt, &l_dz);
        proof {
            assert(dz2@ =~= gj_dz_iter(t, dx@, it as int + 1));
        }
        dz = dz2;
        it += 1;
    }
    proof {
        assert(dz@ == gj_dz(t, dx@));
    }

    // Calculate the signs and the multiplicity
    let ghost dzv = dz@;
    let ghost bitsv = sign_bits@;
    let mut sigma: Vec<S> = Vec::new();
    let mut multiplicity: usize = 0;
    let mut i: usize = 0;
    while i < s
        invariant
            i <= s,
            s == dzv.len(),
            dz@ == dzv,
            bitsv == sign_bits@,
            multiplicity as int == count_ties_rec(dzv, i as int),
            multiplicity <= i,
            sigma@.len() == i,
            forall|j: int| 0 <= j < i ==> #[trigger] sigma@[j] == sigma_seq(dzv, bitsv)[j],
        decreases s - i,
    {
        if S::lt(dz[i], S::zero()) {
            sigma.push(S::neg(S::one()));
        } else if S::lt(S::zero(), dz[i]) {
            sigma.push(S::one());
        } else {
            let bit = bit_at(sign_bits, multiplicity);
            multiplicity += 1;
            if bit {
                sigma.push(S::one());
            } else {
                sigma.push(S::neg(S::one()));
            }
        }
        i += 1;
    }
    proof {
        assert(sigma@ =~= sigma_seq(dzv, bitsv));
    }

    // Downstream composition seed
    let (g2, gamma2, multiplicity) = match next {
        Some(nx) => {
            let mtot = multiplicity.saturating_add(nx.multiplicity);
            (nx.homogenous, nx.inhomogenous, mtot)
        },
        None => (identity_mat(m), zero_vec(m), multiplicity),
    };
    let ghost g2v = mat_view(g2);
    let ghost gamma2v = gamma2@;
    let q = g2.len();
    proof {
        if next.is_none() {
            assert(g2v =~~= Seq::new(m as nat, |i: int| unit_seq::<S>(m as nat, i)));
            assert(gamma2v =~= zero_seq::<S>(m as nat));
        }
        assert forall|ii: int| 0 <= ii < g2v.len() implies (#[trigger] g2v[ii]).len() == m by {
            assert(g2v[ii] == g2@[ii]@);
        }
    }

    // Calculate U = G Y S, then iterate U <- U L S + G Y S.
    let ys = y_tape.mul_left(&g2);
    let g2_ymat_sigma = scale_cols(&ys, &sigma);
    proof {
        assert forall|ii: int| 0 <= ii < q implies (#[trigger] mat_view(g2_ymat_sigma)[ii]) =~= gj_gys(
            t,
            g2v,
            sigma@,
        )[ii] by {
            assert(ys@[ii]@ == anf_reverse(t, AnfPart::Y, g2v[ii]));
        }
        assert(mat_view(g2_ymat_sigma) =~~= gj_gys(t, g2v, sigma@));
    }
    let ghost gysv = gj_gys(t, g2v, sigma@);
    proof {
        assert(mat_view(g2_ymat_sigma) =~~= gysv);
    }
    let mut u1 = crate::dense::copy_mat(&g2_ymat_sigma);
    proof {
        assert(mat_view(u1) =~~= gj_u_iter(t, gysv, sigma@, 0));
    }
    let mut it2: usize = 0;
    while it2 < s
        invariant
            it2 <= s,
            s == count_abs(t.ops@),
            t.wf(),
            sigma@.len() == s,
            q == gysv.len(),
            l_tape.wf(),
            l_tape.indeps@.len() == s,
            l_tape.deps@.len() == s,
            forall|k: int|
                0 <= k < l_tape.ops@.len() ==> (#[trigger] l_tape.ops@[k]).opcode
                    != crate::operation::OpCode::Abs,
            forall|d: Seq<S>| #[trigger] l_tape.reverse_with(d) == anf_reverse(t, AnfPart::L, d),
            g2_ymat_sigma@.len() == q,
            mat_view(g2_ymat_sigma) == gysv,
            forall|ii: int| 0 <= ii < q ==> (#[trigger] g2_ymat_sigma@[ii])@.len() == s,
            mat_view(u1) =~~= gj_u_iter(t, gysv, sigma@, it2 as int),
            u1@.len() == q,
            forall|ii: int| 0 <= ii < q ==> (#[trigger] u1@[ii])@.len() == s,
        decreases s - it2,
    {
        let ul = l_tape.mul_left(&u1);
        let uls = scale_cols(&ul, &sigma);
        let unext = mat_add(&uls, &g2_ymat_sigma);
        proof {
            assert forall|ii: int| 0 <= ii < q implies (#[trigger] mat_view(unext)[ii]) =~= gj_u_iter(
                t,
                gysv,
                sigma@,
                it2 as int + 1,
            )[ii] by {
                let prev = gj_u_iter(t, gysv, sigma@, it2 as int);
                assert(ul@[ii]@ == l_tape.reverse_with(u1@[ii]@));
                assert(u1@[ii]@ =~= prev[ii]);
                assert(mat_view(g2_ymat_sigma)[ii] =~= gysv[ii]);
                assert forall|j: int| 0 <= j < s implies #[trigger] unext@[ii]@[j] == gj_u_iter(
                    t,
                    gysv,
                    sigma@,
                    it2 as int + 1,
                )[ii][j] by {
                    assert(unext@[ii]@[j] == S::add_spec(uls@[ii]@[j], g2_ymat_sigma@[ii]@[j]));
                    assert(uls@[ii]@[j] == S::mul_spec(ul@[ii]@[j], sigma@[j]));
                }
            }
            assert(mat_view(unext) =~~= gj_u_iter(t, gysv, sigma@, it2 as int + 1));
        }
        u1 = unext;
        it2 += 1;
    }
    let ghost uv = gj_u_iter(t, gysv, sigma@, s as int);

    // homogenous = G J + U Z, inhomogenous = gamma2 + G b + U a
    let gj = j_tape.mul_left(&g2);
    let uz = z_tape.mul_left(&u1);
    let homogenous = mat_add(&gj, &uz);
    let g2b = mat_vec_mul(&g2, &b);
    let ua = mat_vec_mul(&u1, &a);
    let part = vec_add(&gamma2, &g2b);
    let inhomogenous = vec_add(&part, &ua);
    proof {
        assert forall|ii: int, j: int|
            #![trigger homogenous@[ii]@[j]]
            0 <= ii < q && 0 <= j < n implies homogenous@[ii]@[j] == S::add_spec(
            anf_reverse(t, AnfPart::J, g2v[ii])[j],
            anf_reverse(t, AnfPart::Z, uv[ii])[j],
        ) by {
            assert(gj@[ii]@ == j_tape.reverse_with(g2@[ii]@));
            assert(g2@[ii]@ == g2v[ii]);
            assert(uz@[ii]@ == z_tape.reverse_with(u1@[ii]@));
            assert(u1@[ii]@ =~= uv[ii]);
            assert(homogenous@[ii]@[j] == S::add_spec(gj@[ii]@[j], uz@[ii]@[j]));
        }
        assert forall|ii: int| 0 <= ii < q implies #[trigger] inhomogenous@[ii] == S::add_spec(
            S::add_spec(gamma2v[ii], dot_spec(g2v[ii], gj_b(t), m as int)),
            dot_spec(uv[ii], gj_a(t), s as int),
        ) by {
            assert(g2b@[ii] == dot_spec(g2@[ii]@, b@, m as int));
            assert(g2@[ii]@ == g2v[ii]);
            assert(b@ == gj_b(t));
            assert(ua@[ii] == dot_spec(u1@[ii]@, a@, s as int));
            assert(u1@[ii]@ =~= uv[ii]);
            assert(a@ == gj_a(t));
            assert(inhomogenous@[ii] == S::add_spec(part@[ii], ua@[ii]));
            assert(part@[ii] == S::add_spec(gamma2v[ii], g2b@[ii]));
        }
    }
    GeneralizedJacobian { homogenous, inhomogenous, multiplicity }
}

/// Every perturbation component yields at most one tie.
pub proof fn lemma_count_ties_le<S: Scalar>(dz: Seq<S>, i: int)
    requires
        0 <= i,
    ensures
        count_ties_rec(dz, i) <= i,
    decreases i,
{
    if i > 0 {
        lemma_count_ties_le(dz, i - 1);
    }
}

/// The sign stream a caller's bytes give for `s` kinks: the bytes as
/// handed in when they cover `s` bits, else extended with zero bytes
/// until they do.
pub open spec fn zero_pad_bits(bits: Seq<u8>, s: int) -> Seq<u8> {
    let needed = (s + 7) / 8;
    if bits.len() >= needed {
        bits
    } else {
        bits + Seq::new((needed - bits.len()) as nat, |i: int| 0u8)
    }
}

/// Derive the Generalized Jacobian of a function at the point `x`: the
/// function is taped at `x` and the tape driver does the rest.  The
/// relation holds for a tape that records the function faithfully.
/// Where the supplied sign stream is shorter than the tape's kink count,
/// it is read as extended with zero bits, so that the tape driver's
/// demand for a sufficient stream is always met.
pub fn generalized_jacobian<S: Scalar, F: Function<S>>(
    func: &F,
    x: &Vec<S>,
    dx: &Vec<S>,
    sign_bits: &Vec<u8>,
    next: Option<GeneralizedJacobian<S>>,
) -> (result: GeneralizedJacobian<S>)
    requires
        x@.len() == func.n_spec(),
        dx@.len() == func.n_spec(),
        next.is_some() ==> next.unwrap().inhomogenous@.len() == next.unwrap().homogenous@.len()
            && forall|i: int|
            0 <= i < next.unwrap().homogenous@.len() ==> (#[trigger] next.unwrap().homogenous@[i])@.len()
                == func.m_spec(),
    ensures
        exists|t: ATape<S>|
            tape_for(t, func.n_spec() as int, func.m_spec() as int, x@) && tape_matches(t, *func)
                && #[trigger] gj_post(
                t,
                dx@,
                zero_pad_bits(sign_bits@, count_abs(t.ops@) as int),
                next,
                result,
            ),
{
    let tape = func.tape_at(x);
    let ghost t = tape;
    let s = tape.num_abs();
    let needed: usize = s / 8 + if s % 8 == 0 {
        0
    } else {
        1
    };
    let mut bits = crate::tape::copy_vec(sign_bits);
    while bits.len() < needed
        invariant
            bits@.len() >= sign_bits@.len(),
            bits@.len() > sign_bits@.len() ==> bits@.len() <= needed,
            forall|i: int| 0 <= i < sign_bits@.len() ==> #[trigger] bits@[i] == sign_bits@[i],
            forall|i: int| sign_bits@.len() <= i < bits@.len() ==> #[trigger] bits@[i] == 0u8,
        decreases needed - bits@.len(),
    {
        bits.push(0);
    }
    proof {
        assert(needed as int == (s as int + 7) / 8) by {
            assert(s as int == 8 * (s as int / 8) + s as int % 8);
        }
        if sign_bits@.len() >= needed as int {
            assert(bits@ =~= sign_bits@);
        } else {
            assert(bits@.len() == needed);
            assert(bits@ =~= sign_bits@ + Seq::new(
                (needed - sign_bits@.len()) as nat,
                |i: int| 0u8,
            ));
        }
        assert(bits@ =~= zero_pad_bits(sign_bits@, s as int));
        lemma_count_ties_le(gj_dz(t, dx@), s as int);
        assert(8 * bits@.len() >= s as int);
    }
    let result = generalized_jacobian_tape(tape, dx, &bits, next);
    proof {
        assert(tape_for(t, func.n_spec() as int, func.m_spec() as int, x@));
        assert(tape_matches(t, *func));
    }
    result
}

/// The pairing of a value vector with a tangent vector.
pub open spec fn zip_pairs<S: Scalar>(x: Seq<S>, dx: Seq<S>) -> Seq<(S, S)> {
    Seq::new(x.len(), |i: int| (x[i], dx[i]))
}

/// The all-zero sign stream covering `s` kinks.
pub open spec fn zero_sign_bits(s: int) -> Seq<u8> {
    Seq::new(((s + 7) / 8) as nat, |i: int| 0u8)
}

/// The dual state after the first `k` links of a chain, from the initial
/// pairs `p0`.
pub open spec fn chain_pairs<S: Scalar, C: Chain<S>>(chain: C, p0: Seq<(S, S)>, k: int) -> Seq<
    (S, S),
>
    decreases k,
{
    if k <= 0 {
        p0
    } else {
        chain.eval_duals_spec(k - 1, chain_pairs(chain, p0, k - 1))
    }
}

/// The dimension of the dual state entering link `k` (the initial width
/// for the head of the chain, the predecessor's output width after).
pub open spec fn chain_state_dim<S: Scalar, C: Chain<S>>(chain: C, p0: Seq<(S, S)>, k: int) -> int {
    if k <= 0 {
        p0.len() as int
    } else {
        chain.m_spec(k - 1) as int
    }
}

/// `g` is a valid composed generalized Jacobian of links `j..` of the
/// chain: the identity Jacobian at the tail, and at each link a tape
/// that faithfully records the link at that link's state, composed with
/// the Jacobian of the links after it, under an all-zero sign stream.
pub open spec fn chain_jac_from<S: Scalar, C: Chain<S>>(
    chain: C,
    p0: Seq<(S, S)>,
    nlinks: int,
    j: int,
    g: GeneralizedJacobian<S>,
) -> bool
    decreases nlinks - j,
{
    if j < 0 || j > nlinks {
        false
    } else if j == nlinks {
        let d = chain_state_dim(chain, p0, nlinks);
        &&& mat_view(g.homogenous) == Seq::new(d as nat, |i: int| unit_seq::<S>(d as nat, i))
        &&& g.inhomogenous@ == zero_seq::<S>(d as nat)
        &&& g.multiplicity == 0
    } else {
        exists|t: ATape<S>, prev: GeneralizedJacobian<S>|
            chain_jac_from(chain, p0, nlinks, j + 1, prev) && tape_for(
                t,
                chain.n_spec(j) as int,
                chain.m_spec(j) as int,
                pair_values(chain_pairs(chain, p0, j)),
            ) && link_matches(t, chain, j) && #[trigger] gj_post(
                t,
                pair_tangents(chain_pairs(chain, p0, j)),
                zero_sign_bits(count_abs(t.ops@) as int),
                Some(prev),
                g,
            )
    }
}

/// A composed chain Jacobian has the tail state's width as its height
/// and the width of the state entering link `j` as its width.
pub proof fn lemma_chain_jac_dims<S: Scalar, C: Chain<S>>(
    chain: C,
    p0: Seq<(S, S)>,
    nlinks: int,
    j: int,
    g: GeneralizedJacobian<S>,
)
    requires
        chain_jac_from(chain, p0, nlinks, j, g),
    ensures
        g.homogenous@.len() == chain_state_dim(chain, p0, nlinks),
        g.inhomogenous@.len() == chain_state_dim(chain, p0, nlinks),
        forall|i: int|
            0 <= i < g.homogenous@.len() ==> (#[trigger] g.homogenous@[i])@.len() == (if j
                == nlinks {
                chain_state_dim(chain, p0, nlinks)
            } else {
                chain.n_spec(j) as int
            }),
    decreases nlinks - j,
{
    let d = chain_state_dim(chain, p0, nlinks);
    if j == nlinks {
        assert(mat_view(g.homogenous).len() == d);
        assert forall|i: int| 0 <= i < g.homogenous@.len() implies (#[trigger] g.homogenous@[i])@.len()
            == d by {
            assert(mat_view(g.homogenous)[i] == g.homogenous@[i]@);
            assert(mat_view(g.homogenous)[i] == unit_seq::<S>(d as nat, i));
        }
    } else {
        let (t, prev) = choose|t: ATape<S>, prev: GeneralizedJacobian<S>|
            chain_jac_from(chain, p0, nlinks, j + 1, prev) && tape_for(
                t,
                chain.n_spec(j) as int,
                chain.m_spec(j) as int,
                pair_values(chain_pairs(chain, p0, j)),
            ) && link_matches(t, chain, j) && #[trigger] gj_post(
                t,
                pair_tangents(chain_pairs(chain, p0, j)),
                zero_sign_bits(count_abs(t.ops@) as int),
                Some(prev),
                g,
            );
        lemma_chain_jac_dims(chain, p0, nlinks, j + 1, prev);
        assert(mat_view(prev.homogenous).len() == prev.homogenous@.len());
    }
}

/// Evaluate one link of the chain on plain value and tangent vectors.
fn chain_forward_step<S: Scalar, C: Chain<S>>(
    chain: &C,
    idx: usize,
    xv: &Vec<S>,
    dxv: &Vec<S>,
) -> (r: (Vec<S>, Vec<S>))
    requires
        idx < chain.len_spec(),
        xv@.len() == chain.n_spec(idx as int),
        dxv@.len() == xv@.len(),
    ensures
        r.0@.len() == chain.m_spec(idx as int),
        r.1@.len() == chain.m_spec(idx as int),
        zip_pairs(r.0@, r.1@) == chain.eval_duals_spec(idx as int, zip_pairs(xv@, dxv@)),
{
    let n = xv.len();
    let mut input: Vec<AFloat<S>> = Vec::new();
    let mut i: usize = 0;
    while i < n
        invariant
            i <= n,
            n == xv@.len(),
            dxv@.len() == n,
            input@.len() == i,
            forall|ii: int|
                0 <= ii < i ==> #[trigger] input@[ii] == (AFloat {
                    v: xv@[ii],
                    dv: dxv@[ii],
                    ctx: None::<(usize, usize)>,
                }),
        decreases n - i,
    {
        input.push(AFloat::new(xv[i], dxv[i]));
        i += 1;
    }
    proof {
        assert(crate::function::duals_of(input@) =~= zip_pairs(xv@, dxv@));
    }
    // No value of another context meets this ephemeral recording.
    let mut ctx: AContext<S> = AContext::new(0);
    let output = chain.eval(idx, &mut ctx, input);
    let ghost outpairs = chain.eval_duals_spec(idx as int, zip_pairs(xv@, dxv@));
    let m = output.len();
    let mut y: Vec<S> = Vec::new();
    let mut dy: Vec<S> = Vec::new();
    let mut i2: usize = 0;
    while i2 < m
        invariant
            i2 <= m,
            m == output@.len(),
            crate::function::duals_of(output@) == outpairs,
            y@.len() == i2,
            dy@.len() == i2,
            forall|ii: int| 0 <= ii < i2 ==> #[trigger] y@[ii] == outpairs[ii].0,
            forall|ii: int| 0 <= ii < i2 ==> #[trigger] dy@[ii] == outpairs[ii].1,
        decreases m - i2,
    {
        proof {
            assert(crate::function::duals_of(output@)[i2 as int] == (
                output@[i2 as int].v,
                output@[i2 as int].dv,
            ));
        }
        y.push(output[i2].value());
        dy.push(output[i2].dvalue());
        i2 += 1;
    }
    proof {
        assert(zip_pairs(y@, dy@) =~= outpairs);
    }
    (y, dy)
}

/// Derive the Generalized Jacobian of a chain of functions, walking the
/// chain back to front under the binomial checkpointing scheduler: the
/// forward sweep re-runs links from retained states at schedule-chosen
/// positions, and each retained state is consumed by composing its
/// link's generalized Jacobian (zero sign stream) with the Jacobian of
/// everything after it, starting from the identity at the tail.
#[verifier::loop_isolation(false)]
#[verifier::rlimit(100)]
pub fn generalized_jacobian_chain<S: Scalar, C: Chain<S>>(
    chain: &C,
    x: Vec<S>,
    dx: Vec<S>,
    ncheckpoints: Option<usize>,
) -> (result: GeneralizedJacobian<S>)
    requires
        1 <= chain.len_spec(),
        chain.len_spec() < isize::MAX as usize,
        x@.len() == chain.n_spec(0),
        dx@.len() == chain.n_spec(0),
        forall|k: int| 0 <= k < chain.len_spec() - 1 ==> chain.m_spec(k) == chain.n_spec(k + 1),
        ncheckpoints.is_some() ==> 2 <= ncheckpoints.unwrap() <= isize::MAX as usize,
        ncheckpoints.is_none() ==> 2 <= chain.len_spec(),
    ensures
        chain_jac_from(*chain, zip_pairs(x@, dx@), chain.len_spec() as int, 0, result),
{
    let nlinks = chain.len();
    let ncp: usize = match ncheckpoints {
        Some(c) => c,
        None => nlinks,
    };
    let ghost p0 = zip_pairs(x@, dx@);
    let ghost nl = nlinks as int;

    let mut idxs: Vec<usize> = Vec::new();
    let mut xs: Vec<Vec<S>> = Vec::new();
    let mut dxs: Vec<Vec<S>> = Vec::new();
    idxs.push(0);
    xs.push(x);
    dxs.push(dx);

    let mut r: usize = nlinks + 1;
    let mut result: Option<GeneralizedJacobian<S>> = None;
    while r > 0
        invariant
            r <= nlinks + 1,
            idxs@.len() == xs@.len() && idxs@.len() == dxs@.len(),
            r > 0 ==> idxs@.len() >= 1,
            r > 0 ==> idxs@[0] == 0usize,
            idxs@.len() + 1 <= ncp,
            forall|i: int|
                0 <= i < idxs@.len() ==> ((#[trigger] idxs@[i]) as int) < r as int && zip_pairs(
                    xs@[i]@,
                    dxs@[i]@,
                ) == chain_pairs(*chain, p0, idxs@[i] as int) && xs@[i]@.len() == chain_state_dim(
                    *chain,
                    p0,
                    idxs@[i] as int,
                ) && dxs@[i]@.len() == xs@[i]@.len(),
            forall|i: int, j: int|
                #![trigger idxs@[i], idxs@[j]]
                0 <= i < j < idxs@.len() ==> idxs@[i] < idxs@[j],
            result.is_none() ==> r == nlinks + 1,
            result.is_some() ==> chain_jac_from(*chain, p0, nl, r as int, result.unwrap()),
        decreases r,
    {
        // Forward from the last retained state, recording checkpoints
        // where the schedule for the remaining sub-problem says.
        let last_idx = idxs[idxs.len() - 1];
        let partial_r = r - last_idx;
        let partial_c = ncp - idxs.len();
        let sched = crate::checkpointing::schedule(partial_c, partial_r);
        let ghost smap = sched@.map(|i: int, v: usize| v as int);
        proof {
            crate::checkpointing::lemma_sched_props(partial_c as int, partial_r as int);
            assert(smap == crate::checkpointing::sched_spec(partial_c as int, partial_r as int));
        }
        let ghost cps0 = idxs@;
        let mut current_i: usize = 0;
        let mut current_x = crate::tape::copy_vec(&xs[xs.len() - 1]);
        let mut current_dx = crate::tape::copy_vec(&dxs[dxs.len() - 1]);
        let mut si: usize = 0;
        while si < sched.len()
            invariant
                si <= sched@.len(),
                current_i as int == if si == 0 {
                    0int
                } else {
                    smap[si as int - 1]
                },
                current_i <= partial_r - 1,
                zip_pairs(current_x@, current_dx@) == chain_pairs(
                    *chain,
                    p0,
                    last_idx + current_i,
                ),
                current_x@.len() == chain_state_dim(*chain, p0, last_idx + current_i),
                current_dx@.len() == current_x@.len(),
                idxs@.len() == cps0.len() + si,
                xs@.len() == idxs@.len() && dxs@.len() == idxs@.len(),
                forall|i: int| 0 <= i < cps0.len() ==> #[trigger] idxs@[i] == cps0[i],
                forall|i: int|
                    0 <= i < idxs@.len() ==> zip_pairs((#[trigger] xs@[i])@, dxs@[i]@)
                        == chain_pairs(*chain, p0, idxs@[i] as int) && xs@[i]@.len()
                        == chain_state_dim(*chain, p0, idxs@[i] as int) && dxs@[i]@.len()
                        == xs@[i]@.len(),
                forall|i: int|
                    cps0.len() <= i < idxs@.len() ==> ((#[trigger] idxs@[i]) as int) == last_idx
                        + smap[i - cps0.len()],
            decreases sched@.len() - si,
        {
            let cp_idx = sched[si];
            proof {
                assert(smap[si as int] == cp_idx as int);
                assert(1 <= smap[si as int] <= partial_r - 1);
                if si > 0 {
                    assert(smap[si as int - 1] < smap[si as int]);
                }
            }
            while current_i < cp_idx
                invariant
                    current_i <= cp_idx,
                    zip_pairs(current_x@, current_dx@) == chain_pairs(
                        *chain,
                        p0,
                        last_idx + current_i,
                    ),
                    current_x@.len() == chain_state_dim(*chain, p0, last_idx + current_i),
                    current_dx@.len() == current_x@.len(),
                decreases cp_idx - current_i,
            {
                let step_idx = last_idx + current_i;
                proof {
                    assert(step_idx < nlinks) by {
                        assert(cp_idx as int <= partial_r - 1);
                        assert(last_idx + partial_r == r);
                        assert(r <= nlinks + 1);
                    }
                    assert(current_x@.len() == chain.n_spec(step_idx as int)) by {
                        if step_idx == 0 {
                        } else {
                            assert(chain.m_spec(step_idx - 1) == chain.n_spec(step_idx as int));
                        }
                    }
                    assert(pair_values(zip_pairs(current_x@, current_dx@)) =~= current_x@);
                }
                let stepped = chain_forward_step(chain, step_idx, &current_x, &current_dx);
                current_x = stepped.0;
                current_dx = stepped.1;
                current_i += 1;
                proof {
                    assert(chain_pairs(*chain, p0, last_idx + current_i)
                        == chain.eval_duals_spec(
                        step_idx as int,
                        chain_pairs(*chain, p0, step_idx as int),
                    ));
                }
            }
            idxs.push(last_idx + current_i);
            xs.push(crate::tape::copy_vec(&current_x));
            dxs.push(crate::tape::copy_vec(&current_dx));
            si += 1;
        }

        // Reverse the state at the end of the checkpoint list.
        proof {
            if sched@.len() == 0 {
                assert(!(partial_r as int > 1 && partial_c as int > 0));
                assert(partial_c >= 1);
                assert(partial_r == 1);
            } else {
                assert(idxs@.last() as int == last_idx + smap.last());
                assert(smap.last() == partial_r - 1);
            }
            assert(idxs@.last() as int == r - 1);
        }
        let cp_idx = idxs.pop().unwrap();
        let cp_x = xs.pop().unwrap();
        let cp_dx = dxs.pop().unwrap();
        proof {
            assert(cp_idx as int == r - 1);
            assert(zip_pairs(cp_x@, cp_dx@) == chain_pairs(*chain, p0, cp_idx as int));
        }
        result = match result {
            Some(prev) => {
                proof {
                    assert(chain_jac_from(*chain, p0, nl, r as int, prev));
                    assert(r as int <= nl);
                    lemma_chain_jac_dims(*chain, p0, nl, r as int, prev);
                    assert(cp_x@.len() == chain.n_spec(cp_idx as int)) by {
                        if cp_idx == 0 {
                        } else {
                            assert(chain.m_spec(cp_idx - 1) == chain.n_spec(cp_idx as int));
                        }
                    }
                    assert(pair_values(zip_pairs(cp_x@, cp_dx@)) =~= cp_x@);
                    assert(pair_tangents(zip_pairs(cp_x@, cp_dx@)) =~= cp_dx@);
                    // The downstream Jacobian's width matches this link's
                    // output width.
                    assert forall|i: int| 0 <= i < prev.homogenous@.len() implies (
                    #[trigger] prev.homogenous@[i])@.len() == chain.m_spec(cp_idx as int) by {
                        if r as int == nl {
                            assert(chain_state_dim(*chain, p0, nl) == chain.m_spec(nl - 1));
                        } else {
                            assert(chain.m_spec(r as int - 1) == chain.n_spec(r as int));
                        }
                    }
                }
                let t = chain.tape_at(cp_idx, &cp_x);
                let ghost tg = t;
                let nabs = t.num_abs();
                let needed: usize = nabs / 8 + if nabs % 8 == 0 {
                    0
                } else {
                    1
                };
                let mut bits: Vec<u8> = Vec::new();
                let mut bi: usize = 0;
                while bi < needed
                    invariant
                        bi <= needed,
                        bits@.len() == bi,
                        forall|i: int| 0 <= i < bi ==> #[trigger] bits@[i] == 0u8,
                    decreases needed - bi,
                {
                    bits.push(0);
                    bi += 1;
                }
                proof {
                    assert(needed as int == (nabs as int + 7) / 8) by {
                        assert(nabs as int == 8 * (nabs as int / 8) + nabs as int % 8);
                    }
                    assert(bits@ =~= zero_sign_bits(count_abs(tg.ops@) as int));
                    lemma_count_ties_le(gj_dz(tg, cp_dx@), nabs as int);
                    assert(8 * bits@.len() >= nabs as int);
                }
                let g = generalized_jacobian_tape(t, &cp_dx, &bits, Some(prev));
                proof {
                    assert(gj_post(
                        tg,
                        pair_tangents(chain_pairs(*chain, p0, cp_idx as int)),
                        zero_sign_bits(count_abs(tg.ops@) as int),
                        Some(prev),
                        g,
                    ));
                    assert(link_matches(tg, *chain, cp_idx as int));
                    assert(chain_jac_from(*chain, p0, nl, cp_idx as int, g));
                }
                Some(g)
            },
            None => {
                proof {
                    assert(cp_idx as int == nl);
                }
                let d = cp_x.len();
                let hom = identity_mat(d);
                let inhom = zero_vec(d);
                let g = GeneralizedJacobian { homogenous: hom, inhomogenous: inhom, multiplicity: 0 };
                proof {
                    assert(mat_view(g.homogenous) =~~= Seq::new(
                        d as nat,
                        |i: int| unit_seq::<S>(d as nat, i),
                    ));
                    assert(g.inhomogenous@ =~= zero_seq::<S>(d as nat));
                    assert(chain_jac_from(*chain, p0, nl, nl, g));
                }
                Some(g)
            },
        };
        r -= 1;
    }
    result.unwrap()
}

} // verus!
