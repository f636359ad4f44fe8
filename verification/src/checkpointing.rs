//! The binomial (Revolve-style) checkpointing scheduler.
//!
//! Reverse-mode traversal of an `N`-step chain needs every intermediate
//! state, but only a bounded number of state snapshots fit in memory;
//! recomputation fills the gaps.  `binomial(c + t, c)` bounds how many
//! steps can be covered with `c` checkpoints and at most `t`
//! recomputations per gap; [`find_t`] picks the least sufficient `t`,
//! [`next_checkpoint`] places the next checkpoint by the standard binomial
//! placement rule, and [`schedule`] chains placements for a whole
//! sub-problem.  [`reverse_sequence`] drives a caller's forward and
//! reverse step functions through such schedules, re-deriving a
//! sub-schedule each time the checkpoint budget shrinks.
//!
//! Executable binomials saturate at `usize::MAX`; the specs mirror that
//! saturation, which is invisible to the placement rule whenever the
//! remaining length is below the saturation bound.

use vstd::pervasive::VecAdditionalExecFns;
use vstd::prelude::*;

verus! {

/// The binomial coefficient, by Pascal's rule.
pub open spec fn binom(n: nat, k: nat) -> nat
    decreases n,
{
    if k == 0 {
        1
    } else if n == 0 {
        0
    } else {
        binom((n - 1) as nat, (k - 1) as nat) + binom((n - 1) as nat, k)
    }
}

/// `binomial(c + t, c)`, the number of steps coverable with `c`
/// checkpoints and `t` recomputations; zero for a non-positive budget.
pub open spec fn beta_spec(c: int, t: int) -> nat {
    if c <= 0 || t <= 0 {
        0
    } else {
        binom((c + t) as nat, c as nat)
    }
}

/// The executable binomial saturates at `usize::MAX`.
pub open spec fn beta_sat(c: int, t: int) -> nat {
    if beta_spec(c, t) > usize::MAX as nat {
        usize::MAX as nat
    } else {
        beta_spec(c, t)
    }
}

/// Choosing `k` among fewer than `k` is impossible.
pub proof fn lemma_binom_zero(n: nat, k: nat)
    requires
        k > n,
    ensures
        binom(n, k) == 0,
    decreases n,
{
    if n > 0 {
        lemma_binom_zero((n - 1) as nat, (k - 1) as nat);
        lemma_binom_zero((n - 1) as nat, k);
    }
}

/// Choosing `k` among at least `k` is possible.
pub proof fn lemma_binom_pos(n: nat, k: nat)
    requires
        k <= n,
    ensures
        binom(n, k) >= 1,
    decreases n,
{
    if k > 0 {
        lemma_binom_pos((n - 1) as nat, (k - 1) as nat);
    }
}

/// The binomial grows with its upper argument.
pub proof fn lemma_binom_mono_n(n: nat, k: nat)
    ensures
        binom(n, k) <= binom(n + 1, k),
{
}

/// Choosing one among `n` has `n` ways.
pub proof fn lemma_binom_row1(n: nat)
    ensures
        binom(n, 1) == n,
    decreases n,
{
    if n > 0 {
        lemma_binom_row1((n - 1) as nat);
        assert(binom((n - 1) as nat, 0) == 1);
        assert(binom(n, 1) == binom((n - 1) as nat, 0) + binom((n - 1) as nat, 1));
    } else {
        assert(binom(0, 1) == 0);
    }
}

/// `beta` grows with the recomputation budget.
pub proof fn lemma_beta_mono_t(c: int, t1: int, t2: int)
    requires
        t1 <= t2,
    ensures
        beta_spec(c, t1) <= beta_spec(c, t2),
    decreases t2 - t1,
{
    if t1 < t2 {
        lemma_beta_mono_t(c, t1, t2 - 1);
        if c > 0 && t2 >= 1 {
            if t2 == 1 {
                assert(beta_spec(c, t2 - 1) == 0);
            } else {
                lemma_binom_mono_n((c + t2 - 1) as nat, c as nat);
            }
        }
    }
}

/// `beta` grows with the checkpoint budget.
pub proof fn lemma_beta_mono_c(c1: int, c2: int, t: int)
    requires
        c1 <= c2,
    ensures
        beta_spec(c1, t) <= beta_spec(c2, t),
    decreases c2 - c1,
{
    if c1 < c2 {
        lemma_beta_mono_c(c1, c2 - 1, t);
        if t > 0 && c2 >= 1 {
            if c2 == 1 {
                assert(beta_spec(c2 - 1, t) == 0);
            } else {
                // binom(c2 + t, c2) = binom(c2 - 1 + t, c2 - 1) + binom(c2 - 1 + t, c2)
                assert(binom((c2 + t) as nat, c2 as nat) == binom((c2 - 1 + t) as nat, (c2 - 1) as nat)
                    + binom((c2 - 1 + t) as nat, c2 as nat));
            }
        }
    }
}

/// With at least one checkpoint, `t` recomputations cover more than `t`
/// steps.
pub proof fn lemma_beta_lower(c: int, t: int)
    requires
        c >= 1,
        t >= 1,
    ensures
        beta_spec(c, t) >= t + 1,
{
    lemma_beta_mono_c(1, c, t);
    lemma_binom_row1((t + 1) as nat);
}

/// Saturated `beta` grows with the recomputation budget.
pub proof fn lemma_beta_sat_mono_t(c: int, t1: int, t2: int)
    requires
        t1 <= t2,
    ensures
        beta_sat(c, t1) <= beta_sat(c, t2),
{
    lemma_beta_mono_t(c, t1, t2);
}

/// Saturated `beta` grows with the checkpoint budget.
pub proof fn lemma_beta_sat_mono_c(c1: int, c2: int, t: int)
    requires
        c1 <= c2,
    ensures
        beta_sat(c1, t) <= beta_sat(c2, t),
{
    lemma_beta_mono_c(c1, c2, t);
}

/// Compute a row of Pascal's triangle up to column `k`, saturating at
/// `usize::MAX`, and return the entry `binomial(n, k)`.
fn pascal_binom(n: usize, k: usize) -> (r: usize)
    requires
        k <= n,
        k < usize::MAX,
        n < usize::MAX,
    ensures
        r as nat == (if binom(n as nat, k as nat) > usize::MAX as nat {
            usize::MAX as nat
        } else {
            binom(n as nat, k as nat)
        }),
{
    let mut row: Vec<usize> = Vec::new();
    row.push(1);
    let mut z: usize = 0;
    while z < k
        invariant
            z <= k,
            row@.len() == z + 1,
            row@[0] == 1usize,
            forall|j: int| 1 <= j <= z ==> #[trigger] row@[j] == 0usize,
        decreases k - z,
    {
        row.push(0);
        z += 1;
    }
    proof {
        assert forall|j: int| 0 <= j <= k implies (#[trigger] row@[j]) as nat == sat_nat(
            binom(0, j as nat),
        ) by {
            if j > 0 {
                lemma_binom_zero(0, j as nat);
            }
        }
    }
    let mut i: usize = 1;
    while i <= n
        invariant
            1 <= i <= n + 1,
            k < usize::MAX,
            n < usize::MAX,
            k <= n,
            row@.len() == k + 1,
            forall|j: int|
                0 <= j <= k ==> (#[trigger] row@[j]) as nat == sat_nat(binom((i - 1) as nat, j as nat)),
        decreases n + 1 - i,
    {
        let jmax = if i < k {
            i
        } else {
            k
        };
        let ghost row_prev = row@;
        let mut j: usize = jmax;
        while j >= 1
            invariant
                j <= jmax,
                jmax <= k,
                jmax <= i,
                1 <= i,
                row@.len() == k + 1,
                forall|jj: int|
                    0 <= jj <= j ==> (#[trigger] row@[jj]) as nat == sat_nat(
                        binom((i - 1) as nat, jj as nat),
                    ),
                forall|jj: int|
                    j < jj <= jmax ==> (#[trigger] row@[jj]) as nat == sat_nat(
                        binom(i as nat, jj as nat),
                    ),
                forall|jj: int|
                    jmax < jj <= k ==> (#[trigger] row@[jj]) as nat == sat_nat(
                        binom((i - 1) as nat, jj as nat),
                    ),
            decreases j,
        {
            let t = row[j].saturating_add(row[j - 1]);
            proof {
                let a = binom((i - 1) as nat, j as nat);
                let b = binom((i - 1) as nat, (j - 1) as nat);
                assert(binom(i as nat, j as nat) == b + a);
                assert(t as nat == sat_nat(b + a));
            }
            row.set(j, t);
            j -= 1;
        }
        proof {
            assert forall|jj: int| 0 <= jj <= k implies (#[trigger] row@[jj]) as nat == sat_nat(
                binom(i as nat, jj as nat),
            ) by {
                if jj == 0 {
                } else if jj > jmax {
                    if jj > i {
                        lemma_binom_zero(i as nat, jj as nat);
                        lemma_binom_zero((i - 1) as nat, jj as nat);
                    } else {
                        assert(jmax == k && jj <= k);
                    }
                }
            }
        }
        i += 1;
    }
    row[k]
}

/// A natural number clipped to the executable range.
pub open spec fn sat_nat(x: nat) -> nat {
    if x > usize::MAX as nat {
        usize::MAX as nat
    } else {
        x
    }
}

/// `binomial(c + t, c)`, saturating at `usize::MAX`; zero for a
/// non-positive budget.
pub fn beta(c: isize, t: isize) -> (r: usize)
    ensures
        r as nat == beta_sat(c as int, t as int),
{
    if c <= 0 || t <= 0 {
        0
    } else {
        let n = c as usize + t as usize;
        let k = c as usize;
        pascal_binom(n, k)
    }
}

/// Minimality of a recomputation budget: `t` suffices for `r` steps and
/// `t - 1` does not.
pub open spec fn is_min_t(c: int, r: int, t: int) -> bool {
    t >= 1 && beta_sat(c, t) >= r && beta_sat(c, t - 1) < r
}

/// The minimal sufficient recomputation budget (for a single checkpoint
/// the closed form `r - 1` is used directly).
pub open spec fn find_t_spec(c: int, r: int) -> int {
    if c == 1 {
        if r > 0 {
            r - 1
        } else {
            0
        }
    } else {
        choose|t: int| is_min_t(c, r, t)
    }
}

/// The minimal sufficient budget is unique.
pub proof fn lemma_min_t_unique(c: int, r: int, t1: int, t2: int)
    requires
        is_min_t(c, r, t1),
        is_min_t(c, r, t2),
    ensures
        t1 == t2,
{
    if t1 < t2 {
        lemma_beta_sat_mono_t(c, t1, t2 - 1);
    }
    if t2 < t1 {
        lemma_beta_sat_mono_t(c, t2, t1 - 1);
    }
}

/// Find the minimal `t` such that `binomial(c + t, c) >= r`, by linear
/// search (the checked search replaces a closed-form seed).
pub fn find_t(c: usize, r: usize) -> (t: usize)
    requires
        1 <= c <= isize::MAX as usize,
        1 <= r <= isize::MAX as usize,
    ensures
        t as int == find_t_spec(c as int, r as int),
        t <= r,
        c == 1 ==> t == r - 1,
        c >= 2 ==> is_min_t(c as int, r as int, t as int),
{
    if c == 1 {
        r - 1
    } else {
        let mut t: usize = 0;
        while beta(c as isize, t as isize) < r
            invariant
                t <= r,
                1 <= c <= isize::MAX as usize,
                1 <= r <= isize::MAX as usize,
                t >= 1 ==> beta_sat(c as int, t as int - 1) < r,
            decreases r - t,
        {
            proof {
                if t == r {
                    lemma_beta_lower(c as int, r as int);
                }
            }
            t += 1;
        }
        proof {
            if t == 0 {
                assert(beta_sat(c as int, 0) == 0);
                assert(false);
            }
            assert(is_min_t(c as int, r as int, t as int));
            let tc = choose|tt: int| is_min_t(c as int, r as int, tt);
            lemma_min_t_unique(c as int, r as int, tc, t as int);
        }
        t
    }
}

/// The binomial placement rule: favour an early checkpoint when a reduced
/// budget suffices, a late one when the budget is nearly exhausted, an
/// interior offset otherwise.
pub open spec fn next_checkpoint_spec(c: int, r: int) -> int {
    let t = find_t_spec(c, r);
    if r <= beta_sat(c, t - 1) + beta_sat(c - 2, t - 1) {
        beta_sat(c, t - 2) as int
    } else if r >= beta_sat(c, t) - beta_sat(c - 3, t) {
        beta_sat(c, t - 1) as int
    } else {
        r - beta_sat(c - 1, t - 1) - beta_sat(c - 2, t - 1)
    }
}

/// Pick the next checkpoint offset for a sub-problem of `r` remaining
/// steps and `c` remaining checkpoints.
pub fn next_checkpoint(c: usize, r: usize) -> (cp: usize)
    requires
        1 <= c <= isize::MAX as usize,
        1 <= r <= isize::MAX as usize,
    ensures
        cp as int == next_checkpoint_spec(c as int, r as int),
{
    let t = find_t(c, r);
    let ci = c as isize;
    let ti = t as isize;
    let b_t1 = beta(ci, ti - 1);
    let b_c2_t1 = beta(ci - 2, ti - 1);
    if r <= b_t1.saturating_add(b_c2_t1) {
        beta(ci, ti - 2)
    } else if {
        let b_t = beta(ci, ti);
        let b_c3_t = beta(ci - 3, ti);
        proof {
            lemma_beta_sat_mono_c(c as int - 3, c as int, t as int);
        }
        r >= b_t - b_c3_t
    } {
        b_t1
    } else {
        let b_c1_t1 = beta(ci - 1, ti - 1);
        proof {
            lemma_beta_sat_mono_c(c as int - 1, c as int, t as int - 1);
        }
        r - b_c1_t1 - b_c2_t1
    }
}

/// The checkpoint count consumed by one schedule step: clamped placement
/// for an interior sub-problem, the closed forms at the margins.
pub open spec fn partial_cp_spec(c: int, r: int) -> int {
    if r - 1 <= c {
        1
    } else if c == 1 {
        r - 1
    } else if r > 2 {
        let ncp = next_checkpoint_spec(c, r);
        if ncp < 1 {
            1
        } else if ncp > r - 1 {
            r - 1
        } else {
            ncp
        }
    } else {
        1
    }
}

/// The checkpoint offsets chosen for `r` remaining steps under a budget
/// of `c` checkpoints: each step commits one checkpoint and recurses on
/// the tail with the budget reduced by one.
pub open spec fn sched_spec(c: int, r: int) -> Seq<int>
    decreases c,
{
    if r > 1 && c > 0 {
        let p = partial_cp_spec(c, r);
        seq![p] + sched_spec(c - 1, r - p).map(|i: int, x: int| x + p)
    } else {
        Seq::<int>::empty()
    }
}

/// One schedule step stays within the sub-problem.
pub proof fn lemma_partial_cp_bounds(c: int, r: int)
    requires
        c > 0,
        r > 1,
    ensures
        1 <= partial_cp_spec(c, r) <= r - 1,
{
}

/// Structure of a schedule: at most `c` offsets, strictly increasing,
/// within `[1, r - 1]`, and ending exactly at `r - 1` whenever the
/// schedule is nonempty (which it is as soon as `r > 1` and `c > 0`).
pub proof fn lemma_sched_props(c: int, r: int)
    ensures
        sched_spec(c, r).len() <= (if c >= 0 {
            c
        } else {
            0
        }),
        r > 1 && c > 0 ==> sched_spec(c, r).len() >= 1 && sched_spec(c, r).last() == r - 1,
        forall|i: int|
            0 <= i < sched_spec(c, r).len() ==> 1 <= #[trigger] sched_spec(c, r)[i] <= r - 1,
        forall|i: int, j: int|
            #![trigger sched_spec(c, r)[i], sched_spec(c, r)[j]]
            0 <= i < j < sched_spec(c, r).len() ==> sched_spec(c, r)[i] < sched_spec(c, r)[j],
    decreases (if c >= 0 {
        c
    } else {
        0
    }),
{
    if r > 1 && c > 0 {
        let p = partial_cp_spec(c, r);
        lemma_partial_cp_bounds(c, r);
        lemma_sched_props(c - 1, r - p);
        let tail = sched_spec(c - 1, r - p);
        let shifted = tail.map(|i: int, x: int| x + p);
        let s = sched_spec(c, r);
        assert(s == seq![p] + shifted);
        assert(s.len() == 1 + tail.len());
        assert forall|i: int| 0 <= i < s.len() implies 1 <= #[trigger] s[i] <= r - 1 by {
            if i > 0 {
                assert(s[i] == tail[i - 1] + p);
            }
        }
        assert forall|i: int, j: int|
            #![trigger s[i], s[j]]
            0 <= i < j < s.len() implies s[i] < s[j] by {
            if i > 0 {
                assert(s[i] == tail[i - 1] + p);
                assert(s[j] == tail[j - 1] + p);
            } else {
                assert(s[j] == tail[j - 1] + p);
            }
        }
        if tail.len() >= 1 {
            // the tail ends at its own last step, shifted back into place
            assert(s.last() == tail.last() + p);
        } else {
            // an empty tail means this step reached the end of the range:
            // either only one checkpoint was left, or only one step was
            assert(p == r - 1);
            assert(s.last() == p);
        }
    }
}

/// Checkpoint schedules are self-similar: the schedule for `(c, r)` is
/// its first offset `p` followed by the schedule for the remaining
/// sub-problem `(c - 1, r - p)` shifted by `p`.
pub proof fn lemma_schedule_self_similar(c: int, r: int)
    requires
        c > 0,
        r > 1,
    ensures
        sched_spec(c, r).len() >= 1,
        sched_spec(c, r)[0] == partial_cp_spec(c, r),
        sched_spec(c, r) == seq![sched_spec(c, r)[0]] + sched_spec(
            c - 1,
            r - sched_spec(c, r)[0],
        ).map(|i: int, x: int| x + sched_spec(c, r)[0]),
{
    lemma_sched_props(c, r);
}

/// Walk the placement rule over a whole sub-problem, materializing the
/// chosen checkpoint offsets in order.
pub fn schedule(c: usize, r: usize) -> (result: Vec<usize>)
    requires
        c <= isize::MAX as usize,
        r <= isize::MAX as usize,
    ensures
        result@.map(|i: int, x: usize| x as int) == sched_spec(c as int, r as int),
{
    let mut result: Vec<usize> = Vec::new();
    let mut offset: usize = 0;
    let mut c_ = c;
    let mut r_ = r;
    while r_ > 1 && c_ > 0
        invariant
            c_ <= c <= isize::MAX as usize,
            r <= isize::MAX as usize,
            offset <= r,
            r_ == r - offset,
            sched_spec(c as int, r as int) == result@.map(|i: int, x: usize| x as int) + sched_spec(
                c_ as int,
                r_ as int,
            ).map(|i: int, x: int| x + offset),
        decreases c_,
    {
        let partial_cp: usize = if r_ - 1 <= c_ {
            1
        } else if c_ == 1 {
            r_ - 1
        } else if r_ > 2 {
            let ncp = next_checkpoint(c_, r_);
            if ncp < 1 {
                1
            } else if ncp > r_ - 1 {
                r_ - 1
            } else {
                ncp
            }
        } else {
            1
        };
        proof {
            lemma_partial_cp_bounds(c_ as int, r_ as int);
            assert(partial_cp as int == partial_cp_spec(c_ as int, r_ as int));
        }
        let cp = offset + partial_cp;
        proof {
            let p = partial_cp as int;
            let d = offset as int;
            let tail = sched_spec(c_ as int - 1, r_ as int - p);
            assert(sched_spec(c_ as int, r_ as int) == seq![p] + tail.map(|i: int, x: int| x + p));
            assert(sched_spec(c_ as int, r_ as int).map(|i: int, x: int| x + d) =~= seq![p + d]
                + tail.map(|i: int, x: int| x + (p + d)));
            assert((result@.push(cp)).map(|i: int, x: usize| x as int) =~= result@.map(
                |i: int, x: usize| x as int,
            ) + seq![cp as int]);
            assert(result@.map(|i: int, x: usize| x as int) + (seq![p + d] + tail.map(
                |i: int, x: int| x + (p + d),
            )) =~= (result@.map(|i: int, x: usize| x as int) + seq![cp as int]) + tail.map(
                |i: int, x: int| x + (p + d),
            ));
        }
        result.push(cp);
        offset = cp;
        r_ = r - cp;
        c_ = c_ - 1;
    }
    proof {
        assert(sched_spec(c_ as int, r_ as int) =~= Seq::<int>::empty());
        assert(sched_spec(c_ as int, r_ as int).map(|i: int, x: int| x + offset) =~= Seq::<
            int,
        >::empty());
        assert(sched_spec(c as int, r as int) =~= result@.map(|i: int, x: usize| x as int));
    }
    result
}

/// A state reachable from `x` by `k` applications of `fw`, each step
/// satisfying `fw`'s postcondition.
pub open spec fn advances<T, FW: Fn(T) -> T>(fw: FW, x: T, t: T, k: int) -> bool
    decreases k,
{
    if k < 0 {
        false
    } else if k == 0 {
        t == x
    } else {
        exists|mid: T| advances(fw, x, mid, k - 1) && #[trigger] call_ensures(fw, (mid,), t)
    }
}

/// `acc` is a valid right-fold of the reverse pass over positions
/// `j..=nsteps` of the forward orbit of `fw` from `x`: the seed function
/// `id` applied to a state at position `nsteps`, then `rv` applied at
/// each earlier position, every state being reachable at its position.
pub open spec fn folds_from<T, R, FW: Fn(T) -> T, RV: Fn(T, R) -> R, ID: Fn(T) -> R>(
    fw: FW,
    rv: RV,
    id: ID,
    x: T,
    nsteps: int,
    j: int,
    acc: R,
) -> bool
    decreases nsteps - j,
{
    if j < 0 || j > nsteps {
        false
    } else if j == nsteps {
        exists|t: T| advances(fw, x, t, nsteps) && #[trigger] call_ensures(id, (t,), acc)
    } else {
        exists|t: T, acc2: R|
            advances(fw, x, t, j) && folds_from(fw, rv, id, x, nsteps, j + 1, acc2)
                && #[trigger] call_ensures(rv, (t, acc2), acc)
    }
}

/// Generate a sequence and walk it in reverse using limited memory.
///
/// Starting from `x`, the sequence `x, forward(x), forward(forward(x)),
/// ...` of `nsteps + 1` states is folded from the back: `identity` seeds
/// the result at the final state and `reverse` folds each earlier state
/// into it, while only `ncheckpoints` states are ever retained; gaps are
/// recomputed by re-running `forward` from the nearest retained state,
/// at positions chosen by the binomial schedule for the remaining
/// sub-problem (re-derived as the budget shrinks).  The result is a
/// valid reverse fold of the orbit, whatever the budget.
#[verifier::loop_isolation(false)]
pub fn reverse_sequence<T: Copy, R, FW: Fn(T) -> T, RV: Fn(T, R) -> R, ID: Fn(T) -> R>(
    x: T,
    nsteps: usize,
    ncheckpoints: usize,
    forward: FW,
    reverse: RV,
    identity: ID,
) -> (result: R)
    requires
        2 <= ncheckpoints <= isize::MAX as usize,
        nsteps < isize::MAX as usize,
        forall|k: int, t: T|
            0 <= k < nsteps && #[trigger] advances(forward, x, t, k) ==> call_requires(
                forward,
                (t,),
            ),
        forall|t: T|
            #[trigger] advances(forward, x, t, nsteps as int) ==> call_requires(identity, (t,)),
        forall|j: int, jj: int, t: T, acc: R|
            0 <= j < nsteps && jj == j + 1 && #[trigger] advances(forward, x, t, j)
                && #[trigger] folds_from(forward, reverse, identity, x, nsteps as int, jj, acc)
                ==> call_requires(reverse, (t, acc)),
    ensures
        folds_from(forward, reverse, identity, x, nsteps as int, 0, result),
{
    let mut checkpoints: Vec<(usize, T)> = Vec::new();
    checkpoints.push((0, x));

    // Length of the not-yet reversed sequence
    let mut r: usize = nsteps + 1;

    let mut result: Option<R> = None;
    while r > 0
        invariant
            r <= nsteps + 1,
            r > 0 ==> checkpoints@.len() >= 1,
            r > 0 ==> checkpoints@[0].0 == 0usize,
            checkpoints@.len() + 1 <= ncheckpoints,
            forall|i: int|
                0 <= i < checkpoints@.len() ==> ((#[trigger] checkpoints@[i]).0 as int) < r as int
                    && advances(forward, x, checkpoints@[i].1, checkpoints@[i].0 as int),
            forall|i: int, j: int|
                #![trigger checkpoints@[i], checkpoints@[j]]
                0 <= i < j < checkpoints@.len() ==> checkpoints@[i].0 < checkpoints@[j].0,
            result.is_none() ==> r == nsteps + 1,
            result.is_some() ==> folds_from(
                forward,
                reverse,
                identity,
                x,
                nsteps as int,
                r as int,
                result.unwrap(),
            ),
        decreases r,
    {
        // Forward from the last retained state to the end of the
        // sub-problem, recording checkpoints where the schedule says.
        let lastpair = checkpoints[checkpoints.len() - 1];
        let last_idx = lastpair.0;
        let partial_r = r - last_idx;
        let partial_c = ncheckpoints - checkpoints.len();
        let sched = schedule(partial_c, partial_r);
        let ghost smap = sched@.map(|i: int, v: usize| v as int);
        proof {
            lemma_sched_props(partial_c as int, partial_r as int);
            assert(smap == sched_spec(partial_c as int, partial_r as int));
        }
        let ghost cps0 = checkpoints@;
        let mut current_i: usize = 0;
        let mut current_x = lastpair.1;
        let mut si: usize = 0;
        while si < sched.len()
            invariant
                si <= sched@.len(),
                current_i as int == if si == 0 {
                    0int
                } else {
                    smap[si as int - 1]
                },
                current_i <= partial_r - 1,
                advances(forward, x, current_x, last_idx + current_i),
                checkpoints@.len() == cps0.len() + si,
                forall|i: int| 0 <= i < cps0.len() ==> #[trigger] checkpoints@[i] == cps0[i],
                forall|i: int|
                    cps0.len() <= i < checkpoints@.len() ==> ((#[trigger] checkpoints@[i]).0 as int)
                        == last_idx + smap[i - cps0.len()] && advances(
                        forward,
                        x,
                        checkpoints@[i].1,
                        checkpoints@[i].0 as int,
                    ),
            decreases sched@.len() - si,
        {
            let cp_idx = sched[si];
            proof {
                assert(smap[si as int] == cp_idx as int);
                assert(1 <= smap[si as int] <= partial_r - 1);
                if si > 0 {
                    assert(smap[si as int - 1] < smap[si as int]);
                }
            }
            while current_i < cp_idx
                invariant
                    current_i <= cp_idx,
                    advances(forward, x, current_x, last_idx + current_i),
                decreases cp_idx - current_i,
            {
                proof {
                    assert(last_idx + current_i < nsteps) by {
                        assert(cp_idx as int <= partial_r - 1);
                        assert(last_idx + partial_r == r);
                        assert(r <= nsteps + 1);
                    }
                }
                let next = forward(current_x);
                proof {
                    assert(advances(forward, x, next, last_idx + current_i + 1));
                }
                current_x = next;
                current_i += 1;
            }
            checkpoints.push((last_idx + current_i, current_x));
            si += 1;
        }

        // Reverse the state at the end of the checkpoint list.
        proof {
            // The last retained state sits exactly at position r - 1.
            if sched@.len() == 0 {
                assert(!(partial_r as int > 1 && partial_c as int > 0));
                assert(partial_c >= 1);
                assert(partial_r == 1);
            } else {
                assert(checkpoints@.last().0 as int == last_idx + smap.last());
                assert(smap.last() == partial_r - 1);
            }
            assert(checkpoints@.last().0 as int == r - 1);
        }
        let popped = checkpoints.pop().unwrap();
        let cp_idx = popped.0;
        let cp = popped.1;
        proof {
            assert(cp_idx as int == r - 1);
            assert(advances(forward, x, cp, cp_idx as int));
        }
        result = match result {
            Some(acc) => {
                proof {
                    assert(folds_from(
                        forward,
                        reverse,
                        identity,
                        x,
                        nsteps as int,
                        r as int,
                        acc,
                    ));
                    assert(r as int <= nsteps as int);
                    assert(call_requires(reverse, (cp, acc)));
                }
                let folded = reverse(cp, acc);
                proof {
                    assert(folds_from(
                        forward,
                        reverse,
                        identity,
                        x,
                        nsteps as int,
                        r as int - 1,
                        folded,
                    ));
                }
                Some(folded)
            },
            None => {
                proof {
                    assert(cp_idx as int == nsteps as int);
                    assert(call_requires(identity, (cp,)));
                }
                let seeded = identity(cp);
                proof {
                    assert(folds_from(
                        forward,
                        reverse,
                        identity,
                        x,
                        nsteps as int,
                        nsteps as int,
                        seeded,
                    ));
                }
                Some(seeded)
            },
        };
        r -= 1;
    }
    result.unwrap()
}

/// The sum of the integers `j..=n` (zero for an empty range).
pub open spec fn range_sum(j: int, n: int) -> int
    decreases n - j + 1,
{
    if j > n || n - j + 1 < 0 {
        0
    } else {
        j + range_sum(j + 1, n)
    }
}

/// Every state reachable under a successor-step function is the start
/// plus the step count.
proof fn lemma_advances_succ<FW: Fn(u64) -> u64>(fw: FW, x: u64, t: u64, k: int)
    requires
        forall|a: u64, b: u64| #[trigger] call_ensures(fw, (a,), b) ==> b == a + 1,
        advances(fw, x, t, k),
        x + k <= u64::MAX,
    ensures
        t == x + k,
    decreases k,
{
    if k > 0 {
        let mid = choose|m: u64| advances(fw, x, m, k - 1) && #[trigger] call_ensures(fw, (m,), t);
        lemma_advances_succ(fw, x, mid, k - 1);
    }
}

/// A reverse fold of the successor orbit from zero under the addition
/// combiner and identity seed is the sum of the positions folded.
proof fn lemma_folds_sum<FW: Fn(u64) -> u64, RV: Fn(u64, u64) -> u64, ID: Fn(u64) -> u64>(
    fw: FW,
    rv: RV,
    id: ID,
    nsteps: int,
    j: int,
    acc: u64,
)
    requires
        forall|a: u64, b: u64| #[trigger] call_ensures(fw, (a,), b) ==> b == a + 1,
        forall|a: u64, b: u64, o: u64| #[trigger] call_ensures(rv, (a, b), o) ==> o == a + b,
        forall|a: u64, o: u64| #[trigger] call_ensures(id, (a,), o) ==> o == a,
        folds_from(fw, rv, id, 0u64, nsteps, j, acc),
        nsteps <= 0x7fff_ffff,
    ensures
        acc as int == range_sum(j, nsteps),
    decreases nsteps - j,
{
    if j == nsteps {
        let t = choose|t: u64| advances(fw, 0u64, t, nsteps) && #[trigger] call_ensures(id, (t,), acc);
        lemma_advances_succ(fw, 0u64, t, nsteps);
        assert(acc == t);
        assert(range_sum(nsteps + 1, nsteps) == 0);
        assert(range_sum(nsteps, nsteps) == nsteps);
    } else {
        let (t, acc2) = choose|t: u64, acc2: u64|
            advances(fw, 0u64, t, j) && folds_from(fw, rv, id, 0u64, nsteps, j + 1, acc2)
                && #[trigger] call_ensures(rv, (t, acc2), acc);
        lemma_advances_succ(fw, 0u64, t, j);
        lemma_folds_sum(fw, rv, id, nsteps, j + 1, acc2);
    }
}

/// The range sum is non-negative on non-negative ranges.
proof fn lemma_range_sum_nonneg(j: int, n: int)
    requires
        0 <= j,
    ensures
        range_sum(j, n) >= 0,
    decreases n - j + 1,
{
    if j <= n {
        lemma_range_sum_nonneg(j + 1, n);
    }
}

/// Dropping leading terms cannot grow the range sum.
proof fn lemma_range_sum_le(j: int, n: int)
    requires
        0 <= j,
    ensures
        range_sum(j, n) <= range_sum(0, n),
    decreases j,
{
    if j > 0 {
        lemma_range_sum_le(j - 1, n);
        if j - 1 <= n {
            lemma_range_sum_nonneg(j, n);
            assert(range_sum(j - 1, n) == (j - 1) + range_sum(j, n));
        } else {
            assert(range_sum(j, n) == 0);
            lemma_range_sum_nonneg(0, n);
        }
    }
}

/// Twice the range sum is the closed form `(n - j + 1) * (j + n)`.
proof fn lemma_range_sum_closed(j: int, n: int)
    requires
        0 <= j <= n + 1,
    ensures
        2 * range_sum(j, n) == (n - j + 1) * (j + n),
    decreases n - j + 1,
{
    if j > n {
        assert(range_sum(j, n) == 0);
        assert((n - j + 1) * (j + n) == 0) by (nonlinear_arith)
            requires j == n + 1;
    } else {
        lemma_range_sum_closed(j + 1, n);
        assert(2 * range_sum(j, n) == 2 * j + (n - j) * (j + 1 + n));
        assert(2 * j + (n - j) * (j + 1 + n) == (n - j + 1) * (j + n)) by (nonlinear_arith);
    }
}

/// Reversing the successor sequence `x -> x + 1` over `nsteps` steps from
/// seed `0` with the addition combiner yields the triangular number
/// `nsteps * (nsteps + 1) / 2`, whatever checkpoint budget (at least two)
/// is granted.
pub fn gauss_sum_reverse(nsteps: usize, ncheckpoints: usize) -> (r: u64)
    requires
        2 <= ncheckpoints <= isize::MAX as usize,
        nsteps <= 0x7fff_ffff,
        nsteps < isize::MAX as usize,
    ensures
        r as int == nsteps as int * (nsteps as int + 1) / 2,
{
    let fw = |t: u64| -> (out: u64)
        requires
            t < u64::MAX,
        ensures
            out == t + 1,
        { t + 1 };
    let rv = |a: u64, b: u64| -> (out: u64)
        requires
            a + b <= u64::MAX,
        ensures
            out == a + b,
        { a + b };
    let id = |a: u64| -> (out: u64)
        ensures
            out == a,
        { a };
    let n = nsteps;
    proof {
        let ni = n as int;
        lemma_range_sum_closed(0, ni);
        lemma_range_sum_nonneg(0, ni);
        assert((ni + 1) * ni <= 0x8000_0000 * (0x7fff_ffff as int + 1)) by (nonlinear_arith)
            requires ni <= 0x7fff_ffff && ni >= 0;
        assert(2 * range_sum(0, ni) <= 0x8000_0000 * 0x8000_0000);
        assert forall|k: int, t: u64| 0 <= k < n && #[trigger] advances(fw, 0u64, t, k)
            implies call_requires(fw, (t,)) by {
            lemma_advances_succ(fw, 0u64, t, k);
        }
        assert forall|t: u64| #[trigger] advances(fw, 0u64, t, ni) implies call_requires(
            id,
            (t,),
        ) by {
            lemma_advances_succ(fw, 0u64, t, ni);
        }
        assert forall|j: int, jj: int, t: u64, acc: u64|
            0 <= j < n && jj == j + 1 && #[trigger] advances(fw, 0u64, t, j)
                && #[trigger] folds_from(fw, rv, id, 0u64, ni, jj, acc) implies call_requires(
            rv,
            (t, acc),
        ) by {
            lemma_advances_succ(fw, 0u64, t, j);
            lemma_folds_sum(fw, rv, id, ni, j + 1, acc);
            lemma_range_sum_nonneg(j + 1, ni);
            lemma_range_sum_le(j, ni);
            assert(t as int + acc as int == range_sum(j, ni));
        }
    }
    let result = reverse_sequence(0u64, n, ncheckpoints, fw, rv, id);
    proof {
        lemma_folds_sum(fw, rv, id, n as int, 0, result);
        lemma_range_sum_closed(0, n as int);
        let ni = n as int;
        assert((ni - 0 + 1) * (0 + ni) == ni * (ni + 1)) by (nonlinear_arith);
        assert(2 * (result as int) == ni * (ni + 1));
        assert((2 * (result as int)) / 2 == result as int);
    }
    result
}

} // verus!
