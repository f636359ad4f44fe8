//! Dense row-major matrix and vector helpers over abstract scalars.
//!
//! The abs-normal decomposition and the generalized-Jacobian driver work
//! with small dense matrices materialized from matrix-free tape
//! evaluations.  A matrix is a vector of rows of equal length; every
//! helper's contract pins each entry of its result, with dot products
//! folded left-to-right exactly as the executable loops compute them.

use vstd::prelude::*;

use crate::scalar::Scalar;

verus! {

/// The rows of a row-major matrix, as sequences.
pub open spec fn mat_view<S>(m: Vec<Vec<S>>) -> Seq<Seq<S>> {
    m@.map(|i: int, r: Vec<S>| r@)
}

/// A sequence of rows forms a `rows` by `cols` matrix.
pub open spec fn is_matrix<S>(m: Seq<Seq<S>>, rows: int, cols: int) -> bool {
    m.len() == rows && forall|i: int| 0 <= i < rows ==> (#[trigger] m[i]).len() == cols
}

/// Column `j` of a matrix.
pub open spec fn col_seq<S>(m: Seq<Seq<S>>, j: int) -> Seq<S> {
    Seq::new(m.len(), |i: int| m[i][j])
}

/// The left-to-right dot product of the first `k` components.
pub open spec fn dot_spec<S: Scalar>(a: Seq<S>, b: Seq<S>, k: int) -> S
    decreases k,
{
    if k <= 0 {
        S::zero_spec()
    } else {
        S::add_spec(dot_spec(a, b, k - 1), S::mul_spec(a[k - 1], b[k - 1]))
    }
}

/// The pointwise absolute value of a vector.
pub open spec fn abs_seq<S: Scalar>(v: Seq<S>) -> Seq<S> {
    Seq::new(v.len(), |i: int| S::abs_spec(v[i]))
}

/// The unit vector of length `len` with a one in component `k`.
pub open spec fn unit_seq<S: Scalar>(len: nat, k: int) -> Seq<S> {
    Seq::new(len, |i: int| if i == k {
        S::one_spec()
    } else {
        S::zero_spec()
    })
}

/// Dot product of two vectors of equal length.
pub fn dot<S: Scalar>(a: &Vec<S>, b: &Vec<S>) -> (r: S)
    requires
        a@.len() == b@.len(),
    ensures
        r == dot_spec(a@, b@, a@.len() as int),
{
    let mut acc = S::zero();
    let n = a.len();
    let mut k: usize = 0;
    while k < n
        invariant
            k <= n,
            n == a@.len(),
            a@.len() == b@.len(),
            acc == dot_spec(a@, b@, k as int),
        decreases n - k,
    {
        acc = S::add(acc, S::mul(a[k], b[k]));
        k += 1;
    }
    acc
}

/// Matrix-vector product.
pub fn mat_vec_mul<S: Scalar>(m: &Vec<Vec<S>>, v: &Vec<S>) -> (r: Vec<S>)
    requires
        forall|i: int| 0 <= i < m@.len() ==> (#[trigger] m@[i])@.len() == v@.len(),
    ensures
        r@.len() == m@.len(),
        forall|i: int|
            0 <= i < m@.len() ==> #[trigger] r@[i] == dot_spec(m@[i]@, v@, v@.len() as int),
{
    let rows = m.len();
    let mut r: Vec<S> = Vec::new();
    let mut i: usize = 0;
    while i < rows
        invariant
            i <= rows,
            rows == m@.len(),
            forall|ii: int| 0 <= ii < m@.len() ==> (#[trigger] m@[ii])@.len() == v@.len(),
            r@.len() == i,
            forall|ii: int|
                0 <= ii < i ==> #[trigger] r@[ii] == dot_spec(m@[ii]@, v@, v@.len() as int),
        decreases rows - i,
    {
        let d = dot(&m[i], v);
        r.push(d);
        i += 1;
    }
    r
}

/// Pointwise difference of two vectors.
pub fn vec_sub<S: Scalar>(a: &Vec<S>, b: &Vec<S>) -> (r: Vec<S>)
    requires
        a@.len() == b@.len(),
    ensures
        r@.len() == a@.len(),
        forall|i: int| 0 <= i < a@.len() ==> #[trigger] r@[i] == S::sub_spec(a@[i], b@[i]),
{
    let n = a.len();
    let mut r: Vec<S> = Vec::new();
    let mut i: usize = 0;
    while i < n
        invariant
            i <= n,
            n == a@.len(),
            a@.len() == b@.len(),
            r@.len() == i,
            forall|j: int| 0 <= j < i ==> #[trigger] r@[j] == S::sub_spec(a@[j], b@[j]),
        decreases n - i,
    {
        r.push(S::sub(a[i], b[i]));
        i += 1;
    }
    r
}

/// Pointwise sum of two vectors.
pub fn vec_add<S: Scalar>(a: &Vec<S>, b: &Vec<S>) -> (r: Vec<S>)
    requires
        a@.len() == b@.len(),
    ensures
        r@.len() == a@.len(),
        forall|i: int| 0 <= i < a@.len() ==> #[trigger] r@[i] == S::add_spec(a@[i], b@[i]),
{
    let n = a.len();
    let mut r: Vec<S> = Vec::new();
    let mut i: usize = 0;
    while i < n
        invariant
            i <= n,
            n == a@.len(),
            a@.len() == b@.len(),
            r@.len() == i,
            forall|j: int| 0 <= j < i ==> #[trigger] r@[j] == S::add_spec(a@[j], b@[j]),
        decreases n - i,
    {
        r.push(S::add(a[i], b[i]));
        i += 1;
    }
    r
}

/// Pointwise negation of a vector.
pub fn vec_neg<S: Scalar>(a: &Vec<S>) -> (r: Vec<S>)
    ensures
        r@.len() == a@.len(),
        forall|i: int| 0 <= i < a@.len() ==> #[trigger] r@[i] == S::neg_spec(a@[i]),
{
    let n = a.len();
    let mut r: Vec<S> = Vec::new();
    let mut i: usize = 0;
    while i < n
        invariant
            i <= n,
            n == a@.len(),
            r@.len() == i,
            forall|j: int| 0 <= j < i ==> #[trigger] r@[j] == S::neg_spec(a@[j]),
        decreases n - i,
    {
        r.push(S::neg(a[i]));
        i += 1;
    }
    r
}

/// Pointwise absolute value of a vector.
pub fn vec_abs<S: Scalar>(a: &Vec<S>) -> (r: Vec<S>)
    ensures
        r@.len() == a@.len(),
        forall|i: int| 0 <= i < a@.len() ==> #[trigger] r@[i] == S::abs_spec(a@[i]),
{
    let n = a.len();
    let mut r: Vec<S> = Vec::new();
    let mut i: usize = 0;
    while i < n
        invariant
            i <= n,
            n == a@.len(),
            r@.len() == i,
            forall|j: int| 0 <= j < i ==> #[trigger] r@[j] == S::abs_spec(a@[j]),
        decreases n - i,
    {
        r.push(S::abs(a[i]));
        i += 1;
    }
    r
}

/// The unit vector of length `len` with a one in component `k`.
pub fn unit_vec<S: Scalar>(len: usize, k: usize) -> (r: Vec<S>)
    requires
        k < len,
    ensures
        r@ == unit_seq::<S>(len as nat, k as int),
{
    let mut r: Vec<S> = Vec::new();
    let mut i: usize = 0;
    while i < len
        invariant
            i <= len,
            r@.len() == i,
            forall|j: int|
                0 <= j < i ==> #[trigger] r@[j] == (if j == k {
                    S::one_spec()
                } else {
                    S::zero_spec()
                }),
        decreases len - i,
    {
        if i == k {
            r.push(S::one());
        } else {
            r.push(S::zero());
        }
        i += 1;
    }
    proof {
        assert(r@ =~= unit_seq::<S>(len as nat, k as int));
    }
    r
}

/// The identity matrix of size `k`.
pub fn identity_mat<S: Scalar>(k: usize) -> (r: Vec<Vec<S>>)
    ensures
        r@.len() == k,
        forall|i: int| 0 <= i < k ==> (#[trigger] r@[i])@ == unit_seq::<S>(k as nat, i),
{
    let mut r: Vec<Vec<S>> = Vec::new();
    let mut i: usize = 0;
    while i < k
        invariant
            i <= k,
            r@.len() == i,
            forall|j: int| 0 <= j < i ==> (#[trigger] r@[j])@ == unit_seq::<S>(k as nat, j),
        decreases k - i,
    {
        let row = unit_vec(k, i);
        r.push(row);
        i += 1;
    }
    r
}

/// Matrix product, each entry a left-to-right dot product of a row of
/// `a` with a column of `b`.
pub fn mat_mul<S: Scalar>(a: &Vec<Vec<S>>, b: &Vec<Vec<S>>, bcols: usize) -> (r: Vec<Vec<S>>)
    requires
        forall|i: int| 0 <= i < a@.len() ==> (#[trigger] a@[i])@.len() == b@.len(),
        forall|i: int| 0 <= i < b@.len() ==> (#[trigger] b@[i])@.len() == bcols,
    ensures
        r@.len() == a@.len(),
        forall|i: int| 0 <= i < r@.len() ==> (#[trigger] r@[i])@.len() == bcols,
        forall|i: int, j: int|
            #![trigger r@[i]@[j]]
            0 <= i < r@.len() && 0 <= j < bcols ==> r@[i]@[j] == dot_spec(
                a@[i]@,
                col_seq(mat_view(*b), j),
                b@.len() as int,
            ),
{
    let rows = a.len();
    let inner = b.len();
    let mut r: Vec<Vec<S>> = Vec::new();
    let mut i: usize = 0;
    while i < rows
        invariant
            i <= rows,
            rows == a@.len(),
            inner == b@.len(),
            forall|ii: int| 0 <= ii < a@.len() ==> (#[trigger] a@[ii])@.len() == b@.len(),
            forall|ii: int| 0 <= ii < b@.len() ==> (#[trigger] b@[ii])@.len() == bcols,
            r@.len() == i,
            forall|ii: int| 0 <= ii < i ==> (#[trigger] r@[ii])@.len() == bcols,
            forall|ii: int, j: int|
                #![trigger r@[ii]@[j]]
                0 <= ii < i && 0 <= j < bcols ==> r@[ii]@[j] == dot_spec(
                    a@[ii]@,
                    col_seq(mat_view(*b), j),
                    b@.len() as int,
                ),
        decreases rows - i,
    {
        let mut row: Vec<S> = Vec::new();
        let mut j: usize = 0;
        while j < bcols
            invariant
                j <= bcols,
                i < rows,
                rows == a@.len(),
                inner == b@.len(),
                forall|ii: int| 0 <= ii < a@.len() ==> (#[trigger] a@[ii])@.len() == b@.len(),
                forall|ii: int| 0 <= ii < b@.len() ==> (#[trigger] b@[ii])@.len() == bcols,
                row@.len() == j,
                forall|jj: int|
                    0 <= jj < j ==> #[trigger] row@[jj] == dot_spec(
                        a@[i as int]@,
                        col_seq(mat_view(*b), jj),
                        b@.len() as int,
                    ),
            decreases bcols - j,
        {
            let mut acc = S::zero();
            let mut k: usize = 0;
            while k < inner
                invariant
                    k <= inner,
                    i < rows,
                    j < bcols,
                    rows == a@.len(),
                    inner == b@.len(),
                    forall|ii: int| 0 <= ii < a@.len() ==> (#[trigger] a@[ii])@.len() == b@.len(),
                    forall|ii: int| 0 <= ii < b@.len() ==> (#[trigger] b@[ii])@.len() == bcols,
                    acc == dot_spec(a@[i as int]@, col_seq(mat_view(*b), j as int), k as int),
                decreases inner - k,
            {
                acc = S::add(acc, S::mul(a[i][k], b[k][j]));
                proof {
                    assert(col_seq(mat_view(*b), j as int)[k as int] == b@[k as int]@[j as int]);
                }
                k += 1;
            }
            row.push(acc);
            j += 1;
        }
        r.push(row);
        i += 1;
    }
    r
}

/// Copy a row-major matrix.
pub fn copy_mat<S: Scalar>(m: &Vec<Vec<S>>) -> (r: Vec<Vec<S>>)
    ensures
        r@.len() == m@.len(),
        forall|i: int| 0 <= i < m@.len() ==> (#[trigger] r@[i])@ == m@[i]@,
{
    let rows = m.len();
    let mut r: Vec<Vec<S>> = Vec::new();
    let mut i: usize = 0;
    while i < rows
        invariant
            i <= rows,
            rows == m@.len(),
            r@.len() == i,
            forall|ii: int| 0 <= ii < i ==> (#[trigger] r@[ii])@ == m@[ii]@,
        decreases rows - i,
    {
        let row = crate::tape::copy_vec(&m[i]);
        r.push(row);
        i += 1;
    }
    r
}

/// Matrix sum, pointwise.
pub fn mat_add<S: Scalar>(a: &Vec<Vec<S>>, b: &Vec<Vec<S>>) -> (r: Vec<Vec<S>>)
    requires
        a@.len() == b@.len(),
        forall|i: int| 0 <= i < a@.len() ==> (#[trigger] a@[i])@.len() == b@[i]@.len(),
    ensures
        r@.len() == a@.len(),
        forall|i: int| 0 <= i < r@.len() ==> (#[trigger] r@[i])@.len() == a@[i]@.len(),
        forall|i: int, j: int|
            #![trigger r@[i]@[j]]
            0 <= i < r@.len() && 0 <= j < a@[i]@.len() ==> r@[i]@[j] == S::add_spec(
                a@[i]@[j],
                b@[i]@[j],
            ),
{
    let rows = a.len();
    let mut r: Vec<Vec<S>> = Vec::new();
    let mut i: usize = 0;
    while i < rows
        invariant
            i <= rows,
            rows == a@.len(),
            a@.len() == b@.len(),
            forall|ii: int| 0 <= ii < a@.len() ==> (#[trigger] a@[ii])@.len() == b@[ii]@.len(),
            r@.len() == i,
            forall|ii: int| 0 <= ii < i ==> (#[trigger] r@[ii])@.len() == a@[ii]@.len(),
            forall|ii: int, j: int|
                #![trigger r@[ii]@[j]]
                0 <= ii < i && 0 <= j < a@[ii]@.len() ==> r@[ii]@[j] == S::add_spec(
                    a@[ii]@[j],
                    b@[ii]@[j],
                ),
        decreases rows - i,
    {
        let row = vec_add(&a[i], &b[i]);
        r.push(row);
        i += 1;
    }
    r
}

/// Scale the columns of a matrix by the components of `sigma`.
pub fn scale_cols<S: Scalar>(m: &Vec<Vec<S>>, sigma: &Vec<S>) -> (r: Vec<Vec<S>>)
    requires
        forall|i: int| 0 <= i < m@.len() ==> (#[trigger] m@[i])@.len() == sigma@.len(),
    ensures
        r@.len() == m@.len(),
        forall|i: int| 0 <= i < r@.len() ==> (#[trigger] r@[i])@.len() == sigma@.len(),
        forall|i: int, j: int|
            #![trigger r@[i]@[j]]
            0 <= i < r@.len() && 0 <= j < sigma@.len() ==> r@[i]@[j] == S::mul_spec(
                m@[i]@[j],
                sigma@[j],
            ),
{
    let rows = m.len();
    let cols = sigma.len();
    let mut r: Vec<Vec<S>> = Vec::new();
    let mut i: usize = 0;
    while i < rows
        invariant
            i <= rows,
            rows == m@.len(),
            cols == sigma@.len(),
            forall|ii: int| 0 <= ii < m@.len() ==> (#[trigger] m@[ii])@.len() == sigma@.len(),
            r@.len() == i,
            forall|ii: int| 0 <= ii < i ==> (#[trigger] r@[ii])@.len() == sigma@.len(),
            forall|ii: int, j: int|
                #![trigger r@[ii]@[j]]
                0 <= ii < i && 0 <= j < sigma@.len() ==> r@[ii]@[j] == S::mul_spec(
                    m@[ii]@[j],
                    sigma@[j],
                ),
        decreases rows - i,
    {
        let mut row: Vec<S> = Vec::new();
        let mut j: usize = 0;
        while j < cols
            invariant
                j <= cols,
                i < rows,
                rows == m@.len(),
                cols == sigma@.len(),
                forall|ii: int| 0 <= ii < m@.len() ==> (#[trigger] m@[ii])@.len() == sigma@.len(),
                row@.len() == j,
                forall|jj: int|
                    0 <= jj < j ==> #[trigger] row@[jj] == S::mul_spec(
                        m@[i as int]@[jj],
                        sigma@[jj],
                    ),
            decreases cols - j,
        {
            row.push(S::mul(m[i][j], sigma[j]));
            j += 1;
        }
        r.push(row);
        i += 1;
    }
    r
}

} // verus!
