//! Fractional Gaussian noise generator.
//!
//! Correlated Gaussian increments with a given long-memory (Hurst) exponent
//! are built from the stationary covariance kernel of discrete fractional
//! Gaussian noise: the covariance matrix over the grid is assembled from
//! the kernel, factorized by a lower-triangular (Cholesky) decomposition,
//! and multiplied against independent standard-normal draws; the result is
//! scaled by the per-step time increment raised to the Hurst exponent.
//!
//! The factorization must fail explicitly — never silently — when a
//! diagonal radicand fails to stay positive.

use vstd::prelude::*;

verus! {

use crate::Error;
use crate::fixed::{
    SCALE, FP_ONE, sat64, tdiv, fp_add_spec, fp_sub_spec, fp_mul_spec, fp_div_spec, fp_sqrt_spec,
    pow_fp_spec, is_isqrt, fp_add, fp_sub, fp_mul, fp_div, fp_sqrt, pow_fp, clamp_signed,
};
use crate::fixed::{lemma_pow_one, lemma_mul_zero, lemma_mul_one, lemma_sqrt_floor};
use crate::rng::{normal_at, normal_series, lcg_iter, lemma_lcg_iter_range, lemma_normal_range};

/// The largest step count the generator accepts: the covariance matrix is
/// quadratic in the step count, so larger grids are out of reach of memory
/// long before this bound.
pub const MAX_STEPS: usize = 1073741824;

/// The view of a matrix held as a vector of rows.
pub open spec fn mat_view(a: Seq<Vec<i64>>) -> Seq<Seq<i64>> {
    Seq::new(a.len(), |i: int| a[i]@)
}

/// Saturating fixed-point dot product of the first `k` entries of two
/// sequences.
pub open spec fn dot_spec(x: Seq<i64>, y: Seq<i64>, k: nat) -> int
    decreases k,
{
    if k == 0 {
        0
    } else {
        fp_add_spec(
            dot_spec(x, y, (k - 1) as nat),
            fp_mul_spec(x[k - 1] as int, y[k - 1] as int),
        )
    }
}

/// The same fold over unbounded-integer sequences.
pub open spec fn dot_int(x: Seq<int>, y: Seq<int>, k: nat) -> int
    decreases k,
{
    if k == 0 {
        0
    } else {
        fp_add_spec(dot_int(x, y, (k - 1) as nat), fp_mul_spec(x[k - 1], y[k - 1]))
    }
}

/// The same fold of a row against the standard-normal series of a seed.
pub open spec fn dot_z(x: Seq<int>, seed: int, k: nat) -> int
    decreases k,
{
    if k == 0 {
        0
    } else {
        fp_add_spec(dot_z(x, seed, (k - 1) as nat), fp_mul_spec(x[k - 1], normal_at(seed, (k - 1) as nat)))
    }
}

proof fn lemma_dot_match(x: Seq<i64>, y: Seq<i64>, xs: Seq<int>, ys: Seq<int>, k: nat)
    requires
        forall|m: int| 0 <= m < k ==> x[m] as int == xs[m],
        forall|m: int| 0 <= m < k ==> y[m] as int == ys[m],
    ensures
        dot_spec(x, y, k) == dot_int(xs, ys, k),
    decreases k,
{
    if k > 0 {
        lemma_dot_match(x, y, xs, ys, (k - 1) as nat);
    }
}

proof fn lemma_dot_match_z(x: Seq<i64>, z: Seq<i64>, xs: Seq<int>, seed: int, k: nat)
    requires
        forall|m: int| 0 <= m < k ==> x[m] as int == xs[m],
        forall|m: int| 0 <= m < k ==> z[m] as int == normal_at(seed, m as nat),
    ensures
        dot_spec(x, z, k) == dot_z(xs, seed, k),
    decreases k,
{
    if k > 0 {
        lemma_dot_match_z(x, z, xs, seed, (k - 1) as nat);
    }
}

/// Saturating fixed-point dot product of the first `k` entries.
fn dot_prefix(x: &Vec<i64>, y: &Vec<i64>, k: usize) -> (r: i64)
    requires
        k <= x@.len(),
        k <= y@.len(),
    ensures
        r as int == dot_spec(x@, y@, k as nat),
{
    let mut acc: i64 = 0;
    let mut m: usize = 0;
    while m < k
        invariant
            m <= k,
            k <= x@.len(),
            k <= y@.len(),
            acc as int == dot_spec(x@, y@, m as nat),
        decreases k - m,
    {
        acc = fp_add(acc, fp_mul(x[m], y[m]));
        m = m + 1;
    }
    acc
}

/// The lag `k` value of `x^(2H)` over the grid: `(k * 1)^(2H)` in fixed
/// point, where the base is the integer lag.
pub open spec fn powk_spec(k: nat, twoh: int) -> int {
    pow_fp_spec(k * SCALE as int, twoh)
}

/// The stationary covariance kernel of discrete fractional Gaussian noise
/// at integer lag `k` for Hurst exponent `hurst`:
/// `((k+1)^(2H) - 2 k^(2H) + (k-1)^(2H)) / 2`, and one at lag zero.
pub open spec fn kernel_spec(hurst: int, k: nat) -> int {
    let twoh = 2 * hurst;
    if k == 0 {
        FP_ONE as int
    } else {
        sat64(
            tdiv(
                powk_spec((k + 1) as nat, twoh) + powk_spec((k - 1) as nat, twoh) - 2 * powk_spec(
                    k,
                    twoh,
                ),
                2,
            ),
        )
    }
}

/// `(a + c - 2b) / 2`, truncated toward zero and saturated.
fn half_comb(a: i64, b: i64, c: i64) -> (r: i64)
    ensures
        r as int == sat64(tdiv(a + c - 2 * (b as int), 2)),
{
    let t: i128 = a as i128 + c as i128 - 2 * (b as i128);
    if t >= 0 {
        let m: u128 = (t as u128) / 2;
        clamp_signed(m, false)
    } else {
        let w: i128 = -t;
        let m: u128 = (w as u128) / 2;
        proof {
            assert(tdiv(a + c - 2 * (b as int), 2) == -(m as int));
        }
        clamp_signed(m, true)
    }
}

/// The covariance kernel at integer lag `k`.
fn kernel_at(hurst: i64, k: usize) -> (r: i64)
    requires
        0 <= hurst <= FP_ONE,
        k <= MAX_STEPS,
    ensures
        r as int == kernel_spec(hurst as int, k as nat),
{
    if k == 0 {
        return FP_ONE;
    }
    let twoh: i64 = 2 * hurst;
    let up: i64 = ((k + 1) as i64) * SCALE;
    let at: i64 = (k as i64) * SCALE;
    let dn: i64 = ((k - 1) as i64) * SCALE;
    let a = pow_fp(up, twoh);
    let b = pow_fp(at, twoh);
    let c = pow_fp(dn, twoh);
    half_comb(a, b, c)
}

/// The covariance matrix of the fractional noise over `n` grid steps:
/// entry `(i, j)` is the kernel at lag `|i - j|`.
pub open spec fn cov_seq(hurst: int, n: nat) -> Seq<Seq<i64>> {
    Seq::new(n, |i: int| Seq::new(n, |j: int| kernel_spec(hurst, lag(i, j)) as i64))
}

/// The integer distance between two indices.
pub open spec fn lag(i: int, j: int) -> nat {
    if i >= j {
        (i - j) as nat
    } else {
        (j - i) as nat
    }
}

/// Builds the covariance matrix of the fractional noise over `n` steps.
pub fn fgn_covariance(hurst: i64, n: usize) -> (r: Vec<Vec<i64>>)
    requires
        0 <= hurst <= FP_ONE,
        n <= MAX_STEPS,
    ensures
        r@.len() == n,
        forall|i: int| 0 <= i < n ==> (#[trigger] r@[i])@.len() == n,
        forall|i: int, j: int|
            0 <= i < n && 0 <= j < n ==> (#[trigger] r@[i]@[j]) as int == kernel_spec(
                hurst as int,
                lag(i, j),
            ),
{
    let mut kern: Vec<i64> = Vec::new();
    while kern.len() < n
        invariant
            0 <= hurst <= FP_ONE,
            n <= MAX_STEPS,
            kern@.len() <= n,
            forall|d: int| 0 <= d < kern@.len() ==> (#[trigger] kern@[d]) as int == kernel_spec(
                hurst as int,
                d as nat,
            ),
        decreases n - kern@.len(),
    {
        let v = kernel_at(hurst, kern.len());
        kern.push(v);
    }
    let mut r: Vec<Vec<i64>> = Vec::new();
    let mut i: usize = 0;
    while i < n
        invariant
            i <= n,
            kern@.len() == n,
            forall|d: int| 0 <= d < n ==> (#[trigger] kern@[d]) as int == kernel_spec(
                hurst as int,
                d as nat,
            ),
            r@.len() == i,
            forall|ii: int| 0 <= ii < i ==> (#[trigger] r@[ii])@.len() == n,
            forall|ii: int, j: int|
                0 <= ii < i && 0 <= j < n ==> (#[trigger] r@[ii]@[j]) as int == kernel_spec(
                    hurst as int,
                    lag(ii, j),
                ),
        decreases n - i,
    {
        let mut row: Vec<i64> = Vec::new();
        let mut j: usize = 0;
        while j < n
            invariant
                i < n,
                j <= n,
                kern@.len() == n,
                forall|d: int| 0 <= d < n ==> (#[trigger] kern@[d]) as int == kernel_spec(
                    hurst as int,
                    d as nat,
                ),
                row@.len() == j,
                forall|jj: int| 0 <= jj < j ==> (#[trigger] row@[jj]) as int == kernel_spec(
                    hurst as int,
                    lag(i as int, jj),
                ),
            decreases n - j,
        {
            let d = if i >= j {
                i - j
            } else {
                j - i
            };
            row.push(kern[d]);
            j = j + 1;
        }
        r.push(row);
        i = i + 1;
    }
    r
}

/// The first `k` entries of row `i` of the Cholesky factor, given the rows
/// above it. Entry `j < i` divides the off-diagonal residual by the pivot
/// of row `j`; entry `i` takes the square root of the diagonal radicand.
pub open spec fn chol_row_k(a: Seq<Seq<i64>>, prev: Seq<Seq<int>>, i: nat, k: nat) -> Seq<int>
    decreases k,
{
    if k == 0 {
        Seq::empty()
    } else {
        let row = chol_row_k(a, prev, i, (k - 1) as nat);
        let j = (k - 1) as int;
        let e = if j < i {
            fp_div_spec(
                fp_sub_spec(a[i as int][j] as int, dot_int(row, prev[j], (k - 1) as nat)),
                prev[j][j],
            )
        } else {
            fp_sqrt_spec(fp_sub_spec(a[i as int][i as int] as int, dot_int(row, row, (k - 1) as nat)))
        };
        row.push(e)
    }
}

/// The rows of the Cholesky factor of the leading `n x n` block.
pub open spec fn chol_rows(a: Seq<Seq<i64>>, n: nat) -> Seq<Seq<int>>
    decreases n,
{
    if n == 0 {
        Seq::empty()
    } else {
        let prev = chol_rows(a, (n - 1) as nat);
        prev.push(chol_row_k(a, prev, (n - 1) as nat, n))
    }
}

/// The diagonal radicand of row `i`: what remains of `a[i][i]` after
/// removing the squares of the row prefix. The factorization is defined
/// exactly when every radicand is positive.
pub open spec fn chol_rad(a: Seq<Seq<i64>>, i: nat) -> int {
    let prev = chol_rows(a, i);
    let row = chol_row_k(a, prev, i, i);
    fp_sub_spec(a[i as int][i as int] as int, dot_int(row, row, i))
}

/// Whether the factorization of the leading `n x n` block succeeds.
pub open spec fn chol_ok(a: Seq<Seq<i64>>, n: nat) -> bool {
    forall|j: nat| j < n ==> #[trigger] chol_rad(a, j) > 0
}

proof fn lemma_chol_row_k_len(a: Seq<Seq<i64>>, prev: Seq<Seq<int>>, i: nat, k: nat)
    ensures
        chol_row_k(a, prev, i, k).len() == k,
    decreases k,
{
    if k > 0 {
        lemma_chol_row_k_len(a, prev, i, (k - 1) as nat);
    }
}

proof fn lemma_chol_row_k_prefix(a: Seq<Seq<i64>>, prev: Seq<Seq<int>>, i: nat, k1: nat, k2: nat)
    requires
        k1 <= k2,
    ensures
        forall|jj: int|
            0 <= jj < k1 ==> chol_row_k(a, prev, i, k1)[jj] == chol_row_k(a, prev, i, k2)[jj],
    decreases k2,
{
    if k1 < k2 && k2 > 0 {
        lemma_chol_row_k_prefix(a, prev, i, k1, (k2 - 1) as nat);
        lemma_chol_row_k_len(a, prev, i, (k2 - 1) as nat);
    }
}

proof fn lemma_chol_rows_len(a: Seq<Seq<i64>>, n: nat)
    ensures
        chol_rows(a, n).len() == n,
        forall|i: int| 0 <= i < n ==> (#[trigger] chol_rows(a, n)[i]).len() == i + 1,
    decreases n,
{
    if n > 0 {
        lemma_chol_rows_len(a, (n - 1) as nat);
        lemma_chol_row_k_len(a, chol_rows(a, (n - 1) as nat), (n - 1) as nat, n);
    }
}

proof fn lemma_chol_rows_prefix(a: Seq<Seq<i64>>, n1: nat, n2: nat)
    requires
        n1 <= n2,
    ensures
        forall|i: int| 0 <= i < n1 ==> chol_rows(a, n1)[i] == chol_rows(a, n2)[i],
    decreases n2,
{
    if n1 < n2 && n2 > 0 {
        lemma_chol_rows_prefix(a, n1, (n2 - 1) as nat);
        lemma_chol_rows_len(a, (n2 - 1) as nat);
    }
}

/// Lower-triangular (Cholesky) factorization of a square matrix.
///
/// On success the returned rows satisfy the factorization recurrence
/// exactly; the factorization fails explicitly, with
/// `Error::NumericalInstability`, exactly when some diagonal radicand
/// fails to stay positive.
pub fn cholesky(a: &Vec<Vec<i64>>) -> (r: Result<Vec<Vec<i64>>, Error>)
    requires
        forall|i: int| 0 <= i < a@.len() ==> (#[trigger] a@[i])@.len() == a@.len(),
    ensures
        match r {
            Ok(l) => {
                &&& chol_ok(mat_view(a@), a@.len() as nat)
                &&& l@.len() == a@.len()
                &&& forall|i: int| 0 <= i < l@.len() ==> (#[trigger] l@[i])@.len() == a@.len()
                &&& forall|i: int, j: int|
                    0 <= i < l@.len() && 0 <= j <= i ==> (#[trigger] l@[i]@[j]) as int == chol_rows(
                        mat_view(a@),
                        a@.len() as nat,
                    )[i][j]
                &&& forall|i: int, j: int|
                    0 <= i < l@.len() && i < j < l@.len() ==> (#[trigger] l@[i]@[j]) == 0
                &&& forall|i: int| 0 <= i < l@.len() ==> (#[trigger] l@[i]@[i]) >= 1
            },
            Err(e) => e == Error::NumericalInstability && !chol_ok(mat_view(a@), a@.len() as nat),
        },
{
    let n = a.len();
    let ghost av = mat_view(a@);
    let mut l: Vec<Vec<i64>> = Vec::new();
    let mut i: usize = 0;
    while i < n
        invariant
            i <= n,
            n == a@.len(),
            av == mat_view(a@),
            forall|ii: int| 0 <= ii < n ==> (#[trigger] a@[ii])@.len() == n,
            l@.len() == i,
            forall|ii: int| 0 <= ii < i ==> (#[trigger] l@[ii])@.len() == n,
            forall|ii: int, jj: int|
                0 <= ii < i && 0 <= jj <= ii ==> (#[trigger] l@[ii]@[jj]) as int == chol_rows(
                    av,
                    i as nat,
                )[ii][jj],
            forall|ii: int, jj: int| 0 <= ii < i && ii < jj < n ==> (#[trigger] l@[ii]@[jj]) == 0,
            forall|ii: int| 0 <= ii < i ==> (#[trigger] l@[ii]@[ii]) >= 1,
            forall|jj: nat| jj < i ==> #[trigger] chol_rad(av, jj) > 0,
        decreases n - i,
    {
        let ghost prev = chol_rows(av, i as nat);
        proof {
            lemma_chol_rows_len(av, i as nat);
        }
        let mut row: Vec<i64> = Vec::new();
        let mut j: usize = 0;
        while j < i
            invariant
                j <= i,
                i < n,
                n == a@.len(),
                av == mat_view(a@),
                prev == chol_rows(av, i as nat),
                forall|ii: int| 0 <= ii < n ==> (#[trigger] a@[ii])@.len() == n,
                l@.len() == i,
                forall|ii: int| 0 <= ii < i ==> (#[trigger] l@[ii])@.len() == n,
                forall|ii: int, jj: int|
                    0 <= ii < i && 0 <= jj <= ii ==> (#[trigger] l@[ii]@[jj]) as int == prev[ii][jj],
                forall|ii: int| 0 <= ii < i ==> (#[trigger] l@[ii]@[ii]) >= 1,
                prev.len() == i,
                forall|ii: int| 0 <= ii < i ==> (#[trigger] prev[ii]).len() == ii + 1,
                row@.len() == j,
                forall|jj: int|
                    0 <= jj < j ==> (#[trigger] row@[jj]) as int == chol_row_k(
                        av,
                        prev,
                        i as nat,
                        i as nat,
                    )[jj],
            decreases i - j,
        {
            let ghost rowk_i = chol_row_k(av, prev, i as nat, i as nat);
            let ghost rowk_j = chol_row_k(av, prev, i as nat, j as nat);
            proof {
                lemma_chol_row_k_len(av, prev, i as nat, i as nat);
                lemma_chol_row_k_len(av, prev, i as nat, j as nat);
                lemma_chol_row_k_prefix(av, prev, i as nat, j as nat, i as nat);
                lemma_dot_match(row@, l@[j as int]@, rowk_j, prev[j as int], j as nat);
            }
            let lj = &l[j];
            let s = dot_prefix(&row, lj, j);
            let ai = &a[i];
            let num = fp_sub(ai[j], s);
            let piv = lj[j];
            let e = fp_div(num, piv);
            proof {
                lemma_chol_row_k_len(av, prev, i as nat, (j + 1) as nat);
                lemma_chol_row_k_prefix(av, prev, i as nat, (j + 1) as nat, i as nat);
                assert(av[i as int][j as int] == a@[i as int]@[j as int]);
                assert(prev[j as int][j as int] == l@[j as int]@[j as int] as int);
                assert(rowk_i[j as int] == fp_div_spec(
                    fp_sub_spec(av[i as int][j as int] as int, dot_int(rowk_j, prev[j as int], j as nat)),
                    prev[j as int][j as int],
                ));
            }
            row.push(e);
            j = j + 1;
        }
        // Diagonal radicand of row i.
        let ghost rowk_i = chol_row_k(av, prev, i as nat, i as nat);
        proof {
            lemma_chol_row_k_len(av, prev, i as nat, i as nat);
            lemma_dot_match(row@, row@, rowk_i, rowk_i, i as nat);
            assert(av[i as int][i as int] == a@[i as int]@[i as int]);
        }
        let s = dot_prefix(&row, &row, i);
        let ai = &a[i];
        let rad = fp_sub(ai[i], s);
        proof {
            assert(rad as int == chol_rad(av, i as nat));
        }
        if rad <= 0 {
            proof {
                assert(!chol_ok(av, n as nat));
            }
            return Err(Error::NumericalInstability);
        }
        let d = fp_sqrt(rad);
        proof {
            assert(d >= 1) by {
                assert(rad as int * SCALE as int >= SCALE as int) by (nonlinear_arith)
                    requires
                        rad >= 1,
                ;
                assert(is_isqrt(rad as int * SCALE as int, d as int));
                if d == 0 {
                    assert((d as int + 1) * (d as int + 1) == 1) by (nonlinear_arith)
                        requires
                            d == 0,
                    ;
                    assert(false);
                }
            }
            lemma_chol_row_k_len(av, prev, i as nat, (i + 1) as nat);
            lemma_chol_row_k_prefix(av, prev, i as nat, i as nat, (i + 1) as nat);
            assert(chol_row_k(av, prev, i as nat, (i + 1) as nat)[i as int] == fp_sqrt_spec(
                fp_sub_spec(av[i as int][i as int] as int, dot_int(rowk_i, rowk_i, i as nat)),
            ));
        }
        row.push(d);
        // Zero padding above the diagonal.
        while row.len() < n
            invariant
                i < n <= usize::MAX,
                row@.len() >= i + 1,
                row@.len() <= n,
                forall|jj: int|
                    0 <= jj <= i ==> (#[trigger] row@[jj]) as int == chol_row_k(
                        av,
                        prev,
                        i as nat,
                        (i + 1) as nat,
                    )[jj],
                forall|jj: int| i < jj < row@.len() ==> (#[trigger] row@[jj]) == 0,
                row@[i as int] >= 1,
            decreases n - row@.len(),
        {
            row.push(0);
        }
        proof {
            assert(chol_rows(av, (i + 1) as nat) == prev.push(
                chol_row_k(av, prev, i as nat, (i + 1) as nat),
            ));
            lemma_chol_rows_prefix(av, i as nat, (i + 1) as nat);
            lemma_chol_row_k_prefix(av, prev, i as nat, i as nat, (i + 1) as nat);
        }
        l.push(row);
        i = i + 1;
    }
    proof {
        lemma_chol_rows_prefix(av, i as nat, n as nat);
    }
    Ok(l)
}

/// Applies the factor to a draw vector: entry `i` is the scaled dot
/// product of row `i` against the draws.
fn correlate(l: &Vec<Vec<i64>>, z: &Vec<i64>, scale: i64) -> (r: Vec<i64>)
    requires
        z@.len() == l@.len(),
        forall|i: int| 0 <= i < l@.len() ==> (#[trigger] l@[i])@.len() == l@.len(),
    ensures
        r@.len() == l@.len(),
        forall|i: int|
            0 <= i < l@.len() ==> (#[trigger] r@[i]) as int == fp_mul_spec(
                scale as int,
                dot_spec(l@[i]@, z@, z@.len() as nat),
            ),
{
    let n = l.len();
    let mut r: Vec<i64> = Vec::new();
    let mut i: usize = 0;
    while i < n
        invariant
            i <= n,
            n == l@.len(),
            z@.len() == n,
            forall|ii: int| 0 <= ii < n ==> (#[trigger] l@[ii])@.len() == n,
            r@.len() == i,
            forall|ii: int|
                0 <= ii < i ==> (#[trigger] r@[ii]) as int == fp_mul_spec(
                    scale as int,
                    dot_spec(l@[ii]@, z@, n as nat),
                ),
        decreases n - i,
    {
        let li = &l[i];
        let d = dot_prefix(li, z, n);
        r.push(fp_mul(scale, d));
        i = i + 1;
    }
    r
}

/// The per-step time increment implied by `horizon / steps`.
pub open spec fn fgn_dt(horizon: int, n: nat) -> int {
    tdiv(horizon, n as int)
}

/// The amplitude of the noise: the per-step increment raised to the Hurst
/// exponent.
pub open spec fn fgn_scale(hurst: int, horizon: int, n: nat) -> int {
    pow_fp_spec(fgn_dt(horizon, n), hurst)
}

/// Row `i` of the triangular factor, padded with zeros up to length `n`.
pub open spec fn padded_row(lrows: Seq<Seq<int>>, i: int, n: nat) -> Seq<int> {
    Seq::new(n, |j: int| if j <= i { lrows[i][j] } else { 0 })
}

/// Entry `i` of the correlated noise series: the scaled dot product of
/// row `i` of the Cholesky factor of the covariance against the
/// standard-normal draws of `seed`.
pub open spec fn fgn_at(hurst: int, n: nat, horizon: int, seed: int, i: int) -> int {
    fp_mul_spec(
        fgn_scale(hurst, horizon, n),
        dot_z(padded_row(chol_rows(cov_seq(hurst, n), n), i, n), seed, n),
    )
}

/// Whether the noise generator rejects these parameters outright.
pub open spec fn fgn_invalid(hurst: int, steps: nat, horizon: int) -> bool {
    hurst < 0 || hurst > FP_ONE || steps == 0 || horizon <= 0
}

/// One realization of correlated fractional Gaussian noise of length
/// `steps` over a horizon, drawn deterministically from `seed`.
///
/// The series is the Cholesky factor of the fractional covariance applied
/// to independent standard-normal draws, scaled by `(horizon/steps)^H`.
/// Invalid parameters are rejected before any work; a factorization
/// failure surfaces as `Error::NumericalInstability`, never as a fallback
/// value.
pub fn fgn(hurst: i64, steps: usize, horizon: i64, seed: u64) -> (r: Result<Vec<i64>, Error>)
    requires
        steps <= MAX_STEPS,
    ensures
        match r {
            Ok(v) => {
                &&& !fgn_invalid(hurst as int, steps as nat, horizon as int)
                &&& chol_ok(cov_seq(hurst as int, steps as nat), steps as nat)
                &&& v@.len() == steps
                &&& forall|i: int|
                    0 <= i < steps ==> (#[trigger] v@[i]) as int == fgn_at(
                        hurst as int,
                        steps as nat,
                        horizon as int,
                        seed as int,
                        i,
                    )
            },
            Err(e) => {
                &&& (fgn_invalid(hurst as int, steps as nat, horizon as int) <==> e
                    == Error::InvalidParameter)
                &&& (!fgn_invalid(hurst as int, steps as nat, horizon as int) ==> e
                    == Error::NumericalInstability && !chol_ok(
                    cov_seq(hurst as int, steps as nat),
                    steps as nat,
                ))
            },
        },
        r is Err <==> (fgn_invalid(hurst as int, steps as nat, horizon as int) || !chol_ok(
            cov_seq(hurst as int, steps as nat),
            steps as nat,
        )),
{
    if hurst < 0 || hurst > FP_ONE || steps == 0 || horizon <= 0 {
        return Err(Error::InvalidParameter);
    }
    let cov = fgn_covariance(hurst, steps);
    proof {
        assert(mat_view(cov@) =~~= cov_seq(hurst as int, steps as nat));
    }
    let lr = cholesky(&cov);
    let lmat: Vec<Vec<i64>> = match lr {
        Ok(v) => v,
        Err(e) => {
            return Err(e);
        },
    };
    let dtu: u64 = (horizon as u64) / (steps as u64);
    proof {
        vstd::arithmetic::div_mod::lemma_fundamental_div_mod(horizon as int, steps as int);
        assert((horizon as int / steps as int) * steps as int <= horizon as int) by (nonlinear_arith)
            requires
                horizon as int == (horizon as int / steps as int) * steps as int + (horizon as int
                    % steps as int),
                horizon as int % steps as int >= 0,
        ;
        assert(horizon as int / steps as int <= (horizon as int / steps as int) * steps as int)
            by (nonlinear_arith)
            requires
                steps >= 1,
                horizon as int / steps as int >= 0,
        ;
    }
    let dt: i64 = dtu as i64;
    let scale = pow_fp(dt, hurst);
    let z = normal_series(seed, steps);
    let out = correlate(&lmat, &z, scale);
    proof {
        let n = steps as nat;
        let rows = chol_rows(cov_seq(hurst as int, n), n);
        assert forall|i: int| 0 <= i < steps implies (#[trigger] out@[i]) as int == fgn_at(
            hurst as int,
            n,
            horizon as int,
            seed as int,
            i,
        ) by {
            lemma_dot_match_z(lmat@[i]@, z@, padded_row(rows, i, n), seed as int, n);
        }
    }
    Ok(out)
}

/// The Hurst exponent of standard Brownian motion (one half), in fixed
/// point.
pub const BROWNIAN_HURST: i64 = 2147483648;

/// At a Hurst exponent of one half the covariance kernel degenerates to
/// the identity kernel: unit variance at lag zero, no correlation at any
/// positive lag.
pub proof fn lemma_kernel_brownian(k: nat)
    requires
        k < MAX_STEPS,
    ensures
        kernel_spec(BROWNIAN_HURST as int, k) == if k == 0 {
            FP_ONE as int
        } else {
            0
        },
{
    if k > 0 {
        assert(0 <= (k - 1) * SCALE as int && (k + 1) * SCALE as int <= i64::MAX as int && k
            * SCALE as int <= i64::MAX as int && (k - 1) * SCALE as int <= i64::MAX as int)
            by (nonlinear_arith)
            requires
                1 <= k < 1073741824 && SCALE == 4294967296,
        ;
        lemma_pow_one((k + 1) * SCALE as int);
        lemma_pow_one(k as int * SCALE as int);
        lemma_pow_one((k - 1) * SCALE as int);
        assert((k + 1) * SCALE as int + (k - 1) * SCALE as int - 2 * (k as int * SCALE as int)
            == 0) by (nonlinear_arith);
        lemma_mul_zero(2);
    }
}

/// Whether a square matrix of scalars is the identity at the fixed-point
/// scale.
pub open spec fn is_identity(a: Seq<Seq<i64>>, n: nat) -> bool {
    &&& a.len() == n
    &&& forall|r: int| 0 <= r < n ==> (#[trigger] a[r]).len() == n
    &&& forall|r: int, c: int|
        0 <= r < n && 0 <= c < n ==> (#[trigger] a[r][c]) == if r == c {
            FP_ONE
        } else {
            0i64
        }
}

proof fn lemma_dot_zero(x: Seq<int>, y: Seq<int>, k: nat)
    requires
        forall|m: int| 0 <= m < k ==> x[m] == 0,
    ensures
        dot_int(x, y, k) == 0,
    decreases k,
{
    if k > 0 {
        lemma_dot_zero(x, y, (k - 1) as nat);
        crate::fixed::lemma_mul_zero(y[k - 1]);
    }
}

proof fn lemma_sqrt_one()
    ensures
        fp_sqrt_spec(FP_ONE as int) == SCALE as int,
{
    assert(FP_ONE as int * SCALE as int == 0x10000000000000000 && SCALE as int * SCALE as int
        == 0x10000000000000000 && (SCALE as int + 1) * (SCALE as int + 1)
        > 0x10000000000000000) by (nonlinear_arith)
        requires
            SCALE == 4294967296 && FP_ONE == 4294967296,
    ;
    lemma_sqrt_floor(FP_ONE as int * SCALE as int, SCALE as int);
}

proof fn lemma_chol_row_brownian(a: Seq<Seq<i64>>, prev: Seq<Seq<int>>, i: nat, k: nat)
    requires
        is_identity(a, a.len()),
        i < a.len(),
        k <= i + 1,
        prev.len() == i,
        forall|r: int| 0 <= r < i ==> (#[trigger] prev[r]).len() == r + 1,
        forall|r: int, c: int|
            0 <= r < i && 0 <= c <= r ==> (#[trigger] prev[r][c]) == if c == r {
                FP_ONE as int
            } else {
                0
            },
    ensures
        forall|j: int|
            0 <= j < k ==> (#[trigger] chol_row_k(a, prev, i, k)[j]) == if j == i {
                FP_ONE as int
            } else {
                0
            },
    decreases k,
{
    lemma_chol_row_k_len(a, prev, i, k);
    if k > 0 {
        lemma_chol_row_brownian(a, prev, i, (k - 1) as nat);
        lemma_chol_row_k_len(a, prev, i, (k - 1) as nat);
        let row = chol_row_k(a, prev, i, (k - 1) as nat);
        let j = (k - 1) as int;
        if j < i {
            lemma_dot_zero(row, prev[j], (k - 1) as nat);
            assert(a[i as int][j] == 0i64);
            crate::fixed::lemma_mul_zero(prev[j][j]);
        } else {
            lemma_dot_zero(row, row, (k - 1) as nat);
            assert(a[i as int][i as int] == FP_ONE);
            lemma_sqrt_one();
        }
    }
}

proof fn lemma_chol_rows_brownian(a: Seq<Seq<i64>>, n: nat)
    requires
        is_identity(a, a.len()),
        n <= a.len(),
    ensures
        chol_rows(a, n).len() == n,
        forall|r: int| 0 <= r < n ==> (#[trigger] chol_rows(a, n)[r]).len() == r + 1,
        forall|r: int, c: int|
            0 <= r < n && 0 <= c <= r ==> (#[trigger] chol_rows(a, n)[r][c]) == if c == r {
                FP_ONE as int
            } else {
                0
            },
        forall|j: nat| j < n ==> #[trigger] chol_rad(a, j) == FP_ONE as int,
    decreases n,
{
    lemma_chol_rows_len(a, n);
    if n > 0 {
        lemma_chol_rows_brownian(a, (n - 1) as nat);
        let prev = chol_rows(a, (n - 1) as nat);
        lemma_chol_row_brownian(a, prev, (n - 1) as nat, n);
        lemma_chol_row_k_len(a, prev, (n - 1) as nat, n);
        lemma_chol_rows_prefix(a, (n - 1) as nat, n);
        lemma_chol_row_brownian(a, prev, (n - 1) as nat, (n - 1) as nat);
        lemma_chol_row_k_len(a, prev, (n - 1) as nat, (n - 1) as nat);
        lemma_dot_zero(
            chol_row_k(a, prev, (n - 1) as nat, (n - 1) as nat),
            chol_row_k(a, prev, (n - 1) as nat, (n - 1) as nat),
            (n - 1) as nat,
        );
        assert(a[n - 1][n - 1] == FP_ONE);
        assert(chol_rad(a, (n - 1) as nat) == fp_sub_spec(FP_ONE as int, 0));
    }
}

proof fn lemma_dot_z_unit(x: Seq<int>, seed: int, i: int, k: nat)
    requires
        0 <= seed < 0x10000000000000000,
        0 <= i,
        forall|m: int|
            0 <= m < k ==> x[m] == if m == i {
                FP_ONE as int
            } else {
                0
            },
    ensures
        dot_z(x, seed, k) == if i < k {
            normal_at(seed, i as nat)
        } else {
            0
        },
    decreases k,
{
    if k > 0 {
        lemma_dot_z_unit(x, seed, i, (k - 1) as nat);
        let j = (k - 1) as int;
        lemma_lcg_iter_range(seed, (12 * (k - 1)) as nat);
        lemma_normal_range(lcg_iter(seed, (12 * (k - 1)) as nat));
        if i < k - 1 {
            lemma_lcg_iter_range(seed, (12 * i) as nat);
            lemma_normal_range(lcg_iter(seed, (12 * i) as nat));
        }
        if j == i {
            crate::fixed::lemma_mul_one(normal_at(seed, (k - 1) as nat));
        } else {
            crate::fixed::lemma_mul_zero(normal_at(seed, (k - 1) as nat));
        }
    }
}

/// Degenerate case: at a Hurst exponent of one half the correlated
/// generator reduces to uncorrelated increments. The factorization always
/// succeeds, and noise value `i` is exactly the `i`-th independent
/// standard-normal draw of the seed, scaled by the noise amplitude — the
/// value a direct independent-normal path would use.
pub proof fn lemma_fgn_brownian(steps: nat, horizon: int, seed: int, i: int)
    requires
        1 <= steps <= MAX_STEPS,
        0 <= seed < 0x10000000000000000,
        0 <= i < steps,
    ensures
        chol_ok(cov_seq(BROWNIAN_HURST as int, steps), steps),
        fgn_at(BROWNIAN_HURST as int, steps, horizon, seed, i) == fp_mul_spec(
            fgn_scale(BROWNIAN_HURST as int, horizon, steps),
            normal_at(seed, i as nat),
        ),
{
    let a = cov_seq(BROWNIAN_HURST as int, steps);
    assert forall|r: int, c: int| 0 <= r < steps && 0 <= c < steps implies (#[trigger] a[r][c])
        == (if r == c {
        FP_ONE
    } else {
        0i64
    }) by {
        lemma_kernel_brownian(lag(r, c));
    }
    assert(is_identity(a, steps));
    lemma_chol_rows_brownian(a, steps);
    let rows = chol_rows(a, steps);
    let pr = padded_row(rows, i, steps);
    assert forall|m: int| 0 <= m < steps implies pr[m] == (if m == i {
        FP_ONE as int
    } else {
        0
    }) by {
    }
    lemma_dot_z_unit(pr, seed, i, steps);
}

} // verus!
