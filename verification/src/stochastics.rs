//! The stochastic process abstraction and the simulation engine.
//!
//! A process is a capability of three pure evaluations — drift, diffusion
//! and an optional jump — over (state, time). The engine discretizes the
//! time window, obtains one correlated noise realization from the noise
//! generator, and advances each path by the Euler–Maruyama scheme. The
//! noise realization of a call is shared identically across all of its
//! paths (the policy of this engine, applied consistently in both
//! execution modes), so a path value is an exact function of the model,
//! the call parameters and the seed — in particular it does not depend on
//! whether the paths were computed sequentially or in parallel.

use vstd::prelude::*;

use rayon::iter::{IntoParallelIterator, ParallelIterator};

verus! {

use vstd::arithmetic::div_mod::{
    lemma_fundamental_div_mod, lemma_fundamental_div_mod_converse_div, lemma_div_is_ordered,
    lemma_div_pos_is_pos, lemma_div_multiples_vanish,
};
use vstd::arithmetic::mul::lemma_mul_inequality;

use crate::fixed::{tdiv, fp_add_spec, fp_mul_spec, fp_add, fp_mul};
use crate::noise::MAX_STEPS;

/// A stochastic differential equation, described by three pure
/// evaluations. Evaluation has no side effect, so paths may evaluate the
/// same model concurrently.
pub trait StochasticProcess: Sized {
    /// The drift coefficient at state `x` and time `t`.
    spec fn drift_spec(self, x: int, t: int) -> int;

    /// The diffusion coefficient at state `x` and time `t`.
    spec fn diffusion_spec(self, x: int, t: int) -> int;

    /// The realized jump at state `x` and time `t`, when the variant has
    /// one.
    spec fn jump_spec(self, x: int, t: int) -> Option<int>;

    /// Evaluates the drift coefficient.
    fn drift(&self, x: i64, t: i64) -> (r: i64)
        ensures
            r as int == self.drift_spec(x as int, t as int),
    ;

    /// Evaluates the diffusion coefficient.
    fn diffusion(&self, x: i64, t: i64) -> (r: i64)
        ensures
            r as int == self.diffusion_spec(x as int, t as int),
    ;

    /// Evaluates the jump term, if any.
    fn jump(&self, x: i64, t: i64) -> (r: Option<i64>)
        ensures
            match r {
                Some(v) => self.jump_spec(x as int, t as int) == Some(v as int),
                None => self.jump_spec(x as int, t as int) is None,
            },
    ;
}

/// The time grid plus the generated sample paths: the one value crossing
/// the engine's outward boundary. It is created once per simulation call
/// and never mutated afterwards.
#[derive(Debug)]
pub struct Trajectories {
    /// The ordered, strictly increasing time points, one more than the
    /// step count.
    pub times: Vec<i64>,
    /// The sample paths, each as long as the time grid.
    pub paths: Vec<Vec<i64>>,
}

/// Grid point `i` of the window `[t_0, t_n]` cut into `steps` steps.
pub open spec fn grid_at(t_0: int, t_n: int, steps: nat, i: int) -> int {
    t_0 + tdiv(i * (t_n - t_0), steps as int)
}

/// The whole time grid as a sequence.
pub open spec fn grid_seq(t_0: int, t_n: int, steps: nat) -> Seq<i64> {
    Seq::new(steps + 1, |i: int| grid_at(t_0, t_n, steps, i) as i64)
}

proof fn lemma_grid_step(t_0: int, t_n: int, steps: nat, i: int)
    requires
        steps >= 1,
        t_n - t_0 >= steps,
        0 <= i < steps,
    ensures
        grid_at(t_0, t_n, steps, i) + 1 <= grid_at(t_0, t_n, steps, i + 1),
{
    let d = t_n - t_0;
    let s = steps as int;
    assert(i * d >= 0) by (nonlinear_arith)
        requires
            i >= 0,
            d >= 0,
    ;
    lemma_fundamental_div_mod(i * d, s);
    let q = (i * d) / s;
    let rr = (i * d) % s;
    assert(i * d + s == (q + 1) * s + rr) by (nonlinear_arith)
        requires
            i * d == q * s + rr,
    ;
    lemma_fundamental_div_mod_converse_div(i * d + s, s, q + 1, rr);
    assert((i + 1) * d >= i * d + s) by (nonlinear_arith)
        requires
            d >= s,
            i >= 0,
    ;
    lemma_div_is_ordered(i * d + s, (i + 1) * d, s);
    assert((i + 1) * d >= 0) by (nonlinear_arith)
        requires
            i + 1 >= 0,
            d >= 0,
    ;
}

proof fn lemma_grid_ends(t_0: int, t_n: int, steps: nat)
    requires
        steps >= 1,
        t_n > t_0,
    ensures
        grid_at(t_0, t_n, steps, 0) == t_0,
        grid_at(t_0, t_n, steps, steps as int) == t_n,
{
    let d = t_n - t_0;
    let s = steps as int;
    assert(0 * d == 0) by (nonlinear_arith);
    lemma_div_multiples_vanish(0, s);
    assert(s * 0 == 0) by (nonlinear_arith);
    lemma_div_multiples_vanish(d, s);
    assert(s * d == d * s) by (nonlinear_arith);
    assert(tdiv(s * d, s) == d);
}

/// Builds the time grid of the window: `steps + 1` strictly increasing
/// points from `t_0` to `t_n`.
pub(crate) fn time_grid(t_0: i64, t_n: i64, n_steps: usize) -> (r: Vec<i64>)
    requires
        1 <= n_steps <= MAX_STEPS,
        t_0 < t_n,
        t_n as int - t_0 as int <= i64::MAX as int,
        t_n as int - t_0 as int >= n_steps as int,
    ensures
        r@ == grid_seq(t_0 as int, t_n as int, n_steps as nat),
        r@.len() == n_steps + 1,
        r@[0] == t_0,
        r@[n_steps as int] == t_n,
        forall|i: int| 0 <= i < n_steps ==> #[trigger] r@[i] < r@[i + 1],
{
    let d: i64 = t_n - t_0;
    let mut r: Vec<i64> = Vec::new();
    let mut i: usize = 0;
    while i <= n_steps
        invariant
            i <= n_steps + 1,
            1 <= n_steps <= MAX_STEPS,
            t_0 < t_n,
            d == t_n - t_0,
            t_n as int - t_0 as int >= n_steps as int,
            r@.len() == i,
            forall|j: int|
                0 <= j < i ==> (#[trigger] r@[j]) as int == grid_at(
                    t_0 as int,
                    t_n as int,
                    n_steps as nat,
                    j,
                ),
        decreases n_steps + 1 - i,
    {
        proof {
            let ii = i as int;
            let dd = d as int;
            let ss = n_steps as int;
            assert(ii * dd >= 0) by (nonlinear_arith)
                requires
                    ii >= 0,
                    dd >= 0,
            ;
            assert(ii * dd < 0x100000000000000000000000000000000) by (nonlinear_arith)
                requires
                    0 <= ii < 0x10000000000000000,
                    0 <= dd < 0x8000000000000000,
            ;
            lemma_div_pos_is_pos(ii * dd, ss);
            lemma_mul_inequality(ii, ss, dd);
            lemma_div_is_ordered(ii * dd, ss * dd, ss);
            lemma_div_multiples_vanish(dd, ss);
            assert(ss * dd == dd * ss) by (nonlinear_arith);
        }
        let q: u128 = ((i as u128) * (d as u128)) / (n_steps as u128);
        let t: i64 = t_0 + (q as i64);
        r.push(t);
        i = i + 1;
    }
    proof {
        assert(r@ =~= grid_seq(t_0 as int, t_n as int, n_steps as nat));
        lemma_grid_ends(t_0 as int, t_n as int, n_steps as nat);
        assert forall|j: int| 0 <= j < n_steps implies #[trigger] r@[j] < r@[j + 1] by {
            lemma_grid_step(t_0 as int, t_n as int, n_steps as nat, j);
        }
    }
    r
}

/// One Euler–Maruyama update: the state, plus drift times the step, plus
/// diffusion times the noise increment, plus the jump when there is one.
pub open spec fn em_step<M: StochasticProcess>(m: M, x: int, t: int, dt: int, w: int) -> int {
    let with_drift = fp_add_spec(x, fp_mul_spec(m.drift_spec(x, t), dt));
    let with_diffusion = fp_add_spec(with_drift, fp_mul_spec(m.diffusion_spec(x, t), w));
    match m.jump_spec(x, t) {
        Some(j) => fp_add_spec(with_diffusion, j),
        None => with_diffusion,
    }
}

/// The value of a path after `i` Euler–Maruyama steps from `x0` over the
/// given grid and noise series.
pub open spec fn path_at<M: StochasticProcess>(
    m: M,
    x0: int,
    times: Seq<i64>,
    dt: int,
    noise: Seq<i64>,
    i: nat,
) -> int
    decreases i,
{
    if i == 0 {
        x0
    } else {
        em_step(
            m,
            path_at(m, x0, times, dt, noise, (i - 1) as nat),
            times[i - 1] as int,
            dt,
            noise[i - 1] as int,
        )
    }
}

/// Advances one path step by step over the grid.
pub fn generate_path<M: StochasticProcess>(
    m: &M,
    x_0: i64,
    times: &Vec<i64>,
    dt: i64,
    noise: &Vec<i64>,
) -> (r: Vec<i64>)
    requires
        noise@.len() + 1 == times@.len(),
    ensures
        r@.len() == times@.len(),
        forall|i: int|
            0 <= i < r@.len() ==> (#[trigger] r@[i]) as int == path_at(
                *m,
                x_0 as int,
                times@,
                dt as int,
                noise@,
                i as nat,
            ),
{
    let n = noise.len();
    let mut p: Vec<i64> = Vec::new();
    p.push(x_0);
    let mut t: usize = 0;
    while t < n
        invariant
            t <= n,
            noise@.len() == n,
            times@.len() == n + 1,
            p@.len() == t + 1,
            forall|i: int|
                0 <= i <= t ==> (#[trigger] p@[i]) as int == path_at(
                    *m,
                    x_0 as int,
                    times@,
                    dt as int,
                    noise@,
                    i as nat,
                ),
        decreases n - t,
    {
        let x = p[t];
        let tv = times[t];
        let dr = m.drift(x, tv);
        let df = m.diffusion(x, tv);
        let mut nx = fp_add(x, fp_mul(dr, dt));
        nx = fp_add(nx, fp_mul(df, noise[t]));
        match m.jump(x, tv) {
            Some(j) => {
                nx = fp_add(nx, j);
            },
            None => {},
        }
        p.push(nx);
        t = t + 1;
    }
    p
}

/// Relies on rayon's `into_par_iter` / `map` / `collect` on a range: the
/// closure — one call of the verified path generator per path index — runs
/// once per index, and collection preserves count and order.
#[verifier::external_body]
pub(crate) fn par_paths<M: StochasticProcess + Sync>(
    m: &M,
    x_0: i64,
    times: &Vec<i64>,
    dt: i64,
    noise: &Vec<i64>,
    m_paths: usize,
) -> (r: Vec<Vec<i64>>)
    requires
        noise@.len() + 1 == times@.len(),
    ensures
        r@.len() == m_paths,
        forall|p: int| 0 <= p < m_paths ==> (#[trigger] r@[p])@.len() == times@.len(),
        forall|p: int, i: int|
            0 <= p < m_paths && 0 <= i < times@.len() ==> (#[trigger] r@[p]@[i]) as int == path_at(
                *m,
                x_0 as int,
                times@,
                dt as int,
                noise@,
                i as nat,
            ),
{
    (0..m_paths).into_par_iter().map(|_p| generate_path(m, x_0, times, dt, noise)).collect()
}

/// Relies on rand::random for one unpredictable 64-bit seed; nothing is
/// promised of the value.
#[verifier::external_body]
pub(crate) fn entropy_seed() -> u64 {
    rand::random::<u64>()
}

} // verus!
