//! The fractional Ornstein–Uhlenbeck process: a mean-reverting diffusion
//! driven by long-memory fractional Gaussian noise.

use vstd::prelude::*;

verus! {

use crate::Error;
use crate::fixed::{FP_ONE, fp_sub_spec, fp_mul_spec, fp_sub, fp_mul};
use crate::noise::{MAX_STEPS, cov_seq, chol_ok, fgn_dt, fgn_at, fgn};
use crate::stochastics::{
    StochasticProcess, Trajectories, grid_seq, path_at, time_grid, generate_path, par_paths,
    entropy_seed,
};

/// The parameters of the fractional Ornstein–Uhlenbeck process, validated
/// at construction and immutable afterwards.
#[derive(Clone, Copy, Debug)]
pub struct FractionalOrnsteinUhlenbeck {
    /// The long-run mean.
    pub mu: i64,

    /// The diffusion, or instantaneous volatility; nonnegative.
    pub sigma: i64,

    /// The mean-reversion speed: how fast the process reverts to the
    /// long-run mean.
    pub theta: i64,

    /// The Hurst exponent, a measure of the long-term memory of the
    /// process; within `[0, 1]`.
    pub hurst: i64,
}

/// The validity of a model's parameters, established by `new`.
pub open spec fn fou_wf(m: FractionalOrnsteinUhlenbeck) -> bool {
    m.sigma >= 0 && 0 <= m.hurst <= FP_ONE
}

/// Whether a simulation call's window and counts are rejected. Besides
/// the empty window and counts, a window too short to resolve `steps`
/// distinct grid points at the scalar's resolution is rejected as well.
pub open spec fn em_invalid(t_0: int, t_n: int, steps: nat, paths: nat) -> bool {
    steps == 0 || paths == 0 || t_n <= t_0 || t_n - t_0 < steps
}

/// The noise realization a simulation call shares across its paths.
pub open spec fn noise_seq(hurst: int, steps: nat, horizon: int, seed: int) -> Seq<i64> {
    Seq::new(steps, |i: int| fgn_at(hurst, steps, horizon, seed, i) as i64)
}

/// The value promised for step `i` of every path of a simulation call.
/// The execution mode is a parameter only to state that it is irrelevant:
/// the value does not depend on it.
pub open spec fn em_value(
    m: FractionalOrnsteinUhlenbeck,
    x_0: int,
    t_0: int,
    t_n: int,
    steps: nat,
    seed: int,
    parallel: bool,
    i: nat,
) -> int {
    path_at(
        m,
        x_0,
        grid_seq(t_0, t_n, steps),
        fgn_dt(t_n - t_0, steps),
        noise_seq(m.hurst as int, steps, t_n - t_0, seed),
        i,
    )
}

/// Whether a returned trajectory is exactly the one promised for these
/// parameters and this seed.
pub open spec fn matches_seeded(
    m: FractionalOrnsteinUhlenbeck,
    t: Trajectories,
    x_0: int,
    t_0: int,
    t_n: int,
    steps: nat,
    paths: nat,
    parallel: bool,
    seed: int,
) -> bool {
    &&& t.times@ == grid_seq(t_0, t_n, steps)
    &&& t.paths@.len() == paths
    &&& forall|p: int| 0 <= p < paths ==> (#[trigger] t.paths@[p])@.len() == steps + 1
    &&& forall|p: int, i: int|
        0 <= p < paths && 0 <= i <= steps ==> (#[trigger] t.paths@[p]@[i]) as int == em_value(
            m,
            x_0,
            t_0,
            t_n,
            steps,
            seed,
            parallel,
            i as nat,
        )
}

impl FractionalOrnsteinUhlenbeck {
    /// Creates a new fractional Ornstein–Uhlenbeck process. The volatility
    /// must be nonnegative and the Hurst exponent within `[0, 1]`; any
    /// other parameters are rejected with `Error::InvalidParameter`.
    pub fn new(mu: i64, sigma: i64, theta: i64, hurst: i64) -> (r: Result<Self, Error>)
        ensures
            match r {
                Ok(m) => sigma >= 0 && 0 <= hurst <= FP_ONE && m == (FractionalOrnsteinUhlenbeck {
                    mu,
                    sigma,
                    theta,
                    hurst,
                }) && fou_wf(m),
                Err(e) => e == Error::InvalidParameter && (sigma < 0 || hurst < 0 || hurst
                    > FP_ONE),
            },
            r is Ok <==> (sigma >= 0 && 0 <= hurst <= FP_ONE),
    {
        if sigma < 0 || hurst < 0 || hurst > FP_ONE {
            return Err(Error::InvalidParameter);
        }
        Ok(Self { mu, sigma, theta, hurst })
    }

    /// Euler–Maruyama discretization of the process over `[t_0, t_n]`,
    /// reproducible from `seed`: the one noise realization drawn from the
    /// seed is shared identically across all `m_paths` paths, in both
    /// execution modes, so the returned trajectories are an exact function
    /// of the model, the window, the counts and the seed — the `parallel`
    /// flag changes only how the work is scheduled.
    ///
    /// Empty windows and counts, and a window shorter than `n_steps` at
    /// the scalar's resolution, are rejected with
    /// `Error::InvalidParameter` before any simulation work; a covariance
    /// factorization failure surfaces unchanged as
    /// `Error::NumericalInstability`.
    pub fn euler_maruyama_seeded(
        &self,
        x_0: i64,
        t_0: i64,
        t_n: i64,
        n_steps: usize,
        m_paths: usize,
        parallel: bool,
        seed: u64,
    ) -> (r: Result<Trajectories, Error>)
        requires
            fou_wf(*self),
            n_steps <= MAX_STEPS,
            t_n as int - t_0 as int <= i64::MAX as int,
        ensures
            match r {
                Ok(t) => {
                    &&& !em_invalid(t_0 as int, t_n as int, n_steps as nat, m_paths as nat)
                    &&& chol_ok(cov_seq(self.hurst as int, n_steps as nat), n_steps as nat)
                    &&& matches_seeded(
                        *self,
                        t,
                        x_0 as int,
                        t_0 as int,
                        t_n as int,
                        n_steps as nat,
                        m_paths as nat,
                        parallel,
                        seed as int,
                    )
                    &&& t.times@.len() == n_steps + 1
                    &&& t.times@[0] == t_0
                    &&& t.times@[n_steps as int] == t_n
                    &&& forall|i: int|
                        0 <= i < n_steps ==> #[trigger] t.times@[i] < t.times@[i + 1]
                    &&& forall|p: int| 0 <= p < m_paths ==> (#[trigger] t.paths@[p])@[0] == x_0
                },
                Err(e) => {
                    &&& (em_invalid(t_0 as int, t_n as int, n_steps as nat, m_paths as nat) <==> e
                        == Error::InvalidParameter)
                    &&& (!em_invalid(t_0 as int, t_n as int, n_steps as nat, m_paths as nat) ==> e
                        == Error::NumericalInstability && !chol_ok(
                        cov_seq(self.hurst as int, n_steps as nat),
                        n_steps as nat,
                    ))
                },
            },
            r is Err <==> (em_invalid(t_0 as int, t_n as int, n_steps as nat, m_paths as nat)
                || !chol_ok(cov_seq(self.hurst as int, n_steps as nat), n_steps as nat)),
    {
        if n_steps == 0 || m_paths == 0 || t_n <= t_0 {
            return Err(Error::InvalidParameter);
        }
        let h: i64 = t_n - t_0;
        if h < n_steps as i64 {
            return Err(Error::InvalidParameter);
        }
        let noise = match fgn(self.hurst, n_steps, h, seed) {
            Ok(v) => v,
            Err(e) => {
                return Err(e);
            },
        };
        proof {
            assert(noise@ =~= noise_seq(
                self.hurst as int,
                n_steps as nat,
                t_n as int - t_0 as int,
                seed as int,
            ));
        }
        let times = time_grid(t_0, t_n, n_steps);
        let dtu: u64 = (h as u64) / (n_steps as u64);
        proof {
            vstd::arithmetic::div_mod::lemma_fundamental_div_mod(h as int, n_steps as int);
            vstd::arithmetic::div_mod::lemma_div_pos_is_pos(h as int, n_steps as int);
            assert((h as int / n_steps as int) * n_steps as int <= h as int) by (nonlinear_arith)
                requires
                    h as int == (h as int / n_steps as int) * n_steps as int + (h as int % n_steps
                        as int),
                    h as int % n_steps as int >= 0,
            ;
            assert(h as int / n_steps as int <= (h as int / n_steps as int) * n_steps as int)
                by (nonlinear_arith)
                requires
                    n_steps >= 1,
                    h as int / n_steps as int >= 0,
            ;
        }
        let dt: i64 = dtu as i64;
        let paths: Vec<Vec<i64>> = if parallel {
            par_paths(self, x_0, &times, dt, &noise, m_paths)
        } else {
            let mut acc: Vec<Vec<i64>> = Vec::new();
            while acc.len() < m_paths
                invariant
                    acc@.len() <= m_paths,
                    noise@.len() + 1 == times@.len(),
                    forall|p: int| 0 <= p < acc@.len() ==> (#[trigger] acc@[p])@.len()
                        == times@.len(),
                    forall|p: int, i: int|
                        0 <= p < acc@.len() && 0 <= i < times@.len() ==> (#[trigger] acc@[p]@[i])
                            as int == path_at(
                            *self,
                            x_0 as int,
                            times@,
                            dt as int,
                            noise@,
                            i as nat,
                        ),
                decreases m_paths - acc@.len(),
            {
                let p = generate_path(self, x_0, &times, dt, &noise);
                acc.push(p);
            }
            acc
        };
        Ok(Trajectories { times, paths })
    }

    /// Euler–Maruyama discretization with a fresh, unpredictable seed:
    /// the grid, the counts and the rejection conditions are exactly those
    /// of the seeded run, and the returned paths are the ones promised for
    /// some seed.
    pub fn euler_maruyama(
        &self,
        x_0: i64,
        t_0: i64,
        t_n: i64,
        n_steps: usize,
        m_paths: usize,
        parallel: bool,
    ) -> (r: Result<Trajectories, Error>)
        requires
            fou_wf(*self),
            n_steps <= MAX_STEPS,
            t_n as int - t_0 as int <= i64::MAX as int,
        ensures
            match r {
                Ok(t) => {
                    &&& !em_invalid(t_0 as int, t_n as int, n_steps as nat, m_paths as nat)
                    &&& chol_ok(cov_seq(self.hurst as int, n_steps as nat), n_steps as nat)
                    &&& exists|seed: int|
                        matches_seeded(
                            *self,
                            t,
                            x_0 as int,
                            t_0 as int,
                            t_n as int,
                            n_steps as nat,
                            m_paths as nat,
                            parallel,
                            seed,
                        )
                    &&& t.times@.len() == n_steps + 1
                    &&& t.times@[0] == t_0
                    &&& t.times@[n_steps as int] == t_n
                    &&& forall|i: int|
                        0 <= i < n_steps ==> #[trigger] t.times@[i] < t.times@[i + 1]
                    &&& t.paths@.len() == m_paths
                    &&& forall|p: int| 0 <= p < m_paths ==> (#[trigger] t.paths@[p])@.len()
                        == n_steps + 1
                    &&& forall|p: int| 0 <= p < m_paths ==> (#[trigger] t.paths@[p])@[0] == x_0
                },
                Err(e) => {
                    &&& (em_invalid(t_0 as int, t_n as int, n_steps as nat, m_paths as nat) <==> e
                        == Error::InvalidParameter)
                    &&& (!em_invalid(t_0 as int, t_n as int, n_steps as nat, m_paths as nat) ==> e
                        == Error::NumericalInstability && !chol_ok(
                        cov_seq(self.hurst as int, n_steps as nat),
                        n_steps as nat,
                    ))
                },
            },
            r is Err <==> (em_invalid(t_0 as int, t_n as int, n_steps as nat, m_paths as nat)
                || !chol_ok(cov_seq(self.hurst as int, n_steps as nat), n_steps as nat)),
    {
        let seed = entropy_seed();
        self.euler_maruyama_seeded(x_0, t_0, t_n, n_steps, m_paths, parallel, seed)
    }
}

impl StochasticProcess for FractionalOrnsteinUhlenbeck {
    open spec fn drift_spec(self, x: int, t: int) -> int {
        fp_mul_spec(self.theta as int, fp_sub_spec(self.mu as int, x))
    }

    open spec fn diffusion_spec(self, x: int, t: int) -> int {
        self.sigma as int
    }

    open spec fn jump_spec(self, x: int, t: int) -> Option<int> {
        None
    }

    /// The drift pulls the state toward the long-run mean at the
    /// reversion speed.
    fn drift(&self, x: i64, t: i64) -> (r: i64) {
        fp_mul(self.theta, fp_sub(self.mu, x))
    }

    /// The diffusion coefficient is the constant volatility.
    fn diffusion(&self, x: i64, t: i64) -> (r: i64) {
        self.sigma
    }

    /// A pure diffusion: no jump term.
    fn jump(&self, x: i64, t: i64) -> (r: Option<i64>) {
        None
    }
}

/// Mode equivalence: for every model, window, seed and step, the path
/// value promised under sequential execution equals the one promised
/// under parallel execution.
pub proof fn lemma_mode_equivalence(
    m: FractionalOrnsteinUhlenbeck,
    x_0: int,
    t_0: int,
    t_n: int,
    steps: nat,
    seed: int,
    i: nat,
)
    ensures
        em_value(m, x_0, t_0, t_n, steps, seed, false, i) == em_value(
            m,
            x_0,
            t_0,
            t_n,
            steps,
            seed,
            true,
            i,
        ),
{
}

/// Idempotence of construction: two models built from identical
/// parameters promise identical path values for identical windows and
/// seeds, whatever the execution mode.
pub proof fn lemma_construction_idempotent(
    m1: FractionalOrnsteinUhlenbeck,
    m2: FractionalOrnsteinUhlenbeck,
    x_0: int,
    t_0: int,
    t_n: int,
    steps: nat,
    seed: int,
    parallel: bool,
    i: nat,
)
    requires
        m1.mu == m2.mu,
        m1.sigma == m2.sigma,
        m1.theta == m2.theta,
        m1.hurst == m2.hurst,
    ensures
        em_value(m1, x_0, t_0, t_n, steps, seed, parallel, i) == em_value(
            m2,
            x_0,
            t_0,
            t_n,
            steps,
            seed,
            parallel,
            i,
        ),
{
    assert(m1 == m2);
}

} // verus!
