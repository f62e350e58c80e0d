use rustquant::Error;
use rustquant::fixed::{FP_ONE, SCALE, fp_mul, pow_fp};
use rustquant::fractional_ornstein_uhlenbeck::FractionalOrnsteinUhlenbeck;
use rustquant::noise::{BROWNIAN_HURST, fgn};
use rustquant::rng::normal_series;

fn fp(x: f64) -> i64 {
    (x * 4294967296.0).round() as i64
}

fn from_fp(v: i64) -> f64 {
    v as f64 / 4294967296.0
}

#[test]
fn test_fractional_ornstein_uhlenbeck() {
    let fou = FractionalOrnsteinUhlenbeck::new(fp(0.15), fp(0.45), fp(0.01), fp(0.7)).unwrap();

    let _output = fou
        .euler_maruyama(fp(10.0), fp(0.0), fp(0.5), 100, 100, false)
        .unwrap();
}

#[test]
fn mean_reverting_scenario_shape() {
    // A mean-reverting model with long-run mean 0.15, volatility 0.45,
    // reversion speed 0.01 and Hurst exponent 0.7, started at 10.0 over
    // [0, 0.5] with 100 steps and 100 paths, sequentially.
    let fou = FractionalOrnsteinUhlenbeck::new(fp(0.15), fp(0.45), fp(0.01), fp(0.7)).unwrap();
    let out = fou
        .euler_maruyama(fp(10.0), fp(0.0), fp(0.5), 100, 100, false)
        .unwrap();
    assert_eq!(out.times.len(), 101);
    assert_eq!(out.times[0], 0);
    assert_eq!(out.times[100], fp(0.5));
    assert_eq!(out.paths.len(), 100);
    for p in &out.paths {
        assert_eq!(p.len(), 101);
        assert_eq!(p[0], 10 * SCALE);
    }
}

#[test]
fn times_strictly_increasing() {
    let fou = FractionalOrnsteinUhlenbeck::new(fp(0.2), fp(0.3), fp(0.5), fp(0.5)).unwrap();
    let out = fou
        .euler_maruyama_seeded(fp(1.0), fp(1.0), fp(2.0), 16, 3, false, 42)
        .unwrap();
    assert_eq!(out.times.len(), 17);
    assert_eq!(out.times[0], fp(1.0));
    assert_eq!(out.times[16], fp(2.0));
    for i in 0..16 {
        assert!(out.times[i] < out.times[i + 1]);
    }
    assert_eq!(out.paths.len(), 3);
    for p in &out.paths {
        assert_eq!(p.len(), 17);
        assert_eq!(p[0], fp(1.0));
    }
}

#[test]
fn construction_idempotent() {
    // Two models from identical parameters, simulated with the same seed
    // sequentially, give identical trajectories.
    let a = FractionalOrnsteinUhlenbeck::new(fp(0.15), fp(0.45), fp(0.01), fp(0.7)).unwrap();
    let b = FractionalOrnsteinUhlenbeck::new(fp(0.15), fp(0.45), fp(0.01), fp(0.7)).unwrap();
    let ta = a
        .euler_maruyama_seeded(fp(10.0), fp(0.0), fp(0.5), 50, 7, false, 12345)
        .unwrap();
    let tb = b
        .euler_maruyama_seeded(fp(10.0), fp(0.0), fp(0.5), 50, 7, false, 12345)
        .unwrap();
    assert_eq!(ta.times, tb.times);
    assert_eq!(ta.paths, tb.paths);
}

#[test]
fn mode_equivalence() {
    // Sequential and parallel execution of the same seeded call return
    // identical trajectories: the noise realization is shared and each
    // path is a pure function of it.
    let fou = FractionalOrnsteinUhlenbeck::new(fp(0.15), fp(0.45), fp(0.01), fp(0.7)).unwrap();
    let seq = fou
        .euler_maruyama_seeded(fp(10.0), fp(0.0), fp(0.5), 64, 9, false, 987)
        .unwrap();
    let par = fou
        .euler_maruyama_seeded(fp(10.0), fp(0.0), fp(0.5), 64, 9, true, 987)
        .unwrap();
    assert_eq!(seq.times, par.times);
    assert_eq!(seq.paths, par.paths);
}

#[test]
fn noise_realization_shared_across_paths() {
    // The engine's documented policy: one noise realization per call,
    // shared identically by every path, so all paths of a call coincide.
    let fou = FractionalOrnsteinUhlenbeck::new(fp(0.15), fp(0.45), fp(0.01), fp(0.7)).unwrap();
    let out = fou
        .euler_maruyama_seeded(fp(10.0), fp(0.0), fp(0.5), 32, 5, false, 31337)
        .unwrap();
    for p in &out.paths {
        assert_eq!(*p, out.paths[0]);
    }
}

#[test]
fn boundary_rejection() {
    let fou = FractionalOrnsteinUhlenbeck::new(fp(0.15), fp(0.45), fp(0.01), fp(0.7)).unwrap();
    // steps = 0
    assert_eq!(
        fou.euler_maruyama(fp(10.0), fp(0.0), fp(0.5), 0, 10, false)
            .unwrap_err(),
        Error::InvalidParameter
    );
    // paths = 0
    assert_eq!(
        fou.euler_maruyama(fp(10.0), fp(0.0), fp(0.5), 10, 0, false)
            .unwrap_err(),
        Error::InvalidParameter
    );
    // tn <= t0
    assert_eq!(
        fou.euler_maruyama(fp(10.0), fp(0.5), fp(0.5), 10, 10, false)
            .unwrap_err(),
        Error::InvalidParameter
    );
    assert_eq!(
        fou.euler_maruyama(fp(10.0), fp(0.5), fp(0.2), 10, 10, false)
            .unwrap_err(),
        Error::InvalidParameter
    );
    // volatility < 0
    assert_eq!(
        FractionalOrnsteinUhlenbeck::new(fp(0.15), fp(-0.1), fp(0.01), fp(0.7)).unwrap_err(),
        Error::InvalidParameter
    );
    // Hurst exponent outside [0, 1]
    assert_eq!(
        FractionalOrnsteinUhlenbeck::new(fp(0.15), fp(0.45), fp(0.01), fp(1.5)).unwrap_err(),
        Error::InvalidParameter
    );
    assert_eq!(
        FractionalOrnsteinUhlenbeck::new(fp(0.15), fp(0.45), fp(0.01), fp(-0.5)).unwrap_err(),
        Error::InvalidParameter
    );
}

#[test]
fn noise_rejects_empty_grid() {
    assert_eq!(fgn(fp(0.7), 0, fp(1.0), 1).unwrap_err(), Error::InvalidParameter);
    assert_eq!(fgn(fp(0.7), 8, fp(0.0), 1).unwrap_err(), Error::InvalidParameter);
    assert_eq!(fgn(fp(1.5), 8, fp(1.0), 1).unwrap_err(), Error::InvalidParameter);
}

#[test]
fn brownian_noise_matches_direct_draws() {
    // At a Hurst exponent of one half the correlated generator must agree
    // exactly with scaling independent standard-normal draws by the noise
    // amplitude.
    let steps = 64usize;
    let horizon = fp(1.0);
    let seed = 20231123u64;
    let noise = fgn(BROWNIAN_HURST, steps, horizon, seed).unwrap();
    let z = normal_series(seed, steps);
    let dt = horizon / steps as i64;
    let scale = pow_fp(dt, BROWNIAN_HURST);
    assert_eq!(noise.len(), steps);
    for i in 0..steps {
        assert_eq!(noise[i], fp_mul(scale, z[i]));
    }
}

#[test]
fn brownian_variance_scales_with_dt() {
    // Sample variance of the Hurst-one-half increments approaches dt.
    let steps = 512usize;
    let horizon = fp(1.0);
    let dt = from_fp(horizon / steps as i64);
    let mut values: Vec<f64> = Vec::new();
    for seed in 0..8u64 {
        let noise = fgn(BROWNIAN_HURST, steps, horizon, 1000 + seed).unwrap();
        for v in noise {
            values.push(from_fp(v));
        }
    }
    let n = values.len() as f64;
    let mean = values.iter().sum::<f64>() / n;
    let var = values.iter().map(|v| (v - mean) * (v - mean)).sum::<f64>() / (n - 1.0);
    let ratio = var / dt;
    assert!(ratio > 0.7 && ratio < 1.3, "variance ratio {ratio}");
}

#[test]
fn singular_covariance_fails_explicitly() {
    // At a Hurst exponent of one the increments are perfectly correlated:
    // the covariance matrix is singular and the factorization must fail
    // loudly rather than produce a fallback realization.
    assert_eq!(
        fgn(FP_ONE, 4, fp(1.0), 7).unwrap_err(),
        Error::NumericalInstability
    );
    let fou = FractionalOrnsteinUhlenbeck::new(fp(0.15), fp(0.45), fp(0.01), FP_ONE).unwrap();
    assert_eq!(
        fou.euler_maruyama(fp(10.0), fp(0.0), fp(0.5), 4, 2, false)
            .unwrap_err(),
        Error::NumericalInstability
    );
}

#[test]
fn normal_series_is_deterministic() {
    let a = normal_series(7, 32);
    let b = normal_series(7, 32);
    let c = normal_series(8, 32);
    assert_eq!(a, b);
    assert_ne!(a, c);
    assert_eq!(a.len(), 32);
    for v in &a {
        assert!(-6 * FP_ONE <= *v && *v <= 6 * FP_ONE);
    }
}

#[test]
fn euler_step_exact_first_increment() {
    // One step of a pure-drift model (volatility zero at Hurst one half):
    // x1 = x0 + theta * (mu - x0) * dt exactly, in fixed point.
    let fou = FractionalOrnsteinUhlenbeck::new(fp(2.0), 0, fp(1.0), BROWNIAN_HURST).unwrap();
    let out = fou
        .euler_maruyama_seeded(fp(1.0), fp(0.0), fp(1.0), 4, 1, false, 5)
        .unwrap();
    // dt = 0.25; drift = 1.0 * (2.0 - 1.0) = 1.0; x1 = 1.0 + 0.25 = 1.25.
    assert_eq!(out.paths[0][1], fp(1.25));
}
