//! A library for simulating continuous-time stochastic processes used in
//! quantitative finance, together with the bond bookkeeping that consumes
//! simulated quantities.
//!
//! All quantities are held in a fixed-point scalar (a signed 64-bit integer
//! scaled by 2^32), so that every arithmetic step of the numerical core can
//! be stated and machine-checked exactly.

use vstd::prelude::*;

pub mod bond;
pub mod curve;
pub mod fixed;
pub mod fractional_ornstein_uhlenbeck;
pub mod noise;
pub mod rng;
pub mod stochastics;

verus! {

/// The failure taxonomy of the library.
///
/// `InvalidParameter` reports a construction-time or call-time validation
/// failure; `NumericalInstability` reports a covariance factorization that
/// could not be completed. No failure is ever downgraded to a default value.
#[derive(Clone, Copy, Debug, PartialEq, Eq, Structural)]
pub enum Error {
    /// A parameter was rejected by validation.
    InvalidParameter,
    /// The covariance factorization failed to produce a valid decomposition.
    NumericalInstability,
}

} // verus!
