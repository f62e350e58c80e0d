//! A yield curve over dated knots, consumed by bond pricing.
//!
//! The curve holds continuously compounded zero rates at strictly
//! increasing knot dates. The rate applied to a date is the rate of the
//! first knot at or after it (the last knot's rate beyond the curve), and
//! a discount factor is the exponential decay of that rate over the year
//! fraction from the first knot.

use vstd::prelude::*;

verus! {

use crate::fixed::{
    FP_ONE, tdiv, fp_mul_spec, pow_fp_spec, fp_mul, pow_fp, lemma_mul_nonneg_sat,
};

/// The fixed-point value of `1/e`, the base of the discount decay.
pub const INV_E: i64 = 1580030169;

/// Seconds in the 365-day year the curve measures time with.
pub const SECONDS_PER_YEAR: i64 = 31536000;

/// The largest date (in epoch seconds) the library's date arithmetic
/// accepts; far beyond any quoted instrument.
pub const MAX_DATE: i64 = 1099511627776;

/// A yield curve: zero rates at strictly increasing knot dates.
pub struct YieldCurve {
    /// Knot dates, as epoch seconds, strictly increasing.
    pub dates: Vec<i64>,
    /// The zero rate at each knot, a fixed-point fraction in `[0, 1]`.
    pub rates: Vec<i64>,
}

/// Validity of a curve: at least one knot, one rate per knot, dates
/// strictly increasing within the accepted band, rates within `[0, 1]`.
pub open spec fn curve_wf(c: YieldCurve) -> bool {
    &&& c.dates@.len() == c.rates@.len()
    &&& c.dates@.len() >= 1
    &&& forall|i: int| 0 <= i < c.dates@.len() ==> 0 <= #[trigger] c.dates@[i] <= MAX_DATE
    &&& forall|i: int| 0 <= i < c.dates@.len() - 1 ==> #[trigger] c.dates@[i] < c.dates@[i + 1]
    &&& forall|i: int| 0 <= i < c.rates@.len() ==> 0 <= #[trigger] c.rates@[i] <= FP_ONE
}

/// The index of the knot whose rate applies to date `d`: the first knot
/// at or after `d`, or the last knot.
pub open spec fn rate_index(dates: Seq<i64>, d: int, k: nat) -> nat
    decreases dates.len() - k,
{
    if k + 1 >= dates.len() || dates[k as int] >= d {
        k
    } else {
        rate_index(dates, d, (k + 1) as nat)
    }
}

proof fn lemma_rate_index_bound(dates: Seq<i64>, d: int, k: nat)
    requires
        k < dates.len(),
    ensures
        k <= rate_index(dates, d, k) < dates.len(),
    decreases dates.len() - k,
{
    if !(k + 1 >= dates.len() || dates[k as int] >= d) {
        lemma_rate_index_bound(dates, d, (k + 1) as nat);
    }
}

/// The year fraction from the curve's anchor to `d`, floored at zero.
pub open spec fn year_fraction(anchor: int, d: int) -> int {
    if d <= anchor {
        0
    } else {
        tdiv((d - anchor) * FP_ONE, SECONDS_PER_YEAR as int)
    }
}

/// The discount factor the curve assigns to date `d`.
pub open spec fn df_spec(c: YieldCurve, d: int) -> int {
    pow_fp_spec(
        INV_E as int,
        fp_mul_spec(
            c.rates@[rate_index(c.dates@, d, 0) as int] as int,
            year_fraction(c.dates@[0] as int, d),
        ),
    )
}

impl YieldCurve {
    /// Builds a curve from knot dates and their rates.
    pub fn from_dates_and_rates(dates: &Vec<i64>, rates: &Vec<i64>) -> (r: YieldCurve)
        requires
            dates@.len() == rates@.len(),
            dates@.len() >= 1,
            forall|i: int| 0 <= i < dates@.len() ==> 0 <= #[trigger] dates@[i] <= MAX_DATE,
            forall|i: int| 0 <= i < dates@.len() - 1 ==> #[trigger] dates@[i] < dates@[i + 1],
            forall|i: int| 0 <= i < rates@.len() ==> 0 <= #[trigger] rates@[i] <= FP_ONE,
        ensures
            r.dates@ == dates@,
            r.rates@ == rates@,
            curve_wf(r),
    {
        let mut ds: Vec<i64> = Vec::new();
        let mut i: usize = 0;
        while i < dates.len()
            invariant
                i <= dates@.len(),
                ds@ == dates@.subrange(0, i as int),
            decreases dates@.len() - i,
        {
            ds.push(dates[i]);
            proof {
                assert(ds@ =~= dates@.subrange(0, i + 1));
            }
            i = i + 1;
        }
        let mut rs: Vec<i64> = Vec::new();
        let mut j: usize = 0;
        while j < rates.len()
            invariant
                j <= rates@.len(),
                rs@ == rates@.subrange(0, j as int),
            decreases rates@.len() - j,
        {
            rs.push(rates[j]);
            proof {
                assert(rs@ =~= rates@.subrange(0, j + 1));
            }
            j = j + 1;
        }
        proof {
            assert(ds@ =~= dates@);
            assert(rs@ =~= rates@);
        }
        YieldCurve { dates: ds, rates: rs }
    }

    /// The discount factor of one date.
    pub fn discount_factor(&self, d: i64) -> (r: i64)
        requires
            curve_wf(*self),
            0 <= d <= MAX_DATE,
        ensures
            r as int == df_spec(*self, d as int),
            r >= 0,
    {
        let n = self.dates.len();
        let mut k: usize = 0;
        while k + 1 < n && self.dates[k] < d
            invariant
                k < n,
                n == self.dates@.len(),
                curve_wf(*self),
                rate_index(self.dates@, d as int, 0) == rate_index(self.dates@, d as int, k as nat),
            decreases n - k,
        {
            k = k + 1;
        }
        let rate = self.rates[k];
        let anchor = self.dates[0];
        let yf: i64 = if d <= anchor {
            0
        } else {
            let num: u128 = ((d - anchor) as u128) * (FP_ONE as u128);
            let q: u128 = num / (SECONDS_PER_YEAR as u128);
            proof {
                let dd = (d - anchor) as int;
                vstd::arithmetic::div_mod::lemma_fundamental_div_mod(
                    dd * FP_ONE as int,
                    SECONDS_PER_YEAR as int,
                );
                vstd::arithmetic::div_mod::lemma_div_pos_is_pos(
                    dd * FP_ONE as int,
                    SECONDS_PER_YEAR as int,
                );
            }
            q as i64
        };
        let e = fp_mul(rate, yf);
        proof {
            lemma_mul_nonneg_sat(rate as int, yf as int);
        }
        pow_fp(INV_E, e)
    }

    /// The discount factors for a sequence of dates, in order.
    pub fn discount_factors(&self, dates: &Vec<i64>) -> (r: Vec<i64>)
        requires
            curve_wf(*self),
            forall|i: int| 0 <= i < dates@.len() ==> 0 <= #[trigger] dates@[i] <= MAX_DATE,
        ensures
            r@.len() == dates@.len(),
            forall|i: int|
                0 <= i < dates@.len() ==> (#[trigger] r@[i]) as int == df_spec(
                    *self,
                    dates@[i] as int,
                ),
    {
        let mut r: Vec<i64> = Vec::new();
        let mut i: usize = 0;
        while i < dates.len()
            invariant
                i <= dates@.len(),
                curve_wf(*self),
                forall|j: int| 0 <= j < dates@.len() ==> 0 <= #[trigger] dates@[j] <= MAX_DATE,
                r@.len() == i,
                forall|j: int|
                    0 <= j < i ==> (#[trigger] r@[j]) as int == df_spec(*self, dates@[j] as int),
            decreases dates@.len() - i,
        {
            let v = self.discount_factor(dates[i]);
            r.push(v);
            i = i + 1;
        }
        r
    }
}

} // verus!
