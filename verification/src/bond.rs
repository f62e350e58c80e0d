//! Bonds: zero-coupon and coupon-bearing debt instruments.
//!
//! Dates are held as epoch seconds and money as fixed-point scalars, so
//! the coupon schedule and the present-value fold are exact functions of
//! the bond's parameters. A coupon bond's coupons are a map from dates to
//! amounts ordered by date, held as a strictly date-sorted vector.

use vstd::prelude::*;

verus! {

use vstd::arithmetic::div_mod::{
    lemma_fundamental_div_mod, lemma_fundamental_div_mod_converse_div, lemma_div_is_ordered,
    lemma_div_pos_is_pos, lemma_div_multiples_vanish,
};

use crate::curve::{YieldCurve, curve_wf, df_spec, MAX_DATE, SECONDS_PER_YEAR};
use crate::fixed::{FP_ONE, tdiv, fp_add_spec, fp_mul_spec, fp_add, fp_mul, div_trunc};

/// The currency a bond is denominated in; a label only.
#[derive(Clone, Copy, Debug, PartialEq, Eq, Structural)]
pub enum Currency {
    /// United States dollar.
    USD,
    /// Euro.
    EUR,
    /// Pound sterling.
    GBP,
    /// Japanese yen.
    JPY,
}

/// How often a bond pays its coupon.
#[derive(Clone, Copy, Debug, PartialEq, Eq, Structural)]
pub enum PaymentFrequency {
    /// One payment per year.
    Annually,
    /// Two payments per year.
    SemiAnnually,
    /// Four payments per year.
    Quarterly,
    /// Twelve payments per year.
    Monthly,
}

impl PaymentFrequency {
    /// The number of payments per year.
    pub open spec fn per_year_spec(self) -> int {
        match self {
            PaymentFrequency::Annually => 1,
            PaymentFrequency::SemiAnnually => 2,
            PaymentFrequency::Quarterly => 4,
            PaymentFrequency::Monthly => 12,
        }
    }

    /// The number of payments per year.
    pub fn per_year(&self) -> (r: i64)
        ensures
            r as int == self.per_year_spec(),
            1 <= r <= 12,
    {
        match self {
            PaymentFrequency::Annually => 1,
            PaymentFrequency::SemiAnnually => 2,
            PaymentFrequency::Quarterly => 4,
            PaymentFrequency::Monthly => 12,
        }
    }
}

/// How a settlement date is adjusted when it falls on a non-business day;
/// carried as data on the bond.
#[derive(Clone, Copy, Debug, PartialEq, Eq, Structural)]
pub enum BusinessDayConvention {
    /// No adjustment.
    Actual,
    /// Move to the following business day.
    Following,
    /// Move to the preceding business day.
    Preceding,
}

/// A zero-coupon bond: pays no periodic interest and redeems its
/// principal in full at maturity.
#[derive(Clone, Copy, Debug)]
pub struct ZeroCouponBond {
    /// The date the bond is evaluated (priced), as epoch seconds.
    pub evaluation_date: i64,

    /// The date the bond expires (matures, is redeemed), as epoch seconds.
    pub expiration_date: i64,

    /// The currency of the bond (optional).
    pub currency: Option<Currency>,
}

/// A coupon bond: a debt obligation with periodic interest payments, or
/// equally a portfolio of zero-coupon bonds, one per payment.
pub struct CouponBond {
    /// The date the bond is evaluated (priced), as epoch seconds.
    pub evaluation_date: i64,

    /// The date the bond expires, as epoch seconds.
    pub expiration_date: i64,

    /// The currency of the bond (optional).
    pub currency: Option<Currency>,

    /// The coupon rate of the bond, a fixed-point fraction in `[0, 1]`.
    pub coupon_rate: i64,

    /// The coupon frequency of the bond.
    pub coupon_frequency: PaymentFrequency,

    /// Settlement convention.
    pub settlement_convention: BusinessDayConvention,

    /// Yield curve to use for pricing.
    pub yield_curve: YieldCurve,

    /// The face value of the bond.
    pub face_value: i64,

    /// The coupons of the bond: dates to amounts, strictly ordered by
    /// date. The final coupon redeems the face value.
    pub coupons: Vec<(i64, i64)>,
}

/// Whole years between evaluation and expiration, by whole days.
pub open spec fn coupon_years(eval: int, exp: int) -> int {
    tdiv(tdiv(exp - eval, 86400), 365)
}

/// The number of regular coupon dates of the schedule.
pub open spec fn n_coupons(eval: int, exp: int, freq: int) -> int {
    coupon_years(eval, exp) * freq
}

/// Regular coupon date `i` (one-based): the evaluation date plus `i`
/// year-fractions of the payment period.
pub open spec fn coupon_date(eval: int, freq: int, i: int) -> int {
    eval + tdiv(SECONDS_PER_YEAR * i, freq)
}

/// The amount of a regular coupon: face value times rate, split over the
/// year's payments.
pub open spec fn regular_coupon(face: int, rate: int, freq: int) -> int {
    tdiv(fp_mul_spec(face, rate), freq)
}

/// The final coupon: the face value plus its last interest payment.
pub open spec fn final_coupon(face: int, rate: int, freq: int) -> int {
    fp_mul_spec(face, FP_ONE + tdiv(rate, freq))
}

/// The full coupon schedule: all regular dates but the last carry the
/// regular amount, and the expiration date redeems the final coupon.
pub open spec fn coupons_spec(eval: int, exp: int, freq: int, face: int, rate: int) -> Seq<
    (i64, i64),
> {
    let n = n_coupons(eval, exp, freq);
    let m: nat = if n >= 1 {
        (n - 1) as nat
    } else {
        0
    };
    Seq::new(
        m,
        |i: int| (coupon_date(eval, freq, i + 1) as i64, regular_coupon(face, rate, freq) as i64),
    ).push((exp as i64, final_coupon(face, rate, freq) as i64))
}

proof fn lemma_coupon_date_step(eval: int, freq: int, i: int)
    requires
        1 <= freq <= 12,
        i >= 0,
    ensures
        coupon_date(eval, freq, i) < coupon_date(eval, freq, i + 1),
{
    let y = SECONDS_PER_YEAR as int;
    assert(y * i >= 0) by (nonlinear_arith)
        requires
            i >= 0 && y >= 0,
    ;
    lemma_fundamental_div_mod(y * i, freq);
    let q = (y * i) / freq;
    let rr = (y * i) % freq;
    assert(y * i + freq == (q + 1) * freq + rr) by (nonlinear_arith)
        requires
            y * i == freq * q + rr,
    ;
    lemma_fundamental_div_mod_converse_div(y * i + freq, freq, q + 1, rr);
    assert(y * (i + 1) >= y * i + freq && y * (i + 1) >= 0) by (nonlinear_arith)
        requires
            1 <= freq <= y,
            i >= 0,
    ;
    lemma_div_is_ordered(y * i + freq, y * (i + 1), freq);
}

proof fn lemma_coupon_date_before_exp(eval: int, exp: int, freq: int, i: int)
    requires
        1 <= freq <= 12,
        eval <= exp,
        1 <= i < n_coupons(eval, exp, freq),
    ensures
        eval < coupon_date(eval, freq, i) < exp,
{
    let y = SECONDS_PER_YEAR as int;
    let wd = tdiv(exp - eval, 86400);
    let years = coupon_years(eval, exp);
    let n = years * freq;
    lemma_div_pos_is_pos(exp - eval, 86400);
    lemma_div_pos_is_pos(wd, 365);
    // Lower bound: the first offset is at least one payment period.
    assert(y * i >= y * 1 && y * 1 == y && y * i >= 0) by (nonlinear_arith)
        requires
            i >= 1 && y >= 0,
    ;
    lemma_div_is_ordered(y, y * i, freq);
    lemma_fundamental_div_mod(y, freq);
    assert(y / freq >= 1) by (nonlinear_arith)
        requires
            y == freq * (y / freq) + y % freq,
            0 <= y % freq < freq,
            1 <= freq <= 12,
            y == 31536000,
    ;
    // Upper bound: offsets stay strictly below the whole-year span.
    assert(n >= 2 ==> y * i <= y * (n - 1)) by (nonlinear_arith)
        requires
            i <= n - 1 && y >= 0,
    ;
    lemma_div_is_ordered(y * i, y * (n - 1), freq);
    lemma_coupon_date_step(eval, freq, n - 1);
    assert(y * n == freq * (y * years)) by (nonlinear_arith)
        requires
            n == years * freq,
    ;
    lemma_div_multiples_vanish(y * years, freq);
    assert((y * n) / freq == y * years);
    assert(y * (n - 1) >= 0 && y * n >= 0) by (nonlinear_arith)
        requires
            n >= 1 && y >= 0,
    ;
    // The whole-year span fits inside the window.
    lemma_fundamental_div_mod(wd, 365);
    assert(365 * years <= wd) by (nonlinear_arith)
        requires
            wd == 365 * (wd / 365) + wd % 365,
            wd % 365 >= 0,
            years == wd / 365,
    ;
    lemma_fundamental_div_mod(exp - eval, 86400);
    assert(86400 * wd <= exp - eval) by (nonlinear_arith)
        requires
            exp - eval == 86400 * ((exp - eval) / 86400) + (exp - eval) % 86400,
            (exp - eval) % 86400 >= 0,
            wd == (exp - eval) / 86400,
    ;
    assert(y * years <= 86400 * wd) by (nonlinear_arith)
        requires
            365 * years <= wd,
            y == 365 * 86400,
            years >= 0,
    ;
}

impl CouponBond {
    /// Constructs the coupons of the bond: one regular coupon per payment
    /// period after the evaluation date, and the final redeeming coupon at
    /// the expiration date. The resulting schedule is strictly ordered by
    /// date.
    pub fn construct_coupons(&mut self)
        requires
            0 <= old(self).evaluation_date <= old(self).expiration_date <= MAX_DATE,
            0 <= old(self).coupon_rate <= FP_ONE,
        ensures
            final(self).coupons@ == coupons_spec(
                old(self).evaluation_date as int,
                old(self).expiration_date as int,
                old(self).coupon_frequency.per_year_spec(),
                old(self).face_value as int,
                old(self).coupon_rate as int,
            ),
            forall|i: int|
                0 <= i < final(self).coupons@.len() - 1 ==> (#[trigger] final(self).coupons@[i]).0
                    < final(self).coupons@[i + 1].0,
            final(self).evaluation_date == old(self).evaluation_date,
            final(self).expiration_date == old(self).expiration_date,
            final(self).currency == old(self).currency,
            final(self).coupon_rate == old(self).coupon_rate,
            final(self).coupon_frequency == old(self).coupon_frequency,
            final(self).settlement_convention == old(self).settlement_convention,
            final(self).yield_curve == old(self).yield_curve,
            final(self).face_value == old(self).face_value,
    {
        let eval = self.evaluation_date;
        let exp = self.expiration_date;
        let freq = self.coupon_frequency.per_year();
        let ghost fq = freq as int;
        proof {
            lemma_fundamental_div_mod((exp - eval) as int, 86400);
            lemma_div_pos_is_pos((exp - eval) as int, 86400);
        }
        let wd: i64 = ((exp - eval) as u64 / 86400) as i64;
        proof {
            assert(wd as int <= 86400 * (wd as int));
            assert(wd <= MAX_DATE);
            lemma_fundamental_div_mod(wd as int, 365);
            lemma_div_pos_is_pos(wd as int, 365);
        }
        let years: i64 = (wd as u64 / 365) as i64;
        proof {
            assert(years as int <= 365 * (years as int));
            assert(years <= MAX_DATE);
            assert(0 <= years * fq <= years * 12) by (nonlinear_arith)
                requires
                    years >= 0,
                    1 <= fq <= 12,
            ;
        }
        let n: i64 = years * freq;
        proof {
            assert(n == n_coupons(eval as int, exp as int, fq));
        }
        let amount = div_trunc(fp_mul(self.face_value, self.coupon_rate), freq);
        let fin = fp_mul(self.face_value, FP_ONE + div_trunc(self.coupon_rate, freq));
        let mut coupons: Vec<(i64, i64)> = Vec::new();
        let mut i: i64 = 1;
        while i < n
            invariant
                1 <= i,
                n >= 1 ==> i <= n,
                n < 1 ==> i == 1,
                n == n_coupons(eval as int, exp as int, fq),
                1 <= freq <= 12,
                freq as int == fq,
                0 <= eval <= exp <= MAX_DATE,
                coupons@.len() == i - 1,
                forall|j: int|
                    0 <= j < i - 1 ==> (#[trigger] coupons@[j]) == (
                    coupon_date(eval as int, fq, j + 1) as i64,
                    amount,
                ),
            decreases n - i,
        {
            proof {
                let y = SECONDS_PER_YEAR as int;
                assert(y * (i as int) >= 0 && y * (i as int)
                    < 0x100000000000000000000000000000000) by (nonlinear_arith)
                    requires
                        0 <= i < 0x8000000000000000 && y == 31536000,
                ;
                lemma_div_pos_is_pos(y * (i as int), fq);
                lemma_coupon_date_before_exp(eval as int, exp as int, fq, i as int);
            }
            let offset: i64 = (((SECONDS_PER_YEAR as u128) * (i as u128)) / (freq as u128)) as i64;
            let date: i64 = eval + offset;
            proof {
                assert(date as int == coupon_date(eval as int, fq, i as int));
            }
            coupons.push((date, amount));
            i = i + 1;
        }
        coupons.push((exp, fin));
        proof {
            assert(coupons@ =~= coupons_spec(
                eval as int,
                exp as int,
                fq,
                self.face_value as int,
                self.coupon_rate as int,
            ));
            assert forall|j: int| 0 <= j < coupons@.len() - 1 implies (#[trigger] coupons@[j]).0
                < coupons@[j + 1].0 by {
                if j + 1 < coupons@.len() - 1 {
                    lemma_coupon_date_step(eval as int, fq, j + 1);
                } else {
                    lemma_coupon_date_before_exp(eval as int, exp as int, fq, j + 1);
                }
            }
        }
        self.coupons = coupons;
    }

    /// The present value of the coupons: each amount discounted by the
    /// bond's yield curve at its date, summed in date order.
    pub fn price(&self) -> (r: i64)
        requires
            curve_wf(self.yield_curve),
            forall|i: int|
                0 <= i < self.coupons@.len() ==> 0 <= (#[trigger] self.coupons@[i]).0 <= MAX_DATE,
        ensures
            r as int == price_spec(*self, self.coupons@.len() as nat),
    {
        let mut acc: i64 = 0;
        let mut i: usize = 0;
        while i < self.coupons.len()
            invariant
                i <= self.coupons@.len(),
                curve_wf(self.yield_curve),
                forall|j: int|
                    0 <= j < self.coupons@.len() ==> 0 <= (#[trigger] self.coupons@[j]).0
                        <= MAX_DATE,
                acc as int == price_spec(*self, i as nat),
            decreases self.coupons@.len() - i,
        {
            let (date, amount) = self.coupons[i];
            let df = self.yield_curve.discount_factor(date);
            acc = fp_add(acc, fp_mul(amount, df));
            i = i + 1;
        }
        acc
    }

    /// The pricing error, when an engine can provide one; this pricer is
    /// deterministic and reports none.
    pub fn error(&self) -> (r: Option<i64>)
        ensures
            r is None,
    {
        None
    }

    /// The date at which the net present value is calculated.
    pub fn valuation_date(&self) -> (r: i64)
        ensures
            r == self.evaluation_date,
    {
        self.evaluation_date
    }

    /// The kind of instrument.
    pub fn instrument_type(&self) -> (r: &'static str)
        ensures
            r@ == "Coupon Bond"@,
    {
        "Coupon Bond"
    }
}

/// The present value of the first `k` coupons of the bond.
pub open spec fn price_spec(b: CouponBond, k: nat) -> int
    decreases k,
{
    if k == 0 {
        0
    } else {
        fp_add_spec(
            price_spec(b, (k - 1) as nat),
            fp_mul_spec(
                b.coupons@[k - 1].1 as int,
                df_spec(b.yield_curve, b.coupons@[k - 1].0 as int),
            ),
        )
    }
}

/// A coupon bond held as an explicit portfolio of zero-coupon bonds,
/// ordered by date.
pub struct CouponBond2 {
    /// Portfolio of zero-coupon bonds, keyed by date.
    pub coupons: Vec<(i64, ZeroCouponBond)>,
}

impl CouponBond2 {
    /// Validates the dates: all the zeros must share one evaluation date,
    /// since the portfolio is a single instrument.
    pub fn validate_dates(&self) -> (r: bool)
        ensures
            r <==> forall|i: int|
                0 <= i < self.coupons@.len() ==> (#[trigger] self.coupons@[i]).1.evaluation_date
                    == self.coupons@[0].1.evaluation_date,
    {
        if self.coupons.len() == 0 {
            return true;
        }
        let first = self.coupons[0].1.evaluation_date;
        let mut i: usize = 0;
        while i < self.coupons.len()
            invariant
                i <= self.coupons@.len(),
                self.coupons@.len() >= 1,
                first == self.coupons@[0].1.evaluation_date,
                forall|j: int|
                    0 <= j < i ==> (#[trigger] self.coupons@[j]).1.evaluation_date == first,
            decreases self.coupons@.len() - i,
        {
            if self.coupons[i].1.evaluation_date != first {
                return false;
            }
            i = i + 1;
        }
        true
    }
}

} // verus!
