use rustquant::bond::{
    BusinessDayConvention, CouponBond, CouponBond2, Currency, PaymentFrequency, ZeroCouponBond,
};
use rustquant::curve::YieldCurve;
use rustquant::fixed::FP_ONE;
use time::{Duration, OffsetDateTime};

fn fp(x: f64) -> i64 {
    (x * 4294967296.0).round() as i64
}

fn seconds_of(d: OffsetDateTime) -> i64 {
    d.unix_timestamp()
}

fn create_test_yield_curve(t0: OffsetDateTime) -> YieldCurve {
    // A treasury curve with seven knots (3m, 6m, 1y, 2y, 5y, 10y, 30y).
    let rate_vec = vec![
        fp(0.0544),
        fp(0.0556),
        fp(0.0546),
        fp(0.0514),
        fp(0.0481),
        fp(0.0481),
        fp(0.0494),
    ];
    let date_vec = vec![
        seconds_of(t0 + Duration::days(90)),
        seconds_of(t0 + Duration::days(180)),
        seconds_of(t0 + Duration::days(365)),
        seconds_of(t0 + Duration::days(2 * 365)),
        seconds_of(t0 + Duration::days(5 * 365)),
        seconds_of(t0 + Duration::days(10 * 365)),
        seconds_of(t0 + Duration::days(30 * 365)),
    ];

    YieldCurve::from_dates_and_rates(&date_vec, &rate_vec)
}

#[test]
fn test_coupon_construction() {
    let today = OffsetDateTime::now_utc();

    let mut bond = CouponBond {
        evaluation_date: seconds_of(today),
        expiration_date: seconds_of(today + Duration::days(365 * 2)),
        currency: Some(Currency::USD),
        coupon_rate: fp(0.15),
        coupon_frequency: PaymentFrequency::SemiAnnually,
        settlement_convention: BusinessDayConvention::Actual,
        yield_curve: create_test_yield_curve(today),
        face_value: fp(1000.0),
        coupons: Vec::new(),
    };

    bond.construct_coupons();

    println!("Price: {}", bond.price());
}

#[test]
fn coupon_schedule_exact() {
    // Two years semi-annually from epoch zero: three regular coupons, one
    // final redeeming coupon at expiration.
    let mut bond = CouponBond {
        evaluation_date: 0,
        expiration_date: 730 * 86400,
        currency: Some(Currency::USD),
        coupon_rate: 644245094, // 0.15 at the fixed-point scale
        coupon_frequency: PaymentFrequency::SemiAnnually,
        settlement_convention: BusinessDayConvention::Actual,
        yield_curve: YieldCurve::from_dates_and_rates(&vec![86400], &vec![0]),
        face_value: 1000 * FP_ONE,
        coupons: Vec::new(),
    };
    bond.construct_coupons();
    // Regular amount: 1000 * 0.15 / 2 = 644245094000 / 2.
    let amount = 322122547000i64;
    // Final coupon: 1000 * (1 + 0.15 / 2).
    let fin = 1000 * (FP_ONE + 322122547);
    assert_eq!(
        bond.coupons,
        vec![
            (15768000, amount),
            (31536000, amount),
            (47304000, amount),
            (730 * 86400, fin),
        ]
    );
    // Dates strictly increase.
    for w in bond.coupons.windows(2) {
        assert!(w[0].0 < w[1].0);
    }
}

#[test]
fn short_bond_has_only_final_coupon() {
    let mut bond = CouponBond {
        evaluation_date: 1000,
        expiration_date: 1000 + 100 * 86400,
        currency: None,
        coupon_rate: fp(0.05),
        coupon_frequency: PaymentFrequency::Annually,
        settlement_convention: BusinessDayConvention::Following,
        yield_curve: YieldCurve::from_dates_and_rates(&vec![86400], &vec![0]),
        face_value: fp(100.0),
        coupons: Vec::new(),
    };
    bond.construct_coupons();
    assert_eq!(bond.coupons.len(), 1);
    assert_eq!(bond.coupons[0].0, 1000 + 100 * 86400);
}

#[test]
fn zero_rate_discount_factor_is_one() {
    // A flat curve at rate zero discounts nothing: the price of a bond is
    // the plain sum of its coupons.
    let curve = YieldCurve::from_dates_and_rates(&vec![0, 86400], &vec![0, 0]);
    let bond = CouponBond {
        evaluation_date: 0,
        expiration_date: 730 * 86400,
        currency: None,
        coupon_rate: 0,
        coupon_frequency: PaymentFrequency::Annually,
        settlement_convention: BusinessDayConvention::Actual,
        yield_curve: curve,
        face_value: fp(10.0),
        coupons: vec![(86400, fp(1.0)), (2 * 86400, fp(2.5))],
    };
    assert_eq!(bond.price(), fp(3.5));
}

#[test]
fn discounting_lowers_price() {
    let flat = |r: f64| YieldCurve::from_dates_and_rates(&vec![0, 86400], &vec![fp(r), fp(r)]);
    let coupons = vec![(365 * 86400, fp(100.0)), (730 * 86400, fp(100.0))];
    let mk = |curve: YieldCurve| CouponBond {
        evaluation_date: 0,
        expiration_date: 730 * 86400,
        currency: None,
        coupon_rate: 0,
        coupon_frequency: PaymentFrequency::Annually,
        settlement_convention: BusinessDayConvention::Actual,
        yield_curve: curve,
        face_value: fp(100.0),
        coupons: coupons.clone(),
    };
    let p0 = mk(flat(0.0)).price();
    let p1 = mk(flat(0.05)).price();
    let p2 = mk(flat(0.10)).price();
    assert_eq!(p0, fp(200.0));
    assert!(p1 < p0);
    assert!(p2 < p1);
    // Two years of 5% continuous discounting on the later coupon: rough
    // floating-point cross-check of the fixed-point computation.
    let expected = 100.0 * (-0.05f64).exp() + 100.0 * (-0.10f64).exp();
    let got = p1 as f64 / 4294967296.0;
    assert!((got - expected).abs() < 0.05, "got {got}, expected {expected}");
}

#[test]
fn bond_metadata() {
    let bond = CouponBond {
        evaluation_date: 77,
        expiration_date: 1000000,
        currency: Some(Currency::EUR),
        coupon_rate: 0,
        coupon_frequency: PaymentFrequency::Quarterly,
        settlement_convention: BusinessDayConvention::Preceding,
        yield_curve: YieldCurve::from_dates_and_rates(&vec![0], &vec![0]),
        face_value: 0,
        coupons: Vec::new(),
    };
    assert_eq!(bond.valuation_date(), 77);
    assert_eq!(bond.error(), None);
    assert_eq!(bond.instrument_type(), "Coupon Bond");
}

#[test]
fn validate_dates_accepts_shared_evaluation_date() {
    let zero = |eval: i64, exp: i64| ZeroCouponBond {
        evaluation_date: eval,
        expiration_date: exp,
        currency: Some(Currency::USD),
    };
    let good = CouponBond2 {
        coupons: vec![(10, zero(5, 10)), (20, zero(5, 20)), (30, zero(5, 30))],
    };
    assert!(good.validate_dates());
    let empty = CouponBond2 { coupons: Vec::new() };
    assert!(empty.validate_dates());
}

#[test]
fn validate_dates_rejects_mixed_evaluation_dates() {
    let zero = |eval: i64, exp: i64| ZeroCouponBond {
        evaluation_date: eval,
        expiration_date: exp,
        currency: None,
    };
    let bad = CouponBond2 {
        coupons: vec![(10, zero(5, 10)), (20, zero(6, 20))],
    };
    assert!(!bad.validate_dates());
}
