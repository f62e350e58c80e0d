//! The fixed-point scalar of the library.
//!
//! A real quantity `v` is represented by the `i64` value `v * SCALE`, with
//! `SCALE = 2^32`. Addition and multiplication saturate at the `i64` range;
//! multiplication and division truncate toward zero. Every executable
//! operation here is pinned to an exact specification over `int`.

use vstd::prelude::*;

verus! {

use vstd::arithmetic::div_mod::lemma_div_pos_is_pos;

/// Denominator of the fixed-point representation: 2^32.
pub const SCALE: i64 = 4294967296;

/// The fixed-point value of one.
pub const FP_ONE: i64 = 4294967296;

/// Saturation of an unbounded integer to the `i64` range.
pub open spec fn sat64(x: int) -> int {
    if x > i64::MAX as int {
        i64::MAX as int
    } else if x < i64::MIN as int {
        i64::MIN as int
    } else {
        x
    }
}

/// Division truncated toward zero, total in its divisor (0 when `d <= 0`;
/// every use in this crate has `d > 0`).
pub open spec fn tdiv(a: int, d: int) -> int {
    if d <= 0 {
        0
    } else if a >= 0 {
        a / d
    } else {
        -((-a) / d)
    }
}

/// What fixed-point addition returns.
pub open spec fn fp_add_spec(a: int, b: int) -> int {
    sat64(a + b)
}

/// What fixed-point subtraction returns.
pub open spec fn fp_sub_spec(a: int, b: int) -> int {
    sat64(a - b)
}

/// What fixed-point multiplication returns.
pub open spec fn fp_mul_spec(a: int, b: int) -> int {
    sat64(tdiv(a * b, SCALE as int))
}

/// What fixed-point division returns (for a positive divisor).
pub open spec fn fp_div_spec(a: int, b: int) -> int {
    sat64(tdiv(a * SCALE, b))
}

/// Magnitude of an `i64`, as an unbounded integer.
pub open spec fn abs_int(a: int) -> int {
    if a >= 0 {
        a
    } else {
        -a
    }
}

/// Magnitude of an `i64`, returned in `u128`.
fn abs64(a: i64) -> (r: u128)
    ensures
        r as int == abs_int(a as int),
{
    if a >= 0 {
        a as u128
    } else {
        let w: i128 = -(a as i128);
        w as u128
    }
}

/// Clamp a nonnegative magnitude with a sign back into `i64`.
pub(crate) fn clamp_signed(m: u128, neg: bool) -> (r: i64)
    ensures
        r as int == sat64(if neg { -(m as int) } else { m as int }),
{
    if neg {
        if m >= 9223372036854775808u128 {
            i64::MIN
        } else {
            let w: i128 = -(m as i128);
            w as i64
        }
    } else {
        if m > i64::MAX as u128 {
            i64::MAX
        } else {
            m as i64
        }
    }
}

/// Saturating addition of two scalars.
pub fn fp_add(a: i64, b: i64) -> (r: i64)
    ensures
        r as int == fp_add_spec(a as int, b as int),
{
    let s: i128 = a as i128 + b as i128;
    if s > i64::MAX as i128 {
        i64::MAX
    } else if s < i64::MIN as i128 {
        i64::MIN
    } else {
        s as i64
    }
}

/// Saturating subtraction of two scalars.
pub fn fp_sub(a: i64, b: i64) -> (r: i64)
    ensures
        r as int == fp_sub_spec(a as int, b as int),
{
    let s: i128 = a as i128 - b as i128;
    if s > i64::MAX as i128 {
        i64::MAX
    } else if s < i64::MIN as i128 {
        i64::MIN
    } else {
        s as i64
    }
}

proof fn lemma_prod_sign(a: int, b: int)
    ensures
        a * b == if (a >= 0) == (b >= 0) {
            abs_int(a) * abs_int(b)
        } else {
            -(abs_int(a) * abs_int(b))
        },
{
    assert(a * b == if (a >= 0) == (b >= 0) {
        abs_int(a) * abs_int(b)
    } else {
        -(abs_int(a) * abs_int(b))
    }) by (nonlinear_arith);
}

/// Saturating fixed-point multiplication: `(a * b) / SCALE`, truncated
/// toward zero.
pub fn fp_mul(a: i64, b: i64) -> (r: i64)
    ensures
        r as int == fp_mul_spec(a as int, b as int),
{
    let neg = (a < 0) != (b < 0);
    let ma = abs64(a);
    let mb = abs64(b);
    proof {
        assert(ma * mb < 0x100000000000000000000000000000000) by (nonlinear_arith)
            requires
                ma <= 0x8000000000000000,
                mb <= 0x8000000000000000,
        ;
    }
    let p: u128 = ma * mb;
    let m: u128 = p / (SCALE as u128);
    proof {
        lemma_prod_sign(a as int, b as int);
        if a == 0 || b == 0 {
            assert(p == 0) by (nonlinear_arith)
                requires
                    ma == 0 || mb == 0,
                    p == ma * mb,
            ;
            assert(m == 0);
        }
        assert(tdiv(a as int * b as int, SCALE as int) == if neg {
            -(m as int)
        } else {
            m as int
        });
    }
    clamp_signed(m, neg)
}

/// Saturating fixed-point division `a / b` for a positive divisor `b`.
pub fn fp_div(a: i64, b: i64) -> (r: i64)
    requires
        b > 0,
    ensures
        r as int == fp_div_spec(a as int, b as int),
{
    let neg = a < 0;
    let ma = abs64(a);
    proof {
        assert(ma * (SCALE as int) < 0x100000000000000000000000000000000) by (nonlinear_arith)
            requires
                ma <= 0x8000000000000000,
        ;
    }
    let p: u128 = ma * (SCALE as u128);
    let m: u128 = p / (b as u128);
    proof {
        lemma_prod_sign(a as int, SCALE as int);
        if a == 0 {
            assert(m == 0);
        }
        assert(tdiv(a as int * SCALE, b as int) == if neg {
            -(m as int)
        } else {
            m as int
        });
    }
    clamp_signed(m, neg)
}

/// Division of a scalar by a positive integer count, truncated toward
/// zero.
pub fn div_trunc(a: i64, b: i64) -> (r: i64)
    requires
        b >= 1,
    ensures
        r as int == tdiv(a as int, b as int),
        abs_int(r as int) <= abs_int(a as int),
{
    let neg = a < 0;
    let ma = abs64(a);
    let m: u128 = ma / (b as u128);
    proof {
        lemma_prod_sign(a as int, 1);
        vstd::arithmetic::div_mod::lemma_fundamental_div_mod(ma as int, b as int);
        lemma_div_pos_is_pos(ma as int, b as int);
        assert(ma as int / b as int <= ma as int) by (nonlinear_arith)
            requires
                ma as int == b as int * (ma as int / b as int) + (ma as int % b as int),
                ma as int % b as int >= 0,
                b >= 1,
                ma as int / b as int >= 0,
        ;
    }
    clamp_signed(m, neg)
}

/// Whether `r` is the floor of the square root of `n`.
pub open spec fn is_isqrt(n: int, r: int) -> bool {
    0 <= r && r * r <= n && n < (r + 1) * (r + 1)
}

/// The floor of the square root of a nonnegative integer.
pub closed spec fn sqrt_floor(n: int) -> int {
    choose|r: int| is_isqrt(n, r)
}

/// The floor square root is the unique value satisfying `is_isqrt`.
pub proof fn lemma_sqrt_floor(n: int, r: int)
    requires
        is_isqrt(n, r),
    ensures
        sqrt_floor(n) == r,
{
    let w = choose|q: int| is_isqrt(n, q);
    assert(is_isqrt(n, w));
    if w < r {
        assert((w + 1) * (w + 1) <= r * r) by (nonlinear_arith)
            requires
                0 <= w + 1,
                w + 1 <= r,
        ;
        assert(false);
    }
    if r < w {
        assert((r + 1) * (r + 1) <= w * w) by (nonlinear_arith)
            requires
                0 <= r + 1,
                r + 1 <= w,
        ;
        assert(false);
    }
}

/// Floor square root of a `u128` below 2^96, by bisection.
fn isqrt128(n: u128) -> (r: u128)
    requires
        n < 0x1000000000000000000000000,
    ensures
        is_isqrt(n as int, r as int),
        r < 0x1000000000000,
{
    if n == 0 {
        return 0;
    }
    let mut lo: u128 = 0;
    let mut hi: u128 = 0x1000000000000;
    proof {
        assert(hi * hi == 0x1000000000000000000000000) by (nonlinear_arith)
            requires
                hi == 0x1000000000000u128,
        ;
    }
    while lo + 1 < hi
        invariant
            lo < hi,
            hi <= 0x1000000000000,
            lo * lo <= n,
            n < hi * hi,
        decreases hi - lo,
    {
        let mid: u128 = lo + (hi - lo) / 2;
        proof {
            assert(mid * mid <= 0x1000000000000000000000000) by (nonlinear_arith)
                requires
                    mid <= 0x1000000000000,
            ;
        }
        if mid * mid <= n {
            lo = mid;
        } else {
            hi = mid;
        }
    }
    lo
}

/// What the fixed-point square root returns: the floor square root of the
/// value rescaled so that the result is again a fixed-point scalar.
pub open spec fn fp_sqrt_spec(x: int) -> int {
    sqrt_floor(x * SCALE)
}

/// Fixed-point square root of a nonnegative scalar.
pub fn fp_sqrt(x: i64) -> (r: i64)
    requires
        x >= 0,
    ensures
        r as int == fp_sqrt_spec(x as int),
        is_isqrt(x as int * SCALE as int, r as int),
        0 <= r < 0x1000000000000,
{
    proof {
        assert((x as int) * (SCALE as int) < 0x1000000000000000000000000) by (nonlinear_arith)
            requires
                0 <= x <= 0x7fffffffffffffff,
        ;
        assert((x as int) * (SCALE as int) >= 0) by (nonlinear_arith)
            requires
                x >= 0,
        ;
    }
    let n: u128 = (x as u128) * (SCALE as u128);
    let r = isqrt128(n);
    proof {
        lemma_sqrt_floor(n as int, r as int);
    }
    r as i64
}

/// One run of the fraction-power loop: halving the exponent against
/// repeated square roots of the base. `f` is the remaining exponent
/// (strictly below one), `r` the current iterated root, `y` the
/// accumulated product, `k` the rounds left.
pub open spec fn pow_frac_rec(f: int, r: int, y: int, k: nat) -> int
    decreases k,
{
    if k == 0 {
        y
    } else {
        let r2 = fp_sqrt_spec(r);
        let f2 = 2 * f;
        if f2 >= FP_ONE {
            pow_frac_rec(f2 - FP_ONE, r2, fp_mul_spec(y, r2), (k - 1) as nat)
        } else {
            pow_frac_rec(f2, r2, y, (k - 1) as nat)
        }
    }
}

/// What `pow_frac` returns: an approximation of `x` raised to the
/// fractional exponent `f` in `[0, 1]`, by binary decomposition of the
/// exponent against iterated square roots.
pub open spec fn pow_frac_spec(x: int, f: int) -> int {
    if f == FP_ONE {
        x
    } else {
        pow_frac_rec(f, x, FP_ONE as int, 32)
    }
}

/// `x` raised to a fractional exponent `f` in `[0, 1]`, both fixed point.
pub fn pow_frac(x: i64, f: i64) -> (r: i64)
    requires
        x >= 0,
        0 <= f <= FP_ONE,
    ensures
        r as int == pow_frac_spec(x as int, f as int),
        r >= 0,
{
    if f == FP_ONE {
        return x;
    }
    let mut fc: i64 = f;
    let mut rc: i64 = x;
    let mut y: i64 = FP_ONE;
    let mut k: u64 = 32;
    while k > 0
        invariant
            0 <= fc < FP_ONE,
            0 <= rc,
            0 <= y,
            k <= 32,
            pow_frac_rec(f as int, x as int, FP_ONE as int, 32) == pow_frac_rec(
                fc as int,
                rc as int,
                y as int,
                k as nat,
            ),
        decreases k,
    {
        let r2 = fp_sqrt(rc);
        proof {
            lemma_mul_nonneg_sat(y as int, r2 as int);
        }
        let f2: i64 = 2 * fc;
        if f2 >= FP_ONE {
            y = fp_mul(y, r2);
            fc = f2 - FP_ONE;
        } else {
            fc = f2;
        }
        rc = r2;
        k = k - 1;
    }
    y
}

/// Fixed-point product of nonnegative scalars is nonnegative.
pub proof fn lemma_mul_nonneg_sat(a: int, b: int)
    requires
        a >= 0,
        b >= 0,
    ensures
        fp_mul_spec(a, b) >= 0,
{
    assert(a * b >= 0) by (nonlinear_arith)
        requires
            a >= 0,
            b >= 0,
    ;
    if a * b >= 0 {
        lemma_div_pos_is_pos(a * b, SCALE as int);
    }
}

/// The integer-power loop underlying `pow_int`: `q` fixed-point
/// multiplications of the accumulator by `x`.
pub open spec fn pow_int_rec(x: int, y: int, q: nat) -> int
    decreases q,
{
    if q == 0 {
        y
    } else {
        pow_int_rec(x, fp_mul_spec(y, x), (q - 1) as nat)
    }
}

/// What `pow_int` returns: `x` raised to the nonnegative integer `q`.
pub open spec fn pow_int_spec(x: int, q: nat) -> int {
    pow_int_rec(x, FP_ONE as int, q)
}

/// `x` raised to a nonnegative integer exponent, fixed point.
pub fn pow_int(x: i64, q: u64) -> (r: i64)
    requires
        x >= 0,
    ensures
        r as int == pow_int_spec(x as int, q as nat),
        r >= 0,
{
    let mut y: i64 = FP_ONE;
    let mut k: u64 = q;
    while k > 0
        invariant
            x >= 0,
            0 <= y,
            k <= q,
            pow_int_spec(x as int, q as nat) == pow_int_rec(x as int, y as int, k as nat),
        decreases k,
    {
        proof {
            lemma_mul_nonneg_sat(y as int, x as int);
        }
        y = fp_mul(y, x);
        k = k - 1;
    }
    y
}

/// What `pow_fp` returns: `x` raised to an arbitrary nonnegative
/// fixed-point exponent `e`, split into its integer and fractional parts.
pub open spec fn pow_fp_spec(x: int, e: int) -> int {
    fp_mul_spec(pow_int_spec(x, (e / SCALE as int) as nat), pow_frac_spec(x, e % SCALE as int))
}

/// Raising to the zero exponent leaves the accumulator untouched.
pub proof fn lemma_pow_frac_zero(r: int, y: int, n: nat)
    ensures
        pow_frac_rec(0, r, y, n) == y,
    decreases n,
{
    if n > 0 {
        lemma_pow_frac_zero(fp_sqrt_spec(r), y, (n - 1) as nat);
    }
}

/// Multiplying a scalar in range by one is exact.
pub proof fn lemma_mul_one(x: int)
    requires
        i64::MIN as int <= x <= i64::MAX as int,
    ensures
        fp_mul_spec(x, FP_ONE as int) == x,
        fp_mul_spec(FP_ONE as int, x) == x,
{
    let s = SCALE as int;
    assert(x * s == s * x && s * x == FP_ONE as int * x && x * FP_ONE as int == s * x)
        by (nonlinear_arith)
        requires
            s == FP_ONE as int,
    ;
    if x >= 0 {
        vstd::arithmetic::div_mod::lemma_div_multiples_vanish(x, s);
    } else {
        vstd::arithmetic::div_mod::lemma_div_multiples_vanish(-x, s);
        assert(s * (-x) == -(s * x)) by (nonlinear_arith);
    }
}

/// Multiplying by zero gives zero.
pub proof fn lemma_mul_zero(b: int)
    ensures
        fp_mul_spec(0, b) == 0,
        fp_mul_spec(b, 0) == 0,
        fp_div_spec(0, b) == 0,
        tdiv(0, b) == 0,
{
    vstd::arithmetic::mul::lemma_mul_by_zero_is_zero(b);
    vstd::arithmetic::mul::lemma_mul_by_zero_is_zero(SCALE as int);
    if b > 0 {
        vstd::arithmetic::div_mod::lemma_div_multiples_vanish(0, b);
        assert(b * 0 == 0) by (nonlinear_arith);
    }
    vstd::arithmetic::div_mod::lemma_div_multiples_vanish(0, SCALE as int);
    assert(SCALE as int * 0 == 0) by (nonlinear_arith);
}

/// Raising a scalar in range to the exponent one is exact.
pub proof fn lemma_pow_one(x: int)
    requires
        0 <= x <= i64::MAX as int,
    ensures
        pow_fp_spec(x, FP_ONE as int) == x,
{
    let s = SCALE as int;
    assert(s == 1 * s + 0) by (nonlinear_arith);
    vstd::arithmetic::div_mod::lemma_fundamental_div_mod_converse(s, s, 1, 0);
    assert(FP_ONE as int / s == 1 && FP_ONE as int % s == 0);
    assert(pow_frac_spec(x, 0) == FP_ONE as int) by {
        lemma_pow_frac_zero(x, FP_ONE as int, 32);
    }
    assert(pow_int_rec(x, fp_mul_spec(FP_ONE as int, x), 0) == fp_mul_spec(FP_ONE as int, x));
    assert(pow_int_rec(x, FP_ONE as int, 1) == pow_int_rec(x, fp_mul_spec(FP_ONE as int, x), 0));
    lemma_mul_one(x);
}

/// `x` raised to a nonnegative fixed-point exponent `e`.
pub fn pow_fp(x: i64, e: i64) -> (r: i64)
    requires
        x >= 0,
        e >= 0,
    ensures
        r as int == pow_fp_spec(x as int, e as int),
        r >= 0,
{
    let eu: u64 = e as u64;
    let q: u64 = eu / (SCALE as u64);
    let fr: u64 = eu % (SCALE as u64);
    let a = pow_int(x, q);
    let b = pow_frac(x, fr as i64);
    proof {
        lemma_mul_nonneg_sat(a as int, b as int);
    }
    fp_mul(a, b)
}

} // verus!
