//! Deterministic pseudo-random source of the simulation engine.
//!
//! A linear congruential generator over 64-bit state drives the draws; an
//! approximate standard-normal variate is the sum of twelve uniform draws
//! minus six, which has mean zero and unit variance at the fixed-point
//! scale. Every draw is an exact function of the seed, so a simulation run
//! is reproducible from its seed alone.

use vstd::prelude::*;

verus! {

use crate::fixed::FP_ONE;

/// Multiplier of the linear congruential generator.
pub const LCG_MUL: u64 = 6364136223846793005;

/// Increment of the linear congruential generator.
pub const LCG_INC: u64 = 1442695040888963407;

/// One state transition of the generator.
pub open spec fn lcg_next(s: int) -> int {
    (s * LCG_MUL + LCG_INC) % 0x10000000000000000
}

/// `k` state transitions of the generator.
pub open spec fn lcg_iter(s: int, k: nat) -> int
    decreases k,
{
    if k == 0 {
        s
    } else {
        lcg_next(lcg_iter(s, (k - 1) as nat))
    }
}

/// Iterating the generator composes additively in the step count.
pub proof fn lemma_lcg_iter_add(s: int, a: nat, b: nat)
    ensures
        lcg_iter(s, a + b) == lcg_iter(lcg_iter(s, a), b),
    decreases b,
{
    if b > 0 {
        lemma_lcg_iter_add(s, a, (b - 1) as nat);
    }
}

/// The top 32 bits of a 64-bit state: a uniform fixed-point fraction in
/// `[0, 1)`.
pub open spec fn hi32(s: int) -> int {
    s / 0x100000000
}

/// Sum of the uniform fractions produced by the next `k` transitions.
pub open spec fn normal_sum(s: int, k: nat) -> int
    decreases k,
{
    if k == 0 {
        0
    } else {
        normal_sum(s, (k - 1) as nat) + hi32(lcg_iter(s, k))
    }
}

/// One approximate standard-normal draw from state `s`: twelve uniform
/// fractions summed, minus six.
pub open spec fn normal_of(s: int) -> int {
    normal_sum(s, 12) - 6 * FP_ONE
}

/// The `i`-th standard-normal draw of the series seeded with `seed`.
pub open spec fn normal_at(seed: int, i: nat) -> int {
    normal_of(lcg_iter(seed, 12 * i))
}

/// Iterated states stay within 64 bits.
pub proof fn lemma_lcg_iter_range(s: int, k: nat)
    requires
        0 <= s < 0x10000000000000000,
    ensures
        0 <= lcg_iter(s, k) < 0x10000000000000000,
    decreases k,
{
    if k > 0 {
        lemma_lcg_iter_range(s, (k - 1) as nat);
    }
}

/// Each uniform fraction lies in `[0, 1)`, so the sum of `k` of them lies
/// within `k` at the fixed-point scale.
pub proof fn lemma_normal_sum_range(s: int, k: nat)
    requires
        0 <= s < 0x10000000000000000,
    ensures
        0 <= normal_sum(s, k) <= k * 0x100000000,
    decreases k,
{
    if k > 0 {
        lemma_normal_sum_range(s, (k - 1) as nat);
        lemma_lcg_iter_range(s, k);
        let st = lcg_iter(s, k);
        vstd::arithmetic::div_mod::lemma_div_pos_is_pos(st, 0x100000000);
        vstd::arithmetic::div_mod::lemma_div_is_ordered(st, 0xffffffffffffffff, 0x100000000);
        assert((k - 1) * 0x100000000 + 0x100000000 == k * 0x100000000) by (nonlinear_arith);
    }
}

/// A standard-normal draw lies within six units of zero.
pub proof fn lemma_normal_range(s: int)
    requires
        0 <= s < 0x10000000000000000,
    ensures
        -(6 * FP_ONE as int) <= normal_of(s) <= 6 * FP_ONE as int,
{
    lemma_normal_sum_range(s, 12);
}

/// One state transition of the generator.
fn lcg_step(s: u64) -> (r: u64)
    ensures
        r as int == lcg_next(s as int),
{
    proof {
        assert((s as int) * (LCG_MUL as int) + (LCG_INC as int)
            < 0x100000000000000000000000000000000) by (nonlinear_arith)
            requires
                s <= 0xffffffffffffffff,
        ;
    }
    let t: u128 = (s as u128) * (LCG_MUL as u128) + (LCG_INC as u128);
    (t % 0x10000000000000000u128) as u64
}

/// One approximate standard-normal draw: advances the state twelve times
/// and returns the new state with the draw.
fn normal_step(s: u64) -> (r: (u64, i64))
    ensures
        r.0 as int == lcg_iter(s as int, 12),
        r.1 as int == normal_of(s as int),
{
    let mut st: u64 = s;
    let mut acc: i64 = 0;
    let mut j: u64 = 0;
    while j < 12
        invariant
            j <= 12,
            st as int == lcg_iter(s as int, j as nat),
            acc as int == normal_sum(s as int, j as nat),
            0 <= acc <= j * 0x100000000,
        decreases 12 - j,
    {
        st = lcg_step(st);
        let u: u64 = st / 0x100000000;
        acc = acc + (u as i64);
        j = j + 1;
    }
    (st, acc - 6 * FP_ONE)
}

/// The series of `n` approximate standard-normal draws from `seed`; draw
/// `i` is an exact function of the seed and its index.
pub fn normal_series(seed: u64, n: usize) -> (r: Vec<i64>)
    ensures
        r@.len() == n,
        forall|i: int| 0 <= i < n ==> r@[i] as int == normal_at(seed as int, i as nat),
{
    let mut v: Vec<i64> = Vec::new();
    let mut st: u64 = seed;
    while v.len() < n
        invariant
            v@.len() <= n,
            st as int == lcg_iter(seed as int, (12 * v@.len()) as nat),
            forall|i: int| 0 <= i < v@.len() ==> v@[i] as int == normal_at(seed as int, i as nat),
        decreases n - v@.len(),
    {
        let ghost k = v@.len();
        let (s2, x) = normal_step(st);
        proof {
            lemma_lcg_iter_add(seed as int, (12 * k) as nat, 12);
            assert(12 * k + 12 == 12 * (k + 1)) by (nonlinear_arith);
        }
        st = s2;
        v.push(x);
    }
    v
}

} // verus!
