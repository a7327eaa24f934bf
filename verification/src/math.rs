//! Fixed-point math kernel: deterministic natural-log and exponential
//! approximations over integers scaled by `SCALE`, and the ceiling
//! division used when converting scaled costs back to currency units.
//!
//! Every function is total over its stated domain and fails with
//! `MathOverflow` outside it; nothing wraps or saturates.

use vstd::prelude::*;
use vstd::arithmetic::div_mod::{
    lemma_fundamental_div_mod, lemma_mod_division_less_than_divisor, lemma_div_is_ordered,
    lemma_div_pos_is_pos, lemma_div_is_ordered_by_denominator, lemma_multiply_divide_lt,
};
use vstd::arithmetic::mul::{
    lemma_mul_inequality, lemma_mul_upper_bound, lemma_mul_strict_inequality,
};
use vstd::arithmetic::power2::{lemma_pow2_adds, lemma_pow2_pos, pow2};
use crate::errors::ErrorCode;

verus! {

/// Scale factor for fixed-point arithmetic (9 decimal digits).
pub const SCALE: u128 = 1_000_000_000;

/// ln(2) scaled by `SCALE`.
pub const LN2_SCALED: u128 = 693_147_180;

/// Largest accepted input to the exponential (scaled).
pub const MAX_EXP_INPUT: u128 = 60_000_000_000;

/// Iteration cap for the Taylor / atanh series.
pub const MAX_ITERATIONS: u128 = 28;

/// Convergence threshold for series terms (scaled).
pub const TERM_EPS: u128 = 1_000;

/// Ceiling of `n / d` for positive `d`.
pub open spec fn spec_div_ceil(n: int, d: int) -> int {
    (n + d - 1) / d
}

/// Ceiling division; rejects a zero divisor and an addend that would
/// not fit in the double-width type.
pub fn div_ceil_u128(n: u128, d: u128) -> (r: Result<u128, ErrorCode>)
    ensures
        d == 0 ==> r == Err::<u128, ErrorCode>(ErrorCode::MathOverflow),
        d > 0 && n + d - 1 > u128::MAX ==> r == Err::<u128, ErrorCode>(ErrorCode::MathOverflow),
        d > 0 && n + d - 1 <= u128::MAX ==> r == Ok::<u128, ErrorCode>(
            spec_div_ceil(n as int, d as int) as u128,
        ),
{
    if d == 0 {
        return Err(ErrorCode::MathOverflow);
    }
    if n > u128::MAX - (d - 1) {
        return Err(ErrorCode::MathOverflow);
    }
    Ok((n + (d - 1)) / d)
}

/// Truncated Taylor series for exp on the residual argument: the value
/// the series loop reaches from state (`term`, `sum`) at iteration `n`.
pub open spec fn spec_exp_taylor(r: int, term: int, sum: int, n: int) -> int
    decreases MAX_ITERATIONS + 1 - n,
{
    if n < 1 || n > MAX_ITERATIONS {
        sum
    } else {
        let t = term * r / (SCALE as int) / n;
        if t < TERM_EPS {
            sum
        } else {
            spec_exp_taylor(r, t, sum + t, n + 1)
        }
    }
}

/// exp of a residual `0 <= r < ln 2` (scaled), as the series computes it.
pub open spec fn spec_exp_r(r: int) -> int {
    spec_exp_taylor(r, SCALE as int, SCALE as int, 1)
}

/// exp for a nonnegative scaled argument: range-reduce by ln 2 and
/// scale the series value by the matching power of two.
pub open spec fn spec_exp_pos(x: int) -> int {
    spec_exp_r(x % (LN2_SCALED as int)) * pow2((x / (LN2_SCALED as int)) as nat)
}

proof fn lemma_exp_taylor_bounds(r: int, term: int, sum: int, n: int)
    requires
        0 <= r < SCALE,
        0 <= term <= SCALE,
        0 <= sum,
        1 <= n <= MAX_ITERATIONS + 1,
    ensures
        sum <= spec_exp_taylor(r, term, sum, n) <= sum + (MAX_ITERATIONS + 1 - n) * SCALE,
    decreases MAX_ITERATIONS + 1 - n,
{
    if n <= MAX_ITERATIONS {
        let t = term * r / (SCALE as int) / n;
        assert(term * r <= term * (SCALE as int)) by {
            lemma_mul_inequality(r, SCALE as int, term);
        }
        assert(term * (SCALE as int) / (SCALE as int) == term);
        lemma_div_is_ordered(term * r, term * (SCALE as int), SCALE as int);
        lemma_div_is_ordered_by_denominator(term * r / (SCALE as int), 1, n);
        lemma_div_pos_is_pos(term * r, SCALE as int);
        lemma_div_pos_is_pos(term * r / (SCALE as int), n);
        assert(0 <= t <= term);
        if t >= TERM_EPS {
            lemma_exp_taylor_bounds(r, t, sum + t, n + 1);
        }
    }
}

/// The series value for a residual below ln 2 stays within one order
/// of magnitude of `SCALE`.
proof fn lemma_exp_r_bounds(r: int)
    requires
        0 <= r < SCALE,
    ensures
        SCALE <= spec_exp_r(r) <= 29 * SCALE,
{
    lemma_exp_taylor_bounds(r, SCALE as int, SCALE as int, 1);
}

/// exp of a nonnegative argument is at least one (scaled): the series
/// starts at `SCALE` and the power-of-two factor only grows it.
pub proof fn lemma_exp_pos_ge_scale(x: int)
    requires
        0 <= x <= MAX_EXP_INPUT,
    ensures
        SCALE <= spec_exp_pos(x),
{
    let k = (x / (LN2_SCALED as int)) as nat;
    let r = x % (LN2_SCALED as int);
    lemma_mod_division_less_than_divisor(x, LN2_SCALED as int);
    lemma_div_pos_is_pos(x, LN2_SCALED as int);
    lemma_exp_r_bounds(r);
    lemma_pow2_pos(k);
    assert(spec_exp_r(r) * pow2(k) >= spec_exp_r(r) * 1) by {
        lemma_mul_inequality(1, pow2(k) as int, spec_exp_r(r));
    }
}

/// The series and the power-of-two factor both collapse to one at zero.
pub proof fn lemma_exp_pos_zero()
    ensures
        spec_exp_pos(0) == SCALE,
{
    vstd::arithmetic::power2::lemma2_to64();
    vstd::arithmetic::div_mod::lemma_small_mod(0nat, LN2_SCALED as nat);
    vstd::arithmetic::div_mod::lemma_div_of0(LN2_SCALED as int);
    assert(spec_exp_r(0) == SCALE) by {
        reveal_with_fuel(spec_exp_taylor, 2);
    }
}

/// Fixed-point exponential for a nonnegative scaled argument.
/// Range-reduces by ln 2, sums the Taylor series on the residual, then
/// doubles the sum once per reduced power of two.
pub fn exp_fixed_pos(x: u128) -> (r: Result<u128, ErrorCode>)
    ensures
        x > MAX_EXP_INPUT ==> r == Err::<u128, ErrorCode>(ErrorCode::MathOverflow),
        x <= MAX_EXP_INPUT ==> r == Ok::<u128, ErrorCode>(spec_exp_pos(x as int) as u128),
        x <= MAX_EXP_INPUT ==> spec_exp_pos(x as int) <= u128::MAX,
        r matches Ok(v) ==> SCALE <= v,
{
    if x > MAX_EXP_INPUT {
        return Err(ErrorCode::MathOverflow);
    }
    proof {
        lemma_exp_pos_ge_scale(x as int);
    }
    if x == 0 {
        proof {
            lemma_exp_pos_zero();
        }
        return Ok(SCALE);
    }

    let k: u128 = x / LN2_SCALED;
    proof {
        lemma_fundamental_div_mod(x as int, LN2_SCALED as int);
        lemma_mod_division_less_than_divisor(x as int, LN2_SCALED as int);
        lemma_div_is_ordered(x as int, MAX_EXP_INPUT as int, LN2_SCALED as int);
        assert(MAX_EXP_INPUT as int / (LN2_SCALED as int) == 86);
    }
    let r: u128 = x - k * LN2_SCALED;
    assert(r == x as int % (LN2_SCALED as int));

    let mut sum: u128 = SCALE;
    let mut term: u128 = SCALE;
    let mut n: u128 = 1;
    while n <= MAX_ITERATIONS
        invariant_except_break
            1 <= n <= MAX_ITERATIONS + 1,
            0 <= term <= SCALE,
            SCALE <= sum <= n * SCALE,
            r < LN2_SCALED,
            spec_exp_taylor(r as int, term as int, sum as int, n as int) == spec_exp_r(r as int),
        ensures
            sum == spec_exp_r(r as int),
            SCALE <= sum <= 29 * SCALE,
        decreases MAX_ITERATIONS + 1 - n,
    {
        proof {
            assert(term * r <= term * SCALE) by {
                lemma_mul_inequality(r as int, SCALE as int, term as int);
            }
            lemma_div_is_ordered(term as int * r as int, term as int * SCALE as int, SCALE as int);
            lemma_div_is_ordered_by_denominator(term as int * r as int / (SCALE as int), 1, n as int);
        }
        term = term * r / SCALE / n;
        if term < TERM_EPS {
            break;
        }
        sum = sum + term;
        n = n + 1;
    }

    let mut out: u128 = sum;
    let mut i: u128 = 0;
    proof {
        vstd::arithmetic::power2::lemma2_to64();
    }
    while i < k
        invariant
            0 <= i <= k <= 86,
            sum <= 29 * SCALE,
            out == sum as int * pow2(i as nat),
        decreases k - i,
    {
        proof {
            vstd::arithmetic::power2::lemma2_to64();
            lemma_pow2_adds(64, 23);
            assert(pow2(23) == 0x800000);
            assert(pow2(87) == 0x8000000000000000000000);
            lemma_pow2_adds(i as nat, 1);
            assert(pow2((i + 1) as nat) <= pow2(87)) by {
                if i + 1 < 87 {
                    vstd::arithmetic::power2::lemma_pow2_strictly_increases((i + 1) as nat, 87);
                }
            }
            assert(sum as int * pow2((i + 1) as nat) <= 29 * (SCALE as int) * pow2(87)) by {
                lemma_mul_upper_bound(sum as int, 29 * (SCALE as int), pow2((i + 1) as nat) as int, pow2(87) as int);
            }
            assert(sum as int * pow2(i as nat) * 2 == sum as int * pow2((i + 1) as nat)) by {
                vstd::arithmetic::mul::lemma_mul_is_associative(sum as int, pow2(i as nat) as int, 2);
            }
        }
        out = out * 2;
        i = i + 1;
    }
    proof {
        assert(out == spec_exp_pos(x as int));
        assert(out >= SCALE);
    }
    Ok(out)
}

/// exp for a signed scaled argument; a negative argument goes through
/// the reciprocal of the positive case.
pub open spec fn spec_exp_signed(x: int) -> int {
    if x >= 0 {
        spec_exp_pos(x)
    } else {
        (SCALE as int) * (SCALE as int) / spec_exp_pos(-x)
    }
}

/// Fixed-point exponential for a signed scaled argument.
pub fn exp_fixed_signed(x: i128) -> (r: Result<u128, ErrorCode>)
    ensures
        x > MAX_EXP_INPUT || x < -(MAX_EXP_INPUT as int) ==> r == Err::<u128, ErrorCode>(
            ErrorCode::MathOverflow,
        ),
        -(MAX_EXP_INPUT as int) <= x <= MAX_EXP_INPUT ==> r == Ok::<u128, ErrorCode>(
            spec_exp_signed(x as int) as u128,
        ),
        x <= 0 ==> (r matches Ok(v) ==> v <= SCALE),
{
    if x >= 0 {
        let r = exp_fixed_pos(x as u128);
        proof {
            if x == 0 {
                lemma_exp_pos_zero();
            }
        }
        return r;
    }
    if x < -(MAX_EXP_INPUT as i128) {
        return Err(ErrorCode::MathOverflow);
    }
    let y: u128 = (-x) as u128;
    let denom: u128 = match exp_fixed_pos(y) {
        Ok(d) => d,
        Err(e) => {
            proof {
                assert(false);
            }
            return Err(e);
        },
    };
    let num: u128 = SCALE * SCALE;
    proof {
        lemma_exp_pos_ge_scale(y as int);
        assert(denom as int == spec_exp_pos(y as int));
        lemma_div_is_ordered_by_denominator(num as int, SCALE as int, denom as int);
        lemma_div_pos_is_pos(num as int, denom as int);
        assert(num as int / denom as int == spec_exp_signed(x as int));
    }
    Ok(num / denom)
}

/// Mantissa of the power-of-two normalization `x = v * 2^k` with
/// `v` in `[SCALE, 2*SCALE)`.
pub open spec fn spec_ln_norm_v(x: int) -> int
    decreases x,
{
    if x < 2 * SCALE {
        x
    } else {
        spec_ln_norm_v(x / 2)
    }
}

/// Exponent of the power-of-two normalization of `x`.
pub open spec fn spec_ln_norm_k(x: int) -> int
    decreases x,
{
    if x < 2 * SCALE {
        0
    } else {
        1 + spec_ln_norm_k(x / 2)
    }
}

/// Truncated atanh series for ln on the normalized mantissa: the value
/// the series loop reaches from state (`term`, `sum`) at iteration `n`.
pub open spec fn spec_ln_series(z2: int, term: int, sum: int, n: int) -> int
    decreases MAX_ITERATIONS + 1 - n,
{
    if n < 1 || n > MAX_ITERATIONS {
        sum
    } else {
        let t = term * z2 / (SCALE as int);
        let a = t / (2 * n + 1);
        if a < TERM_EPS {
            sum
        } else {
            spec_ln_series(z2, t, sum + a, n + 1)
        }
    }
}

/// ln of a scaled argument at least one: normalize to `[1, 2)`, sum the
/// atanh series on `z = (v-1)/(v+1)`, and add back `k * ln 2`.
pub open spec fn spec_ln(x: int) -> int {
    let v = spec_ln_norm_v(x);
    let k = spec_ln_norm_k(x);
    let z = (v - SCALE) * (SCALE as int) / (v + SCALE);
    let z2 = z * z / (SCALE as int);
    2 * spec_ln_series(z2, z, z, 1) + k * (LN2_SCALED as int)
}

proof fn lemma_ln_series_bounds(z2: int, term: int, sum: int, n: int)
    requires
        0 <= z2 < SCALE,
        0 <= term < SCALE,
        0 <= sum,
        1 <= n <= MAX_ITERATIONS + 1,
    ensures
        sum <= spec_ln_series(z2, term, sum, n) <= sum + (MAX_ITERATIONS + 1 - n) * SCALE,
    decreases MAX_ITERATIONS + 1 - n,
{
    if n <= MAX_ITERATIONS {
        let t = term * z2 / (SCALE as int);
        assert(term * z2 <= term * (SCALE as int)) by {
            lemma_mul_inequality(z2, SCALE as int, term);
        }
        lemma_div_is_ordered(term * z2, term * (SCALE as int), SCALE as int);
        lemma_div_pos_is_pos(term * z2, SCALE as int);
        let a = t / (2 * n + 1);
        lemma_div_is_ordered_by_denominator(t, 1, 2 * n + 1);
        lemma_div_pos_is_pos(t, 2 * n + 1);
        if a >= TERM_EPS {
            lemma_ln_series_bounds(z2, t, sum + a, n + 1);
        }
    }
}

/// Fixed-point natural logarithm for `x >= SCALE` (so the result is
/// nonnegative); smaller inputs are out of domain.
pub fn ln_fixed(x: u128) -> (r: Result<u128, ErrorCode>)
    ensures
        x < SCALE ==> r == Err::<u128, ErrorCode>(ErrorCode::MathOverflow),
        x >= SCALE ==> r == Ok::<u128, ErrorCode>(spec_ln(x as int) as u128),
        x >= SCALE ==> 0 <= spec_ln(x as int) <= 58 * SCALE + 99 * LN2_SCALED,
        r matches Ok(v) ==> v <= 58 * SCALE + 99 * LN2_SCALED,
{
    if x < SCALE {
        return Err(ErrorCode::MathOverflow);
    }

    let mut v: u128 = x;
    let mut k: u32 = 0;
    proof {
        vstd::arithmetic::power2::lemma2_to64();
    }
    while v >= 2 * SCALE
        invariant
            SCALE <= v,
            k <= 98,
            pow2(k as nat) * v <= x,
            spec_ln_norm_v(v as int) == spec_ln_norm_v(x as int),
            k + spec_ln_norm_k(v as int) == spec_ln_norm_k(x as int),
        decreases v,
    {
        proof {
            vstd::arithmetic::power2::lemma2_to64();
            vstd::arithmetic::power2::lemma2_to64_rest();
            lemma_pow2_adds(64, 35);
            assert(pow2(99) == 0x8000000000000000000000000);
            assert(pow2(k as nat) * v >= pow2(k as nat) * (2 * SCALE as int)) by {
                lemma_mul_inequality(2 * SCALE as int, v as int, pow2(k as nat) as int);
                vstd::arithmetic::mul::lemma_mul_is_commutative(pow2(k as nat) as int, v as int);
                vstd::arithmetic::mul::lemma_mul_is_commutative(
                    pow2(k as nat) as int,
                    2 * SCALE as int,
                );
            }
            assert(k < 98) by {
                if k >= 98 {
                    assert(pow2(k as nat) >= pow2(98)) by {
                        if k > 98 {
                            vstd::arithmetic::power2::lemma_pow2_strictly_increases(98, k as nat);
                        }
                    }
                    assert(pow2(98) * (2 * SCALE as int) == pow2(99) * (SCALE as int)) by {
                        lemma_pow2_adds(98, 1);
                    }
                    assert(pow2(k as nat) * (2 * SCALE as int) >= pow2(98) * (2 * SCALE as int)) by {
                        lemma_mul_inequality(
                            pow2(98) as int,
                            pow2(k as nat) as int,
                            2 * SCALE as int,
                        );
                    }
                }
            }
            lemma_pow2_adds(k as nat, 1);
            assert(pow2((k + 1) as nat) * ((v / 2) as int) <= pow2(k as nat) * v) by {
                assert(2 * ((v / 2) as int) <= v);
                lemma_mul_inequality(2 * ((v / 2) as int), v as int, pow2(k as nat) as int);
                vstd::arithmetic::mul::lemma_mul_is_commutative(
                    2 * ((v / 2) as int),
                    pow2(k as nat) as int,
                );
                vstd::arithmetic::mul::lemma_mul_is_commutative(v as int, pow2(k as nat) as int);
                assert(pow2(k as nat) * 2 * ((v / 2) as int) == pow2(k as nat) * (2 * (
                (v / 2) as int))) by {
                    vstd::arithmetic::mul::lemma_mul_is_associative(
                        pow2(k as nat) as int,
                        2,
                        (v / 2) as int,
                    );
                }
                assert(pow2((k + 1) as nat) == pow2(k as nat) * 2);
            }
        }
        v = v / 2;
        k = k + 1;
    }

    let num: u128 = v - SCALE;
    let den: u128 = v + SCALE;
    let z: u128 = num * SCALE / den;
    proof {
        assert(num * SCALE < den * SCALE) by {
            lemma_mul_strict_inequality(num as int, den as int, SCALE as int);
        }
        assert(z < SCALE) by {
            vstd::arithmetic::mul::lemma_mul_is_commutative(den as int, SCALE as int);
            lemma_multiply_divide_lt(num as int * SCALE as int, den as int, SCALE as int);
        }
        lemma_div_pos_is_pos(num as int * SCALE as int, den as int);
    }
    proof {
        assert(z * z <= (SCALE as int - 1) * (SCALE as int - 1)) by {
            lemma_mul_upper_bound(z as int, SCALE as int - 1, z as int, SCALE as int - 1);
        }
    }
    let z2: u128 = z * z / SCALE;
    proof {
        assert(z2 < SCALE) by {
            lemma_multiply_divide_lt(z as int * z as int, SCALE as int, SCALE as int);
        }
        lemma_div_pos_is_pos(z as int * z as int, SCALE as int);
    }

    let mut term: u128 = z;
    let mut sum: u128 = z;
    let mut n: u128 = 1;
    while n <= MAX_ITERATIONS
        invariant_except_break
            1 <= n <= MAX_ITERATIONS + 1,
            0 <= term <= z < SCALE,
            0 <= z2 < SCALE,
            sum <= n * SCALE,
            spec_ln_series(z2 as int, term as int, sum as int, n as int) == spec_ln_series(
                z2 as int,
                z as int,
                z as int,
                1,
            ),
        ensures
            sum == spec_ln_series(z2 as int, z as int, z as int, 1),
            sum <= 29 * SCALE,
        decreases MAX_ITERATIONS + 1 - n,
    {
        proof {
            assert(term * z2 <= term * SCALE) by {
                lemma_mul_inequality(z2 as int, SCALE as int, term as int);
            }
            lemma_div_is_ordered(term as int * z2 as int, term as int * SCALE as int, SCALE as int);
        }
        term = term * z2 / SCALE;
        let add: u128 = term / (2 * n + 1);
        proof {
            lemma_div_is_ordered_by_denominator(term as int, 1, 2 * n as int + 1);
        }
        if add < TERM_EPS {
            break;
        }
        sum = sum + add;
        n = n + 1;
    }

    let ln_v: u128 = sum * 2;
    let k_ln2: u128 = (k as u128) * LN2_SCALED;
    proof {
        assert(k_ln2 <= 99 * LN2_SCALED) by {
            lemma_mul_inequality(k as int, 99, LN2_SCALED as int);
        }
    }
    Ok(ln_v + k_ln2)
}

} // verus!
