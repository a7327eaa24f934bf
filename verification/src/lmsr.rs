//! Logarithmic market-scoring-rule pricing: total cost of a supply
//! vector, buy cost and sell refund as cost differences, and the
//! instantaneous per-outcome price.
//!
//! The log-sum-exp form bounds every exponent argument by zero, so the
//! kernel never sees a large positive input regardless of supply size.

use vstd::prelude::*;
use vstd::arithmetic::div_mod::{
    lemma_fundamental_div_mod, lemma_div_pos_is_pos, lemma_div_is_ordered_by_denominator,
};
use vstd::arithmetic::mul::{
    lemma_mul_inequality, lemma_mul_upper_bound, lemma_mul_is_distributive_add,
    lemma_mul_is_commutative,
};
use crate::errors::ErrorCode;
use crate::math::{
    SCALE, LN2_SCALED, MAX_EXP_INPUT, spec_exp_signed, spec_exp_pos, spec_ln, spec_div_ceil,
    exp_fixed_signed, ln_fixed, div_ceil_u128, lemma_exp_pos_ge_scale,
};

verus! {

/// Scaled exposure of outcome `i`: `q[i] * SCALE / b`.
pub open spec fn spec_r_at(q: Seq<u64>, b: u64, i: int) -> int {
    q[i] * SCALE / (b as int)
}

/// Largest scaled exposure among the first `n` outcomes (at least zero).
pub open spec fn spec_max_r(q: Seq<u64>, b: u64, n: int) -> int
    decreases n,
{
    if n <= 0 {
        0
    } else {
        let m = spec_max_r(q, b, n - 1);
        if spec_r_at(q, b, n - 1) > m {
            spec_r_at(q, b, n - 1)
        } else {
            m
        }
    }
}

/// Sum of `exp(r_i - m)` over the first `n` outcomes.
pub open spec fn spec_exp_sum(q: Seq<u64>, b: u64, n: int, m: int) -> int
    decreases n,
{
    if n <= 0 {
        0
    } else {
        spec_exp_sum(q, b, n - 1, m) + spec_exp_signed(spec_r_at(q, b, n - 1) - m)
    }
}

/// Whether some outcome's exposure sits too far below the maximum for
/// the exponential's domain.
pub open spec fn spec_spread_too_wide(q: Seq<u64>, b: u64, n: int) -> bool {
    exists|i: int|
        0 <= i < n && spec_max_r(q, b, n) - spec_r_at(q, b, i) > MAX_EXP_INPUT
}

/// Total cost of supply vector `q` in currency units, rounded up:
/// `ceil(b * (m + ln(sum_i exp(r_i - m))) / SCALE)`.
pub open spec fn spec_cost_units(q: Seq<u64>, b: u64, n: int) -> int {
    let m = spec_max_r(q, b, n);
    spec_div_ceil(b * (m + spec_ln(spec_exp_sum(q, b, n, m))), SCALE as int)
}

/// The cost function's full contract, error cases included.
pub open spec fn spec_lmsr_cost(q: Seq<u64>, b: u64, outcome_count: u8) -> Result<u64, ErrorCode> {
    if b == 0 {
        Err(ErrorCode::InvalidLiquidityParameter)
    } else if outcome_count < 2 || outcome_count > 10 {
        Err(ErrorCode::InvalidOutcomeCount)
    } else if spec_spread_too_wide(q, b, outcome_count as int) {
        Err(ErrorCode::MathOverflow)
    } else if spec_cost_units(q, b, outcome_count as int) > u64::MAX {
        Err(ErrorCode::MathOverflow)
    } else {
        Ok(spec_cost_units(q, b, outcome_count as int) as u64)
    }
}

/// Exposures are nonnegative, so the running maximum dominates each one.
proof fn lemma_r_at_nonneg(q: Seq<u64>, b: u64, i: int)
    requires
        b >= 1,
        0 <= i < q.len(),
    ensures
        spec_r_at(q, b, i) >= 0,
{
    lemma_div_pos_is_pos(q[i] * SCALE, b as int);
}

proof fn lemma_max_r_ge(q: Seq<u64>, b: u64, n: int, i: int)
    requires
        b >= 1,
        0 <= i < n <= q.len(),
    ensures
        spec_max_r(q, b, n) >= spec_r_at(q, b, i),
        spec_max_r(q, b, n) >= 0,
    decreases n,
{
    lemma_r_at_nonneg(q, b, i);
    if i < n - 1 {
        lemma_max_r_ge(q, b, n - 1, i);
    }
}

/// Some outcome attains the maximum exposure, provided every exposure
/// is nonnegative.
proof fn lemma_max_r_attained(q: Seq<u64>, b: u64, n: int)
    requires
        b >= 1,
        1 <= n <= q.len(),
    ensures
        exists|i: int| 0 <= i < n && spec_r_at(q, b, i) == spec_max_r(q, b, n),
    decreases n,
{
    if n == 1 {
        lemma_r_at_nonneg(q, b, 0);
        assert(spec_max_r(q, b, 0) == 0);
        assert(spec_r_at(q, b, 0) == spec_max_r(q, b, 1));
    } else {
        lemma_max_r_attained(q, b, n - 1);
        if spec_r_at(q, b, n - 1) > spec_max_r(q, b, n - 1) {
            assert(spec_r_at(q, b, n - 1) == spec_max_r(q, b, n));
        } else {
            let j = choose|i: int| 0 <= i < n - 1 && spec_r_at(q, b, i) == spec_max_r(q, b, n - 1);
            assert(spec_r_at(q, b, j) == spec_max_r(q, b, n));
        }
    }
}

/// Each summand of the log-sum-exp is a scaled probability weight in
/// `[0, SCALE]`, and exactly `SCALE` at the maximum itself.
proof fn lemma_exp_signed_unit(d: int)
    requires
        -(MAX_EXP_INPUT as int) <= d <= 0,
    ensures
        0 <= spec_exp_signed(d) <= SCALE,
        d == 0 ==> spec_exp_signed(d) == SCALE,
{
    crate::math::lemma_exp_pos_zero();
    if d < 0 {
        lemma_exp_pos_ge_scale(-d);
        let num = (SCALE as int) * (SCALE as int);
        let den = spec_exp_pos(-d);
        lemma_div_pos_is_pos(num, den);
        lemma_div_is_ordered_by_denominator(num, SCALE as int, den);
    }
}

/// Partial exp sums stay within `[0, n * SCALE]` and dominate each of
/// their summands.
proof fn lemma_exp_sum_bounds(q: Seq<u64>, b: u64, n: int, m: int)
    requires
        0 <= n,
        forall|j: int| 0 <= j < n ==> #[trigger] spec_r_at(q, b, j) <= m,
        forall|j: int| 0 <= j < n ==> m - #[trigger] spec_r_at(q, b, j) <= MAX_EXP_INPUT,
    ensures
        0 <= spec_exp_sum(q, b, n, m) <= n * SCALE,
        forall|j: int|
            0 <= j < n ==> spec_exp_sum(q, b, n, m) >= #[trigger] spec_exp_signed(
                spec_r_at(q, b, j) - m,
            ),
    decreases n,
{
    if n > 0 {
        lemma_exp_sum_bounds(q, b, n - 1, m);
        lemma_exp_signed_unit(spec_r_at(q, b, n - 1) - m);
    }
}

/// The liquidity parameter times any exposure stays below the supply
/// ceiling times the scale.
proof fn lemma_b_mul_max_r(q: Seq<u64>, b: u64, n: int)
    requires
        b >= 1,
        0 <= n <= q.len(),
    ensures
        0 <= b * spec_max_r(q, b, n) <= u64::MAX * SCALE,
    decreases n,
{
    if n == 0 {
    } else {
        lemma_b_mul_max_r(q, b, n - 1);
        let r = spec_r_at(q, b, n - 1);
        if r > spec_max_r(q, b, n - 1) {
            lemma_fundamental_div_mod(q[n - 1] * SCALE, b as int);
            vstd::arithmetic::div_mod::lemma_mod_division_less_than_divisor(
                q[n - 1] * SCALE,
                b as int,
            );
            assert(b * r <= q[n - 1] * SCALE);
            assert(q[n - 1] * SCALE <= u64::MAX * SCALE) by {
                lemma_mul_inequality(q[n - 1] as int, u64::MAX as int, SCALE as int);
                lemma_mul_is_commutative(q[n - 1] as int, SCALE as int);
                lemma_mul_is_commutative(u64::MAX as int, SCALE as int);
            }
        }
    }
}

/// With the spread in domain, every summand of the stabilized sum is
/// a probability weight in `[0, SCALE]`.
pub proof fn lemma_summand_in_unit_range(q: Seq<u64>, b: u64, n: int, j: int)
    requires
        b >= 1,
        1 <= n <= q.len(),
        0 <= j < n,
        !spec_spread_too_wide(q, b, n),
    ensures
        0 <= spec_exp_signed(spec_r_at(q, b, j) - spec_max_r(q, b, n)) <= SCALE,
{
    let m = spec_max_r(q, b, n);
    lemma_max_r_ge(q, b, n, j);
    if m - spec_r_at(q, b, j) > MAX_EXP_INPUT {
        assert(spec_spread_too_wide(q, b, n));
    }
    lemma_exp_signed_unit(spec_r_at(q, b, j) - m);
}

/// With the spread in domain, the stabilized sum of exponentials sits
/// between `SCALE` (the maximum's own weight) and `n * SCALE`.
pub proof fn lemma_exp_sum_at_least_scale(q: Seq<u64>, b: u64, n: int)
    requires
        b >= 1,
        1 <= n <= q.len(),
        !spec_spread_too_wide(q, b, n),
    ensures
        SCALE <= spec_exp_sum(q, b, n, spec_max_r(q, b, n)) <= n * SCALE,
{
    let m = spec_max_r(q, b, n);
    assert forall|j: int| 0 <= j < n implies #[trigger] spec_r_at(q, b, j) <= m by {
        lemma_max_r_ge(q, b, n, j);
    }
    assert forall|j: int| 0 <= j < n implies m - #[trigger] spec_r_at(q, b, j)
        <= MAX_EXP_INPUT by {
        if m - spec_r_at(q, b, j) > MAX_EXP_INPUT {
            assert(spec_spread_too_wide(q, b, n));
        }
    }
    lemma_exp_sum_bounds(q, b, n, m);
    lemma_max_r_attained(q, b, n);
    let w = choose|i: int| 0 <= i < n && spec_r_at(q, b, i) == m;
    lemma_exp_signed_unit(spec_r_at(q, b, w) - m);
}

/// A fresh vector equal to `q` except at `i`, which holds `val`.
fn vec_with(q: &Vec<u64>, i: usize, val: u64) -> (r: Vec<u64>)
    requires
        i < q.len(),
    ensures
        r@ == q@.update(i as int, val),
{
    let mut out: Vec<u64> = Vec::new();
    let mut j: usize = 0;
    while j < q.len()
        invariant
            j <= q.len(),
            i < q.len(),
            out@.len() == j,
            forall|t: int| 0 <= t < j && t != i ==> out@[t] == q@[t],
            i < j ==> out@[i as int] == val,
        decreases q.len() - j,
    {
        if j == i {
            out.push(val);
        } else {
            out.push(q[j]);
        }
        j = j + 1;
    }
    proof {
        assert(out@ =~= q@.update(i as int, val));
    }
    out
}

/// C(q) = b * ln(sum_i exp(q_i / b)): total cost of the supply vector
/// in currency units, rounded up so a positive cost never truncates to
/// zero. Stabilized as `m + ln(sum exp(r_i - m))`.
pub fn lmsr_cost(q: &Vec<u64>, b: u64, outcome_count: u8) -> (r: Result<u64, ErrorCode>)
    requires
        outcome_count as int <= q.len(),
    ensures
        r == spec_lmsr_cost(q@, b, outcome_count),
{
    if b == 0 {
        return Err(ErrorCode::InvalidLiquidityParameter);
    }
    if outcome_count < 2 || outcome_count > 10 {
        return Err(ErrorCode::InvalidOutcomeCount);
    }
    let n: usize = outcome_count as usize;
    let b_u128: u128 = b as u128;

    let mut max_r: u128 = 0;
    let mut i: usize = 0;
    while i < n
        invariant
            i <= n <= q.len(),
            b >= 1,
            b_u128 == b as u128,
            max_r == spec_max_r(q@, b, i as int),
        decreases n - i,
    {
        let ri: u128 = (q[i] as u128) * SCALE / b_u128;
        if ri > max_r {
            max_r = ri;
        }
        i = i + 1;
    }

    proof {
        assert(forall|j: int| 0 <= j < n ==> spec_max_r(q@, b, n as int) >= #[trigger] spec_r_at(
            q@,
            b,
            j,
        )) by {
            assert forall|j: int| 0 <= j < n implies spec_max_r(q@, b, n as int) >= #[trigger] spec_r_at(
                q@,
                b,
                j,
            ) by {
                lemma_max_r_ge(q@, b, n as int, j);
            }
        }
    }

    let mut exp_sum: u128 = 0;
    let mut i: usize = 0;
    while i < n
        invariant
            i <= n <= q.len(),
            b >= 1,
            b_u128 == b as u128,
            n == outcome_count as int,
            2 <= outcome_count <= 10,
            max_r == spec_max_r(q@, b, n as int),
            exp_sum == spec_exp_sum(q@, b, i as int, max_r as int),
            exp_sum <= i * (SCALE as int),
            forall|j: int| 0 <= j < n ==> spec_max_r(q@, b, n as int) >= #[trigger] spec_r_at(
                q@,
                b,
                j,
            ),
            forall|j: int| 0 <= j < i ==> max_r - #[trigger] spec_r_at(q@, b, j)
                <= MAX_EXP_INPUT,
        decreases n - i,
    {
        let ri: u128 = (q[i] as u128) * SCALE / b_u128;
        proof {
            assert(ri == spec_r_at(q@, b, i as int));
            lemma_r_at_nonneg(q@, b, i as int);
        }
        let diff_mag: u128 = max_r - ri;
        if diff_mag > MAX_EXP_INPUT {
            proof {
                assert(spec_spread_too_wide(q@, b, outcome_count as int));
            }
            return Err(ErrorCode::MathOverflow);
        }
        proof {
            lemma_exp_signed_unit(ri as int - max_r as int);
        }
        let exp_val: u128 = match exp_fixed_signed(-(diff_mag as i128)) {
            Ok(v) => v,
            Err(_) => {
                proof {
                    assert(false);
                }
                return Err(ErrorCode::MathOverflow);
            },
        };
        exp_sum = exp_sum + exp_val;
        i = i + 1;
    }

    proof {
        assert(!spec_spread_too_wide(q@, b, outcome_count as int));
        lemma_exp_sum_at_least_scale(q@, b, n as int);
        assert(exp_sum >= SCALE);
    }

    let ln_small: u128 = match ln_fixed(exp_sum) {
        Ok(v) => v,
        Err(_) => {
            proof {
                assert(false);
            }
            return Err(ErrorCode::MathOverflow);
        },
    };

    proof {
        lemma_b_mul_max_r(q@, b, n as int);
        assert(b * (ln_small as int) <= u64::MAX * (58 * SCALE + 99 * LN2_SCALED)) by {
            lemma_mul_upper_bound(
                b as int,
                u64::MAX as int,
                ln_small as int,
                58 * (SCALE as int) + 99 * (LN2_SCALED as int),
            );
        }
        assert(b * (max_r + ln_small) == b * max_r + b * (ln_small as int)) by {
            lemma_mul_is_distributive_add(b as int, max_r as int, ln_small as int);
        }
    }
    let ln_total: u128 = max_r + ln_small;
    let cost_scaled: u128 = b_u128 * ln_total;
    let cost = match div_ceil_u128(cost_scaled, SCALE) {
        Ok(v) => v,
        Err(_) => {
            proof {
                assert(false);
            }
            return Err(ErrorCode::MathOverflow);
        },
    };
    proof {
        assert(cost == spec_cost_units(q@, b, outcome_count as int));
    }
    if cost > u64::MAX as u128 {
        return Err(ErrorCode::MathOverflow);
    }
    Ok(cost as u64)
}

/// The buy cost's full contract: cost difference, floored at one unit.
pub open spec fn spec_lmsr_buy_cost(
    q: Seq<u64>,
    b: u64,
    outcome_index: u8,
    amount: u64,
    outcome_count: u8,
) -> Result<u64, ErrorCode> {
    if outcome_index as int >= outcome_count as int {
        Err(ErrorCode::InvalidOutcomeCount)
    } else if amount == 0 {
        Err(ErrorCode::InvalidShares)
    } else {
        match spec_lmsr_cost(q, b, outcome_count) {
            Err(e) => Err(e),
            Ok(cost_before) => {
                if q[outcome_index as int] + amount > u64::MAX {
                    Err(ErrorCode::MathOverflow)
                } else {
                    let q2 = q.update(
                        outcome_index as int,
                        (q[outcome_index as int] + amount) as u64,
                    );
                    match spec_lmsr_cost(q2, b, outcome_count) {
                        Err(e) => Err(e),
                        Ok(cost_after) => {
                            if cost_after < cost_before {
                                Err(ErrorCode::MathOverflow)
                            } else if cost_after - cost_before >= 1 {
                                Ok((cost_after - cost_before) as u64)
                            } else {
                                Ok(1u64)
                            }
                        },
                    }
                }
            },
        }
    }
}

/// Cost of buying `amount` shares of one outcome: `C(q + d) - C(q)`,
/// never less than one currency unit.
pub fn lmsr_buy_cost(
    q: &Vec<u64>,
    b: u64,
    outcome_index: u8,
    amount: u64,
    outcome_count: u8,
) -> (r: Result<u64, ErrorCode>)
    requires
        outcome_count as int <= q.len(),
    ensures
        r == spec_lmsr_buy_cost(q@, b, outcome_index, amount, outcome_count),
        r matches Ok(c) ==> c >= 1,
{
    if outcome_index >= outcome_count {
        return Err(ErrorCode::InvalidOutcomeCount);
    }
    if amount == 0 {
        return Err(ErrorCode::InvalidShares);
    }
    let cost_before = match lmsr_cost(q, b, outcome_count) {
        Ok(v) => v,
        Err(e) => {
            return Err(e);
        },
    };
    let idx: usize = outcome_index as usize;
    if q[idx] > u64::MAX - amount {
        return Err(ErrorCode::MathOverflow);
    }
    let q_after = vec_with(q, idx, q[idx] + amount);
    let cost_after = match lmsr_cost(&q_after, b, outcome_count) {
        Ok(v) => v,
        Err(e) => {
            return Err(e);
        },
    };
    if cost_after < cost_before {
        return Err(ErrorCode::MathOverflow);
    }
    let delta: u64 = cost_after - cost_before;
    if delta >= 1 {
        Ok(delta)
    } else {
        Ok(1)
    }
}

/// The sell refund's full contract: exact cost difference.
pub open spec fn spec_lmsr_sell_refund(
    q: Seq<u64>,
    b: u64,
    outcome_index: u8,
    amount: u64,
    outcome_count: u8,
) -> Result<u64, ErrorCode> {
    if outcome_index as int >= outcome_count as int {
        Err(ErrorCode::InvalidOutcomeCount)
    } else if amount == 0 {
        Err(ErrorCode::InvalidShares)
    } else if q[outcome_index as int] < amount {
        Err(ErrorCode::InsufficientShares)
    } else {
        match spec_lmsr_cost(q, b, outcome_count) {
            Err(e) => Err(e),
            Ok(cost_before) => {
                let q2 = q.update(
                    outcome_index as int,
                    (q[outcome_index as int] - amount) as u64,
                );
                match spec_lmsr_cost(q2, b, outcome_count) {
                    Err(e) => Err(e),
                    Ok(cost_after) => {
                        if cost_after > cost_before {
                            Err(ErrorCode::MathOverflow)
                        } else {
                            Ok((cost_before - cost_after) as u64)
                        }
                    },
                }
            },
        }
    }
}

/// Refund for selling `amount` shares of one outcome: `C(q) - C(q - d)`.
pub fn lmsr_sell_refund(
    q: &Vec<u64>,
    b: u64,
    outcome_index: u8,
    amount: u64,
    outcome_count: u8,
) -> (r: Result<u64, ErrorCode>)
    requires
        outcome_count as int <= q.len(),
    ensures
        r == spec_lmsr_sell_refund(q@, b, outcome_index, amount, outcome_count),
{
    if outcome_index >= outcome_count {
        return Err(ErrorCode::InvalidOutcomeCount);
    }
    if amount == 0 {
        return Err(ErrorCode::InvalidShares);
    }
    let idx: usize = outcome_index as usize;
    if q[idx] < amount {
        return Err(ErrorCode::InsufficientShares);
    }
    let cost_before = match lmsr_cost(q, b, outcome_count) {
        Ok(v) => v,
        Err(e) => {
            return Err(e);
        },
    };
    let q_after = vec_with(q, idx, q[idx] - amount);
    let cost_after = match lmsr_cost(&q_after, b, outcome_count) {
        Ok(v) => v,
        Err(e) => {
            return Err(e);
        },
    };
    if cost_after > cost_before {
        return Err(ErrorCode::MathOverflow);
    }
    Ok(cost_before - cost_after)
}

/// One outcome's scaled probability weight within the sum.
pub open spec fn spec_price_units(q: Seq<u64>, b: u64, i: int, n: int) -> int {
    let m = spec_max_r(q, b, n);
    spec_exp_signed(spec_r_at(q, b, i) - m) * SCALE / spec_exp_sum(q, b, n, m)
}

/// The price's full contract: `exp(r_i - m) * SCALE / sum_j exp(r_j - m)`.
pub open spec fn spec_lmsr_price(
    q: Seq<u64>,
    b: u64,
    outcome_index: u8,
    outcome_count: u8,
) -> Result<u64, ErrorCode> {
    if b == 0 {
        Err(ErrorCode::InvalidLiquidityParameter)
    } else if outcome_count < 2 || outcome_count > 10 {
        Err(ErrorCode::InvalidOutcomeCount)
    } else if outcome_index as int >= outcome_count as int {
        Err(ErrorCode::InvalidOutcomeCount)
    } else if spec_spread_too_wide(q, b, outcome_count as int) {
        Err(ErrorCode::MathOverflow)
    } else {
        Ok(spec_price_units(q, b, outcome_index as int, outcome_count as int) as u64)
    }
}

/// Instantaneous price of one outcome, scaled to `[0, SCALE]`; the
/// prices of all outcomes sum to `SCALE` up to one unit of rounding
/// loss per outcome.
pub fn lmsr_price(q: &Vec<u64>, b: u64, outcome_index: u8, outcome_count: u8) -> (r: Result<
    u64,
    ErrorCode,
>)
    requires
        outcome_count as int <= q.len(),
    ensures
        r == spec_lmsr_price(q@, b, outcome_index, outcome_count),
        r matches Ok(p) ==> p <= SCALE,
{
    if b == 0 {
        return Err(ErrorCode::InvalidLiquidityParameter);
    }
    if outcome_count < 2 || outcome_count > 10 {
        return Err(ErrorCode::InvalidOutcomeCount);
    }
    if outcome_index >= outcome_count {
        return Err(ErrorCode::InvalidOutcomeCount);
    }
    let n: usize = outcome_count as usize;
    let b_u128: u128 = b as u128;

    let mut max_r: u128 = 0;
    let mut i: usize = 0;
    while i < n
        invariant
            i <= n <= q.len(),
            b >= 1,
            b_u128 == b as u128,
            max_r == spec_max_r(q@, b, i as int),
        decreases n - i,
    {
        let ri: u128 = (q[i] as u128) * SCALE / b_u128;
        if ri > max_r {
            max_r = ri;
        }
        i = i + 1;
    }

    proof {
        assert forall|j: int| 0 <= j < n implies spec_max_r(q@, b, n as int)
            >= #[trigger] spec_r_at(q@, b, j) by {
            lemma_max_r_ge(q@, b, n as int, j);
        }
    }

    let mut denom: u128 = 0;
    let mut numer: u128 = 0;
    let mut i: usize = 0;
    while i < n
        invariant
            i <= n <= q.len(),
            b >= 1,
            b_u128 == b as u128,
            n == outcome_count as int,
            2 <= outcome_count <= 10,
            outcome_index < outcome_count,
            max_r == spec_max_r(q@, b, n as int),
            denom == spec_exp_sum(q@, b, i as int, max_r as int),
            denom <= i * (SCALE as int),
            i > outcome_index as int ==> numer == spec_exp_signed(
                spec_r_at(q@, b, outcome_index as int) - max_r,
            ),
            numer <= SCALE,
            forall|j: int| 0 <= j < n ==> spec_max_r(q@, b, n as int) >= #[trigger] spec_r_at(
                q@,
                b,
                j,
            ),
            forall|j: int| 0 <= j < i ==> max_r - #[trigger] spec_r_at(q@, b, j)
                <= MAX_EXP_INPUT,
        decreases n - i,
    {
        let ri: u128 = (q[i] as u128) * SCALE / b_u128;
        proof {
            assert(ri == spec_r_at(q@, b, i as int));
            lemma_r_at_nonneg(q@, b, i as int);
        }
        let diff_mag: u128 = max_r - ri;
        if diff_mag > MAX_EXP_INPUT {
            proof {
                assert(spec_spread_too_wide(q@, b, outcome_count as int));
            }
            return Err(ErrorCode::MathOverflow);
        }
        proof {
            lemma_exp_signed_unit(ri as int - max_r as int);
        }
        let e: u128 = match exp_fixed_signed(-(diff_mag as i128)) {
            Ok(v) => v,
            Err(_) => {
                proof {
                    assert(false);
                }
                return Err(ErrorCode::MathOverflow);
            },
        };
        denom = denom + e;
        if i == outcome_index as usize {
            numer = e;
        }
        i = i + 1;
    }

    proof {
        assert(!spec_spread_too_wide(q@, b, outcome_count as int));
        lemma_exp_sum_at_least_scale(q@, b, n as int);
        assert(denom >= SCALE);
        // the sum dominates the one summand the price numerator holds
        lemma_exp_sum_bounds(q@, b, n as int, max_r as int);
        assert(numer <= denom);
    }

    let price: u128 = numer * SCALE / denom;
    proof {
        assert(numer * SCALE <= denom * SCALE) by {
            lemma_mul_inequality(numer as int, denom as int, SCALE as int);
            lemma_mul_is_commutative(numer as int, SCALE as int);
            lemma_mul_is_commutative(denom as int, SCALE as int);
        }
        assert(price <= SCALE) by {
            vstd::arithmetic::div_mod::lemma_multiply_divide_le(
                numer as int * SCALE as int,
                denom as int,
                SCALE as int,
            );
            lemma_mul_is_commutative(denom as int, SCALE as int);
        }
        lemma_div_pos_is_pos(numer as int * SCALE as int, denom as int);
    }
    Ok(price as u64)
}

} // verus!
