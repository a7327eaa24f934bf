//! Global properties of the pricing model, stated and proved over the
//! same specification functions the executable contracts use.

use vstd::prelude::*;
use vstd::arithmetic::div_mod::{
    lemma_fundamental_div_mod, lemma_div_pos_is_pos, lemma_div_is_ordered,
    lemma_div_multiples_vanish,
};
use vstd::arithmetic::mul::{lemma_mul_inequality, lemma_mul_is_distributive_add};
use crate::math::SCALE;
use crate::lmsr::{
    spec_lmsr_cost, spec_lmsr_buy_cost, spec_max_r, spec_exp_sum, spec_price_units,
    spec_spread_too_wide, spec_r_at,
};
use crate::market::spec_payout;

verus! {

/// What a buy is charged, given the total cost before and after:
/// the difference, floored at one currency unit.
pub open spec fn spec_buy_charge(cost_before: u64, cost_after: u64) -> int {
    if cost_after - cost_before >= 1 {
        cost_after - cost_before
    } else {
        1
    }
}

/// Total cost of a supply vector, when the cost function accepts it.
pub open spec fn spec_cost_ok(q: Seq<u64>, b: u64, outcome_count: u8) -> int {
    spec_lmsr_cost(q, b, outcome_count)->Ok_0 as int
}

/// Net currency paid over the first `k` steps of a trade sequence:
/// each step moves the supply vector from `qs[j]` to `qs[j+1]`, a buy
/// pays the floored cost difference, a sell receives the exact one.
pub open spec fn spec_net_paid(
    qs: Seq<Seq<u64>>,
    is_buy: Seq<bool>,
    b: u64,
    outcome_count: u8,
    k: int,
) -> int
    decreases k,
{
    if k <= 0 {
        0
    } else {
        let cb = spec_cost_ok(qs[k - 1], b, outcome_count);
        let ca = spec_cost_ok(qs[k], b, outcome_count);
        spec_net_paid(qs, is_buy, b, outcome_count, k - 1) + (if is_buy[k - 1] {
            spec_buy_charge(cb as u64, ca as u64)
        } else {
            -(cb - ca)
        })
    }
}

/// Over any prefix of a trade sequence, the net amount paid into the
/// pool covers the cost function's increase — the pool never backs
/// less than the model demands — and exceeds it by at most one unit
/// per trade.
pub proof fn lemma_net_paid_prefix(
    qs: Seq<Seq<u64>>,
    is_buy: Seq<bool>,
    b: u64,
    outcome_count: u8,
    k: int,
)
    requires
        qs.len() == is_buy.len() + 1,
        0 <= k <= is_buy.len(),
        forall|j: int|
            0 <= j < qs.len() ==> (#[trigger] spec_lmsr_cost(qs[j], b, outcome_count)) is Ok,
        forall|j: int|
            0 <= j < is_buy.len() && is_buy[j] ==> spec_cost_ok(qs[j], b, outcome_count)
                <= spec_cost_ok(qs[j + 1], b, outcome_count),
        forall|j: int|
            0 <= j < is_buy.len() && !is_buy[j] ==> spec_cost_ok(qs[j + 1], b, outcome_count)
                <= spec_cost_ok(qs[j], b, outcome_count),
    ensures
        0 <= spec_net_paid(qs, is_buy, b, outcome_count, k) - (spec_cost_ok(qs[k], b, outcome_count)
            - spec_cost_ok(qs[0], b, outcome_count)) <= k,
    decreases k,
{
    if k > 0 {
        lemma_net_paid_prefix(qs, is_buy, b, outcome_count, k - 1);
    }
}

/// Path independence: over any sequence of buys and sells that returns
/// the supply vector to where it started, the sum of buy charges minus
/// sell refunds (fees excluded) is nonnegative and at most one
/// currency unit per trade — the bias introduced by flooring each buy
/// at one unit.
pub proof fn lemma_path_independence(qs: Seq<Seq<u64>>, is_buy: Seq<bool>, b: u64, outcome_count: u8)
    requires
        qs.len() == is_buy.len() + 1,
        qs[qs.len() - 1] == qs[0],
        forall|j: int|
            0 <= j < qs.len() ==> (#[trigger] spec_lmsr_cost(qs[j], b, outcome_count)) is Ok,
        forall|j: int|
            0 <= j < is_buy.len() && is_buy[j] ==> spec_cost_ok(qs[j], b, outcome_count)
                <= spec_cost_ok(qs[j + 1], b, outcome_count),
        forall|j: int|
            0 <= j < is_buy.len() && !is_buy[j] ==> spec_cost_ok(qs[j + 1], b, outcome_count)
                <= spec_cost_ok(qs[j], b, outcome_count),
    ensures
        0 <= spec_net_paid(qs, is_buy, b, outcome_count, is_buy.len() as int) <= is_buy.len(),
{
    lemma_net_paid_prefix(qs, is_buy, b, outcome_count, is_buy.len() as int);
}

/// Monotone, path-consistent buy cost: buying `d1 + d2` shares at once
/// never costs more than buying `d1` and then `d2` (each leg floored
/// at one unit), and every buy cost is at least one unit.
pub proof fn lemma_buy_cost_path_consistent(
    q: Seq<u64>,
    b: u64,
    outcome_index: u8,
    d1: u64,
    d2: u64,
    outcome_count: u8,
)
    requires
        outcome_index < outcome_count,
        d1 >= 1,
        d2 >= 1,
        d1 + d2 <= u64::MAX,
        q.len() >= outcome_count,
        q[outcome_index as int] + d1 + d2 <= u64::MAX,
        spec_lmsr_cost(q, b, outcome_count) is Ok,
        spec_lmsr_cost(q.update(outcome_index as int, (q[outcome_index as int] + d1) as u64), b,
            outcome_count,
        ) is Ok,
        spec_lmsr_cost(q.update(outcome_index as int, (q[outcome_index as int] + d1 + d2) as u64),
            b,
            outcome_count,
        ) is Ok,
        spec_cost_ok(q, b, outcome_count) <= spec_cost_ok(
            q.update(outcome_index as int, (q[outcome_index as int] + d1) as u64),
            b,
            outcome_count,
        ),
        spec_cost_ok(
            q.update(outcome_index as int, (q[outcome_index as int] + d1) as u64),
            b,
            outcome_count,
        ) <= spec_cost_ok(
            q.update(outcome_index as int, (q[outcome_index as int] + d1 + d2) as u64),
            b,
            outcome_count,
        ),
    ensures
        spec_lmsr_buy_cost(q, b, outcome_index, d1, outcome_count) is Ok,
        spec_lmsr_buy_cost(q, b, outcome_index, (d1 + d2) as u64, outcome_count) is Ok,
        spec_lmsr_buy_cost(
            q.update(outcome_index as int, (q[outcome_index as int] + d1) as u64),
            b,
            outcome_index,
            d2,
            outcome_count,
        ) is Ok,
        spec_lmsr_buy_cost(q, b, outcome_index, d1, outcome_count)->Ok_0 + spec_lmsr_buy_cost(
            q.update(outcome_index as int, (q[outcome_index as int] + d1) as u64),
            b,
            outcome_index,
            d2,
            outcome_count,
        )->Ok_0 >= spec_lmsr_buy_cost(q, b, outcome_index, (d1 + d2) as u64, outcome_count)->Ok_0,
        spec_lmsr_buy_cost(q, b, outcome_index, d1, outcome_count)->Ok_0 >= 1,
        spec_lmsr_buy_cost(q, b, outcome_index, (d1 + d2) as u64, outcome_count)->Ok_0 >= 1,
{
    let i = outcome_index as int;
    let q1 = q.update(i, (q[i] + d1) as u64);
    let q2 = q.update(i, (q[i] + d1 + d2) as u64);
    assert(q1.update(i, (q1[i] + d2) as u64) =~= q2);
}

/// What `spec_lmsr_buy_cost` returns on success is exactly the buy
/// charge of the cost values before and after — the link between
/// trade execution and the trade-sequence laws above.
pub proof fn lemma_buy_cost_is_charge(
    q: Seq<u64>,
    b: u64,
    outcome_index: u8,
    amount: u64,
    outcome_count: u8,
)
    requires
        spec_lmsr_buy_cost(q, b, outcome_index, amount, outcome_count) is Ok,
    ensures
        spec_lmsr_buy_cost(q, b, outcome_index, amount, outcome_count)->Ok_0 == spec_buy_charge(
            spec_lmsr_cost(q, b, outcome_count)->Ok_0,
            spec_lmsr_cost(
                q.update(outcome_index as int, (q[outcome_index as int] + amount) as u64),
                b,
                outcome_count,
            )->Ok_0,
        ),
{
}

/// What `spec_lmsr_sell_refund` returns on success is exactly the
/// drop in the cost function, with no rounding slack at all.
pub proof fn lemma_sell_refund_is_difference(
    q: Seq<u64>,
    b: u64,
    outcome_index: u8,
    amount: u64,
    outcome_count: u8,
)
    requires
        crate::lmsr::spec_lmsr_sell_refund(q, b, outcome_index, amount, outcome_count) is Ok,
    ensures
        crate::lmsr::spec_lmsr_sell_refund(q, b, outcome_index, amount, outcome_count)->Ok_0
            == spec_lmsr_cost(q, b, outcome_count)->Ok_0 - spec_lmsr_cost(
            q.update(outcome_index as int, (q[outcome_index as int] - amount) as u64),
            b,
            outcome_count,
        )->Ok_0,
{
}

/// Sum of the scaled prices of the first `upto` outcomes.
pub open spec fn spec_price_sum(q: Seq<u64>, b: u64, n: int, upto: int) -> int
    decreases upto,
{
    if upto <= 0 {
        0
    } else {
        spec_price_sum(q, b, n, upto - 1) + spec_price_units(q, b, upto - 1, n)
    }
}

proof fn lemma_price_step(e: int, d: int)
    requires
        d >= 1,
        e >= 0,
    ensures
        0 <= e * SCALE - d * (e * SCALE / d) <= d - 1,
        e * SCALE == SCALE * e,
{
    lemma_fundamental_div_mod(e * SCALE, d);
    vstd::arithmetic::div_mod::lemma_mod_division_less_than_divisor(e * SCALE, d);
    vstd::arithmetic::mul::lemma_mul_is_commutative(e, SCALE as int);
}

#[verifier::rlimit(60)]
proof fn lemma_price_sum_parts(q: Seq<u64>, b: u64, n: int, m: int, d: int, k: int)
    requires
        b >= 1,
        1 <= n <= q.len(),
        !spec_spread_too_wide(q, b, n),
        m == spec_max_r(q, b, n),
        d == spec_exp_sum(q, b, n, m),
        d >= 1,
        0 <= k <= n,
    ensures
        0 <= SCALE * spec_exp_sum(q, b, k, m) - d * spec_price_sum(q, b, n, k) <= k * (d - 1),
    decreases k,
{
    if k > 0 {
        lemma_price_sum_parts(q, b, n, m, d, k - 1);
        let e = crate::math::spec_exp_signed(spec_r_at(q, b, k - 1) - m);
        let p = spec_price_units(q, b, k - 1, n);
        assert(0 <= e <= SCALE) by {
            crate::lmsr::lemma_summand_in_unit_range(q, b, n, k - 1);
        }
        assert(p == e * SCALE / d);
        lemma_price_step(e, d);
        assert(d * spec_price_sum(q, b, n, k) == d * spec_price_sum(q, b, n, k - 1) + d * p) by {
            lemma_mul_is_distributive_add(d, spec_price_sum(q, b, n, k - 1), p);
        }
        assert(spec_exp_sum(q, b, k, m) == spec_exp_sum(q, b, k - 1, m) + e);
        assert(SCALE * spec_exp_sum(q, b, k, m) == SCALE * spec_exp_sum(q, b, k - 1, m) + SCALE
            * e) by {
            lemma_mul_is_distributive_add(SCALE as int, spec_exp_sum(q, b, k - 1, m), e);
        }
        assert((k - 1) * (d - 1) + 1 * (d - 1) == k * (d - 1)) by {
            vstd::arithmetic::mul::lemma_mul_is_distributive_add_other_way(d - 1, k - 1, 1);
        }
    }
}

/// Prices sum to one: for any supply vector the cost function accepts,
/// the scaled per-outcome prices sum to `SCALE` up to a rounding loss
/// of strictly less than one unit per outcome.
pub proof fn lemma_price_sum_near_scale(q: Seq<u64>, b: u64, outcome_count: u8)
    requires
        b >= 1,
        2 <= outcome_count <= 10,
        outcome_count as int <= q.len(),
        !spec_spread_too_wide(q, b, outcome_count as int),
    ensures
        SCALE - outcome_count < spec_price_sum(
            q,
            b,
            outcome_count as int,
            outcome_count as int,
        ) <= SCALE,
{
    let n = outcome_count as int;
    let m = spec_max_r(q, b, n);
    let d = spec_exp_sum(q, b, n, m);
    crate::lmsr::lemma_exp_sum_at_least_scale(q, b, n);
    lemma_price_sum_parts(q, b, n, m, d, n);
    let psum = spec_price_sum(q, b, n, n);
    assert(0 <= SCALE * d - d * psum <= n * (d - 1));
    assert(SCALE * d == d * (SCALE as int)) by {
        vstd::arithmetic::mul::lemma_mul_is_commutative(SCALE as int, d);
    }
    assert(d * (SCALE as int) - d * psum == d * (SCALE - psum)) by {
        vstd::arithmetic::mul::lemma_mul_is_distributive_sub(d, SCALE as int, psum);
    }
    assert(SCALE - psum >= 0) by (nonlinear_arith)
        requires
            d >= 1,
            d * (SCALE - psum) >= 0,
    ;
    assert(SCALE - psum < n) by (nonlinear_arith)
        requires
            d >= 1,
            n >= 1,
            d * (SCALE - psum) <= n * (d - 1),
    ;
}

/// Sum of a family of share holdings.
pub open spec fn spec_share_sum(shares: Seq<u64>) -> int
    decreases shares.len(),
{
    if shares.len() == 0 {
        0
    } else {
        spec_share_sum(shares.drop_last()) + shares.last()
    }
}

/// Sum of the pro-rata payouts of a family of share holdings.
pub open spec fn spec_payout_sum(shares: Seq<u64>, pool: u64, supply: u64) -> int
    decreases shares.len(),
{
    if shares.len() == 0 {
        0
    } else {
        spec_payout_sum(shares.drop_last(), pool, supply) + spec_payout(
            shares.last(),
            pool,
            supply,
        )
    }
}

proof fn lemma_payout_sum_bounded(shares: Seq<u64>, pool: u64, supply: u64)
    requires
        supply >= 1,
    ensures
        spec_payout_sum(shares, pool, supply) <= spec_share_sum(shares) * pool / (supply as int),
        spec_payout_sum(shares, pool, supply) >= 0,
        spec_share_sum(shares) >= 0,
    decreases shares.len(),
{
    if shares.len() == 0 {
        lemma_div_pos_is_pos(0, supply as int);
    } else {
        lemma_payout_sum_bounded(shares.drop_last(), pool, supply);
        let a = spec_share_sum(shares.drop_last()) * pool;
        let c = shares.last() * pool;
        let s = supply as int;
        assert(a >= 0) by {
            vstd::arithmetic::mul::lemma_mul_nonnegative(
                spec_share_sum(shares.drop_last()),
                pool as int,
            );
        }
        lemma_fundamental_div_mod(a, s);
        lemma_fundamental_div_mod(c, s);
        vstd::arithmetic::div_mod::lemma_mod_division_less_than_divisor(a, s);
        vstd::arithmetic::div_mod::lemma_mod_division_less_than_divisor(c, s);
        assert((s * (a / s + c / s)) == s * (a / s) + s * (c / s)) by {
            lemma_mul_is_distributive_add(s, a / s, c / s);
        }
        lemma_div_is_ordered(s * (a / s + c / s), a + c, s);
        lemma_div_multiples_vanish(a / s + c / s, s);
        assert(a / s + c / s <= (a + c) / s);
        assert((spec_share_sum(shares.drop_last()) + shares.last()) * pool == a + c) by {
            vstd::arithmetic::mul::lemma_mul_is_distributive_add_other_way(
                pool as int,
                spec_share_sum(shares.drop_last()),
                shares.last() as int,
            );
        }
        lemma_div_pos_is_pos(c, s);
    }
}

/// Solvency: if a family of positions together holds no more shares of
/// the winning outcome than are outstanding, then the sum of their
/// pro-rata payouts — each computed with the claim formula against the
/// full pool — never exceeds the pool.
pub proof fn lemma_claims_never_exceed_pool(shares: Seq<u64>, pool: u64, supply: u64)
    requires
        supply >= 1,
        spec_share_sum(shares) <= supply,
    ensures
        0 <= spec_payout_sum(shares, pool, supply) <= pool,
{
    lemma_payout_sum_bounded(shares, pool, supply);
    let s = supply as int;
    assert(spec_share_sum(shares) * pool <= s * pool) by {
        lemma_mul_inequality(spec_share_sum(shares), s, pool as int);
    }
    lemma_div_is_ordered(spec_share_sum(shares) * pool, s * pool, s);
    assert(s * pool == pool * s) by {
        vstd::arithmetic::mul::lemma_mul_is_commutative(s, pool as int);
    }
    lemma_div_multiples_vanish(pool as int, s);
}

} // verus!
