//! Trade execution: applies the pricing model to the market pool and a
//! user position under the rate-limit, position-cap and cooldown
//! rules. Every failure leaves both records exactly as they were.

use vstd::prelude::*;
use crate::errors::ErrorCode;
use crate::lmsr::{
    spec_lmsr_buy_cost, spec_lmsr_sell_refund, lmsr_buy_cost, lmsr_sell_refund,
};
use crate::market::{
    Market, MarketStatus, UserPosition, MAX_OUTCOMES, PLATFORM_FEE_BPS, CREATOR_FEE_BPS,
};

verus! {

/// A fee in basis points of an amount, rounded down.
pub open spec fn spec_fee(amount: u64, bps: u64) -> int {
    amount * bps / 10_000
}

/// Total shares outstanding across the first `n` outcomes.
pub open spec fn spec_total_supply(q: Seq<u64>, n: int) -> int
    decreases n,
{
    if n <= 0 {
        0
    } else {
        spec_total_supply(q, n - 1) + q[n - 1]
    }
}

/// The position cap rejects a holding when the cap is enabled, the
/// market has at least one trade's worth of depth, and the holding
/// exceeds its share of total supply.
pub open spec fn spec_cap_violated(
    max_position_bps: u16,
    max_trade_shares: u64,
    total: int,
    user_shares: int,
) -> bool {
    &&& max_position_bps < 10_000
    &&& total >= max_trade_shares
    &&& user_shares > total * max_position_bps / 10_000
}

/// What a buyer pays: the pricing cost plus both fees.
#[derive(Clone, Copy, Debug, PartialEq, Eq, Structural)]
pub struct BuyReceipt {
    /// Cost retained by the pool as payout backing.
    pub cost: u64,
    /// Fee routed to the platform account.
    pub platform_fee: u64,
    /// Fee routed into the creator escrow.
    pub creator_fee: u64,
    /// Everything the buyer is debited: cost plus both fees.
    pub total_debit: u64,
}

/// What a seller receives: the pricing refund minus both fees.
#[derive(Clone, Copy, Debug, PartialEq, Eq, Structural)]
pub struct SellReceipt {
    /// Gross refund released by the pool.
    pub refund: u64,
    /// Fee routed to the platform account.
    pub platform_fee: u64,
    /// Fee routed into the creator escrow.
    pub creator_fee: u64,
    /// What the seller is credited: refund minus both fees.
    pub net_credit: u64,
}

/// All fields of a market except the three a trade touches
/// (quantities, pool, creator escrow) agree.
pub open spec fn spec_market_nontrade_eq(a: Market, b: Market) -> bool {
    &&& a.id == b.id
    &&& a.creator == b.creator
    &&& a.admin == b.admin
    &&& a.resolution_time == b.resolution_time
    &&& a.status == b.status
    &&& a.market_type == b.market_type
    &&& a.outcome_count == b.outcome_count
    &&& a.outcome_names == b.outcome_names
    &&& a.b_lamports == b.b_lamports
    &&& a.max_position_bps == b.max_position_bps
    &&& a.max_trade_shares == b.max_trade_shares
    &&& a.cooldown_seconds == b.cooldown_seconds
    &&& a.proposed_outcome == b.proposed_outcome
    &&& a.proposed_at == b.proposed_at
    &&& a.contest_deadline == b.contest_deadline
    &&& a.dispute_count == b.dispute_count
    &&& a.winning_outcome == b.winning_outcome
}

/// The trade gate every buy and sell passes first: market open, before
/// the end time, size in range, position owned by the caller, cooldown
/// elapsed, outcome index in range.
pub open spec fn spec_trade_gate_err(
    m: Market,
    p: UserPosition,
    trader: u128,
    now: i64,
    shares: u64,
    outcome_index: u8,
) -> Option<ErrorCode> {
    if m.status != MarketStatus::Open {
        Some(ErrorCode::MarketResolved)
    } else if now >= m.resolution_time {
        Some(ErrorCode::MarketClosed)
    } else if shares == 0 {
        Some(ErrorCode::InvalidShares)
    } else if shares > m.max_trade_shares {
        Some(ErrorCode::TradeTooLarge)
    } else if p.market != m.id || p.user != trader {
        Some(ErrorCode::InvalidUserPosition)
    } else if m.cooldown_seconds > 0 && p.last_trade_ts > 0 && now - p.last_trade_ts
        < m.cooldown_seconds {
        Some(ErrorCode::CooldownActive)
    } else if outcome_index >= m.outcome_count {
        Some(ErrorCode::InvalidOutcomeIndex)
    } else {
        None
    }
}

/// Which error, if any, `buy_shares` rejects a call with.
pub open spec fn spec_buy_err(
    m: Market,
    p: UserPosition,
    trader: u128,
    now: i64,
    shares: u64,
    outcome_index: u8,
) -> Option<ErrorCode> {
    match spec_trade_gate_err(m, p, trader, now, shares, outcome_index) {
        Some(e) => Some(e),
        None => match spec_lmsr_buy_cost(m.q@, m.b_lamports, outcome_index, shares,
            m.outcome_count,
        ) {
            Err(e) => Some(e),
            Ok(cost) => {
                let pf = spec_fee(cost, PLATFORM_FEE_BPS);
                let cf = spec_fee(cost, CREATOR_FEE_BPS);
                let idx = outcome_index as int;
                if cost + pf + cf > u64::MAX {
                    Some(ErrorCode::Overflow)
                } else if m.pool_lamports + cost > u64::MAX {
                    Some(ErrorCode::Overflow)
                } else if m.creator_fee_escrow + cf > u64::MAX {
                    Some(ErrorCode::Overflow)
                } else if p.shares[idx] + shares > u64::MAX {
                    Some(ErrorCode::Overflow)
                } else if p.net_cost_lamports + cost > u64::MAX {
                    Some(ErrorCode::Overflow)
                } else if spec_cap_violated(
                    m.max_position_bps,
                    m.max_trade_shares,
                    spec_total_supply(m.q@, m.outcome_count as int) + shares,
                    p.shares[idx] + shares,
                ) {
                    Some(ErrorCode::PositionCapExceeded)
                } else {
                    None
                }
            },
        },
    }
}

/// Whether a prospective holding violates the cap.
fn cap_check(max_position_bps: u16, max_trade_shares: u64, total: u128, user_shares: u128) -> (r:
    bool)
    requires
        total <= 20 * (u64::MAX as u128),
    ensures
        r == spec_cap_violated(max_position_bps, max_trade_shares, total as int, user_shares as int),
{
    if max_position_bps >= 10_000 {
        return false;
    }
    if total < max_trade_shares as u128 {
        return false;
    }
    proof {
        assert(total * max_position_bps <= (20 * (u64::MAX as int)) * 10_000) by {
            vstd::arithmetic::mul::lemma_mul_upper_bound(
                total as int,
                20 * (u64::MAX as int),
                max_position_bps as int,
                10_000,
            );
        }
    }
    let max_allowed: u128 = total * (max_position_bps as u128) / 10_000;
    user_shares > max_allowed
}

/// Total shares outstanding over the live outcomes, computed exactly.
fn total_supply(q: &Vec<u64>, outcome_count: u8) -> (total: u128)
    requires
        outcome_count <= 10,
        outcome_count as int <= q.len(),
    ensures
        total == spec_total_supply(q@, outcome_count as int),
        total <= 10 * (u64::MAX as u128),
{
    let n: usize = outcome_count as usize;
    let mut total: u128 = 0;
    let mut i: usize = 0;
    while i < n
        invariant
            i <= n <= q.len(),
            n <= 10,
            total == spec_total_supply(q@, i as int),
            total <= i * (u64::MAX as int),
        decreases n - i,
    {
        total = total + q[i] as u128;
        i = i + 1;
    }
    total
}

/// Cap per wallet on one outcome, computed from total market supply so
/// the first trades are never blocked, and skipped entirely until the
/// market holds one trade's worth of depth.
pub fn enforce_position_cap(market: &Market, pos: &UserPosition, idx: usize) -> (r: Result<
    (),
    ErrorCode,
>)
    requires
        market.wf(),
        pos.wf(),
        idx < MAX_OUTCOMES,
    ensures
        (match r {
            Ok(()) => !spec_cap_violated(
                market.max_position_bps,
                market.max_trade_shares,
                spec_total_supply(market.q@, market.outcome_count as int),
                pos.shares[idx as int] as int,
            ),
            Err(e) => {
                &&& e == ErrorCode::PositionCapExceeded
                &&& spec_cap_violated(
                    market.max_position_bps,
                    market.max_trade_shares,
                    spec_total_supply(market.q@, market.outcome_count as int),
                    pos.shares[idx as int] as int,
                )
            },
        }),
{
    let total: u128 = total_supply(&market.q, market.outcome_count);
    if cap_check(market.max_position_bps, market.max_trade_shares, total, pos.shares[idx] as u128) {
        Err(ErrorCode::PositionCapExceeded)
    } else {
        Ok(())
    }
}

/// Buy `shares` of one outcome: charge the cost-function price plus
/// fees, credit the pool with the cost, escrow the creator fee, and
/// grow the buyer's position — all of it or none of it.
pub fn buy_shares(
    market: &mut Market,
    pos: &mut UserPosition,
    trader: u128,
    now: i64,
    shares: u64,
    outcome_index: u8,
) -> (r: Result<BuyReceipt, ErrorCode>)
    requires
        old(market).wf(),
        old(pos).wf(),
        now >= 0,
    ensures
        final(market).wf(),
        final(pos).wf(),
        (match r {
            Ok(receipt) => {
                &&& spec_buy_err(*old(market), *old(pos), trader, now, shares, outcome_index)
                    is None
                &&& spec_lmsr_buy_cost(
                    old(market).q@,
                    old(market).b_lamports,
                    outcome_index,
                    shares,
                    old(market).outcome_count,
                ) == Ok::<u64, ErrorCode>(receipt.cost)
                &&& receipt.cost >= 1
                &&& receipt.platform_fee == spec_fee(receipt.cost, PLATFORM_FEE_BPS)
                &&& receipt.creator_fee == spec_fee(receipt.cost, CREATOR_FEE_BPS)
                &&& receipt.total_debit == receipt.cost + receipt.platform_fee
                    + receipt.creator_fee
                &&& spec_market_nontrade_eq(*final(market), *old(market))
                &&& final(market).q@ == old(market).q@.update(
                    outcome_index as int,
                    (old(market).q[outcome_index as int] + shares) as u64,
                )
                &&& final(market).pool_lamports == old(market).pool_lamports + receipt.cost
                &&& final(market).creator_fee_escrow == old(market).creator_fee_escrow
                    + receipt.creator_fee
                &&& final(pos).shares@ == old(pos).shares@.update(
                    outcome_index as int,
                    (old(pos).shares[outcome_index as int] + shares) as u64,
                )
                &&& final(pos).last_trade_ts == now
                &&& final(pos).net_cost_lamports == old(pos).net_cost_lamports + receipt.cost
                &&& final(pos).market == old(pos).market
                &&& final(pos).user == old(pos).user
                &&& final(pos).claimed == old(pos).claimed
            },
            Err(e) => {
                &&& spec_buy_err(*old(market), *old(pos), trader, now, shares, outcome_index)
                    == Some(e)
                &&& *final(market) == *old(market)
                &&& *final(pos) == *old(pos)
            },
        }),
{
    if !matches!(market.status, MarketStatus::Open) {
        return Err(ErrorCode::MarketResolved);
    }
    if now >= market.resolution_time {
        return Err(ErrorCode::MarketClosed);
    }
    if shares == 0 {
        return Err(ErrorCode::InvalidShares);
    }
    if shares > market.max_trade_shares {
        return Err(ErrorCode::TradeTooLarge);
    }
    if pos.market != market.id || pos.user != trader {
        return Err(ErrorCode::InvalidUserPosition);
    }
    if market.cooldown_seconds > 0 && pos.last_trade_ts > 0 && now - pos.last_trade_ts
        < market.cooldown_seconds {
        return Err(ErrorCode::CooldownActive);
    }
    if outcome_index >= market.outcome_count {
        return Err(ErrorCode::InvalidOutcomeIndex);
    }
    let idx: usize = outcome_index as usize;

    let cost: u64 = match lmsr_buy_cost(
        &market.q,
        market.b_lamports,
        outcome_index,
        shares,
        market.outcome_count,
    ) {
        Ok(c) => c,
        Err(e) => {
            return Err(e);
        },
    };

    let platform_fee: u64 = ((cost as u128) * (PLATFORM_FEE_BPS as u128) / 10_000) as u64;
    let creator_fee: u64 = ((cost as u128) * (CREATOR_FEE_BPS as u128) / 10_000) as u64;

    if cost > u64::MAX - platform_fee || cost + platform_fee > u64::MAX - creator_fee {
        return Err(ErrorCode::Overflow);
    }
    let total_debit: u64 = cost + platform_fee + creator_fee;
    if market.pool_lamports > u64::MAX - cost {
        return Err(ErrorCode::Overflow);
    }
    if market.creator_fee_escrow > u64::MAX - creator_fee {
        return Err(ErrorCode::Overflow);
    }
    if pos.shares[idx] > u64::MAX - shares {
        return Err(ErrorCode::Overflow);
    }
    if pos.net_cost_lamports > u64::MAX - cost {
        return Err(ErrorCode::Overflow);
    }

    let total: u128 = total_supply(&market.q, market.outcome_count);
    if cap_check(
        market.max_position_bps,
        market.max_trade_shares,
        total + shares as u128,
        pos.shares[idx] as u128 + shares as u128,
    ) {
        return Err(ErrorCode::PositionCapExceeded);
    }

    proof {
        assert(market.q[idx as int] + shares <= u64::MAX);
    }
    let qi: u64 = market.q[idx];
    market.q.set(idx, qi + shares);
    market.pool_lamports = market.pool_lamports + cost;
    market.creator_fee_escrow = market.creator_fee_escrow + creator_fee;
    let si: u64 = pos.shares[idx];
    pos.shares.set(idx, si + shares);
    pos.last_trade_ts = now;
    pos.net_cost_lamports = pos.net_cost_lamports + cost;

    Ok(BuyReceipt { cost, platform_fee, creator_fee, total_debit })
}

/// Which error, if any, `sell_shares` rejects a call with.
pub open spec fn spec_sell_err(
    m: Market,
    p: UserPosition,
    trader: u128,
    now: i64,
    shares: u64,
    outcome_index: u8,
) -> Option<ErrorCode> {
    match spec_trade_gate_err(m, p, trader, now, shares, outcome_index) {
        Some(e) => Some(e),
        None => {
            let idx = outcome_index as int;
            if p.shares[idx] < shares {
                Some(ErrorCode::NotEnoughShares)
            } else {
                match spec_lmsr_sell_refund(m.q@, m.b_lamports, outcome_index, shares,
                    m.outcome_count,
                ) {
                    Err(e) => Some(e),
                    Ok(refund) => {
                        let cf = spec_fee(refund, CREATOR_FEE_BPS);
                        if refund == 0 {
                            Some(ErrorCode::InvalidCost)
                        } else if m.pool_lamports < refund {
                            Some(ErrorCode::InsufficientMarketBalance)
                        } else if m.creator_fee_escrow + cf > u64::MAX {
                            Some(ErrorCode::Overflow)
                        } else {
                            None
                        }
                    },
                }
            }
        },
    }
}

/// Sell `shares` of one outcome: release the cost-function refund from
/// the pool, deduct both fees from it, escrow the creator fee, and
/// shrink the seller's position — all of it or none of it.
pub fn sell_shares(
    market: &mut Market,
    pos: &mut UserPosition,
    trader: u128,
    now: i64,
    shares: u64,
    outcome_index: u8,
) -> (r: Result<SellReceipt, ErrorCode>)
    requires
        old(market).wf(),
        old(pos).wf(),
        now >= 0,
    ensures
        final(market).wf(),
        final(pos).wf(),
        (match r {
            Ok(receipt) => {
                &&& spec_sell_err(*old(market), *old(pos), trader, now, shares, outcome_index)
                    is None
                &&& spec_lmsr_sell_refund(
                    old(market).q@,
                    old(market).b_lamports,
                    outcome_index,
                    shares,
                    old(market).outcome_count,
                ) == Ok::<u64, ErrorCode>(receipt.refund)
                &&& receipt.refund >= 1
                &&& receipt.platform_fee == spec_fee(receipt.refund, PLATFORM_FEE_BPS)
                &&& receipt.creator_fee == spec_fee(receipt.refund, CREATOR_FEE_BPS)
                &&& receipt.net_credit == receipt.refund - receipt.platform_fee
                    - receipt.creator_fee
                &&& spec_market_nontrade_eq(*final(market), *old(market))
                &&& final(market).q@ == old(market).q@.update(
                    outcome_index as int,
                    (old(market).q[outcome_index as int] - shares) as u64,
                )
                &&& final(market).pool_lamports == old(market).pool_lamports - receipt.refund
                &&& final(market).creator_fee_escrow == old(market).creator_fee_escrow
                    + receipt.creator_fee
                &&& final(pos).shares@ == old(pos).shares@.update(
                    outcome_index as int,
                    (old(pos).shares[outcome_index as int] - shares) as u64,
                )
                &&& final(pos).last_trade_ts == now
                &&& final(pos).net_cost_lamports == (if old(pos).net_cost_lamports
                    >= receipt.refund {
                    old(pos).net_cost_lamports - receipt.refund
                } else {
                    0int
                })
                &&& final(pos).market == old(pos).market
                &&& final(pos).user == old(pos).user
                &&& final(pos).claimed == old(pos).claimed
            },
            Err(e) => {
                &&& spec_sell_err(*old(market), *old(pos), trader, now, shares, outcome_index)
                    == Some(e)
                &&& *final(market) == *old(market)
                &&& *final(pos) == *old(pos)
            },
        }),
{
    if !matches!(market.status, MarketStatus::Open) {
        return Err(ErrorCode::MarketResolved);
    }
    if now >= market.resolution_time {
        return Err(ErrorCode::MarketClosed);
    }
    if shares == 0 {
        return Err(ErrorCode::InvalidShares);
    }
    if shares > market.max_trade_shares {
        return Err(ErrorCode::TradeTooLarge);
    }
    if pos.market != market.id || pos.user != trader {
        return Err(ErrorCode::InvalidUserPosition);
    }
    if market.cooldown_seconds > 0 && pos.last_trade_ts > 0 && now - pos.last_trade_ts
        < market.cooldown_seconds {
        return Err(ErrorCode::CooldownActive);
    }
    if outcome_index >= market.outcome_count {
        return Err(ErrorCode::InvalidOutcomeIndex);
    }
    let idx: usize = outcome_index as usize;
    if pos.shares[idx] < shares {
        return Err(ErrorCode::NotEnoughShares);
    }

    let refund: u64 = match lmsr_sell_refund(
        &market.q,
        market.b_lamports,
        outcome_index,
        shares,
        market.outcome_count,
    ) {
        Ok(v) => v,
        Err(e) => {
            return Err(e);
        },
    };
    if refund == 0 {
        return Err(ErrorCode::InvalidCost);
    }

    let platform_fee: u64 = ((refund as u128) * (PLATFORM_FEE_BPS as u128) / 10_000) as u64;
    let creator_fee: u64 = ((refund as u128) * (CREATOR_FEE_BPS as u128) / 10_000) as u64;
    proof {
        assert(platform_fee + creator_fee <= refund);
    }
    let net_credit: u64 = refund - platform_fee - creator_fee;

    if market.pool_lamports < refund {
        return Err(ErrorCode::InsufficientMarketBalance);
    }
    if market.creator_fee_escrow > u64::MAX - creator_fee {
        return Err(ErrorCode::Overflow);
    }

    let qi: u64 = market.q[idx];
    market.q.set(idx, qi - shares);
    market.pool_lamports = market.pool_lamports - refund;
    market.creator_fee_escrow = market.creator_fee_escrow + creator_fee;
    let si: u64 = pos.shares[idx];
    pos.shares.set(idx, si - shares);
    pos.last_trade_ts = now;
    if pos.net_cost_lamports >= refund {
        pos.net_cost_lamports = pos.net_cost_lamports - refund;
    } else {
        pos.net_cost_lamports = 0;
    }

    Ok(SellReceipt { refund, platform_fee, creator_fee, net_credit })
}

} // verus!
