//! Error taxonomy: every failure is a well-typed rejection that leaves
//! state unchanged.

use vstd::prelude::*;

verus! {

/// All the ways an operation can be rejected.
#[derive(Clone, Copy, Debug, PartialEq, Eq, Structural)]
pub enum ErrorCode {
    /// Malformed outcome list (count or name).
    InvalidOutcomes,
    /// Resolution time not in the future.
    InvalidResolutionTime,
    /// Liquidity parameter is zero.
    InvalidB,
    /// Anti-manipulation configuration out of range.
    InvalidAntiManip,
    /// Trading attempted past the market's end time.
    MarketClosed,
    /// Operation requires an open, unresolved market.
    MarketResolved,
    /// Resolution attempted before the market's end time.
    MarketNotEnded,
    /// Claim attempted on a market that is not finalized.
    MarketNotResolved,
    /// Claim attempted on a market that is not cancelled.
    MarketNotCancelled,
    /// Zero shares requested.
    InvalidShares,
    /// Outcome index out of range for this market.
    InvalidOutcomeIndex,
    /// Trade exceeds the per-trade share limit.
    TradeTooLarge,
    /// Cooldown between trades has not elapsed.
    CooldownActive,
    /// Post-trade position would exceed the position cap.
    PositionCapExceeded,
    /// Not enough shares held to sell.
    NotEnoughShares,
    /// Cost or refund came out zero.
    InvalidCost,
    /// Payout came out zero.
    InvalidPayout,
    /// No shares on the winning outcome.
    NoWinningShares,
    /// Winning outcome has no outstanding supply.
    InvalidSupply,
    /// Position already claimed its payout or refund.
    AlreadyClaimed,
    /// Pool cannot cover the requested amount.
    InsufficientMarketBalance,
    /// Position record does not belong to this market and user.
    InvalidUserPosition,
    /// Arithmetic overflow in balance or state bookkeeping.
    Overflow,
    /// Arithmetic overflow or domain violation in the math kernel.
    MathOverflow,
    /// Liquidity parameter rejected by the math kernel.
    InvalidLiquidityParameter,
    /// Outcome count rejected by the math kernel.
    InvalidOutcomeCount,
    /// Supply vector has fewer shares than the requested sale.
    InsufficientShares,
    /// Operation invoked in the wrong lifecycle state.
    InvalidState,
    /// Proposal window after the end time has passed.
    TooLateToPropose,
    /// Operation attempted before its time window opened.
    TooEarly,
    /// Dispute raised after the contest deadline.
    DisputeWindowClosed,
    /// Admin path requires at least one dispute.
    NoDispute,
    /// Permissionless finalization blocked by open disputes.
    HasDisputes,
    /// Caller is not the required identity.
    Unauthorized,
}

} // verus!
