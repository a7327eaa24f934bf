//! Market records and the resolution state machine:
//! Open -> Proposed -> {Finalized | Cancelled}, plus the claims that
//! pay out of the market's escrowed pool once a terminal state holds.
//!
//! Every operation takes the caller's identity and the current time as
//! plain values, decides, and either mutates or returns an error code
//! leaving the record exactly as it was.

use vstd::prelude::*;
use vstd::string::StrSliceExecFns;
use crate::errors::ErrorCode;

verus! {

/// Most outcomes a market can carry.
pub const MAX_OUTCOMES: usize = 10;

/// Longest accepted outcome name, in characters, after trimming.
pub const MAX_NAME_LEN: usize = 40;

/// Platform fee in basis points (1%).
pub const PLATFORM_FEE_BPS: u64 = 100;

/// Creator fee in basis points (2%).
pub const CREATOR_FEE_BPS: u64 = 200;

/// Window after the end time in which the creator may propose (24h).
pub const CREATOR_PROPOSE_WINDOW: i64 = 86_400;

/// Window after a proposal in which anyone may dispute (4h).
pub const DISPUTE_WINDOW: i64 = 14_400;

/// Lifecycle of a market. `Open` is initial; `Finalized` and
/// `Cancelled` are terminal.
#[derive(Clone, Copy, Debug, PartialEq, Eq, Structural)]
pub enum MarketStatus {
    Open,
    Proposed,
    Finalized,
    Cancelled,
}

/// Whether a character counts as blank when trimming names.
pub open spec fn spec_is_space(c: char) -> bool {
    c == ' ' || c == '\t' || c == '\n' || c == '\r'
}

/// Index of the first non-blank character at or after `i`, or the
/// length if there is none.
pub open spec fn spec_first_mark(s: Seq<char>, i: int) -> int
    decreases s.len() - i,
{
    if i < 0 || i >= s.len() {
        s.len() as int
    } else if !spec_is_space(s[i]) {
        i
    } else {
        spec_first_mark(s, i + 1)
    }
}

/// Index of the last non-blank character at or before `i`, or -1 if
/// there is none.
pub open spec fn spec_last_mark(s: Seq<char>, i: int) -> int
    decreases i + 1,
{
    if i < 0 || i >= s.len() {
        -1
    } else if !spec_is_space(s[i]) {
        i
    } else {
        spec_last_mark(s, i - 1)
    }
}

/// A name is valid when it holds a non-blank character and its trimmed
/// span is at most `MAX_NAME_LEN` characters.
pub open spec fn spec_valid_name(s: Seq<char>) -> bool {
    let f = spec_first_mark(s, 0);
    let l = spec_last_mark(s, s.len() - 1);
    f < s.len() && l - f + 1 <= MAX_NAME_LEN
}

/// The tradable instrument: pricing state, anti-manipulation
/// configuration, resolution bookkeeping, and the escrowed balances.
pub struct Market {
    /// Identity of this market record.
    pub id: u128,
    /// Identity that created the market and earns the creator fee.
    pub creator: u128,
    /// Fixed identity allowed to adjudicate disputed resolutions.
    pub admin: u128,
    /// Timestamp after which trading stops and resolution may begin.
    pub resolution_time: i64,
    /// Lifecycle state.
    pub status: MarketStatus,
    /// 0 = binary, 1 = multi-outcome.
    pub market_type: u8,
    /// Number of live outcomes (2..=10).
    pub outcome_count: u8,
    /// One display name per outcome.
    pub outcome_names: Vec<String>,
    /// Liquidity parameter of the cost function, in currency units.
    pub b_lamports: u64,
    /// Cumulative shares issued per outcome; fixed length 10, zero at
    /// and beyond `outcome_count`.
    pub q: Vec<u64>,
    /// Position cap in basis points; 10_000 disables the cap.
    pub max_position_bps: u16,
    /// Largest single trade, in shares.
    pub max_trade_shares: u64,
    /// Minimum seconds between two trades of one user.
    pub cooldown_seconds: i64,
    /// Outcome proposed for resolution; meaningful while `Proposed`.
    pub proposed_outcome: Option<u8>,
    /// When the proposal was made; meaningful while `Proposed`.
    pub proposed_at: i64,
    /// End of the dispute window; meaningful while `Proposed`.
    pub contest_deadline: i64,
    /// Disputes raised against the proposal; meaningful while `Proposed`.
    pub dispute_count: u64,
    /// Winning outcome; set exactly when `Finalized`.
    pub winning_outcome: Option<u8>,
    /// Currency held as backing for payouts.
    pub pool_lamports: u64,
    /// Accumulated creator fee not yet withdrawn.
    pub creator_fee_escrow: u64,
}

impl Market {
    /// Structural invariant: configuration in range, vectors of fixed
    /// shape, and resolution fields consistent with the status.
    pub open spec fn wf(&self) -> bool {
        &&& 2 <= self.outcome_count <= MAX_OUTCOMES
        &&& (self.market_type == 0 || self.market_type == 1)
        &&& (self.market_type == 0 ==> self.outcome_count == 2)
        &&& self.outcome_names.len() == self.outcome_count
        &&& (forall|i: int|
            0 <= i < self.outcome_names.len() ==> spec_valid_name(
                #[trigger] self.outcome_names[i]@,
            ))
        &&& self.q.len() == MAX_OUTCOMES
        &&& (forall|i: int|
            self.outcome_count <= i < MAX_OUTCOMES ==> #[trigger] self.q[i] == 0)
        &&& self.b_lamports >= 1
        &&& ((500 <= self.max_position_bps <= 9000) || self.max_position_bps == 10_000)
        &&& 1 <= self.max_trade_shares <= 5_000_000
        &&& 0 <= self.cooldown_seconds <= 120
        &&& self.resolution_time >= 0
        &&& (self.status == MarketStatus::Proposed ==> {
            &&& self.proposed_outcome is Some
            &&& self.proposed_outcome->0 < self.outcome_count
            &&& self.proposed_at >= 0
            &&& self.contest_deadline >= 0
        })
        &&& (self.status == MarketStatus::Finalized <==> self.winning_outcome is Some)
        &&& (self.winning_outcome is Some ==> self.winning_outcome->0 < self.outcome_count)
    }
}

/// One user's record for one market, created on the first trade.
pub struct UserPosition {
    /// Identity of the market this record belongs to.
    pub market: u128,
    /// Identity of the user this record belongs to.
    pub user: u128,
    /// Holdings per outcome; fixed length 10.
    pub shares: Vec<u64>,
    /// One-shot flag set when winnings or a refund have been paid.
    pub claimed: bool,
    /// Timestamp of the last trade, 0 before any trade.
    pub last_trade_ts: i64,
    /// Running buy cost minus sell refunds, fees excluded, floored at
    /// zero; refund basis if the market is cancelled.
    pub net_cost_lamports: u64,
}

impl UserPosition {
    /// Structural invariant of a position record.
    pub open spec fn wf(&self) -> bool {
        &&& self.shares.len() == MAX_OUTCOMES
        &&& self.last_trade_ts >= 0
    }

    /// Fresh empty position for a (market, user) pair.
    pub fn new(market: u128, user: u128) -> (p: UserPosition)
        ensures
            p.wf(),
            p.market == market,
            p.user == user,
            p.shares@ =~= Seq::new(MAX_OUTCOMES as nat, |i: int| 0u64),
            !p.claimed,
            p.last_trade_ts == 0,
            p.net_cost_lamports == 0,
    {
        let mut shares: Vec<u64> = Vec::new();
        let mut i: usize = 0;
        while i < MAX_OUTCOMES
            invariant
                i <= MAX_OUTCOMES,
                shares@.len() == i,
                forall|j: int| 0 <= j < i ==> shares@[j] == 0u64,
            decreases MAX_OUTCOMES - i,
        {
            shares.push(0);
            i = i + 1;
        }
        proof {
            assert(shares@ =~= Seq::new(MAX_OUTCOMES as nat, |j: int| 0u64));
        }
        UserPosition {
            market,
            user,
            shares,
            claimed: false,
            last_trade_ts: 0,
            net_cost_lamports: 0,
        }
    }
}

/// Whether a character counts as blank when trimming names.
fn is_space_char(c: char) -> (r: bool)
    ensures
        r == spec_is_space(c),
{
    c == ' ' || c == '\t' || c == '\n' || c == '\r'
}

/// Check one outcome name: a non-blank character must exist and the
/// trimmed span must fit `MAX_NAME_LEN` characters.
pub fn valid_outcome_name(s: &String) -> (r: bool)
    ensures
        r == spec_valid_name(s@),
{
    let len: usize = s.as_str().unicode_len();
    let mut f: usize = 0;
    while f < len && is_space_char(s.as_str().get_char(f))
        invariant
            f <= len == s@.len(),
            spec_first_mark(s@, 0) == spec_first_mark(s@, f as int),
        decreases len - f,
    {
        f = f + 1;
    }
    if f == len {
        return false;
    }
    let mut l: usize = len - 1;
    while is_space_char(s.as_str().get_char(l))
        invariant
            f <= l < len == s@.len(),
            !spec_is_space(s@[f as int]),
            spec_first_mark(s@, 0) == f,
            spec_last_mark(s@, s@.len() - 1) == spec_last_mark(s@, l as int),
        decreases l,
    {
        l = l - 1;
    }
    l - f < MAX_NAME_LEN
}

/// Which error, if any, `create_market` rejects a configuration with.
pub open spec fn spec_create_market_err(
    now: i64,
    resolution_time: i64,
    outcome_names: Seq<Seq<char>>,
    market_type: u8,
    b_lamports: u64,
    max_position_bps: u16,
    max_trade_shares: u64,
    cooldown_seconds: i64,
) -> Option<ErrorCode> {
    if outcome_names.len() < 2 || outcome_names.len() > MAX_OUTCOMES {
        Some(ErrorCode::InvalidOutcomes)
    } else if market_type == 0 && outcome_names.len() != 2 {
        Some(ErrorCode::InvalidOutcomes)
    } else if market_type > 1 {
        Some(ErrorCode::InvalidOutcomes)
    } else if exists|i: int|
        0 <= i < outcome_names.len() && !spec_valid_name(#[trigger] outcome_names[i]) {
        Some(ErrorCode::InvalidOutcomes)
    } else if resolution_time <= now {
        Some(ErrorCode::InvalidResolutionTime)
    } else if b_lamports == 0 {
        Some(ErrorCode::InvalidB)
    } else if !((500 <= max_position_bps <= 9000) || max_position_bps == 10_000) {
        Some(ErrorCode::InvalidAntiManip)
    } else if !(1 <= max_trade_shares <= 5_000_000) {
        Some(ErrorCode::InvalidAntiManip)
    } else if !(0 <= cooldown_seconds <= 120) {
        Some(ErrorCode::InvalidAntiManip)
    } else {
        None
    }
}

/// Validate a configuration and open a market: all quantities start at
/// zero, the pool and the fee escrow start empty, and the
/// anti-manipulation limits are fixed for the market's lifetime.
pub fn create_market(
    id: u128,
    creator: u128,
    admin: u128,
    now: i64,
    resolution_time: i64,
    outcome_names: Vec<String>,
    market_type: u8,
    b_lamports: u64,
    max_position_bps: u16,
    max_trade_shares: u64,
    cooldown_seconds: i64,
) -> (r: Result<Market, ErrorCode>)
    requires
        now >= 0,
    ensures
        (match r {
            Ok(m) => {
                &&& spec_create_market_err(
                    now,
                    resolution_time,
                    outcome_names@.map_values(|s: String| s@),
                    market_type,
                    b_lamports,
                    max_position_bps,
                    max_trade_shares,
                    cooldown_seconds,
                ) is None
                &&& m.wf()
                &&& m.id == id
                &&& m.creator == creator
                &&& m.admin == admin
                &&& m.resolution_time == resolution_time
                &&& m.status == MarketStatus::Open
                &&& m.market_type == market_type
                &&& m.outcome_count == outcome_names.len()
                &&& m.outcome_names@ == outcome_names@
                &&& m.b_lamports == b_lamports
                &&& m.q@ =~= Seq::new(MAX_OUTCOMES as nat, |i: int| 0u64)
                &&& m.max_position_bps == max_position_bps
                &&& m.max_trade_shares == max_trade_shares
                &&& m.cooldown_seconds == cooldown_seconds
                &&& m.proposed_outcome is None
                &&& m.dispute_count == 0
                &&& m.winning_outcome is None
                &&& m.pool_lamports == 0
                &&& m.creator_fee_escrow == 0
            },
            Err(e) => spec_create_market_err(
                now,
                resolution_time,
                outcome_names@.map_values(|s: String| s@),
                market_type,
                b_lamports,
                max_position_bps,
                max_trade_shares,
                cooldown_seconds,
            ) == Some(e),
        }),
{
    let ghost names_view = outcome_names@.map_values(|s: String| s@);
    let count: usize = outcome_names.len();
    if count < 2 || count > MAX_OUTCOMES {
        return Err(ErrorCode::InvalidOutcomes);
    }
    if market_type == 0 && count != 2 {
        return Err(ErrorCode::InvalidOutcomes);
    }
    if market_type > 1 {
        return Err(ErrorCode::InvalidOutcomes);
    }
    let mut i: usize = 0;
    while i < count
        invariant
            i <= count == outcome_names.len(),
            names_view == outcome_names@.map_values(|s: String| s@),
            forall|j: int| 0 <= j < i ==> spec_valid_name(#[trigger] names_view[j]),
        decreases count - i,
    {
        if !valid_outcome_name(&outcome_names[i]) {
            proof {
                assert(!spec_valid_name(names_view[i as int]));
            }
            return Err(ErrorCode::InvalidOutcomes);
        }
        i = i + 1;
    }
    if resolution_time <= now {
        return Err(ErrorCode::InvalidResolutionTime);
    }
    if b_lamports == 0 {
        return Err(ErrorCode::InvalidB);
    }
    if !((500 <= max_position_bps && max_position_bps <= 9000) || max_position_bps == 10_000) {
        return Err(ErrorCode::InvalidAntiManip);
    }
    if !(1 <= max_trade_shares && max_trade_shares <= 5_000_000) {
        return Err(ErrorCode::InvalidAntiManip);
    }
    if !(0 <= cooldown_seconds && cooldown_seconds <= 120) {
        return Err(ErrorCode::InvalidAntiManip);
    }

    let mut q: Vec<u64> = Vec::new();
    let mut i: usize = 0;
    while i < MAX_OUTCOMES
        invariant
            i <= MAX_OUTCOMES,
            q@.len() == i,
            forall|j: int| 0 <= j < i ==> q@[j] == 0u64,
        decreases MAX_OUTCOMES - i,
    {
        q.push(0);
        i = i + 1;
    }
    proof {
        assert(q@ =~= Seq::new(MAX_OUTCOMES as nat, |j: int| 0u64));
        assert(forall|j: int| 0 <= j < count ==> names_view[j] == outcome_names@[j]@);
        assert(spec_create_market_err(
            now,
            resolution_time,
            names_view,
            market_type,
            b_lamports,
            max_position_bps,
            max_trade_shares,
            cooldown_seconds,
        ) is None);
        assert forall|j: int|
            0 <= j < outcome_names.len() implies spec_valid_name(
            #[trigger] outcome_names[j]@,
        ) by {
            assert(names_view[j] == outcome_names@[j]@);
            assert(spec_valid_name(names_view[j]));
        }
    }

    Ok(
        Market {
            id,
            creator,
            admin,
            resolution_time,
            status: MarketStatus::Open,
            market_type,
            outcome_count: count as u8,
            outcome_names,
            b_lamports,
            q,
            max_position_bps,
            max_trade_shares,
            cooldown_seconds,
            proposed_outcome: None,
            proposed_at: 0,
            contest_deadline: 0,
            dispute_count: 0,
            winning_outcome: None,
            pool_lamports: 0,
            creator_fee_escrow: 0,
        },
    )
}

/// Which error, if any, `propose_resolution` rejects a call with.
pub open spec fn spec_propose_err(m: Market, caller: u128, now: i64, outcome_index: u8) -> Option<
    ErrorCode,
> {
    if m.status != MarketStatus::Open {
        Some(ErrorCode::InvalidState)
    } else if caller != m.creator {
        Some(ErrorCode::Unauthorized)
    } else if now < m.resolution_time {
        Some(ErrorCode::MarketNotEnded)
    } else if now - m.resolution_time >= CREATOR_PROPOSE_WINDOW {
        Some(ErrorCode::TooLateToPropose)
    } else if outcome_index >= m.outcome_count {
        Some(ErrorCode::InvalidOutcomeIndex)
    } else if now + DISPUTE_WINDOW > i64::MAX {
        Some(ErrorCode::Overflow)
    } else {
        None
    }
}

/// Open -> Proposed: the creator proposes the resolved outcome, only
/// after the end time and only within the proposal window. Starts the
/// dispute window and resets the dispute count.
pub fn propose_resolution(market: &mut Market, caller: u128, now: i64, outcome_index: u8) -> (r:
    Result<(), ErrorCode>)
    requires
        old(market).wf(),
        now >= 0,
    ensures
        final(market).wf(),
        (match r {
            Ok(()) => {
                &&& spec_propose_err(*old(market), caller, now, outcome_index) is None
                &&& *final(market) == (Market {
                    status: MarketStatus::Proposed,
                    proposed_outcome: Some(outcome_index),
                    proposed_at: now,
                    contest_deadline: (now + DISPUTE_WINDOW) as i64,
                    dispute_count: 0,
                    ..*old(market)
                })
            },
            Err(e) => {
                &&& spec_propose_err(*old(market), caller, now, outcome_index) == Some(e)
                &&& *final(market) == *old(market)
            },
        }),
{
    if !matches!(market.status, MarketStatus::Open) {
        return Err(ErrorCode::InvalidState);
    }
    if caller != market.creator {
        return Err(ErrorCode::Unauthorized);
    }
    if now < market.resolution_time {
        return Err(ErrorCode::MarketNotEnded);
    }
    if now - market.resolution_time >= CREATOR_PROPOSE_WINDOW {
        return Err(ErrorCode::TooLateToPropose);
    }
    if outcome_index >= market.outcome_count {
        return Err(ErrorCode::InvalidOutcomeIndex);
    }
    if now > i64::MAX - DISPUTE_WINDOW {
        return Err(ErrorCode::Overflow);
    }
    market.status = MarketStatus::Proposed;
    market.proposed_outcome = Some(outcome_index);
    market.proposed_at = now;
    market.contest_deadline = now + DISPUTE_WINDOW;
    market.dispute_count = 0;
    Ok(())
}

/// Which error, if any, `dispute` rejects a call with.
pub open spec fn spec_dispute_err(m: Market, now: i64) -> Option<ErrorCode> {
    if m.status != MarketStatus::Proposed {
        Some(ErrorCode::InvalidState)
    } else if now >= m.contest_deadline {
        Some(ErrorCode::DisputeWindowClosed)
    } else if m.dispute_count == u64::MAX {
        Some(ErrorCode::Overflow)
    } else {
        None
    }
}

/// Flag a proposed resolution as disputed. Any identity may call this
/// while the dispute window is open; the status does not change.
pub fn dispute(market: &mut Market, now: i64) -> (r: Result<(), ErrorCode>)
    requires
        old(market).wf(),
        now >= 0,
    ensures
        final(market).wf(),
        (match r {
            Ok(()) => {
                &&& spec_dispute_err(*old(market), now) is None
                &&& *final(market) == (Market {
                    dispute_count: (old(market).dispute_count + 1) as u64,
                    ..*old(market)
                })
            },
            Err(e) => {
                &&& spec_dispute_err(*old(market), now) == Some(e)
                &&& *final(market) == *old(market)
            },
        }),
{
    if !matches!(market.status, MarketStatus::Proposed) {
        return Err(ErrorCode::InvalidState);
    }
    if now >= market.contest_deadline {
        return Err(ErrorCode::DisputeWindowClosed);
    }
    if market.dispute_count == u64::MAX {
        return Err(ErrorCode::Overflow);
    }
    market.dispute_count = market.dispute_count + 1;
    Ok(())
}

/// Which error, if any, `finalize_if_no_disputes` rejects a call with.
pub open spec fn spec_finalize_no_disputes_err(m: Market, now: i64) -> Option<ErrorCode> {
    if m.status != MarketStatus::Proposed {
        Some(ErrorCode::InvalidState)
    } else if now < m.contest_deadline {
        Some(ErrorCode::TooEarly)
    } else if m.dispute_count != 0 {
        Some(ErrorCode::HasDisputes)
    } else {
        None
    }
}

/// Proposed -> Finalized without a privileged actor: once the dispute
/// window closed with no dispute, anyone may finalize the proposal.
pub fn finalize_if_no_disputes(market: &mut Market, now: i64) -> (r: Result<(), ErrorCode>)
    requires
        old(market).wf(),
        now >= 0,
    ensures
        final(market).wf(),
        (match r {
            Ok(()) => {
                &&& spec_finalize_no_disputes_err(*old(market), now) is None
                &&& *final(market) == (Market {
                    status: MarketStatus::Finalized,
                    winning_outcome: old(market).proposed_outcome,
                    ..*old(market)
                })
            },
            Err(e) => {
                &&& spec_finalize_no_disputes_err(*old(market), now) == Some(e)
                &&& *final(market) == *old(market)
            },
        }),
{
    if !matches!(market.status, MarketStatus::Proposed) {
        return Err(ErrorCode::InvalidState);
    }
    if now < market.contest_deadline {
        return Err(ErrorCode::TooEarly);
    }
    if market.dispute_count != 0 {
        return Err(ErrorCode::HasDisputes);
    }
    market.status = MarketStatus::Finalized;
    market.winning_outcome = market.proposed_outcome;
    Ok(())
}

/// Which error, if any, `admin_finalize` rejects a call with.
pub open spec fn spec_admin_finalize_err(
    m: Market,
    caller: u128,
    now: i64,
    winning_outcome: u8,
) -> Option<ErrorCode> {
    if m.status != MarketStatus::Proposed {
        Some(ErrorCode::InvalidState)
    } else if caller != m.admin {
        Some(ErrorCode::Unauthorized)
    } else if now < m.contest_deadline {
        Some(ErrorCode::TooEarly)
    } else if m.dispute_count == 0 {
        Some(ErrorCode::NoDispute)
    } else if winning_outcome >= m.outcome_count {
        Some(ErrorCode::InvalidOutcomeIndex)
    } else {
        None
    }
}

/// Proposed -> Finalized under dispute: the admin adjudicates and may
/// pick an outcome different from the proposal.
pub fn admin_finalize(market: &mut Market, caller: u128, now: i64, winning_outcome: u8) -> (r:
    Result<(), ErrorCode>)
    requires
        old(market).wf(),
        now >= 0,
    ensures
        final(market).wf(),
        (match r {
            Ok(()) => {
                &&& spec_admin_finalize_err(*old(market), caller, now, winning_outcome) is None
                &&& *final(market) == (Market {
                    status: MarketStatus::Finalized,
                    winning_outcome: Some(winning_outcome),
                    ..*old(market)
                })
            },
            Err(e) => {
                &&& spec_admin_finalize_err(*old(market), caller, now, winning_outcome) == Some(e)
                &&& *final(market) == *old(market)
            },
        }),
{
    if !matches!(market.status, MarketStatus::Proposed) {
        return Err(ErrorCode::InvalidState);
    }
    if caller != market.admin {
        return Err(ErrorCode::Unauthorized);
    }
    if now < market.contest_deadline {
        return Err(ErrorCode::TooEarly);
    }
    if market.dispute_count == 0 {
        return Err(ErrorCode::NoDispute);
    }
    if winning_outcome >= market.outcome_count {
        return Err(ErrorCode::InvalidOutcomeIndex);
    }
    market.status = MarketStatus::Finalized;
    market.winning_outcome = Some(winning_outcome);
    Ok(())
}

/// Which error, if any, `admin_cancel` rejects a call with.
pub open spec fn spec_admin_cancel_err(m: Market, caller: u128, now: i64) -> Option<ErrorCode> {
    if m.status != MarketStatus::Proposed {
        Some(ErrorCode::InvalidState)
    } else if caller != m.admin {
        Some(ErrorCode::Unauthorized)
    } else if now < m.contest_deadline {
        Some(ErrorCode::TooEarly)
    } else if m.dispute_count == 0 {
        Some(ErrorCode::NoDispute)
    } else {
        None
    }
}

/// Proposed -> Cancelled: the admin abandons a disputed, deadlocked
/// resolution; traders fall back to refunds.
pub fn admin_cancel(market: &mut Market, caller: u128, now: i64) -> (r: Result<(), ErrorCode>)
    requires
        old(market).wf(),
        now >= 0,
    ensures
        final(market).wf(),
        (match r {
            Ok(()) => {
                &&& spec_admin_cancel_err(*old(market), caller, now) is None
                &&& *final(market) == (Market { status: MarketStatus::Cancelled, ..*old(market) })
            },
            Err(e) => {
                &&& spec_admin_cancel_err(*old(market), caller, now) == Some(e)
                &&& *final(market) == *old(market)
            },
        }),
{
    if !matches!(market.status, MarketStatus::Proposed) {
        return Err(ErrorCode::InvalidState);
    }
    if caller != market.admin {
        return Err(ErrorCode::Unauthorized);
    }
    if now < market.contest_deadline {
        return Err(ErrorCode::TooEarly);
    }
    if market.dispute_count == 0 {
        return Err(ErrorCode::NoDispute);
    }
    market.status = MarketStatus::Cancelled;
    Ok(())
}

/// Which error, if any, `cancel_if_no_proposal` rejects a call with.
pub open spec fn spec_cancel_no_proposal_err(m: Market, now: i64) -> Option<ErrorCode> {
    if m.status != MarketStatus::Open {
        Some(ErrorCode::InvalidState)
    } else if now < m.resolution_time {
        Some(ErrorCode::TooEarly)
    } else if now - m.resolution_time < CREATOR_PROPOSE_WINDOW {
        Some(ErrorCode::TooEarly)
    } else {
        None
    }
}

/// Open -> Cancelled without a privileged actor: once the proposal
/// window elapsed with no proposal, anyone may cancel so that traders'
/// capital is not stuck forever.
pub fn cancel_if_no_proposal(market: &mut Market, now: i64) -> (r: Result<(), ErrorCode>)
    requires
        old(market).wf(),
        now >= 0,
    ensures
        final(market).wf(),
        (match r {
            Ok(()) => {
                &&& spec_cancel_no_proposal_err(*old(market), now) is None
                &&& *final(market) == (Market { status: MarketStatus::Cancelled, ..*old(market) })
            },
            Err(e) => {
                &&& spec_cancel_no_proposal_err(*old(market), now) == Some(e)
                &&& *final(market) == *old(market)
            },
        }),
{
    if !matches!(market.status, MarketStatus::Open) {
        return Err(ErrorCode::InvalidState);
    }
    if now < market.resolution_time {
        return Err(ErrorCode::TooEarly);
    }
    if now - market.resolution_time < CREATOR_PROPOSE_WINDOW {
        return Err(ErrorCode::TooEarly);
    }
    market.status = MarketStatus::Cancelled;
    Ok(())
}

/// Pro-rata payout: the user's winning shares times the pool, divided
/// by the winning outcome's total supply, rounded down.
pub open spec fn spec_payout(user_shares: u64, pool: u64, supply: u64) -> int {
    user_shares * pool / (supply as int)
}

/// Which error, if any, `claim_winnings` rejects a call with.
pub open spec fn spec_claim_winnings_err(m: Market, p: UserPosition, caller: u128) -> Option<
    ErrorCode,
> {
    if m.status != MarketStatus::Finalized {
        Some(ErrorCode::MarketNotResolved)
    } else if p.market != m.id || p.user != caller {
        Some(ErrorCode::InvalidUserPosition)
    } else if p.claimed {
        Some(ErrorCode::AlreadyClaimed)
    } else {
        let w = m.winning_outcome->0 as int;
        if p.shares[w] == 0 {
            Some(ErrorCode::NoWinningShares)
        } else if m.q[w] == 0 {
            Some(ErrorCode::InvalidSupply)
        } else if spec_payout(p.shares[w], m.pool_lamports, m.q[w]) > u64::MAX {
            Some(ErrorCode::Overflow)
        } else if spec_payout(p.shares[w], m.pool_lamports, m.q[w]) == 0 {
            Some(ErrorCode::InvalidPayout)
        } else if spec_payout(p.shares[w], m.pool_lamports, m.q[w]) > m.pool_lamports {
            Some(ErrorCode::InsufficientMarketBalance)
        } else {
            None
        }
    }
}

/// Pay the caller's pro-rata share of the pool for the winning outcome
/// and mark the position claimed; a position claims at most once.
pub fn claim_winnings(market: &mut Market, pos: &mut UserPosition, caller: u128) -> (r: Result<
    u64,
    ErrorCode,
>)
    requires
        old(market).wf(),
        old(pos).wf(),
    ensures
        final(market).wf(),
        final(pos).wf(),
        (match r {
            Ok(payout) => {
                &&& spec_claim_winnings_err(*old(market), *old(pos), caller) is None
                &&& payout == spec_payout(
                    old(pos).shares[old(market).winning_outcome->0 as int],
                    old(market).pool_lamports,
                    old(market).q[old(market).winning_outcome->0 as int],
                )
                &&& payout >= 1
                &&& payout <= old(market).pool_lamports
                &&& *final(market) == (Market {
                    pool_lamports: (old(market).pool_lamports - payout) as u64,
                    ..*old(market)
                })
                &&& *final(pos) == (UserPosition { claimed: true, ..*old(pos) })
            },
            Err(e) => {
                &&& spec_claim_winnings_err(*old(market), *old(pos), caller) == Some(e)
                &&& *final(market) == *old(market)
                &&& *final(pos) == *old(pos)
            },
        }),
{
    if !matches!(market.status, MarketStatus::Finalized) {
        return Err(ErrorCode::MarketNotResolved);
    }
    if pos.market != market.id || pos.user != caller {
        return Err(ErrorCode::InvalidUserPosition);
    }
    if pos.claimed {
        return Err(ErrorCode::AlreadyClaimed);
    }
    let winning: usize = match market.winning_outcome {
        Some(w) => w as usize,
        None => {
            proof {
                assert(false);
            }
            return Err(ErrorCode::MarketNotResolved);
        },
    };
    let user_shares: u64 = pos.shares[winning];
    if user_shares == 0 {
        return Err(ErrorCode::NoWinningShares);
    }
    let supply: u64 = market.q[winning];
    if supply == 0 {
        return Err(ErrorCode::InvalidSupply);
    }
    let pool: u64 = market.pool_lamports;
    proof {
        assert(user_shares * pool <= u64::MAX * (u64::MAX as int)) by {
            vstd::arithmetic::mul::lemma_mul_upper_bound(
                user_shares as int,
                u64::MAX as int,
                pool as int,
                u64::MAX as int,
            );
        }
        vstd::arithmetic::div_mod::lemma_div_pos_is_pos(
            user_shares as int * pool as int,
            supply as int,
        );
    }
    let payout_wide: u128 = (user_shares as u128) * (pool as u128) / (supply as u128);
    if payout_wide > u64::MAX as u128 {
        return Err(ErrorCode::Overflow);
    }
    let payout: u64 = payout_wide as u64;
    if payout == 0 {
        return Err(ErrorCode::InvalidPayout);
    }
    if payout > pool {
        return Err(ErrorCode::InsufficientMarketBalance);
    }
    market.pool_lamports = pool - payout;
    pos.claimed = true;
    Ok(payout)
}

/// Which error, if any, `claim_refund` rejects a call with.
pub open spec fn spec_claim_refund_err(m: Market, p: UserPosition, caller: u128) -> Option<
    ErrorCode,
> {
    if m.status != MarketStatus::Cancelled {
        Some(ErrorCode::MarketNotCancelled)
    } else if p.market != m.id || p.user != caller {
        Some(ErrorCode::InvalidUserPosition)
    } else if p.claimed {
        Some(ErrorCode::AlreadyClaimed)
    } else if p.net_cost_lamports > m.pool_lamports {
        Some(ErrorCode::InsufficientMarketBalance)
    } else {
        None
    }
}

/// On a cancelled market, pay back the position's principal (buys
/// minus sells, fees excluded) and mark the position claimed.
pub fn claim_refund(market: &mut Market, pos: &mut UserPosition, caller: u128) -> (r: Result<
    u64,
    ErrorCode,
>)
    requires
        old(market).wf(),
        old(pos).wf(),
    ensures
        final(market).wf(),
        final(pos).wf(),
        (match r {
            Ok(amount) => {
                &&& spec_claim_refund_err(*old(market), *old(pos), caller) is None
                &&& amount == old(pos).net_cost_lamports
                &&& *final(market) == (Market {
                    pool_lamports: (old(market).pool_lamports - amount) as u64,
                    ..*old(market)
                })
                &&& *final(pos) == (UserPosition { claimed: true, ..*old(pos) })
            },
            Err(e) => {
                &&& spec_claim_refund_err(*old(market), *old(pos), caller) == Some(e)
                &&& *final(market) == *old(market)
                &&& *final(pos) == *old(pos)
            },
        }),
{
    if !matches!(market.status, MarketStatus::Cancelled) {
        return Err(ErrorCode::MarketNotCancelled);
    }
    if pos.market != market.id || pos.user != caller {
        return Err(ErrorCode::InvalidUserPosition);
    }
    if pos.claimed {
        return Err(ErrorCode::AlreadyClaimed);
    }
    let amount: u64 = pos.net_cost_lamports;
    if amount > market.pool_lamports {
        return Err(ErrorCode::InsufficientMarketBalance);
    }
    market.pool_lamports = market.pool_lamports - amount;
    pos.claimed = true;
    Ok(amount)
}

/// Which error, if any, `claim_creator_fees` rejects a call with.
pub open spec fn spec_claim_creator_fees_err(m: Market, caller: u128) -> Option<ErrorCode> {
    if m.status != MarketStatus::Finalized {
        Some(ErrorCode::MarketNotResolved)
    } else if caller != m.creator {
        Some(ErrorCode::Unauthorized)
    } else {
        None
    }
}

/// Once the market finalized, pay the whole accumulated creator fee
/// escrow to the creator and zero it.
pub fn claim_creator_fees(market: &mut Market, caller: u128) -> (r: Result<u64, ErrorCode>)
    requires
        old(market).wf(),
    ensures
        final(market).wf(),
        (match r {
            Ok(amount) => {
                &&& spec_claim_creator_fees_err(*old(market), caller) is None
                &&& amount == old(market).creator_fee_escrow
                &&& *final(market) == (Market { creator_fee_escrow: 0, ..*old(market) })
            },
            Err(e) => {
                &&& spec_claim_creator_fees_err(*old(market), caller) == Some(e)
                &&& *final(market) == *old(market)
            },
        }),
{
    if !matches!(market.status, MarketStatus::Finalized) {
        return Err(ErrorCode::MarketNotResolved);
    }
    if caller != market.creator {
        return Err(ErrorCode::Unauthorized);
    }
    let amount: u64 = market.creator_fee_escrow;
    market.creator_fee_escrow = 0;
    Ok(amount)
}

} // verus!
