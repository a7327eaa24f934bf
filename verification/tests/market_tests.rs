use funmarket_pump::errors::ErrorCode;
use funmarket_pump::market::{
    admin_cancel, admin_finalize, cancel_if_no_proposal, claim_creator_fees, claim_refund,
    claim_winnings, create_market, dispute, finalize_if_no_disputes, propose_resolution,
    Market, MarketStatus, UserPosition, CREATOR_PROPOSE_WINDOW, DISPUTE_WINDOW,
};

const CREATOR: u128 = 1;
const ADMIN: u128 = 2;
const USER: u128 = 3;
const MARKET_ID: u128 = 7;
const RESOLUTION: i64 = 1000;

fn names() -> Vec<String> {
    vec!["YES".to_string(), "NO".to_string()]
}

fn open_market() -> Market {
    create_market(
        MARKET_ID, CREATOR, ADMIN, 0, RESOLUTION, names(), 0, 50, 10_000, 5_000_000, 0,
    )
    .ok()
    .unwrap()
}

#[test]
fn create_market_initializes_cleanly() {
    let m = open_market();
    assert_eq!(m.id, MARKET_ID);
    assert_eq!(m.creator, CREATOR);
    assert_eq!(m.admin, ADMIN);
    assert!(matches!(m.status, MarketStatus::Open));
    assert_eq!(m.outcome_count, 2);
    assert_eq!(m.q, vec![0u64; 10]);
    assert_eq!(m.pool_lamports, 0);
    assert_eq!(m.creator_fee_escrow, 0);
    assert_eq!(m.dispute_count, 0);
    assert!(m.winning_outcome.is_none());
    assert!(m.proposed_outcome.is_none());
}

#[test]
fn create_market_rejects_bad_outcome_lists() {
    let one = vec!["ONLY".to_string()];
    let r = create_market(1, CREATOR, ADMIN, 0, RESOLUTION, one, 1, 50, 10_000, 100, 0);
    assert!(matches!(r, Err(ErrorCode::InvalidOutcomes)));

    let three = vec!["A".to_string(), "B".to_string(), "C".to_string()];
    let r = create_market(1, CREATOR, ADMIN, 0, RESOLUTION, three, 0, 50, 10_000, 100, 0);
    assert!(matches!(r, Err(ErrorCode::InvalidOutcomes)));

    let eleven: Vec<String> = (0..11).map(|i| format!("O{i}")).collect();
    let r = create_market(1, CREATOR, ADMIN, 0, RESOLUTION, eleven, 1, 50, 10_000, 100, 0);
    assert!(matches!(r, Err(ErrorCode::InvalidOutcomes)));

    let bad_type = create_market(1, CREATOR, ADMIN, 0, RESOLUTION, names(), 2, 50, 10_000, 100, 0);
    assert!(matches!(bad_type, Err(ErrorCode::InvalidOutcomes)));
}

#[test]
fn create_market_rejects_blank_and_oversized_names() {
    let blank = vec!["YES".to_string(), "   ".to_string()];
    let r = create_market(1, CREATOR, ADMIN, 0, RESOLUTION, blank, 0, 50, 10_000, 100, 0);
    assert!(matches!(r, Err(ErrorCode::InvalidOutcomes)));

    let long = "x".repeat(41);
    let r = create_market(
        1,
        CREATOR,
        ADMIN,
        0,
        RESOLUTION,
        vec!["YES".to_string(), long],
        0,
        50,
        10_000,
        100,
        0,
    );
    assert!(matches!(r, Err(ErrorCode::InvalidOutcomes)));

    // 40 characters of payload survive surrounding blanks
    let padded = format!("  {}  ", "x".repeat(40));
    let r = create_market(
        1,
        CREATOR,
        ADMIN,
        0,
        RESOLUTION,
        vec!["YES".to_string(), padded],
        0,
        50,
        10_000,
        100,
        0,
    );
    assert!(r.is_ok());
}

#[test]
fn create_market_rejects_bad_times_liquidity_and_limits() {
    let r = create_market(1, CREATOR, ADMIN, 500, 500, names(), 0, 50, 10_000, 100, 0);
    assert!(matches!(r, Err(ErrorCode::InvalidResolutionTime)));

    let r = create_market(1, CREATOR, ADMIN, 0, RESOLUTION, names(), 0, 0, 10_000, 100, 0);
    assert!(matches!(r, Err(ErrorCode::InvalidB)));

    let r = create_market(1, CREATOR, ADMIN, 0, RESOLUTION, names(), 0, 50, 400, 100, 0);
    assert!(matches!(r, Err(ErrorCode::InvalidAntiManip)));

    let r = create_market(1, CREATOR, ADMIN, 0, RESOLUTION, names(), 0, 50, 9_500, 100, 0);
    assert!(matches!(r, Err(ErrorCode::InvalidAntiManip)));

    let r = create_market(1, CREATOR, ADMIN, 0, RESOLUTION, names(), 0, 50, 10_000, 0, 0);
    assert!(matches!(r, Err(ErrorCode::InvalidAntiManip)));

    let r = create_market(
        1, CREATOR, ADMIN, 0, RESOLUTION, names(), 0, 50, 10_000, 5_000_001, 0,
    );
    assert!(matches!(r, Err(ErrorCode::InvalidAntiManip)));

    let r = create_market(1, CREATOR, ADMIN, 0, RESOLUTION, names(), 0, 50, 10_000, 100, 121);
    assert!(matches!(r, Err(ErrorCode::InvalidAntiManip)));
}

#[test]
fn propose_requires_creator_and_window() {
    let mut m = open_market();
    assert_eq!(
        propose_resolution(&mut m, USER, RESOLUTION, 0),
        Err(ErrorCode::Unauthorized)
    );
    assert_eq!(
        propose_resolution(&mut m, CREATOR, RESOLUTION - 1, 0),
        Err(ErrorCode::MarketNotEnded)
    );
    assert_eq!(
        propose_resolution(&mut m, CREATOR, RESOLUTION + CREATOR_PROPOSE_WINDOW, 0),
        Err(ErrorCode::TooLateToPropose)
    );
    assert_eq!(
        propose_resolution(&mut m, CREATOR, RESOLUTION, 5),
        Err(ErrorCode::InvalidOutcomeIndex)
    );
    assert_eq!(propose_resolution(&mut m, CREATOR, RESOLUTION, 0), Ok(()));
    assert!(matches!(m.status, MarketStatus::Proposed));
    assert_eq!(m.proposed_outcome, Some(0));
    assert_eq!(m.contest_deadline, RESOLUTION + DISPUTE_WINDOW);
    assert_eq!(m.dispute_count, 0);
    // a second proposal hits the wrong state
    assert_eq!(
        propose_resolution(&mut m, CREATOR, RESOLUTION, 0),
        Err(ErrorCode::InvalidState)
    );
}

#[test]
fn dispute_window_boundary_is_exact() {
    let mut m = open_market();
    propose_resolution(&mut m, CREATOR, RESOLUTION, 0).unwrap();
    let deadline = m.contest_deadline;
    assert_eq!(dispute(&mut m, deadline - 1), Ok(()));
    assert_eq!(m.dispute_count, 1);
    assert_eq!(dispute(&mut m, deadline), Err(ErrorCode::DisputeWindowClosed));
    assert_eq!(m.dispute_count, 1);
}

#[test]
fn undisputed_proposal_finalizes_permissionlessly() {
    let mut m = open_market();
    propose_resolution(&mut m, CREATOR, RESOLUTION, 1).unwrap();
    let deadline = m.contest_deadline;
    assert_eq!(
        finalize_if_no_disputes(&mut m, deadline - 1),
        Err(ErrorCode::TooEarly)
    );
    assert_eq!(finalize_if_no_disputes(&mut m, deadline), Ok(()));
    assert!(matches!(m.status, MarketStatus::Finalized));
    assert_eq!(m.winning_outcome, Some(1));
}

#[test]
fn disputed_proposal_blocks_permissionless_path() {
    let mut m = open_market();
    propose_resolution(&mut m, CREATOR, RESOLUTION, 0).unwrap();
    dispute(&mut m, RESOLUTION + 1).unwrap();
    let deadline = m.contest_deadline;
    assert_eq!(
        finalize_if_no_disputes(&mut m, deadline),
        Err(ErrorCode::HasDisputes)
    );
    assert!(matches!(m.status, MarketStatus::Proposed));
}

#[test]
fn admin_finalize_requires_dispute_and_admin_key() {
    let mut m = open_market();
    propose_resolution(&mut m, CREATOR, RESOLUTION, 0).unwrap();
    let deadline = m.contest_deadline;
    // no dispute yet: the admin path is closed
    assert_eq!(
        admin_finalize(&mut m, ADMIN, deadline, 1),
        Err(ErrorCode::NoDispute)
    );
    dispute(&mut m, deadline - 1).unwrap();
    assert_eq!(
        admin_finalize(&mut m, USER, deadline, 1),
        Err(ErrorCode::Unauthorized)
    );
    assert_eq!(
        admin_finalize(&mut m, ADMIN, deadline - 1, 1),
        Err(ErrorCode::TooEarly)
    );
    // the admin may pick an outcome other than the proposed one
    assert_eq!(admin_finalize(&mut m, ADMIN, deadline, 1), Ok(()));
    assert!(matches!(m.status, MarketStatus::Finalized));
    assert_eq!(m.winning_outcome, Some(1));
}

#[test]
fn admin_cancel_requires_dispute_and_deadline() {
    let mut m = open_market();
    propose_resolution(&mut m, CREATOR, RESOLUTION, 0).unwrap();
    dispute(&mut m, RESOLUTION + 1).unwrap();
    let deadline = m.contest_deadline;
    assert_eq!(admin_cancel(&mut m, USER, deadline), Err(ErrorCode::Unauthorized));
    assert_eq!(admin_cancel(&mut m, ADMIN, deadline - 1), Err(ErrorCode::TooEarly));
    assert_eq!(admin_cancel(&mut m, ADMIN, deadline), Ok(()));
    assert!(matches!(m.status, MarketStatus::Cancelled));
}

#[test]
fn abandoned_market_cancels_permissionlessly() {
    let mut m = open_market();
    assert_eq!(
        cancel_if_no_proposal(&mut m, RESOLUTION + CREATOR_PROPOSE_WINDOW - 1),
        Err(ErrorCode::TooEarly)
    );
    assert_eq!(
        cancel_if_no_proposal(&mut m, RESOLUTION + CREATOR_PROPOSE_WINDOW),
        Ok(())
    );
    assert!(matches!(m.status, MarketStatus::Cancelled));
}

fn finalized_market(pool: u64, winning_supply: u64) -> Market {
    let mut m = open_market();
    m.status = MarketStatus::Finalized;
    m.winning_outcome = Some(0);
    m.q[0] = winning_supply;
    m.pool_lamports = pool;
    m
}

fn position_with_shares(shares0: u64) -> UserPosition {
    let mut p = UserPosition::new(MARKET_ID, USER);
    p.shares[0] = shares0;
    p
}

#[test]
fn claim_winnings_pays_exact_pro_rata_floor() {
    let mut m = finalized_market(100, 3);
    let mut p = position_with_shares(2);
    // 2 * 100 / 3 = 66, floor division
    assert_eq!(claim_winnings(&mut m, &mut p, USER), Ok(66));
    assert_eq!(m.pool_lamports, 34);
    assert!(p.claimed);
}

#[test]
fn claim_winnings_is_exclusive() {
    let mut m = finalized_market(100, 3);
    let mut p = position_with_shares(2);
    assert_eq!(claim_winnings(&mut m, &mut p, USER), Ok(66));
    assert_eq!(
        claim_winnings(&mut m, &mut p, USER),
        Err(ErrorCode::AlreadyClaimed)
    );
    assert_eq!(m.pool_lamports, 34);
}

#[test]
fn claim_winnings_rejects_wrong_state_and_empty_positions() {
    let mut open = open_market();
    let mut p = position_with_shares(2);
    assert_eq!(
        claim_winnings(&mut open, &mut p, USER),
        Err(ErrorCode::MarketNotResolved)
    );

    let mut m = finalized_market(100, 3);
    let mut stranger = UserPosition::new(MARKET_ID, 99);
    assert_eq!(
        claim_winnings(&mut m, &mut stranger, USER),
        Err(ErrorCode::InvalidUserPosition)
    );

    let mut empty = UserPosition::new(MARKET_ID, USER);
    assert_eq!(
        claim_winnings(&mut m, &mut empty, USER),
        Err(ErrorCode::NoWinningShares)
    );

    let mut no_supply = finalized_market(100, 0);
    let mut p2 = position_with_shares(2);
    assert_eq!(
        claim_winnings(&mut no_supply, &mut p2, USER),
        Err(ErrorCode::InvalidSupply)
    );

    // 1 * 2 / 3 = 0: a zero payout is rejected, nothing is marked
    let mut tiny = finalized_market(2, 3);
    let mut p3 = position_with_shares(1);
    assert_eq!(
        claim_winnings(&mut tiny, &mut p3, USER),
        Err(ErrorCode::InvalidPayout)
    );
    assert!(!p3.claimed);
}

#[test]
fn sequential_claims_never_drain_more_than_the_pool() {
    // three holders of one share each on a supply of three
    let mut m = finalized_market(100, 3);
    let mut total: u64 = 0;
    for user in [10u128, 11, 12] {
        let mut p = UserPosition::new(MARKET_ID, user);
        p.shares[0] = 1;
        let paid = claim_winnings(&mut m, &mut p, user).unwrap();
        total += paid;
    }
    assert!(total <= 100);
    assert_eq!(m.pool_lamports, 100 - total);
}

#[test]
fn claim_refund_pays_principal_once() {
    let mut m = open_market();
    m.status = MarketStatus::Cancelled;
    m.pool_lamports = 500;
    let mut p = UserPosition::new(MARKET_ID, USER);
    p.net_cost_lamports = 123;
    assert_eq!(claim_refund(&mut m, &mut p, USER), Ok(123));
    assert_eq!(m.pool_lamports, 377);
    assert!(p.claimed);
    assert_eq!(claim_refund(&mut m, &mut p, USER), Err(ErrorCode::AlreadyClaimed));
}

#[test]
fn claim_refund_cannot_drain_beyond_the_pool() {
    let mut m = open_market();
    m.status = MarketStatus::Cancelled;
    m.pool_lamports = 100;
    let mut p = UserPosition::new(MARKET_ID, USER);
    p.net_cost_lamports = 123;
    assert_eq!(
        claim_refund(&mut m, &mut p, USER),
        Err(ErrorCode::InsufficientMarketBalance)
    );
    assert!(!p.claimed);
    assert_eq!(m.pool_lamports, 100);
}

#[test]
fn proposal_near_the_end_of_time_reports_overflow() {
    // A contest deadline that does not fit the clock type is refused.
    let rt = i64::MAX - 100;
    let mut m = create_market(
        MARKET_ID, CREATOR, ADMIN, 0, rt, names(), 0, 50, 10_000, 5_000_000, 0,
    )
    .ok()
    .unwrap();
    assert_eq!(
        propose_resolution(&mut m, CREATOR, rt, 0),
        Err(ErrorCode::Overflow)
    );
    assert!(matches!(m.status, MarketStatus::Open));
}

#[test]
fn claim_refund_needs_cancelled_state() {
    let mut m = open_market();
    let mut p = UserPosition::new(MARKET_ID, USER);
    assert_eq!(
        claim_refund(&mut m, &mut p, USER),
        Err(ErrorCode::MarketNotCancelled)
    );
}

#[test]
fn creator_fees_go_to_the_creator_once_finalized() {
    let mut m = finalized_market(100, 3);
    m.creator_fee_escrow = 42;
    assert_eq!(
        claim_creator_fees(&mut m, USER),
        Err(ErrorCode::Unauthorized)
    );
    assert_eq!(claim_creator_fees(&mut m, CREATOR), Ok(42));
    assert_eq!(m.creator_fee_escrow, 0);
    // a second withdrawal finds an empty escrow
    assert_eq!(claim_creator_fees(&mut m, CREATOR), Ok(0));

    let mut open = open_market();
    open.creator_fee_escrow = 42;
    assert_eq!(
        claim_creator_fees(&mut open, CREATOR),
        Err(ErrorCode::MarketNotResolved)
    );
}
