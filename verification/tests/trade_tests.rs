use funmarket_pump::errors::ErrorCode;
use funmarket_pump::lmsr::lmsr_price;
use funmarket_pump::market::{
    claim_winnings, create_market, finalize_if_no_disputes, propose_resolution, Market,
    MarketStatus, UserPosition,
};
use funmarket_pump::math::SCALE;
use funmarket_pump::trade::{buy_shares, enforce_position_cap, sell_shares};

const CREATOR: u128 = 1;
const ADMIN: u128 = 2;
const USER: u128 = 3;
const OTHER: u128 = 4;
const MARKET_ID: u128 = 7;
const RESOLUTION: i64 = 1_000_000;

fn names() -> Vec<String> {
    vec!["YES".to_string(), "NO".to_string()]
}

fn market_with(
    b: u64,
    max_position_bps: u16,
    max_trade_shares: u64,
    cooldown_seconds: i64,
) -> Market {
    create_market(
        MARKET_ID,
        CREATOR,
        ADMIN,
        0,
        RESOLUTION,
        names(),
        0,
        b,
        max_position_bps,
        max_trade_shares,
        cooldown_seconds,
    )
    .ok()
    .unwrap()
}

#[test]
fn binary_market_buy_moves_price_toward_bought_outcome() {
    // Binary market with b worth 50 currency units at one unit per
    // share: buying 5 shares of YES must cost something, set the
    // supply vector to [5, 0], and price YES above one half.
    let mut m = market_with(50, 10_000, 5_000_000, 0);
    let mut p = UserPosition::new(MARKET_ID, USER);
    let receipt = buy_shares(&mut m, &mut p, USER, 10, 5, 0).unwrap();
    assert!(receipt.cost > 0);
    assert_eq!(m.q[0], 5);
    assert_eq!(m.q[1], 0);
    assert_eq!(p.shares[0], 5);
    assert_eq!(m.pool_lamports, receipt.cost);
    let yes = lmsr_price(&m.q, m.b_lamports, 0, 2).unwrap();
    let no = lmsr_price(&m.q, m.b_lamports, 1, 2).unwrap();
    assert!(yes > (SCALE as u64) / 2, "yes priced {yes}");
    assert!(no < (SCALE as u64) / 2, "no priced {no}");
}

#[test]
fn buy_fees_are_one_and_two_percent() {
    let mut m = market_with(1_000_000, 10_000, 5_000_000, 0);
    let mut p = UserPosition::new(MARKET_ID, USER);
    let receipt = buy_shares(&mut m, &mut p, USER, 10, 1_000_000, 0).unwrap();
    assert_eq!(receipt.platform_fee, receipt.cost * 100 / 10_000);
    assert_eq!(receipt.creator_fee, receipt.cost * 200 / 10_000);
    assert_eq!(
        receipt.total_debit,
        receipt.cost + receipt.platform_fee + receipt.creator_fee
    );
    assert_eq!(m.creator_fee_escrow, receipt.creator_fee);
    assert_eq!(m.pool_lamports, receipt.cost);
    assert_eq!(p.net_cost_lamports, receipt.cost);
    assert_eq!(p.last_trade_ts, 10);
}

#[test]
fn trade_gate_rejects_bad_requests() {
    let mut m = market_with(50, 10_000, 1_000, 0);
    let mut p = UserPosition::new(MARKET_ID, USER);

    assert_eq!(
        buy_shares(&mut m, &mut p, USER, 10, 0, 0),
        Err(ErrorCode::InvalidShares)
    );
    assert_eq!(
        buy_shares(&mut m, &mut p, USER, 10, 1_001, 0),
        Err(ErrorCode::TradeTooLarge)
    );
    assert_eq!(
        buy_shares(&mut m, &mut p, USER, RESOLUTION, 5, 0),
        Err(ErrorCode::MarketClosed)
    );
    assert_eq!(
        buy_shares(&mut m, &mut p, USER, 10, 5, 2),
        Err(ErrorCode::InvalidOutcomeIndex)
    );
    assert_eq!(
        buy_shares(&mut m, &mut p, OTHER, 10, 5, 0),
        Err(ErrorCode::InvalidUserPosition)
    );
    let mut foreign = UserPosition::new(MARKET_ID + 1, USER);
    assert_eq!(
        buy_shares(&mut m, &mut foreign, USER, 10, 5, 0),
        Err(ErrorCode::InvalidUserPosition)
    );
    // nothing above touched the market
    assert_eq!(m.q, vec![0u64; 10]);
    assert_eq!(m.pool_lamports, 0);
}

#[test]
fn trading_stops_once_market_leaves_open() {
    let mut m = market_with(50, 10_000, 1_000, 0);
    m.status = MarketStatus::Cancelled;
    let mut p = UserPosition::new(MARKET_ID, USER);
    assert_eq!(
        buy_shares(&mut m, &mut p, USER, 10, 5, 0),
        Err(ErrorCode::MarketResolved)
    );
    assert_eq!(
        sell_shares(&mut m, &mut p, USER, 10, 5, 0),
        Err(ErrorCode::MarketResolved)
    );
}

#[test]
fn cooldown_blocks_rapid_trades() {
    let mut m = market_with(50, 10_000, 1_000, 60);
    let mut p = UserPosition::new(MARKET_ID, USER);
    assert!(buy_shares(&mut m, &mut p, USER, 100, 5, 0).is_ok());
    // 30 seconds later: still cooling down
    assert_eq!(
        buy_shares(&mut m, &mut p, USER, 130, 5, 0),
        Err(ErrorCode::CooldownActive)
    );
    // 61 seconds later: allowed again
    assert!(buy_shares(&mut m, &mut p, USER, 161, 5, 0).is_ok());
}

#[test]
fn buy_then_sell_returns_supply_and_keeps_at_most_one_unit() {
    let mut m = market_with(50, 10_000, 5_000_000, 0);
    let mut p = UserPosition::new(MARKET_ID, USER);
    let bought = buy_shares(&mut m, &mut p, USER, 10, 5, 0).unwrap();
    let sold = sell_shares(&mut m, &mut p, USER, 11, 5, 0).unwrap();
    assert_eq!(m.q, vec![0u64; 10]);
    assert_eq!(p.shares[0], 0);
    assert!(sold.refund <= bought.cost);
    assert!(bought.cost - sold.refund <= 1);
    assert_eq!(m.pool_lamports, bought.cost - sold.refund);
    assert_eq!(sold.net_credit, sold.refund - sold.platform_fee - sold.creator_fee);
    assert_eq!(p.net_cost_lamports, bought.cost - sold.refund.min(bought.cost));
}

#[test]
fn sell_rejects_more_than_held() {
    let mut m = market_with(50, 10_000, 1_000, 0);
    let mut p = UserPosition::new(MARKET_ID, USER);
    buy_shares(&mut m, &mut p, USER, 10, 5, 0).unwrap();
    assert_eq!(
        sell_shares(&mut m, &mut p, USER, 11, 6, 0),
        Err(ErrorCode::NotEnoughShares)
    );
    assert_eq!(m.q[0], 5);
}

#[test]
fn position_cap_blocks_concentration_after_bootstrap() {
    // 5% cap, one-trade depth of 1000. The first trade of 999 shares
    // stays under the bootstrap threshold; a later 200-share buy by a
    // second user would hold far more than 5% of total supply.
    let mut m = market_with(50, 500, 1_000, 0);
    let mut p1 = UserPosition::new(MARKET_ID, USER);
    assert!(buy_shares(&mut m, &mut p1, USER, 10, 999, 0).is_ok());

    let mut p2 = UserPosition::new(MARKET_ID, OTHER);
    assert_eq!(
        buy_shares(&mut m, &mut p2, OTHER, 11, 200, 1),
        Err(ErrorCode::PositionCapExceeded)
    );
    // the rejected trade left no trace
    assert_eq!(m.q[1], 0);
    assert_eq!(p2.shares[1], 0);

    // a holding within the cap passes: 52 <= (999 + 52) * 5% = 52
    assert!(buy_shares(&mut m, &mut p2, OTHER, 11, 52, 1).is_ok());
}

#[test]
fn enforce_position_cap_reads_current_state() {
    let mut m = market_with(50, 500, 1_000, 0);
    m.q[0] = 2_000;
    let mut p = UserPosition::new(MARKET_ID, USER);
    p.shares[0] = 150;
    // 150 > 2000 * 5% = 100
    assert_eq!(
        enforce_position_cap(&m, &p, 0),
        Err(ErrorCode::PositionCapExceeded)
    );
    p.shares[0] = 100;
    assert_eq!(enforce_position_cap(&m, &p, 0), Ok(()));
    // disabled cap never fires
    m.max_position_bps = 10_000;
    p.shares[0] = 2_000;
    assert_eq!(enforce_position_cap(&m, &p, 0), Ok(()));
}

#[test]
fn negligible_sell_refund_is_rejected() {
    // With a very deep market a one-share sale moves the cost by less
    // than one unit; the zero refund is rejected rather than paid.
    let mut m = market_with(50_000_000_000, 10_000, 5_000_000, 0);
    let mut p = UserPosition::new(MARKET_ID, USER);
    buy_shares(&mut m, &mut p, USER, 10, 1_001, 0).unwrap();
    assert_eq!(
        sell_shares(&mut m, &mut p, USER, 11, 1, 0),
        Err(ErrorCode::InvalidCost)
    );
    assert_eq!(m.q[0], 1_001);
}

#[test]
fn full_lifecycle_pays_the_single_winner_the_whole_pool() {
    let mut m = market_with(50, 10_000, 5_000_000, 0);
    let mut p = UserPosition::new(MARKET_ID, USER);
    let receipt = buy_shares(&mut m, &mut p, USER, 10, 5, 0).unwrap();

    propose_resolution(&mut m, CREATOR, RESOLUTION, 0).unwrap();
    let deadline = m.contest_deadline;
    finalize_if_no_disputes(&mut m, deadline).unwrap();

    // the only holder of the winning outcome gets the whole pool:
    // 5 * pool / 5 = pool
    let payout = claim_winnings(&mut m, &mut p, USER).unwrap();
    assert_eq!(payout, receipt.cost);
    assert_eq!(m.pool_lamports, 0);
    assert!(p.claimed);
    assert_eq!(
        claim_winnings(&mut m, &mut p, USER),
        Err(ErrorCode::AlreadyClaimed)
    );
}
