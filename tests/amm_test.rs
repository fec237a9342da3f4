use boxmeout::{Address, AmmError, MarketId, PoolState, TradeSide, AMM};

const CAP: u128 = 1_000_000_000;

fn admin() -> Address {
    Address::new(1)
}

fn market(n: u8) -> MarketId {
    MarketId::from_array([n; 32])
}

fn new_amm() -> AMM {
    AMM::initialize(admin(), Address::new(2), Address::new(3), CAP)
}

fn seeded(seed: u128) -> AMM {
    let mut amm = new_amm();
    amm.create_pool(Address::new(10), market(1), seed).unwrap();
    amm
}

fn reserves(amm: &AMM, m: MarketId) -> (u128, u128) {
    let s = amm.get_pool_state(m).unwrap();
    (s.yes_reserve, s.no_reserve)
}

#[test]
fn initialize_sets_default_fee_and_slippage() {
    let amm = new_amm();
    assert_eq!(amm.config.trading_fee_bps, 20);
    assert_eq!(amm.config.slippage_protection_bps, 200);
    assert_eq!(amm.config.max_liquidity_cap, CAP);
    assert_eq!(amm.get_pool_state(market(1)), Err(AmmError::PoolNotFound));
}

#[test]
fn create_pool_splits_seed_evenly_with_odd_unit_to_no() {
    let amm = seeded(1001);
    assert_eq!(
        amm.get_pool_state(market(1)),
        Ok(PoolState {
            yes_reserve: 500,
            no_reserve: 501,
            total_liquidity: 1001,
            k: 500 * 501,
            lp_total_supply: 1001,
            trade_count: 0,
        })
    );
    assert_eq!(amm.get_lp_balance(Address::new(10), market(1)), 1001);
    assert_eq!(amm.get_odds(market(1)), Ok((4995, 5004)));
}

#[test]
fn create_pool_rejections() {
    let mut amm = seeded(1000);
    assert_eq!(
        amm.create_pool(Address::new(10), market(2), 0),
        Err(AmmError::InvalidAmount)
    );
    assert_eq!(
        amm.create_pool(Address::new(10), market(1), 500),
        Err(AmmError::AlreadyExists)
    );
    assert_eq!(
        amm.create_pool(Address::new(10), market(2), 1),
        Err(AmmError::AmountTooSmall)
    );
    assert_eq!(
        amm.create_pool(Address::new(10), market(2), u128::MAX),
        Err(AmmError::Overflow)
    );
    assert_eq!(amm.get_pool_state(market(2)), Err(AmmError::PoolNotFound));
    assert_eq!(reserves(&amm, market(1)), (500, 500));
}

#[test]
fn seed_then_buy_yes_scenario() {
    let mut amm = seeded(1000);
    assert_eq!(reserves(&amm, market(1)), (500, 500));
    let buyer = Address::new(20);
    // fee = 100 * 20 / 10000 = 0, so all 100 enter: 100 * 500 / 600 = 83.
    let shares = amm.buy_shares(77, buyer, market(1), 1, 100, 0).unwrap();
    assert_eq!(shares, 83);
    assert_eq!(reserves(&amm, market(1)), (417, 600));
    assert_eq!(amm.get_user_shares(buyer, market(1)), (83, 0));
    let trade = amm.get_trade(market(1), 0).unwrap();
    assert_eq!(trade.trader, buyer);
    assert_eq!(trade.side, TradeSide::Buy);
    assert_eq!(trade.outcome, 1);
    assert_eq!(trade.shares, 83);
    assert_eq!(trade.amount, 100);
    assert_eq!(trade.fee, 0);
    assert_eq!(trade.timestamp, 77);
    assert_eq!(amm.get_trade(market(1), 1), None);
}

#[test]
fn buy_with_one_unit_fee_scenario() {
    let mut amm = seeded(1000);
    amm.config.trading_fee_bps = 100;
    // fee = 1, amount after fee = 99, shares = 99 * 500 / 599 = 82.
    let shares = amm.buy_shares(0, Address::new(20), market(1), 1, 100, 82).unwrap();
    assert_eq!(shares, 82);
    assert_eq!(reserves(&amm, market(1)), (418, 599));
    assert_eq!(amm.get_trade(market(1), 0).unwrap().fee, 1);
}

#[test]
fn buy_no_moves_the_other_way() {
    let mut amm = seeded(1000);
    let shares = amm.buy_shares(0, Address::new(20), market(1), 0, 100, 0).unwrap();
    assert_eq!(shares, 83);
    assert_eq!(reserves(&amm, market(1)), (600, 417));
    assert_eq!(amm.get_user_shares(Address::new(20), market(1)), (0, 83));
}

#[test]
fn buy_rejections_leave_pool_unchanged() {
    let mut amm = seeded(1000);
    let buyer = Address::new(20);
    assert_eq!(
        amm.buy_shares(0, buyer, market(1), 2, 100, 0),
        Err(AmmError::InvalidOutcome)
    );
    assert_eq!(
        amm.buy_shares(0, buyer, market(1), 1, 0, 0),
        Err(AmmError::InvalidAmount)
    );
    assert_eq!(
        amm.buy_shares(0, buyer, market(9), 1, 100, 0),
        Err(AmmError::PoolNotFound)
    );
    assert_eq!(
        amm.buy_shares(0, buyer, market(1), 1, 100, 84),
        Err(AmmError::SlippageExceeded)
    );
    assert_eq!(reserves(&amm, market(1)), (500, 500));
    assert_eq!(amm.get_user_shares(buyer, market(1)), (0, 0));
    assert_eq!(amm.get_pool_state(market(1)).unwrap().trade_count, 0);
}

#[test]
fn buy_amount_less_fee_enters_reserves() {
    let mut amm = seeded(1_000_000);
    let before = amm.get_pool_state(market(1)).unwrap();
    let amount: u128 = 123_456;
    let fee = amount * 20 / 10_000;
    assert_eq!(fee, 246);
    let shares = amm.buy_shares(5, Address::new(20), market(1), 1, amount, 0).unwrap();
    let after = amm.get_pool_state(market(1)).unwrap();
    assert_eq!(
        after.total_liquidity,
        before.total_liquidity + (amount - fee) - shares
    );
    let trade = amm.get_trade(market(1), 0).unwrap();
    assert_eq!(trade.amount, amount);
    assert_eq!(trade.fee, fee);
    assert!(after.k >= before.k);
}

#[test]
fn reserves_stay_positive_through_operations() {
    let mut amm = seeded(10);
    let p = Address::new(10);
    for i in 0..20u64 {
        let _ = amm.buy_shares(i, Address::new(30), market(1), (i % 2) as u32, 1_000 * (i as u128 + 1), 0);
        let (y, n) = reserves(&amm, market(1));
        assert!(y > 0 && n > 0);
    }
    assert_eq!(
        amm.remove_liquidity(p, market(1), 10),
        Err(AmmError::PoolDrainForbidden)
    );
    let _ = amm.add_liquidity(Address::new(40), market(1), 5_000);
    let (y, n) = reserves(&amm, market(1));
    assert!(y > 0 && n > 0);
    let lp = amm.get_lp_balance(p, market(1));
    let _ = amm.remove_liquidity(p, market(1), lp);
    let (y, n) = reserves(&amm, market(1));
    assert!(y > 0 && n > 0);
}

#[test]
fn lp_supply_equals_sum_of_balances() {
    let mut amm = seeded(1000);
    let creator = Address::new(10);
    let a = Address::new(40);
    let b = Address::new(41);
    amm.add_liquidity(a, market(1), 500).unwrap();
    amm.buy_shares(0, Address::new(20), market(1), 1, 300, 0).unwrap();
    amm.add_liquidity(b, market(1), 250).unwrap();
    amm.remove_liquidity(a, market(1), 100).unwrap();
    let sum = amm.get_lp_balance(creator, market(1))
        + amm.get_lp_balance(a, market(1))
        + amm.get_lp_balance(b, market(1));
    assert_eq!(amm.get_pool_state(market(1)).unwrap().lp_total_supply, sum);
    let all_of_a = amm.get_lp_balance(a, market(1));
    amm.remove_liquidity(a, market(1), all_of_a).unwrap();
    assert_eq!(amm.get_lp_balance(a, market(1)), 0);
    assert_eq!(amm.pools[0].lp_balances.len(), 2);
}

#[test]
fn add_then_remove_returns_at_most_deposit() {
    let mut amm = seeded(1000);
    amm.buy_shares(0, Address::new(20), market(1), 1, 300, 0).unwrap();
    assert_eq!(reserves(&amm, market(1)), (313, 800));
    let p = Address::new(40);
    let minted = amm.add_liquidity(p, market(1), 333).unwrap();
    assert_eq!(minted, 299);
    assert_eq!(reserves(&amm, market(1)), (406, 1040));
    let (y, n) = amm.remove_liquidity(p, market(1), minted).unwrap();
    assert_eq!((y, n), (93, 239));
    assert!(y + n <= 333);
    assert_eq!(amm.get_lp_balance(p, market(1)), 0);
}

#[test]
fn add_liquidity_rejections() {
    let mut amm = seeded(1000);
    let p = Address::new(40);
    assert_eq!(amm.add_liquidity(p, market(1), 0), Err(AmmError::InvalidAmount));
    assert_eq!(amm.add_liquidity(p, market(2), 10), Err(AmmError::PoolNotFound));
    amm.buy_shares(0, Address::new(20), market(1), 1, 1_000_000, 0).unwrap();
    // Reserves now exceed the LP supply, so a unit deposit mints nothing.
    assert_eq!(amm.add_liquidity(p, market(1), 1), Err(AmmError::AmountTooSmall));
    assert_eq!(
        amm.add_liquidity(p, market(1), CAP),
        Err(AmmError::MaxLiquidityExceeded)
    );
    assert_eq!(amm.get_lp_balance(p, market(1)), 0);
}

#[test]
fn add_liquidity_keeps_ratio() {
    let mut amm = seeded(1000);
    let minted = amm.add_liquidity(Address::new(40), market(1), 1).unwrap();
    assert_eq!(minted, 1);
    assert_eq!(reserves(&amm, market(1)), (500, 501));
    let minted = amm.add_liquidity(Address::new(40), market(1), 1001).unwrap();
    assert_eq!(minted, 1001);
    assert_eq!(reserves(&amm, market(1)), (1000, 1002));
}

#[test]
fn remove_liquidity_rejections() {
    let mut amm = seeded(1000);
    let creator = Address::new(10);
    assert_eq!(amm.remove_liquidity(creator, market(1), 0), Err(AmmError::InvalidAmount));
    assert_eq!(amm.remove_liquidity(creator, market(2), 1), Err(AmmError::PoolNotFound));
    assert_eq!(
        amm.remove_liquidity(Address::new(99), market(1), 1),
        Err(AmmError::InsufficientLpTokens)
    );
    assert_eq!(amm.remove_liquidity(creator, market(1), 1), Err(AmmError::AmountTooSmall));
    assert_eq!(
        amm.remove_liquidity(creator, market(1), 1000),
        Err(AmmError::PoolDrainForbidden)
    );
    assert_eq!(amm.remove_liquidity(creator, market(1), 400), Ok((200, 200)));
    assert_eq!(reserves(&amm, market(1)), (300, 300));
    assert_eq!(amm.get_lp_balance(creator, market(1)), 600);
}

#[test]
fn sell_shares_round_trip() {
    let mut amm = seeded(1000);
    let trader = Address::new(20);
    amm.buy_shares(0, trader, market(1), 1, 100, 0).unwrap();
    assert_eq!(
        amm.sell_shares(1, trader, market(1), 1, 84, 0),
        Err(AmmError::InsufficientShares)
    );
    assert_eq!(
        amm.sell_shares(1, trader, market(1), 1, 83, 100),
        Err(AmmError::SlippageExceeded)
    );
    let payout = amm.sell_shares(1, trader, market(1), 1, 83, 99).unwrap();
    assert_eq!(payout, 99);
    assert_eq!(reserves(&amm, market(1)), (500, 501));
    assert_eq!(amm.get_user_shares(trader, market(1)), (0, 0));
    let trade = amm.get_trade(market(1), 1).unwrap();
    assert_eq!(trade.side, TradeSide::Sell);
    assert_eq!(trade.shares, 83);
    assert_eq!(trade.amount, 99);
    assert_eq!(trade.fee, 0);
}

#[test]
fn sell_shares_rejections() {
    let mut amm = seeded(1000);
    let trader = Address::new(20);
    assert_eq!(
        amm.sell_shares(0, trader, market(1), 3, 1, 0),
        Err(AmmError::InvalidOutcome)
    );
    assert_eq!(
        amm.sell_shares(0, trader, market(1), 1, 0, 0),
        Err(AmmError::InvalidAmount)
    );
    assert_eq!(
        amm.sell_shares(0, trader, market(5), 1, 1, 0),
        Err(AmmError::PoolNotFound)
    );
    assert_eq!(
        amm.sell_shares(0, trader, market(1), 0, 1, 0),
        Err(AmmError::InsufficientShares)
    );
}

#[test]
fn sell_fee_is_taken_from_payout() {
    let mut amm = seeded(2_000_000);
    amm.config.trading_fee_bps = 100;
    let trader = Address::new(20);
    let shares = amm.buy_shares(0, trader, market(1), 0, 500_000, 0).unwrap();
    let before = reserves(&amm, market(1));
    let payout = amm.sell_shares(1, trader, market(1), 0, shares, 0).unwrap();
    let trade = amm.get_trade(market(1), 1).unwrap();
    assert_eq!(trade.fee, trade.amount / 100);
    assert_eq!(payout, trade.amount - trade.fee);
    let after = reserves(&amm, market(1));
    assert_eq!(after.0, before.0 - trade.amount);
    assert_eq!(after.1, before.1 + shares);
}

#[test]
fn odds_follow_reserves() {
    let mut amm = seeded(1000);
    assert_eq!(amm.get_odds(market(1)), Ok((5000, 5000)));
    amm.buy_shares(0, Address::new(20), market(1), 1, 100, 0).unwrap();
    assert_eq!(amm.get_odds(market(1)), Ok((4100, 5899)));
    assert_eq!(amm.get_odds(market(3)), Err(AmmError::PoolNotFound));
}

#[test]
fn pools_are_independent() {
    let mut amm = seeded(1000);
    amm.create_pool(Address::new(11), market(2), 2000).unwrap();
    amm.buy_shares(0, Address::new(20), market(2), 1, 100, 0).unwrap();
    assert_eq!(reserves(&amm, market(1)), (500, 500));
    assert_eq!(amm.get_user_shares(Address::new(20), market(1)), (0, 0));
    assert_eq!(amm.get_lp_balance(Address::new(11), market(2)), 2000);
    assert_eq!(amm.get_lp_balance(Address::new(11), market(1)), 0);
}

#[test]
fn trade_history_is_newest_first() {
    let mut amm = seeded(1_000_000);
    for i in 0..5u64 {
        amm.buy_shares(i, Address::new(20), market(1), 1, 1_000 + i as u128, 0).unwrap();
    }
    let all = amm.get_trade_history(market(1), 0, 10);
    assert_eq!(all.len(), 5);
    assert_eq!(all[0].timestamp, 4);
    assert_eq!(all[4].timestamp, 0);
    let page = amm.get_trade_history(market(1), 1, 2);
    assert_eq!(page.len(), 2);
    assert_eq!(page[0].amount, 1_003);
    assert_eq!(page[1].amount, 1_002);
    assert!(amm.get_trade_history(market(1), 5, 2).is_empty());
    assert!(amm.get_trade_history(market(2), 0, 2).is_empty());
}
