use boxmeout::{Address, FeeRatios, Payout, Treasury, TreasuryError};

fn setup_treasury() -> (Treasury, Address, Address, Address) {
    let admin = Address::new(1);
    let usdc = Address::new(2);
    let factory = Address::new(3);
    (Treasury::initialize(admin, usdc, factory), admin, usdc, factory)
}

#[test]
fn test_initialize() {
    let (treasury, _admin, _, _factory) = setup_treasury();

    assert_eq!(treasury.get_platform_fees(), 0);
    assert_eq!(treasury.get_leaderboard_fees(), 0);
    assert_eq!(treasury.get_creator_fees(), 0);
    assert_eq!(treasury.get_total_fees(), 0);
    assert_eq!(
        treasury.ratios,
        FeeRatios { platform: 50, leaderboard: 30, creator: 20 }
    );
}

#[test]
fn test_deposit_fees_splits_correctly() {
    let (mut treasury, _admin, _, _) = setup_treasury();
    let source = Address::new(10);

    treasury.deposit_fees(source, 1000).unwrap();

    assert_eq!(treasury.get_platform_fees(), 500);
    assert_eq!(treasury.get_leaderboard_fees(), 300);
    assert_eq!(treasury.get_creator_fees(), 200);
    assert_eq!(treasury.get_total_fees(), 1000);
    assert_eq!(treasury.get_treasury_balance(), 1000);
}

#[test]
fn deposit_fees_rounding_remainder_goes_to_creator() {
    let (mut treasury, _admin, _, _) = setup_treasury();
    treasury.deposit_fees(Address::new(10), 99).unwrap();
    assert_eq!(treasury.get_platform_fees(), 49);
    assert_eq!(treasury.get_leaderboard_fees(), 29);
    assert_eq!(treasury.get_creator_fees(), 21);
    assert_eq!(treasury.get_total_fees(), 99);
}

#[test]
fn deposit_fees_rejects_non_positive_amount() {
    let (mut treasury, _admin, _, _) = setup_treasury();
    assert_eq!(
        treasury.deposit_fees(Address::new(10), 0),
        Err(TreasuryError::InvalidAmount)
    );
    assert_eq!(
        treasury.deposit_fees(Address::new(10), -5),
        Err(TreasuryError::InvalidAmount)
    );
    assert_eq!(treasury.get_total_fees(), 0);
}

#[test]
fn deposit_fees_rejects_overflowing_total() {
    let (mut treasury, _admin, _, _) = setup_treasury();
    treasury.deposit_fees(Address::new(10), i128::MAX).unwrap();
    assert_eq!(
        treasury.deposit_fees(Address::new(10), 1),
        Err(TreasuryError::Overflow)
    );
    assert_eq!(treasury.get_total_fees(), i128::MAX);
}

#[test]
fn test_set_fee_distribution() {
    let (mut treasury, admin, _, _) = setup_treasury();
    let source = Address::new(10);

    treasury.set_fee_distribution(admin, 40, 40, 20).unwrap();
    treasury.deposit_fees(source, 1000).unwrap();

    assert_eq!(treasury.get_platform_fees(), 400);
    assert_eq!(treasury.get_leaderboard_fees(), 400);
    assert_eq!(treasury.get_creator_fees(), 200);
}

#[test]
fn test_set_fee_distribution_invalid_sum() {
    let (mut treasury, admin, _, _) = setup_treasury();
    assert_eq!(
        treasury.set_fee_distribution(admin, 50, 50, 10),
        Err(TreasuryError::InvalidRatios)
    );
    assert_eq!(
        treasury.ratios,
        FeeRatios { platform: 50, leaderboard: 30, creator: 20 }
    );
}

#[test]
fn set_fee_distribution_by_non_admin_rejected() {
    let (mut treasury, _admin, _, _) = setup_treasury();
    assert_eq!(
        treasury.set_fee_distribution(Address::new(77), 40, 40, 20),
        Err(TreasuryError::Unauthorized)
    );
}

#[test]
fn test_distribute_creator_rewards() {
    let (mut treasury, admin, _, _) = setup_treasury();
    let source = Address::new(10);
    let creator1 = Address::new(11);
    let creator2 = Address::new(12);

    treasury.deposit_fees(source, 1000).unwrap();

    let distributions = vec![(creator1, 150), (creator2, 50)];
    let payouts = treasury
        .distribute_creator_rewards(admin, distributions)
        .unwrap();

    assert_eq!(
        payouts,
        vec![
            Payout { recipient: creator1, amount: 150 },
            Payout { recipient: creator2, amount: 50 }
        ]
    );
    assert_eq!(treasury.get_creator_fees(), 0);
    assert_eq!(treasury.get_treasury_balance(), 800);
}

#[test]
fn distribute_creator_rewards_beyond_pool_rejected() {
    let (mut treasury, admin, _, _) = setup_treasury();
    treasury.deposit_fees(Address::new(10), 1000).unwrap();
    assert_eq!(
        treasury.distribute_creator_rewards(admin, vec![(Address::new(11), 201)]),
        Err(TreasuryError::InsufficientFunds)
    );
    assert_eq!(
        treasury.distribute_creator_rewards(admin, vec![(Address::new(11), -1)]),
        Err(TreasuryError::InvalidAmount)
    );
    assert_eq!(treasury.get_creator_fees(), 200);
}

#[test]
fn test_emergency_withdraw() {
    let (mut treasury, admin, _, _) = setup_treasury();
    let recipient = Address::new(20);
    let source = Address::new(10);

    treasury.deposit_fees(source, 1000).unwrap();
    let payout = treasury.emergency_withdraw(admin, recipient, 500).unwrap();

    assert_eq!(payout, Payout { recipient, amount: 500 });
    assert_eq!(treasury.get_treasury_balance(), 500);
}

#[test]
fn emergency_withdraw_limits() {
    let (mut treasury, admin, _, _) = setup_treasury();
    treasury.deposit_fees(Address::new(10), 1000).unwrap();
    assert_eq!(
        treasury.emergency_withdraw(Address::new(5), Address::new(20), 1),
        Err(TreasuryError::Unauthorized)
    );
    assert_eq!(
        treasury.emergency_withdraw(admin, Address::new(20), 1001),
        Err(TreasuryError::InsufficientFunds)
    );
    assert_eq!(
        treasury.emergency_withdraw(admin, Address::new(20), -1),
        Err(TreasuryError::InvalidAmount)
    );
    assert_eq!(treasury.get_treasury_balance(), 1000);
}

#[test]
fn test_distribute_leaderboard_rewards_happy_path() {
    let (mut treasury, admin, _, _) = setup_treasury();
    let source = Address::new(10);
    let user1 = Address::new(31);
    let user2 = Address::new(32);
    let user3 = Address::new(33);

    treasury.deposit_fees(source, 1000).unwrap();

    let distributions = vec![(user1, 50), (user2, 30), (user3, 20)];
    let payouts = treasury
        .distribute_leaderboard_rewards(admin, distributions)
        .unwrap();

    assert_eq!(payouts[0], Payout { recipient: user1, amount: 150 });
    assert_eq!(payouts[1], Payout { recipient: user2, amount: 90 });
    assert_eq!(payouts[2], Payout { recipient: user3, amount: 60 });
    assert_eq!(treasury.get_leaderboard_fees(), 0);
    assert_eq!(treasury.get_treasury_balance(), 700);
}

#[test]
fn test_distribute_leaderboard_rewards_only_admin() {
    let (mut treasury, _admin, _, _) = setup_treasury();
    let source = Address::new(10);
    let non_admin = Address::new(40);
    let user1 = Address::new(31);

    treasury.deposit_fees(source, 1000).unwrap();

    assert_eq!(
        treasury.distribute_leaderboard_rewards(non_admin, vec![(user1, 100)]),
        Err(TreasuryError::Unauthorized)
    );
    assert_eq!(treasury.get_leaderboard_fees(), 300);
}

#[test]
fn test_distribute_leaderboard_rewards_invalid_shares() {
    let (mut treasury, admin, _, _) = setup_treasury();
    let source = Address::new(10);
    let user1 = Address::new(31);
    let user2 = Address::new(32);

    treasury.deposit_fees(source, 1000).unwrap();

    assert_eq!(
        treasury.distribute_leaderboard_rewards(admin, vec![(user1, 60), (user2, 50)]),
        Err(TreasuryError::InvalidShares)
    );
    assert_eq!(
        treasury.distribute_leaderboard_rewards(admin, vec![(user1, 60), (user2, 30)]),
        Err(TreasuryError::InvalidShares)
    );
    assert_eq!(treasury.get_leaderboard_fees(), 300);
}

#[test]
fn test_distribute_leaderboard_rewards_empty_pool() {
    let (mut treasury, admin, _, _) = setup_treasury();
    let user1 = Address::new(31);

    assert_eq!(
        treasury.distribute_leaderboard_rewards(admin, vec![(user1, 100)]),
        Err(TreasuryError::EmptyPool)
    );
}

#[test]
fn distribute_leaderboard_rewards_rounds_each_share_down() {
    let (mut treasury, admin, _, _) = setup_treasury();
    treasury.deposit_fees(Address::new(10), 110).unwrap();
    assert_eq!(treasury.get_leaderboard_fees(), 33);
    let payouts = treasury
        .distribute_leaderboard_rewards(admin, vec![(Address::new(31), 50), (Address::new(32), 50)])
        .unwrap();
    assert_eq!(payouts[0].amount, 16);
    assert_eq!(payouts[1].amount, 16);
    assert_eq!(treasury.get_treasury_balance(), 78);
}
