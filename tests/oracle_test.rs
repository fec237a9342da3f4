use boxmeout::{Address, MarketId, OracleError, OracleManager};

fn admin() -> Address {
    Address::new(1)
}

fn oracle_at(n: u64) -> Address {
    Address::new(100 + n)
}

fn setup(required_consensus: u32) -> OracleManager {
    OracleManager::initialize(admin(), required_consensus)
}

fn register(client: &mut OracleManager, oracle: Address, name: &str) {
    client
        .register_oracle(admin(), 0, oracle, name.to_string())
        .unwrap();
}

const NO_HASH: [u8; 32] = [0u8; 32];

#[test]
fn test_oracle_initialize() {
    let client = setup(2);
    assert_eq!(client.required_consensus, 2);
    assert_eq!(client.admin, admin());
    assert_eq!(client.get_oracle_count(), 0);
}

#[test]
fn test_register_oracle() {
    let mut client = setup(2);
    let oracle1 = oracle_at(1);
    register(&mut client, oracle1, "Oracle1");
    assert!(client.is_oracle_registered(oracle1));
    assert_eq!(client.get_oracle_count(), 1);
    assert_eq!(client.oracles[0].name, "Oracle1");
}

#[test]
fn test_register_multiple_oracles() {
    let mut client = setup(2);
    register(&mut client, oracle_at(1), "Oracle1");
    register(&mut client, oracle_at(2), "Oracle2");
    register(&mut client, oracle_at(3), "Oracle3");
    assert_eq!(client.get_oracle_count(), 3);
}

#[test]
fn test_register_oracle_exceeds_limit() {
    let mut client = setup(2);
    for i in 0..10 {
        assert_eq!(
            client.register_oracle(admin(), 0, oracle_at(i), "Oracle".to_string()),
            Ok(())
        );
    }
    assert_eq!(
        client.register_oracle(admin(), 0, oracle_at(10), "Oracle".to_string()),
        Err(OracleError::LimitReached)
    );
    assert_eq!(client.get_oracle_count(), 10);
}

#[test]
fn test_register_duplicate_oracle() {
    let mut client = setup(2);
    let oracle1 = oracle_at(1);
    register(&mut client, oracle1, "Oracle1");
    assert_eq!(
        client.register_oracle(admin(), 0, oracle1, "Oracle1".to_string()),
        Err(OracleError::AlreadyRegistered)
    );
    assert_eq!(client.get_oracle_count(), 1);
}

#[test]
fn register_oracle_by_non_admin_rejected() {
    let mut client = setup(2);
    assert_eq!(
        client.register_oracle(Address::new(2), 0, oracle_at(1), "Oracle1".to_string()),
        Err(OracleError::Unauthorized)
    );
    assert_eq!(
        client.register_market(Address::new(2), MarketId::from_array([1u8; 32]), 1000),
        Err(OracleError::Unauthorized)
    );
}

#[test]
fn test_submit_attestation() {
    let mut client = setup(2);
    let oracle1 = oracle_at(1);
    register(&mut client, oracle1, "Oracle1");
    let market_id = MarketId::from_array([1u8; 32]);
    client.register_market(admin(), market_id, 1000).unwrap();

    client
        .submit_attestation(1001, oracle1, market_id, 1, NO_HASH)
        .unwrap();

    let (reached, outcome) = client.check_consensus(market_id);
    assert!(!reached);
    assert_eq!(outcome, 0);
}

#[test]
fn test_check_consensus_reached() {
    let mut client = setup(2);
    let (o1, o2, o3) = (oracle_at(1), oracle_at(2), oracle_at(3));
    register(&mut client, o1, "Oracle1");
    register(&mut client, o2, "Oracle2");
    register(&mut client, o3, "Oracle3");
    let market_id = MarketId::from_array([1u8; 32]);
    client.register_market(admin(), market_id, 1000).unwrap();

    client.submit_attestation(1001, o1, market_id, 1, NO_HASH).unwrap();
    client.submit_attestation(1001, o2, market_id, 1, NO_HASH).unwrap();

    let (reached, outcome) = client.check_consensus(market_id);
    assert!(reached);
    assert_eq!(outcome, 1);
}

#[test]
fn test_check_consensus_not_reached() {
    let mut client = setup(3);
    let (o1, o2) = (oracle_at(1), oracle_at(2));
    register(&mut client, o1, "Oracle1");
    register(&mut client, o2, "Oracle2");
    let market_id = MarketId::from_array([1u8; 32]);
    client.register_market(admin(), market_id, 1000).unwrap();

    client.submit_attestation(1001, o1, market_id, 1, NO_HASH).unwrap();
    client.submit_attestation(1001, o2, market_id, 1, NO_HASH).unwrap();

    let (reached, _) = client.check_consensus(market_id);
    assert!(!reached);
}

#[test]
fn test_check_consensus_tie_handling() {
    let mut client = setup(2);
    let oracles: Vec<Address> = (1..=4).map(oracle_at).collect();
    for (i, o) in oracles.iter().enumerate() {
        register(&mut client, *o, &format!("O{}", i + 1));
    }
    let market_id = MarketId::from_array([1u8; 32]);
    client.register_market(admin(), market_id, 1000).unwrap();

    client.submit_attestation(1001, oracles[0], market_id, 1, NO_HASH).unwrap();
    client.submit_attestation(1001, oracles[1], market_id, 1, NO_HASH).unwrap();
    client.submit_attestation(1001, oracles[2], market_id, 0, NO_HASH).unwrap();
    client.submit_attestation(1001, oracles[3], market_id, 0, NO_HASH).unwrap();

    let (reached, outcome) = client.check_consensus(market_id);
    assert!(!reached);
    assert_eq!(outcome, 0);
    assert_eq!(
        client.get_consensus_result(market_id),
        Err(OracleError::ConsensusNotReached)
    );
}

#[test]
fn consensus_two_to_one_resolves_yes() {
    let mut client = setup(2);
    let (o1, o2, o3) = (oracle_at(1), oracle_at(2), oracle_at(3));
    register(&mut client, o1, "O1");
    register(&mut client, o2, "O2");
    register(&mut client, o3, "O3");
    let market_id = MarketId::from_array([9u8; 32]);
    client.register_market(admin(), market_id, 1000).unwrap();
    client.submit_attestation(1000, o1, market_id, 1, NO_HASH).unwrap();
    client.submit_attestation(1000, o2, market_id, 1, NO_HASH).unwrap();
    client.submit_attestation(1000, o3, market_id, 0, NO_HASH).unwrap();
    assert_eq!(client.check_consensus(market_id), (true, 1));
    assert_eq!(client.get_consensus_result(market_id), Ok(1));
}

#[test]
fn consensus_three_to_two_resolves_no() {
    let mut client = setup(2);
    let market_id = MarketId::from_array([10u8; 32]);
    for i in 0..5 {
        register(&mut client, oracle_at(i), "O");
    }
    client.register_market(admin(), market_id, 50).unwrap();
    for i in 0..5 {
        let vote = if i < 3 { 0 } else { 1 };
        client.submit_attestation(60, oracle_at(i), market_id, vote, NO_HASH).unwrap();
    }
    assert_eq!(client.check_consensus(market_id), (true, 0));
}

#[test]
fn consensus_on_unregistered_market_is_not_reached() {
    let client = setup(0);
    assert_eq!(
        client.check_consensus(MarketId::from_array([42u8; 32])),
        (false, 0)
    );
}

#[test]
fn test_remove_oracle() {
    // The registry is append-only: a registered oracle stays registered.
    let mut client = setup(2);
    let oracle1 = oracle_at(1);
    register(&mut client, oracle1, "Oracle1");
    register(&mut client, oracle_at(2), "Oracle2");
    assert!(client.is_oracle_registered(oracle1));
    assert_eq!(client.get_oracle_count(), 2);
}

#[test]
fn test_update_oracle_accuracy() {
    let mut client = setup(2);
    let oracle1 = oracle_at(1);
    client
        .register_oracle(admin(), 777, oracle1, "Oracle1".to_string())
        .unwrap();
    assert_eq!(client.get_oracle_accuracy(oracle1), Some(100));
    assert_eq!(client.oracles[0].registered_at, 777);
    assert_eq!(client.get_oracle_accuracy(oracle_at(2)), None);
}

#[test]
fn test_submit_attestation_stores_attestation() {
    let mut client = setup(2);
    let oracle1 = oracle_at(1);
    register(&mut client, oracle1, "Oracle1");
    let market_id = MarketId::from_array([2u8; 32]);
    client.register_market(admin(), market_id, 1000).unwrap();

    client
        .submit_attestation(1500, oracle1, market_id, 1, NO_HASH)
        .unwrap();

    let attestation = client.get_attestation(market_id, oracle1);
    assert!(attestation.is_some());
    let attestation = attestation.unwrap();
    assert_eq!(attestation.attestor, oracle1);
    assert_eq!(attestation.outcome, 1);
    assert_eq!(attestation.timestamp, 1500);

    let (yes_count, no_count) = client.get_attestation_counts(market_id);
    assert_eq!(yes_count, 1);
    assert_eq!(no_count, 0);
}

#[test]
fn test_submit_attestation_non_attestor_rejected() {
    let mut client = setup(2);
    let unregistered_oracle = oracle_at(99);
    let market_id = MarketId::from_array([3u8; 32]);
    client.register_market(admin(), market_id, 1000).unwrap();

    assert_eq!(
        client.submit_attestation(1500, unregistered_oracle, market_id, 1, NO_HASH),
        Err(OracleError::NotRegistered)
    );
    assert_eq!(client.get_attestation_counts(market_id), (0, 0));
}

#[test]
fn test_submit_attestation_before_resolution_time() {
    let mut client = setup(2);
    let oracle1 = oracle_at(1);
    register(&mut client, oracle1, "Oracle1");
    let market_id = MarketId::from_array([4u8; 32]);
    client.register_market(admin(), market_id, 2000).unwrap();

    assert_eq!(
        client.submit_attestation(1500, oracle1, market_id, 1, NO_HASH),
        Err(OracleError::TooEarly)
    );
    assert_eq!(client.get_attestation(market_id, oracle1), None);
}

#[test]
fn test_submit_attestation_invalid_outcome_rejected() {
    let mut client = setup(2);
    let oracle1 = oracle_at(1);
    register(&mut client, oracle1, "Oracle1");
    let market_id = MarketId::from_array([5u8; 32]);
    client.register_market(admin(), market_id, 1000).unwrap();

    assert_eq!(
        client.submit_attestation(1500, oracle1, market_id, 2, NO_HASH),
        Err(OracleError::InvalidOutcome)
    );
}

#[test]
fn submit_attestation_twice_rejected_as_duplicate() {
    let mut client = setup(2);
    let oracle1 = oracle_at(1);
    register(&mut client, oracle1, "Oracle1");
    let market_id = MarketId::from_array([5u8; 32]);
    client.register_market(admin(), market_id, 1000).unwrap();
    client.submit_attestation(1500, oracle1, market_id, 1, NO_HASH).unwrap();
    assert_eq!(
        client.submit_attestation(1600, oracle1, market_id, 0, NO_HASH),
        Err(OracleError::DuplicateAttestation)
    );
    assert_eq!(client.get_attestation_counts(market_id), (1, 0));
    assert_eq!(client.get_attestation(market_id, oracle1).unwrap().timestamp, 1500);
}

#[test]
fn submit_attestation_for_unregistered_market_rejected() {
    let mut client = setup(2);
    let oracle1 = oracle_at(1);
    register(&mut client, oracle1, "Oracle1");
    assert_eq!(
        client.submit_attestation(1500, oracle1, MarketId::from_array([6u8; 32]), 1, NO_HASH),
        Err(OracleError::MarketNotRegistered)
    );
}

#[test]
fn test_submit_attestation_event_emitted() {
    let mut client = setup(2);
    let oracle1 = oracle_at(1);
    register(&mut client, oracle1, "Oracle1");
    let market_id = MarketId::from_array([6u8; 32]);
    client.register_market(admin(), market_id, 1000).unwrap();

    client
        .submit_attestation(1500, oracle1, market_id, 1, NO_HASH)
        .unwrap();

    let attestation = client.get_attestation(market_id, oracle1);
    assert!(attestation.is_some());

    let (yes_count, no_count) = client.get_attestation_counts(market_id);
    assert_eq!(yes_count, 1);
    assert_eq!(no_count, 0);
}

#[test]
fn test_register_market() {
    let mut client = setup(2);
    let market_id = MarketId::from_array([7u8; 32]);
    client.register_market(admin(), market_id, 3000).unwrap();

    let stored_time = client.get_market_resolution_time(market_id);
    assert!(stored_time.is_some());
    assert_eq!(stored_time.unwrap(), 3000);

    let (yes_count, no_count) = client.get_attestation_counts(market_id);
    assert_eq!(yes_count, 0);
    assert_eq!(no_count, 0);
}

#[test]
fn register_market_again_starts_afresh() {
    let mut client = setup(1);
    let oracle1 = oracle_at(1);
    register(&mut client, oracle1, "Oracle1");
    let market_id = MarketId::from_array([7u8; 32]);
    client.register_market(admin(), market_id, 100).unwrap();
    client.submit_attestation(100, oracle1, market_id, 1, NO_HASH).unwrap();
    assert_eq!(client.check_consensus(market_id), (true, 1));
    client.register_market(admin(), market_id, 500).unwrap();
    assert_eq!(client.get_market_resolution_time(market_id), Some(500));
    assert_eq!(client.get_attestation_counts(market_id), (0, 0));
    assert_eq!(client.check_consensus(market_id), (false, 0));
    assert_eq!(client.get_market_resolution_time(MarketId::from_array([8u8; 32])), None);
}

#[test]
fn test_attestation_count_tracking() {
    let mut client = setup(2);
    let (o1, o2, o3) = (oracle_at(1), oracle_at(2), oracle_at(3));
    register(&mut client, o1, "O1");
    register(&mut client, o2, "O2");
    register(&mut client, o3, "O3");
    let market_id = MarketId::from_array([8u8; 32]);
    client.register_market(admin(), market_id, 1000).unwrap();

    client.submit_attestation(1500, o1, market_id, 1, NO_HASH).unwrap();
    client.submit_attestation(1500, o2, market_id, 1, NO_HASH).unwrap();
    client.submit_attestation(1500, o3, market_id, 0, NO_HASH).unwrap();

    let (yes_count, no_count) = client.get_attestation_counts(market_id);
    assert_eq!(yes_count, 2);
    assert_eq!(no_count, 1);
}
