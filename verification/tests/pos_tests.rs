use nexus_chain::consensus::pos::{ProofOfStake, StakingConfig};
use nexus_chain::consensus::ConsensusError;
use nexus_chain::primitives::address::Address;

#[test]
fn test_register_validator() {
    let mut pos = ProofOfStake::default();
    let result = pos.register_validator(Address::new([1u8; 20]), vec![0u8; 33], 100_000_000_000, 500);
    assert!(result.is_ok());
    assert_eq!(pos.validator_set().len(), 1);
}

#[test]
fn test_delegation() {
    let mut pos = ProofOfStake::default();
    pos.register_validator(Address::new([1u8; 20]), vec![0u8; 33], 100_000_000_000, 500).unwrap();
    pos.delegate(Address::new([2u8; 20]), Address::new([1u8; 20]), 10_000_000).unwrap();
    let delegations = pos.get_delegations(&Address::new([2u8; 20]));
    assert_eq!(delegations.len(), 1);
    assert_eq!(delegations[0].amount, 10_000_000);
}

#[test]
fn test_leader_selection() {
    let mut pos = ProofOfStake::default();
    for i in 0..3 {
        pos.register_validator(Address::new([i as u8; 20]), vec![0u8; 33], 100_000_000_000, 500).unwrap();
    }
    let leader = pos.select_leader(0, 0, &nexus_chain::primitives::types::Hash::zero());
    assert!(leader.is_some());
}

#[test]
fn registration_rejects_low_stake_and_high_commission() {
    let mut pos = ProofOfStake::default();
    let low = pos.register_validator(Address::new([1u8; 20]), vec![0u8; 33], 5, 500);
    assert!(matches!(low, Err(ConsensusError::InsufficientStake { required: 10_000_000_000, available: 5 })));
    let high = pos.register_validator(Address::new([1u8; 20]), vec![0u8; 33], 100_000_000_000, 5001);
    assert!(matches!(high, Err(ConsensusError::InvalidProposal(_))));
    assert_eq!(pos.validator_set().len(), 0);
}

#[test]
fn delegation_issues_shares_and_grows_stake() {
    let mut pos = ProofOfStake::new(StakingConfig::default());
    let v = Address::new([1u8; 20]);
    pos.register_validator(v, vec![0u8; 33], 100_000_000_000, 500).unwrap();
    pos.delegate(Address::new([2u8; 20]), v, 10_000_000).unwrap();
    // The first delegation into an empty pool gets one million shares per unit.
    assert_eq!(pos.get_delegations(&Address::new([2u8; 20]))[0].shares, 10_000_000 * 1_000_000);
    // The second gets shares in proportion to the pool's shares and stake.
    pos.delegate(Address::new([3u8; 20]), v, 10_000_000).unwrap();
    let expected = (10_000_000u128 * 10_000_000_000_000u128 / 100_010_000_000u128) as u64;
    assert_eq!(pos.get_delegations(&Address::new([3u8; 20]))[0].shares, expected);
    assert_eq!(pos.validator_set().total_stake, 100_020_000_000);
    let small = pos.delegate(Address::new([4u8; 20]), v, 10);
    assert!(matches!(small, Err(ConsensusError::InsufficientStake { required: 1_000_000, available: 10 })));
    let unknown = pos.delegate(Address::new([4u8; 20]), Address::new([9u8; 20]), 10_000_000);
    assert!(matches!(unknown, Err(ConsensusError::UnknownValidator(_))));
}

#[test]
fn undelegation_queues_unbonding_until_it_completes() {
    let mut pos = ProofOfStake::default();
    let v = Address::new([1u8; 20]);
    let d = Address::new([2u8; 20]);
    pos.register_validator(v, vec![0u8; 33], 100_000_000_000, 500).unwrap();
    pos.delegate(d, v, 10_000_000).unwrap();
    assert!(matches!(pos.undelegate(&d, &v, 20_000_000), Err(ConsensusError::InsufficientStake { required: 20_000_000, available: 10_000_000 })));
    assert!(matches!(pos.undelegate(&Address::new([5u8; 20]), &v, 1), Err(ConsensusError::InvalidProposal(_))));
    pos.undelegate(&d, &v, 4_000_000).unwrap();
    assert_eq!(pos.get_delegations(&d)[0].amount, 6_000_000);
    pos.undelegate(&d, &v, 6_000_000).unwrap();
    assert_eq!(pos.get_delegations(&d).len(), 0);
    let queue = pos.get_unbonding(&d);
    assert_eq!(queue.len(), 2);
    assert_eq!(queue[0].completion_epoch, 14);
    for _ in 0..13 {
        pos.end_epoch(0).unwrap();
    }
    assert_eq!(pos.get_unbonding(&d).len(), 2);
    assert_eq!(pos.end_epoch(0).unwrap(), 14);
    assert_eq!(pos.get_unbonding(&d).len(), 0);
}

#[test]
fn epoch_rewards_are_credited_and_claimed() {
    let mut pos = ProofOfStake::default();
    let v = Address::new([1u8; 20]);
    let d = Address::new([2u8; 20]);
    assert!(matches!(pos.claim_rewards(&d), Err(ConsensusError::InvalidProposal(_))));
    pos.register_validator(v, vec![0u8; 33], 100_000_000_000, 1000).unwrap();
    pos.delegate(d, v, 100_000_000_000).unwrap();
    assert_eq!(pos.end_epoch(1_000_000).unwrap(), 1);
    // The only validator earns everything; 10% commission leaves 900_000.
    // Per share: 900_000 * 10^18 / 200_000_000_000; the delegation holds
    // 10^17 shares.
    let per_share: u128 = 900_000u128 * 1_000_000_000_000_000_000u128 / 200_000_000_000u128;
    let expected = (per_share * 100_000_000_000_000_000u128 / 1_000_000_000_000_000_000u128) as u64;
    assert_eq!(pos.claim_rewards(&d).unwrap(), expected);
    assert_eq!(pos.get_delegations(&d)[0].last_claim_epoch, 1);
}

#[test]
fn leader_selection_is_deterministic_and_needs_validators() {
    let mut pos = ProofOfStake::default();
    let r = nexus_chain::primitives::types::Hash::zero();
    assert!(pos.select_leader(0, 0, &r).is_none());
    pos.register_validator(Address::new([7u8; 20]), vec![0u8; 33], 100_000_000_000, 500).unwrap();
    let a = pos.select_leader(3, 9, &r).unwrap();
    assert_eq!(a.0, [7u8; 20]);
    assert_eq!(pos.select_leader(3, 9, &r).unwrap().0, a.0);
}

#[test]
fn delegation_adds_to_the_validator_and_the_total() {
    let mut pos = ProofOfStake::default();
    let a1 = Address::new([1u8; 20]);
    let a2 = Address::new([2u8; 20]);
    pos.register_validator(a1, vec![0u8; 33], 100_000_000_000, 500).unwrap();
    assert!(pos.delegate(a2, a1, 10_000_000).is_ok());
    assert_eq!(pos.get_delegations(&a2).len(), 1);
    assert_eq!(pos.get_delegations(&a2)[0].amount, 10_000_000);
    assert_eq!(pos.validator_set().get(&a1).unwrap().stake, 100_010_000_000);
    assert_eq!(pos.validator_set().total_stake, 100_010_000_000);
    assert!(pos.delegate(a2, a1, 999_999).is_err());
    assert!(pos.delegate(a2, Address::new([9u8; 20]), 10_000_000).is_err());
}
