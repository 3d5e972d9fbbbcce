use nexus_chain::consensus::validator::{Validator, ValidatorSet};
use nexus_chain::consensus::ConsensusError;
use nexus_chain::evm::gas::{FeeMarket, GasMeter, GasSchedule};
use nexus_chain::primitives::address::Address;
use nexus_chain::primitives::types::U256;

#[test]
fn test_intrinsic_gas() {
    let schedule = GasSchedule::default();
    assert_eq!(schedule.intrinsic_gas(&[], false, 0), 21000);
    assert_eq!(schedule.intrinsic_gas(&[], true, 0), 21000 + 32000);
    let data = vec![0, 1, 2, 0, 3];
    let expected = 21000 + 2 * 4 + 3 * 16;
    assert_eq!(schedule.intrinsic_gas(&data, false, 0), expected);
}

#[test]
fn intrinsic_gas_with_access_list() {
    let schedule = GasSchedule::berlin();
    assert_eq!(schedule.intrinsic_gas(&[0], false, 3), 21000 + 4 + 3 * 2400);
}

#[test]
fn memory_costs() {
    let s = GasSchedule::berlin();
    assert_eq!(s.memory_cost(0), 0);
    assert_eq!(s.memory_cost(32), 3);
    assert_eq!(s.memory_cost(1024), 32 * 3 + 1024 / 512);
    assert_eq!(s.memory_expansion_cost(64, 32), 0);
    assert_eq!(s.memory_expansion_cost(32, 1024), s.memory_cost(1024) - s.memory_cost(32));
}

#[test]
fn test_fee_market() {
    let market = FeeMarket::default();
    let next = market.next_base_fee(market.target_gas_per_block);
    assert_eq!(next, market.base_fee_per_gas);
    let next = market.next_base_fee(market.gas_limit);
    assert!(next > market.base_fee_per_gas);
    let next = market.next_base_fee(0);
    assert!(next < market.base_fee_per_gas);
}

#[test]
fn fee_market_exact_steps() {
    let market = FeeMarket::default();
    assert_eq!(market.next_base_fee(30_000_000), U256::from_u64(1_125_000_000));
    assert_eq!(market.next_base_fee(0), U256::from_u64(875_000_000));
    let capped = FeeMarket { max_base_fee: Some(U256::from_u64(1_100_000_000)), ..FeeMarket::default() };
    assert_eq!(capped.next_base_fee(30_000_000), U256::from_u64(1_100_000_000));
    let floor = FeeMarket { base_fee_per_gas: U256::from_u64(1_000_000), ..FeeMarket::default() };
    assert_eq!(floor.next_base_fee(0), U256::from_u64(1_000_000));
}

#[test]
fn effective_price_and_fee_validation() {
    let market = FeeMarket::default();
    let price = market.effective_gas_price(U256::from_u64(3_000_000_000), U256::from_u64(500_000_000));
    assert_eq!(price, U256::from_u64(1_500_000_000));
    let capped = market.effective_gas_price(U256::from_u64(1_200_000_000), U256::from_u64(500_000_000));
    assert_eq!(capped, U256::from_u64(1_200_000_000));
    assert!(market.validate_fee(U256::from_u64(2_000_000_000), U256::from_u64(1)));
    assert!(!market.validate_fee(U256::from_u64(999_999_999), U256::from_u64(1)));
    assert!(!market.validate_fee(U256::from_u64(2_000_000_000), U256::from_u64(3_000_000_000)));
}

#[test]
fn test_gas_meter() {
    let schedule = GasSchedule::default();
    let mut meter = GasMeter::new(100000, schedule);
    assert!(meter.consume(50000).is_ok());
    assert_eq!(meter.remaining(), 50000);
    assert!(meter.consume(60000).is_err());
    meter.refund(10000);
    assert_eq!(meter.final_used(), 50000 - 10000);
}

#[test]
fn gas_meter_refund_cap() {
    let mut meter = GasMeter::new(100000, GasSchedule::berlin());
    meter.consume(10000).unwrap();
    meter.refund(9000);
    assert_eq!(meter.refunded(), 5000);
    assert_eq!(meter.final_used(), 5000);
    assert_eq!(meter.used(), 10000);
}

#[test]
fn sstore_costs() {
    let meter = GasMeter::new(1_000_000, GasSchedule::berlin());
    let z = U256::zero();
    let one = U256::from_u64(1);
    let two = U256::from_u64(2);
    assert_eq!(meter.sstore_gas(z, z, one, false), (20000, 0));
    assert_eq!(meter.sstore_gas(one, one, z, true), (2100 + 2900, 15000));
    assert_eq!(meter.sstore_gas(one, one, one, false), (100, 0));
    assert_eq!(meter.sstore_gas(one, two, one, false), (100, 2900 - 100));
    assert_eq!(meter.sstore_gas(one, z, one, false), (100, -15000 + 2800));
}

fn validator(byte: u8, stake: u64) -> Validator {
    Validator::new(Address::new([byte; 20]), vec![0u8; 33], stake)
}

#[test]
fn test_validator_eligibility() {
    let mut v = validator(1, 100_000_000_000);
    assert!(v.is_eligible(0));
    v.jailed_until = 10;
    assert!(!v.is_eligible(5));
    assert!(v.is_eligible(10));
}

#[test]
fn test_validator_set() {
    let mut set = ValidatorSet::new(0);
    set.add_validator(validator(1, 100_000_000_000)).unwrap();
    assert_eq!(set.len(), 1);
    assert_eq!(set.total_stake, 100_000_000_000);
}

#[test]
fn test_supermajority() {
    let mut set = ValidatorSet::new(0);
    for i in 0..3 {
        set.add_validator(validator(i as u8, 100_000_000_000)).unwrap();
    }
    assert!(!set.has_supermajority(200_000_000_000));
    assert!(set.has_supermajority(200_000_000_001));
}

#[test]
fn validator_set_rules() {
    let mut set = ValidatorSet::new(3);
    match set.add_validator(validator(1, 5)) {
        Err(ConsensusError::InsufficientStake { required, available }) => {
            assert_eq!(required, 10_000_000_000);
            assert_eq!(available, 5);
        },
        _ => panic!("expected insufficient stake"),
    }
    set.add_validator(validator(1, 20_000_000_000)).unwrap();
    set.add_validator(validator(2, 30_000_000_000)).unwrap();
    assert_eq!(set.active_stake(), 50_000_000_000);
    assert!(set.has_quorum(16_700_000_000));
    assert!(!set.has_quorum(16_000_000_000));
    let removed = set.remove_validator(&Address::new([1; 20])).unwrap();
    assert_eq!(removed.stake, 20_000_000_000);
    assert_eq!(set.total_stake, 30_000_000_000);
    assert!(set.remove_validator(&Address::new([1; 20])).is_none());
    assert!(set.get(&Address::new([2; 20])).is_some());
    assert_eq!(set.active_validators().len(), 1);
}

#[test]
fn re_adding_a_member_replaces_its_stake() {
    let mut set = ValidatorSet::new(0);
    set.add_validator(validator(1, 20_000_000_000)).unwrap();
    set.add_validator(validator(2, 30_000_000_000)).unwrap();
    set.add_validator(validator(1, 50_000_000_000)).unwrap();
    assert_eq!(set.len(), 2);
    assert_eq!(set.get(&Address::new([1; 20])).unwrap().stake, 50_000_000_000);
    assert_eq!(set.total_stake, 80_000_000_000);
}

#[test]
fn iter_lists_every_member_in_order() {
    let mut set = ValidatorSet::new(0);
    set.add_validator(validator(1, 20_000_000_000)).unwrap();
    set.add_validator(validator(2, 30_000_000_000)).unwrap();
    let all = set.iter();
    assert_eq!(all.len(), 2);
    assert_eq!(all[0].address.0, [1u8; 20]);
    assert_eq!(all[1].stake, 30_000_000_000);
}

#[test]
fn refunds_over_a_history_are_summed_then_capped() {
    let mut meter = GasMeter::new(100_000, GasSchedule::default());
    meter.consume(20_000).unwrap();
    meter.refund(4_000);
    meter.consume(30_000).unwrap();
    meter.refund(30_000);
    assert!(meter.consume(60_000).is_err());
    assert_eq!(meter.used(), 50_000);
    assert_eq!(meter.refunded(), 25_000);
    assert_eq!(meter.final_used(), 25_000);
    meter.refund(u64::MAX);
    assert_eq!(meter.refunded(), 25_000);
}
