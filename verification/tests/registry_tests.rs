use nexus_chain::consensus::validator::{Validator, ValidatorChange, ValidatorRegistry};
use nexus_chain::consensus::ConsensusError;
use nexus_chain::primitives::address::Address;

fn a(b: u8) -> Address {
    Address::new([b; 20])
}

#[test]
fn changes_apply_at_the_epoch_boundary() {
    let mut reg = ValidatorRegistry::new();
    reg.queue_change(ValidatorChange::Join(Validator::new(a(1), vec![], 20_000_000_000)));
    reg.queue_change(ValidatorChange::Join(Validator::new(a(2), vec![], 30_000_000_000)));
    assert_eq!(reg.current_set().len(), 0);
    assert_eq!(reg.advance_epoch().unwrap(), 1);
    let set = reg.current_set();
    assert_eq!(set.len(), 2);
    assert_eq!(set.total_stake, 50_000_000_000);
    reg.queue_change(ValidatorChange::StakeIncrease { address: a(1), amount: 5 });
    reg.queue_change(ValidatorChange::StakeDecrease { address: a(2), amount: 40_000_000_000 });
    reg.queue_change(ValidatorChange::UpdateCommission { address: a(1), commission: 20000 });
    reg.queue_change(ValidatorChange::Leave(a(9)));
    assert_eq!(reg.advance_epoch().unwrap(), 2);
    let set = reg.current_set();
    assert_eq!(set.get(&a(1)).unwrap().stake, 20_000_000_005);
    assert_eq!(set.get(&a(1)).unwrap().commission, 10000);
    assert_eq!(set.get(&a(2)).unwrap().stake, 0);
    assert_eq!(set.total_stake, 10_000_000_005);
    assert_eq!(reg.get_historical_set(1).unwrap().total_stake, 50_000_000_000);
    assert_eq!(reg.get_historical_set(0).unwrap().len(), 0);
    assert!(reg.get_historical_set(7).is_none());
}

#[test]
fn a_refused_join_stops_the_changes() {
    let mut reg = ValidatorRegistry::default();
    reg.queue_change(ValidatorChange::Join(Validator::new(a(1), vec![], 20_000_000_000)));
    reg.queue_change(ValidatorChange::Join(Validator::new(a(2), vec![], 5)));
    reg.queue_change(ValidatorChange::Join(Validator::new(a(3), vec![], 20_000_000_000)));
    let r = reg.advance_epoch();
    assert!(matches!(r, Err(ConsensusError::InsufficientStake { required: 10_000_000_000, available: 5 })));
    let set = reg.current_set();
    assert_eq!(set.len(), 1);
    assert_eq!(set.epoch, 0);
    // The queue was consumed.
    assert_eq!(reg.advance_epoch().unwrap(), 1);
    assert_eq!(reg.current_set().len(), 1);
}

#[test]
fn slashing_cuts_stake_and_jails() {
    let mut reg = ValidatorRegistry::new();
    reg.queue_change(ValidatorChange::Join(Validator::new(a(1), vec![], 20_000_000_000)));
    reg.advance_epoch().unwrap();
    assert!(matches!(reg.slash(&a(2), 500, 7), Err(ConsensusError::UnknownValidator(_))));
    assert_eq!(reg.slash(&a(1), 500, 7).unwrap(), 1_000_000_000);
    let set = reg.current_set();
    let v = set.get(&a(1)).unwrap();
    assert_eq!(v.stake, 19_000_000_000);
    assert_eq!(v.slash_count, 1);
    assert_eq!(v.jailed_until, 8);
    assert!(!v.is_eligible(7));
    assert!(v.is_eligible(8));
    assert_eq!(set.total_stake, 19_000_000_000);
}
