use nexus_chain::evm::state::{Account, JournaledState, StateDb};
use nexus_chain::evm::EvmError;
use nexus_chain::primitives::address::Address;
use nexus_chain::primitives::types::U256;

fn u(x: u64) -> U256 {
    U256::from_u64(x)
}

#[test]
fn test_account_operations() {
    let mut state = StateDb::new();
    let addr = Address::new([1u8; 20]);
    assert!(state.get_account(&addr).is_empty());
    assert_eq!(state.get_balance(&addr).as_u64(), 0);
    state.set_balance(&addr, u(1000));
    assert_eq!(state.get_balance(&addr).as_u64(), 1000);
    state.add_balance(&addr, u(500)).unwrap();
    assert_eq!(state.get_balance(&addr).as_u64(), 1500);
    state.sub_balance(&addr, u(200)).unwrap();
    assert_eq!(state.get_balance(&addr).as_u64(), 1300);
}

#[test]
fn test_storage_operations() {
    let mut state = StateDb::new();
    let addr = Address::new([1u8; 20]);
    let key = u(42);
    assert_eq!(state.get_storage(&addr, &key).as_u64(), 0);
    state.set_storage(&addr, key, u(123));
    assert_eq!(state.get_storage(&addr, &key).as_u64(), 123);
}

#[test]
fn test_journaled_state_revert() {
    let mut state = StateDb::new();
    let addr = Address::new([1u8; 20]);
    state.set_balance(&addr, u(1000));
    let mut journal = JournaledState::new(state);
    let cp = journal.checkpoint();
    journal.set_balance(&addr, u(500));
    assert_eq!(journal.state().get_balance(&addr).as_u64(), 500);
    journal.revert_checkpoint(cp);
    assert_eq!(journal.state().get_balance(&addr).as_u64(), 1000);
}

#[test]
fn test_journal_nested_checkpoints_and_storage() {
    let mut journal = JournaledState::new(StateDb::new());
    let a = Address::new([2u8; 20]);
    let k = u(7);
    journal.set_storage(&a, k, u(1));
    let outer = journal.checkpoint();
    journal.set_storage(&a, k, u(2));
    journal.set_balance(&a, u(9));
    let inner = journal.checkpoint();
    journal.set_storage(&a, k, u(3));
    journal.revert_checkpoint(inner);
    assert_eq!(journal.state().get_storage(&a, &k).as_u64(), 2);
    assert_eq!(journal.state().get_balance(&a).as_u64(), 9);
    journal.revert_checkpoint(outer);
    assert_eq!(journal.state().get_storage(&a, &k).as_u64(), 1);
    assert_eq!(journal.state().get_balance(&a).as_u64(), 0);
    journal.revert_checkpoint(5);
    assert_eq!(journal.state().get_storage(&a, &k).as_u64(), 1);
}

#[test]
fn test_balance_errors_and_nonce() {
    let mut state = StateDb::new();
    let a = Address::new([3u8; 20]);
    match state.sub_balance(&a, u(1)) {
        Err(EvmError::InsufficientBalance { required, available }) => {
            assert_eq!(required, format!("0x{}", "0".repeat(63) + "1"));
            assert_eq!(available, format!("0x{}", "0".repeat(64)));
        }
        _ => panic!("expected insufficient balance"),
    }
    state.set_balance(&a, U256([u64::MAX, u64::MAX, u64::MAX, u64::MAX]));
    assert!(state.add_balance(&a, u(1)).is_err());
    state.increment_nonce(&a);
    assert_eq!(state.get_nonce(&a), 1);
    assert!(state.account_exists(&a));
    state.delete_account(&a);
    assert!(!state.account_exists(&a));
    assert_eq!(state.get_nonce(&a), 0);
}

#[test]
fn test_code_snapshot_and_commit() {
    let mut state = StateDb::new();
    let a = Address::new([4u8; 20]);
    assert!(state.get_code(&a).is_empty());
    state.set_code(&a, vec![0x60, 0x00]);
    assert_eq!(state.get_code(&a), vec![0x60, 0x00]);
    assert_eq!(state.get_code_size(&a), 2);
    let snap = state.snapshot();
    state.set_balance(&a, u(5));
    state.rollback(snap);
    assert_eq!(state.get_balance(&a).as_u64(), 0);
    let r1 = state.commit();
    assert_eq!(state.state_root().0, r1.0);
    let r2 = state.commit();
    assert_eq!(r1.0, r2.0);
    let empty = Account::default();
    assert!(empty.is_empty());
}
