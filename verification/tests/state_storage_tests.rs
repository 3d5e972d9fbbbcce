use nexus_chain::primitives::address::Address;
use nexus_chain::primitives::types::U256;
use nexus_chain::state::checkpoint::{CheckpointManager, StateChange};
use nexus_chain::state::storage::{encode_account, AccountState, StateDb};
use nexus_chain::state::StateError;

fn u(x: u64) -> U256 {
    U256::from_u64(x)
}

#[test]
fn test_state_db() {
    let mut db = StateDb::new();
    let addr = Address::new([1u8; 20]);

    db.set_balance(&addr, u(100));
    assert_eq!(db.get_balance(&addr), u(100));

    db.add_balance(&addr, u(50));
    assert_eq!(db.get_balance(&addr), u(150));

    db.sub_balance(&addr, u(30)).unwrap();
    assert_eq!(db.get_balance(&addr), u(120));

    db.increment_nonce(&addr);
    assert_eq!(db.get_nonce(&addr), 1);

    db.set_code(&addr, vec![0x60, 0x80, 0x60, 0x40]);
    assert_eq!(db.get_code(&addr), vec![0x60, 0x80, 0x60, 0x40]);

    db.set_storage(&addr, u(0), u(42));
    assert_eq!(db.get_storage(&addr, &u(0)), u(42));
}

#[test]
fn test_checkpoint_manager() {
    let mut manager = CheckpointManager::new();
    let changes = vec![StateChange::BalanceChange {
        address: Address::new([1u8; 20]),
        old_value: U256::zero(),
        new_value: u(100),
    }];
    let id = manager.create_checkpoint(nexus_chain::primitives::types::Hash::new([1u8; 32]), nexus_chain::primitives::types::Hash::new([2u8; 32]), changes, &[]);
    assert_eq!(id, 1);
    let cp = manager.get_checkpoint(id).unwrap();
    assert_eq!(cp.changes.len(), 1);
}

#[test]
fn sub_balance_refuses_more_than_held() {
    let mut db = StateDb::new();
    let addr = Address::new([2u8; 20]);
    db.set_balance(&addr, u(10));
    assert!(matches!(db.sub_balance(&addr, u(11)), Err(StateError::Storage(_))));
    assert_eq!(db.get_balance(&addr), u(10));
    db.sub_balance(&addr, u(10)).unwrap();
    assert_eq!(db.get_balance(&addr), u(0));
}

#[test]
fn zero_storage_value_clears_slot_and_delete_drops_storage() {
    let mut db = StateDb::new();
    let a = Address::new([3u8; 20]);
    let b = Address::new([4u8; 20]);
    db.set_storage(&a, u(1), u(7));
    db.set_storage(&b, u(1), u(8));
    db.set_storage(&a, u(1), u(0));
    assert_eq!(db.get_storage(&a, &u(1)), u(0));
    db.set_storage(&a, u(2), u(9));
    db.set_balance(&a, u(5));
    assert!(db.account_exists(&a));
    db.delete_account(&a);
    assert!(!db.account_exists(&a));
    assert_eq!(db.get_storage(&a, &u(2)), u(0));
    assert_eq!(db.get_storage(&b, &u(1)), u(8));
    assert_eq!(db.get_balance(&a), u(0));
}

#[test]
fn account_count_and_emptiness() {
    let mut db = StateDb::new();
    let a = Address::new([5u8; 20]);
    let b = Address::new([6u8; 20]);
    assert_eq!(db.account_count(), 0);
    assert!(db.is_empty(&a));
    db.set_nonce(&a, 3);
    db.set_nonce(&a, 4);
    db.set_balance(&b, u(1));
    assert_eq!(db.account_count(), 2);
    assert!(!db.is_empty(&a));
    assert_eq!(db.get_nonce(&a), 4);
    let h = db.get_code_hash(&a);
    assert_eq!(h, nexus_chain::primitives::types::Hash::zero());
    assert!(db.get_code(&a).is_empty());
}

#[test]
fn code_hash_is_keccak_of_code() {
    let mut db = StateDb::new();
    let a = Address::new([7u8; 20]);
    db.set_code(&a, Vec::new());
    let expected = hex_bytes("c5d2460186f7233c927e7db2dcc703c0e500b653ca82273b7bfad8045d85a470");
    assert_eq!(db.get_code_hash(&a).as_bytes().to_vec(), expected);
}

fn hex_bytes(s: &str) -> Vec<u8> {
    (0..s.len()).step_by(2).map(|i| u8::from_str_radix(&s[i..i + 2], 16).unwrap()).collect()
}

#[test]
fn commit_changes_root_and_encodes_accounts_as_json() {
    let mut db = StateDb::new();
    assert_eq!(db.state_root(), nexus_chain::primitives::types::Hash::zero());
    let a = Address::new([8u8; 20]);
    db.set_balance(&a, u(100));
    let root = db.commit();
    assert_ne!(root, nexus_chain::primitives::types::Hash::zero());
    assert_eq!(db.state_root(), root);
    let acct = AccountState { nonce: 2, balance: U256([1, 0, 0, 5]), code_hash: nexus_chain::primitives::types::Hash::new([0u8; 32]), storage_root: nexus_chain::primitives::types::Hash::new([1u8; 32]) };
    let json = String::from_utf8(encode_account(&acct)).unwrap();
    let zeros = vec!["0"; 32].join(",");
    let ones = vec!["1"; 32].join(",");
    assert_eq!(json, format!("{{\"nonce\":2,\"balance\":[1,0,0,5],\"code_hash\":[{}],\"storage_root\":[{}]}}", zeros, ones));
}

#[test]
fn revert_after_apply_restores_values() {
    let mut db = StateDb::new();
    let a = Address::new([9u8; 20]);
    db.set_balance(&a, u(10));
    db.set_storage(&a, u(1), u(5));
    let changes = vec![
        StateChange::BalanceChange { address: a, old_value: u(10), new_value: u(20) },
        StateChange::NonceChange { address: a, old_value: 0, new_value: 1 },
        StateChange::StorageChange { address: a, key: u(1), old_value: u(5), new_value: u(6) },
        StateChange::BalanceChange { address: a, old_value: u(20), new_value: u(25) },
    ];
    let mut manager = CheckpointManager::new();
    let id = manager.create_checkpoint(nexus_chain::primitives::types::Hash::new([1u8; 32]), nexus_chain::primitives::types::Hash::new([2u8; 32]), changes, &[]);
    manager.apply_checkpoint(&mut db, id).unwrap();
    assert_eq!(db.get_balance(&a), u(25));
    assert_eq!(db.get_nonce(&a), 1);
    assert_eq!(db.get_storage(&a, &u(1)), u(6));
    manager.revert_checkpoint(&mut db, id).unwrap();
    assert_eq!(db.get_balance(&a), u(10));
    assert_eq!(db.get_nonce(&a), 0);
    assert_eq!(db.get_storage(&a, &u(1)), u(5));
    assert!(matches!(manager.apply_checkpoint(&mut db, 99), Err(StateError::Checkpoint(_))));
}

#[test]
fn deleted_account_revert_restores_balance_and_nonce() {
    let mut db = StateDb::new();
    let a = Address::new([10u8; 20]);
    db.set_balance(&a, u(3));
    db.set_nonce(&a, 4);
    let mut manager = CheckpointManager::new();
    let id = manager.create_checkpoint(
        nexus_chain::primitives::types::Hash::new([1u8; 32]),
        nexus_chain::primitives::types::Hash::new([0u8; 32]),
        vec![StateChange::AccountDeleted { address: a, balance: u(3), nonce: 4 }],
        &[],
    );
    manager.apply_checkpoint(&mut db, id).unwrap();
    assert!(!db.account_exists(&a));
    manager.revert_checkpoint(&mut db, id).unwrap();
    assert_eq!(db.get_balance(&a), u(3));
    assert_eq!(db.get_nonce(&a), 4);
}

#[test]
fn parents_finalize_and_chain() {
    let mut m = CheckpointManager::new();
    let v1 = nexus_chain::primitives::types::Hash::new([1u8; 32]);
    let v2 = nexus_chain::primitives::types::Hash::new([2u8; 32]);
    let v3 = nexus_chain::primitives::types::Hash::new([3u8; 32]);
    let unknown = nexus_chain::primitives::types::Hash::new([9u8; 32]);
    let c1 = m.create_checkpoint(v1, nexus_chain::primitives::types::Hash::new([11u8; 32]), Vec::new(), &[]);
    let c2 = m.create_checkpoint(v2, nexus_chain::primitives::types::Hash::new([12u8; 32]), Vec::new(), &[unknown, v1]);
    let c3 = m.create_checkpoint(v3, nexus_chain::primitives::types::Hash::new([13u8; 32]), Vec::new(), &[v2, v1]);
    assert_eq!((c1, c2, c3), (1, 2, 3));
    assert_eq!(m.get_checkpoint(c2).unwrap().parents, vec![1]);
    assert_eq!(m.get_checkpoint(c3).unwrap().parents, vec![2, 1]);
    assert_eq!(m.get_checkpoint_for_vertex(&v3).unwrap().id, 3);
    assert_eq!(m.get_state_root(2), Some(nexus_chain::primitives::types::Hash::new([12u8; 32])));
    assert_eq!(m.get_chain_to_finalized(3), vec![1, 2, 3]);
    assert!(matches!(m.finalize(7), Err(StateError::Checkpoint(_))));
    assert_eq!(m.finalized(), 0);
    m.finalize(2).unwrap();
    assert_eq!(m.finalized(), 2);
    assert!(m.get_checkpoint(1).is_none());
    assert!(m.get_checkpoint_for_vertex(&v1).is_none());
    assert!(m.get_checkpoint(2).is_some());
    assert_eq!(m.get_chain_to_finalized(3), vec![3]);
    assert_eq!(m.get_chain_to_finalized(2), Vec::<u64>::new());
}
