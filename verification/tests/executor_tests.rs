use nexus_chain::evm::executor::{EvmEnv, Executor};
use nexus_chain::evm::state::StateDb;
use nexus_chain::primitives::address::Address;
use sha3::{Digest, Keccak256};

fn hex20(s: &str) -> [u8; 20] {
    let mut out = [0u8; 20];
    for i in 0..20 {
        out[i] = u8::from_str_radix(&s[2 * i..2 * i + 2], 16).unwrap();
    }
    out
}

#[test]
fn executor_test_create_address() {
    let executor = Executor::new(StateDb::new(), EvmEnv::default());
    let sender = Address::new([0x42u8; 20]);
    let addr = executor.calculate_create_address(&sender, 0);
    assert_eq!(addr.as_bytes().len(), 20);
}

#[test]
fn test_create2_address() {
    let sender = Address::new([0x42u8; 20]);
    let salt = [0u8; 32];
    let init_code_hash: [u8; 32] = Keccak256::digest(b"init code").into();
    let addr = Executor::calculate_create2_address(&sender, &salt, &init_code_hash);
    assert_eq!(addr.as_bytes().len(), 20);
}

#[test]
fn create_addresses_match_known_vectors() {
    let executor = Executor::new(StateDb::new(), EvmEnv::default());
    let sender = Address::new(hex20("6ac7ea33f8831ea9dcc53393aaa88b25a785dbf0"));
    assert_eq!(executor.calculate_create_address(&sender, 0).0, hex20("cd234a471b72ba2f1ccf0a70fcaba648a5eecd8d"));
    assert_eq!(executor.calculate_create_address(&sender, 1).0, hex20("343c43a37d37dff08ae8c4a11544c718abb4fcf8"));
    let zero = Address::new([0u8; 20]);
    let code_hash: [u8; 32] = Keccak256::digest([0u8]).into();
    assert_eq!(Executor::calculate_create2_address(&zero, &[0u8; 32], &code_hash).0, hex20("4d1a2e2bb4f88f0250f26ffff098b0b30b26bf38"));
}

#[test]
fn environment_defaults_and_replacement() {
    let env = EvmEnv::default();
    assert_eq!(env.chain_id, 1337);
    assert_eq!(env.gas_limit, 30_000_000);
    assert_eq!(env.base_fee_per_gas.as_u64(), 1_000_000_000);
    let mut executor = Executor::new(StateDb::new(), env);
    let mut next = EvmEnv::default();
    next.number = 7;
    next.timestamp = 99;
    executor.set_env(next);
    assert_eq!(executor.env().number, 7);
    assert_eq!(executor.env().timestamp, 99);
    assert_eq!(executor.state().all_accounts().len(), 0);
}

use nexus_chain::evm::receipt::ExecutionStatus;
use nexus_chain::evm::EvmError;
use nexus_chain::primitives::crypto::{PublicKey, SecretKey};
use nexus_chain::primitives::transaction::Transaction;
use nexus_chain::primitives::types::U256;

const GWEI: u64 = 1_000_000_000;

fn funded_executor(key: &SecretKey, balance: u64) -> (Executor, Address) {
    let sender = PublicKey::from_secret(key).unwrap().to_address();
    let mut state = StateDb::new();
    state.set_balance(&sender, U256::from_u64(balance));
    (Executor::new(state, EvmEnv::default()), sender)
}

fn signed(key: &SecretKey, mut tx: Transaction) -> Transaction {
    let h = tx.signing_hash();
    tx.signature = Some(key.sign(&h).unwrap());
    tx
}

#[test]
fn transfer_pays_gas_and_value() {
    let key = SecretKey::from_bytes(&[7u8; 32]).unwrap();
    let (mut ex, sender) = funded_executor(&key, 1_000_000 * GWEI);
    let to = Address::new([0x55; 20]);
    let tx = signed(&key, Transaction::new_legacy(1337, 0, Some(to), U256::from_u64(1000), vec![], 21000, U256::from_u64(GWEI)));
    let rc = ex.execute_tx(&tx).unwrap();
    assert_eq!(rc.status, ExecutionStatus::Success);
    assert_eq!(rc.gas_used, 21000);
    assert_eq!(rc.tx_hash.0, tx.hash().0);
    assert_eq!(ex.state().get_nonce(&sender), 1);
    assert_eq!(ex.state().get_balance(&to).as_u64(), 1000);
    assert_eq!(ex.state().get_balance(&sender).as_u64(), 1_000_000 * GWEI - 21000 * GWEI - 1000);
    // the same nonce again is refused and changes nothing
    match ex.execute_tx(&tx) {
        Err(EvmError::NonceMismatch { expected, got }) => { assert_eq!(expected, 1); assert_eq!(got, 0); },
        _ => panic!("expected a nonce mismatch"),
    }
    assert_eq!(ex.state().get_balance(&to).as_u64(), 1000);
}

#[test]
fn transactions_are_refused_in_order() {
    let key = SecretKey::from_bytes(&[7u8; 32]).unwrap();
    let (mut ex, sender) = funded_executor(&key, 1_000_000 * GWEI);
    let to = Address::new([0x55; 20]);
    let too_much_gas = signed(&key, Transaction::new_legacy(1, 0, Some(to), U256::zero(), vec![], 40_000_000, U256::from_u64(GWEI)));
    assert!(matches!(ex.execute_tx(&too_much_gas), Err(EvmError::OutOfGas { used: 40_000_000, limit: 30_000_000 })));
    let other_chain = signed(&key, Transaction::new_legacy(1, 0, Some(to), U256::zero(), vec![], 21000, U256::from_u64(GWEI)));
    match ex.execute_tx(&other_chain) {
        Err(EvmError::StateError(m)) => assert_eq!(m, "Chain ID mismatch: expected 1337, got 1"),
        _ => panic!("expected a chain mismatch"),
    }
    let unsigned = Transaction::new_legacy(1337, 0, Some(to), U256::zero(), vec![], 21000, U256::from_u64(GWEI));
    assert!(matches!(ex.execute_tx(&unsigned), Err(EvmError::InvalidSignature)));
    let low_gas = signed(&key, Transaction::new_legacy(1337, 0, Some(to), U256::zero(), vec![], 20000, U256::from_u64(GWEI)));
    assert!(matches!(ex.execute_tx(&low_gas), Err(EvmError::OutOfGas { used: 21000, limit: 20000 })));
    let poor = signed(&key, Transaction::new_legacy(1337, 0, Some(to), U256::from_u64(1_000_000 * GWEI), vec![], 21000, U256::from_u64(GWEI)));
    assert!(matches!(ex.execute_tx(&poor), Err(EvmError::InsufficientBalance { .. })));
    let wrong_nonce = signed(&key, Transaction::new_legacy(1337, 5, Some(to), U256::zero(), vec![], 21000, U256::from_u64(GWEI)));
    assert!(matches!(ex.execute_tx(&wrong_nonce), Err(EvmError::NonceMismatch { expected: 0, got: 5 })));
    assert_eq!(ex.state().get_nonce(&sender), 0);
    assert_eq!(ex.state().get_balance(&sender).as_u64(), 1_000_000 * GWEI);
}

#[test]
fn creation_places_the_contract_at_the_create_address() {
    let key = SecretKey::from_bytes(&[7u8; 32]).unwrap();
    let (mut ex, sender) = funded_executor(&key, 1_000_000 * GWEI);
    let tx = signed(&key, Transaction::new_legacy(1337, 0, None, U256::from_u64(5), vec![1, 2, 3], 100_000, U256::from_u64(GWEI)));
    let expected = ex.calculate_create_address(&sender, 0);
    let rc = ex.execute_tx(&tx).unwrap();
    assert_eq!(rc.status, ExecutionStatus::Success);
    assert_eq!(rc.contract_address.unwrap().0, expected.0);
    // 21000 base + 32000 creation + 3 non-zero bytes at 16, then 3 gas a byte of init code
    assert_eq!(rc.gas_used, 53048 + 9);
    assert_eq!(ex.state().get_balance(&expected).as_u64(), 5);
    assert_eq!(ex.state().get_nonce(&expected), 1);
    let batch = ex.execute_batch(vec![tx.clone(), signed(&key, Transaction::new_legacy(1337, 1, Some(Address::new([9; 20])), U256::zero(), vec![], 21000, U256::from_u64(GWEI)))]);
    assert_eq!(batch.len(), 2);
    assert!(batch[0].is_err());
    assert!(batch[1].is_ok());
}

#[test]
fn coinbase_gets_the_price_above_the_base_fee() {
    let key = SecretKey::from_bytes(&[7u8; 32]).unwrap();
    let (mut ex, sender) = funded_executor(&key, 1_000_000 * GWEI);
    let coinbase = Address::new([0u8; 20]);
    let to = Address::new([0x55; 20]);
    let tx = signed(&key, Transaction::new_legacy(1337, 0, Some(to), U256::zero(), vec![], 21000, U256::from_u64(2 * GWEI)));
    let rc = ex.execute_tx(&tx).unwrap();
    assert_eq!(rc.gas_used, 21000);
    assert_eq!(rc.effective_gas_price.as_u64(), 2 * GWEI);
    assert_eq!(ex.state().get_balance(&coinbase).as_u64(), 21000 * GWEI);
    assert_eq!(ex.state().get_balance(&sender).as_u64(), 1_000_000 * GWEI - 42000 * GWEI);
}
