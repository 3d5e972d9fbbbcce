use nexus_chain::consensus::pos::ProofOfStake;
use nexus_chain::evm::state::StateDb;
use nexus_chain::node::genesis::{apply_genesis, export_genesis, export_genesis_at, genesis_stakes_fit, parse_addr, GenesisAccount, GenesisConfig, GenesisError, GenesisValidator};
use nexus_chain::primitives::types::U256;

fn account(addr: &str, balance: &str) -> GenesisAccount {
    GenesisAccount { address: addr.to_string(), balance: balance.to_string(), code: None, storage: vec![], nonce: 0 }
}

#[test]
fn test_apply_genesis_basic() {
    let mut state = StateDb::new();
    let mut pos = ProofOfStake::default();
    let config = GenesisConfig {
        chain_id: 1337,
        timestamp: 0,
        name: "test".to_string(),
        accounts: vec![account("0x0000000000000000000000000000000000000001", "1000000000")],
        validators: vec![],
    };
    apply_genesis(&mut state, &mut pos, &config).unwrap();
    let addr = parse_addr("0x0000000000000000000000000000000000000001").unwrap();
    assert_eq!(state.get_balance(&addr).as_u64(), 1_000_000_000);
}

#[test]
fn test_export_genesis_captures_accounts() {
    let mut state = StateDb::new();
    let pos = ProofOfStake::default();
    let addr = parse_addr("0x0000000000000000000000000000000000000002").unwrap();
    state.set_balance(&addr, U256::from_u64(999_000_000));
    let exported = export_genesis(&state, &pos, 1337, "test");
    assert_eq!(exported.accounts.len(), 1);
    assert_eq!(exported.accounts[0].balance, "999000000");
}

#[test]
fn genesis_sets_code_storage_and_validators() {
    let mut state = StateDb::new();
    let mut pos = ProofOfStake::default();
    let mut contract = account("0x00000000000000000000000000000000000000aa", "5");
    contract.code = Some("0x6001".to_string());
    contract.nonce = 1;
    contract.storage = vec![("0x01".to_string(), "0x2a".to_string())];
    let config = GenesisConfig {
        chain_id: 7,
        timestamp: 9,
        name: "dev".to_string(),
        accounts: vec![contract],
        validators: vec![GenesisValidator {
            address: "0x0000000000000000000000000000000000000003".to_string(),
            pubkey: "0x02aa".to_string(),
            stake: "20000000000".to_string(),
            commission: 100,
        }],
    };
    apply_genesis(&mut state, &mut pos, &config).unwrap();
    let a = parse_addr("0x00000000000000000000000000000000000000aa").unwrap();
    assert_eq!(state.get_code(&a), vec![0x60, 0x01]);
    assert_eq!(state.get_nonce(&a), 1);
    assert_eq!(state.get_storage(&a, &U256::from_u64(1)).as_u64(), 42);
    assert_eq!(pos.validator_set().len(), 1);
    let exported = export_genesis_at(&state, &pos, 7, "dev", 9);
    assert_eq!(exported.timestamp, 9);
    assert_eq!(exported.accounts[0].address, "0x00000000000000000000000000000000000000aa");
    assert_eq!(exported.accounts[0].code.as_deref(), Some("0x6001"));
    assert_eq!(exported.accounts[0].nonce, 1);
    assert_eq!(exported.validators.len(), 1);
    assert_eq!(exported.validators[0].stake, "20000000000");
    assert_eq!(exported.validators[0].pubkey, "0x02aa");
}

#[test]
fn genesis_errors_name_the_entry() {
    let mut state = StateDb::new();
    let mut pos = ProofOfStake::default();
    let mut bad_code = account("0x0000000000000000000000000000000000000001", "1");
    bad_code.code = Some("0xzz".to_string());
    let config = GenesisConfig { accounts: vec![account("0x01", "1")], ..GenesisConfig::default() };
    assert!(matches!(apply_genesis(&mut state, &mut pos, &config), Err(GenesisError::BadAddress(s)) if s == "0x01"));
    let config = GenesisConfig { accounts: vec![bad_code], ..GenesisConfig::default() };
    assert!(matches!(apply_genesis(&mut state, &mut pos, &config), Err(GenesisError::BadCode(_))));
    let v = GenesisValidator {
        address: "0x0000000000000000000000000000000000000003".to_string(),
        pubkey: "0xq".to_string(),
        stake: "1".to_string(),
        commission: 0,
    };
    let config = GenesisConfig { validators: vec![v], ..GenesisConfig::default() };
    assert!(matches!(apply_genesis(&mut state, &mut pos, &config), Err(GenesisError::BadPubkey(_))));
    let low = GenesisValidator {
        address: "0x0000000000000000000000000000000000000003".to_string(),
        pubkey: "0x02".to_string(),
        stake: "1".to_string(),
        commission: 0,
    };
    let config = GenesisConfig { validators: vec![low], ..GenesisConfig::default() };
    assert!(matches!(apply_genesis(&mut state, &mut pos, &config), Err(GenesisError::PoS(_))));
}

#[test]
fn u256_decimal_rendering() {
    assert_eq!(U256::from_u64(0).to_decimal_string(), "0");
    assert_eq!(U256([0, 1, 0, 0]).to_decimal_string(), "18446744073709551616");
}

#[test]
fn stake_sum_guard_matches_the_counter() {
    let pos = ProofOfStake::default();
    let mut config = GenesisConfig::default();
    let v = |stake: &str| GenesisValidator {
        address: "0x0101010101010101010101010101010101010101".to_string(),
        pubkey: "02".to_string(),
        stake: stake.to_string(),
        commission: 500,
    };
    config.validators = vec![v("18446744073709551615")];
    assert!(genesis_stakes_fit(&pos, &config));
    config.validators = vec![v("18446744073709551615"), v("1")];
    assert!(!genesis_stakes_fit(&pos, &config));
    config.validators = vec![v("10"), v("20")];
    assert!(genesis_stakes_fit(&pos, &config));
}
