use nexus_chain::consensus::proposer::{create_proposal, should_propose, ProposerConfig, TransactionPool, TxPriority};
use nexus_chain::consensus::bft::BftConsensus;
use nexus_chain::consensus::validator::{Validator, ValidatorKeys, ValidatorSet};
use nexus_chain::consensus::ConsensusError;
use nexus_chain::dag::graph::{Dag, DagConfig};
use nexus_chain::dag::vertex::Vertex;
use nexus_chain::primitives::transaction::TxType;
use nexus_chain::primitives::types::ValidatorId;
use nexus_chain::node::genesis::{parse_addr, parse_u256_decimal, parse_u256_hex, GenesisConfig};
use nexus_chain::primitives::transaction::Transaction;
use nexus_chain::primitives::types::U256;

#[test]
fn test_tx_priority() {
    let mut tx = Transaction::new_legacy(0, 0, None, U256::zero(), vec![], 21_000, U256::zero());
    tx.gas_price = U256::from_u64(5_000_000_000);
    assert_eq!(TxPriority::from_tx(&tx), TxPriority::Low);
    tx.gas_price = U256::from_u64(50_000_000_000);
    assert_eq!(TxPriority::from_tx(&tx), TxPriority::Normal);
    tx.gas_price = U256::from_u64(200_000_000_000);
    assert_eq!(TxPriority::from_tx(&tx), TxPriority::High);
}

#[test]
fn test_tx_priority_boundaries() {
    let mut tx = Transaction::new_legacy(0, 0, None, U256::zero(), vec![], 21_000, U256::zero());
    tx.gas_price = U256::from_u64(100_999_999_999);
    assert_eq!(TxPriority::from_tx(&tx), TxPriority::Normal);
    tx.gas_price = U256::from_u64(101_000_000_000);
    assert_eq!(TxPriority::from_tx(&tx), TxPriority::High);
    tx.gas_price = U256::from_u64(10_999_999_999);
    assert_eq!(TxPriority::from_tx(&tx), TxPriority::Low);
}

#[test]
fn test_transaction_pool() {
    let mut pool = TransactionPool::new(100);
    let tx = Transaction::new_legacy(1, 0, None, U256::zero(), Vec::new(), 21000, U256::from_u64(1_000_000_000));
    assert!(pool.add(tx.clone()));
    assert_eq!(pool.len(), 1);
    assert!(!pool.add(tx.clone()));
    assert_eq!(pool.len(), 1);
    let pending = pool.get_pending(10);
    assert_eq!(pending.len(), 1);
    pool.remove(&[tx.hash()]);
    assert!(pool.is_empty());
}

#[test]
fn test_transaction_pool_capacity() {
    let mut pool = TransactionPool::new(1);
    let a = Transaction::new_legacy(1, 0, None, U256::zero(), Vec::new(), 21000, U256::zero());
    let b = Transaction::new_legacy(1, 1, None, U256::zero(), Vec::new(), 21000, U256::zero());
    assert!(pool.add(a));
    assert!(!pool.add(b));
    assert_eq!(pool.get_pending(0).len(), 0);
}

#[test]
fn test_parse_u256_decimal() {
    let v = parse_u256_decimal("1000000000000000000");
    assert_eq!(v.as_u64(), 1_000_000_000_000_000_000);
}

#[test]
fn test_parse_u256_decimal_skips_other_characters_and_wraps_high() {
    assert_eq!(parse_u256_decimal(" 1_000 ").as_u64(), 1000);
    let big = parse_u256_decimal("18446744073709551616");
    assert_eq!(big.0, [0, 1, 0, 0]);
}

#[test]
fn test_parse_u256_hex_and_addr() {
    let v = parse_u256_hex("0x0102");
    assert_eq!(v.0, [0x0102, 0, 0, 0]);
    assert_eq!(parse_u256_hex("zz").0, [0, 0, 0, 0]);
    let a = parse_addr("0x0000000000000000000000000000000000000001").unwrap();
    assert_eq!(a.0[19], 1);
    assert!(parse_addr("0x01").is_none());
    assert!(parse_addr("0xzz").is_none());
}

#[test]
fn test_genesis_config_default() {
    let g = GenesisConfig::default();
    assert_eq!(g.chain_id, 1337);
    assert_eq!(g.name, "NexusChain Devnet");
    assert!(g.accounts.is_empty());
}

fn genesis_dag() -> Dag {
    let mut dag = Dag::new(DagConfig::default());
    dag.init_genesis(Vertex::genesis(1337, 0)).unwrap();
    dag
}

#[test]
fn proposal_takes_tips_pending_transactions_and_next_height() {
    let dag = genesis_dag();
    let mut pool = TransactionPool::new(100);
    pool.add(Transaction::new_legacy(1337, 0, None, U256::zero(), vec![1], 100_000, U256::from_u64(1)));
    pool.add(Transaction::new_legacy(1337, 1, None, U256::zero(), vec![2], 100_000, U256::from_u64(1)));
    let p = create_proposal(&dag, &pool, &ProposerConfig::default(), ValidatorId([3; 32]), 1234).unwrap();
    assert_eq!(p.vertex.parents.len(), 1);
    assert_eq!(p.vertex.parents[0].0, dag.get_tips()[0].0);
    assert_eq!(p.vertex.height, 1);
    assert_eq!(p.vertex.timestamp, 1234);
    assert_eq!(p.transactions.len(), 2);
    assert_eq!(p.vertex.transactions.len(), 2);
    let mut small = ProposerConfig::default();
    small.max_txs_per_vertex = 1;
    assert_eq!(create_proposal(&dag, &pool, &small, ValidatorId([3; 32]), 1).unwrap().transactions.len(), 1);
}

#[test]
fn proposal_errors() {
    let empty = Dag::new(DagConfig::default());
    let pool = TransactionPool::new(100);
    match create_proposal(&empty, &pool, &ProposerConfig::default(), ValidatorId([3; 32]), 1) {
        Err(ConsensusError::InvalidProposal(m)) => assert_eq!(m, "Not enough parent tips available"),
        _ => panic!("expected missing parents"),
    }
    let dag = genesis_dag();
    let mut pool = TransactionPool::new(100);
    let mut iso = Transaction::new_legacy(1337, 0, None, U256::zero(), vec![], 100_000, U256::from_u64(1));
    iso.tx_type = TxType::IsoPayment;
    pool.add(iso);
    match create_proposal(&dag, &pool, &ProposerConfig::default(), ValidatorId([3; 32]), 1) {
        Err(ConsensusError::InvalidProposal(m)) => assert_eq!(m, "ISO payment transaction missing iso_data"),
        _ => panic!("expected an ISO data error"),
    }
}

#[test]
fn proposing_needs_leadership_time_and_transactions() {
    let keys = ValidatorKeys::from_bytes(&[5u8; 32]).unwrap();
    let me = *keys.address();
    let mut vs = ValidatorSet::new(0);
    vs.add_validator(Validator::new(me, keys.public_key(), 100_000_000_000)).unwrap();
    let bft = BftConsensus::new(keys, vs);
    let cfg = ProposerConfig::default();
    let mut pool = TransactionPool::new(10);
    assert!(!should_propose(&bft, &me, 1000, &cfg, &pool));
    pool.add(Transaction::new_legacy(1337, 0, None, U256::zero(), vec![], 100_000, U256::from_u64(1)));
    assert!(should_propose(&bft, &me, 1000, &cfg, &pool));
    assert!(!should_propose(&bft, &me, 10, &cfg, &pool));
}
