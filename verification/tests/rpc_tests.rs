use nexus_chain::primitives::address::Address;
use nexus_chain::primitives::transaction::Transaction;
use nexus_chain::primitives::types::U256;
use nexus_chain::rpc::mempool::Mempool;
use nexus_chain::rpc::types::{format_address, format_bytes, format_hash, format_u256, format_u64, parse_address, parse_bytes, parse_hash, parse_u64};
use nexus_chain::rpc::RpcError;

fn tx(nonce: u64) -> Transaction {
    Transaction::new_legacy(1, nonce, None, U256::zero(), Vec::new(), 21000, U256::from_u64(1))
}

#[test]
fn mempool_keeps_order_and_rejects_duplicates() {
    let mut pool = Mempool::new(2);
    assert!(pool.is_empty());
    assert!(pool.add(tx(0)));
    assert!(!pool.add(tx(0)));
    assert!(pool.add(tx(1)));
    assert!(!pool.add(tx(2)));
    assert_eq!(pool.len(), 2);
    let found = pool.get_by_hashes(&[tx(1).hash(), tx(5).hash(), tx(0).hash()]);
    assert_eq!(found.len(), 2);
    assert_eq!(found[0].nonce, 1);
    assert_eq!(found[1].nonce, 0);
    let batch = pool.drain_batch(1);
    assert_eq!(batch.len(), 1);
    assert_eq!(batch[0].nonce, 0);
    assert_eq!(pool.len(), 1);
    let rest = pool.drain_batch(10);
    assert_eq!(rest.len(), 1);
    assert!(pool.is_empty());
}

#[test]
fn hex_formats() {
    assert_eq!(format_u64(0), "0x0");
    assert_eq!(format_u64(255), "0xff");
    assert_eq!(format_u64(0x539), "0x539");
    assert_eq!(format_u256(&U256([16, 7, 0, 0])), "0x10");
    assert_eq!(format_bytes(&[0xde, 0xad]), "0xdead");
    assert_eq!(format_address(&Address::new([0x11; 20])), format!("0x{}", "11".repeat(20)));
    assert_eq!(format_hash(&nexus_chain::primitives::types::Hash::new([0xab; 32])), format!("0x{}", "ab".repeat(32)));
}

#[test]
fn hex_parsing() {
    assert_eq!(parse_u64("0x539"), Some(1337));
    assert_eq!(parse_u64("ff"), Some(255));
    assert_eq!(parse_u64("0x"), None);
    assert_eq!(parse_u64("0xffffffffffffffffff"), None);
    assert_eq!(parse_u64("0xzz"), None);
    assert_eq!(parse_bytes("0x0102"), Some(vec![1, 2]));
    assert_eq!(parse_bytes("0x012"), None);
    assert_eq!(parse_address(&format!("0x{}", "22".repeat(20))).unwrap().0, [0x22; 20]);
    assert!(parse_address("0x1234").is_none());
    assert_eq!(parse_hash(&"33".repeat(32)).unwrap().0, [0x33; 32]);
    assert!(parse_hash("0x00").is_none());
}

#[test]
fn error_codes() {
    assert_eq!(RpcError::ParseError.code(), -32700);
    assert_eq!(RpcError::InvalidRequest.code(), -32600);
    assert_eq!(RpcError::MethodNotFound("x".into()).code(), -32601);
    assert_eq!(RpcError::InvalidParams("x".into()).code(), -32602);
    assert_eq!(RpcError::InternalError("x".into()).code(), -32603);
    assert_eq!(RpcError::TransactionRejected("x".into()).code(), -32003);
    assert_eq!(RpcError::NotFound("x".into()).code(), -32004);
}
