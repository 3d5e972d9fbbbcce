use nexus_chain::evm::receipt::{Bloom, ExecutionResult, ExecutionStatus, Log, Receipt};
use nexus_chain::primitives::address::Address;
use nexus_chain::primitives::types::U256;

#[test]
fn test_bloom_filter() {
    let mut bloom = Bloom::default();
    let addr = Address::new([0x42u8; 20]);
    assert!(!bloom.contains_address(&addr));
    bloom.accrue_address(&addr);
    assert!(bloom.contains_address(&addr));
}

#[test]
fn test_receipt_success() {
    let receipt = Receipt::success(
        nexus_chain::primitives::types::Hash::zero(),
        nexus_chain::primitives::types::Hash::zero(),
        21000,
        U256::from_u64(1_000_000_000),
        vec![],
    );
    assert!(receipt.status.is_success());
    assert_eq!(receipt.gas_used, 21000);
}

#[test]
fn test_bloom_from_logs_contains_addresses_and_topics() {
    let topic = nexus_chain::primitives::types::Hash::new([7u8; 32]);
    let log = Log { address: Address::new([0x11u8; 20]), topics: vec![topic.clone()], data: vec![] };
    let bloom = Bloom::from_logs(&[log]);
    assert!(bloom.contains_address(&Address::new([0x11u8; 20])));
    assert!(bloom.contains_hash(&topic));
    let set_bits: u32 = bloom.0.iter().map(|b| b.count_ones()).sum();
    assert!(set_bits >= 1 && set_bits <= 6);
}

#[test]
fn test_bloom_combine_is_union() {
    let mut a = Bloom::default();
    a.accrue_address(&Address::new([1u8; 20]));
    let mut b = Bloom::default();
    b.accrue_address(&Address::new([2u8; 20]));
    a.combine(&b);
    assert!(a.contains_address(&Address::new([1u8; 20])));
    assert!(a.contains_address(&Address::new([2u8; 20])));
}

#[test]
fn test_revert_and_failure_receipts() {
    let zero = nexus_chain::primitives::types::Hash::zero();
    let r = Receipt::revert(zero.clone(), zero.clone(), 5, U256::zero(), "nope".to_string());
    assert_eq!(r.status, ExecutionStatus::Revert);
    assert_eq!(r.revert_reason.as_deref(), Some("nope"));
    assert!(r.logs_bloom.0.iter().all(|b| *b == 0));
    let f = Receipt::failure(zero.clone(), zero, 9, U256::zero());
    assert_eq!(f.status, ExecutionStatus::Failure);
    assert!(!f.status.is_success());
    assert_eq!(f.cumulative_gas_used, 9);
}

#[test]
fn test_revert_reason_decoding() {
    let mut out = vec![0x08, 0xc3, 0x79, 0xa0];
    out.extend_from_slice(&[0u8; 32]);
    let mut len_word = [0u8; 32];
    len_word[31] = 3;
    out.extend_from_slice(&len_word);
    out.extend_from_slice(b"bad");
    let res = ExecutionResult::revert(100, out.clone());
    assert_eq!(res.revert_reason(), Some("bad".to_string()));
    let ok = ExecutionResult::success(100, 0, out, vec![]);
    assert_eq!(ok.revert_reason(), None);
    let short = ExecutionResult::revert(100, vec![0x08, 0xc3, 0x79, 0xa0, 0]);
    assert_eq!(short.revert_reason(), None);
}
