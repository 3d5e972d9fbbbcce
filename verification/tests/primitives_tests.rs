use nexus_chain::primitives::address::{AccountId, Address};
use nexus_chain::primitives::crypto::{
    blake3_hash, compute_merkle_root, recover_public_key, verify_signature, EcdsaSignature, PublicKey, SecretKey,
};
use nexus_chain::primitives::text::HexError;
use nexus_chain::primitives::transaction::{Transaction, TxType, ZkpProofData, ZkpProofType};
use nexus_chain::primitives::types::{ProtocolVersion, U256};

#[test]
fn test_u256_arithmetic() {
    let a = U256::from_u64(100);
    let b = U256::from_u64(50);
    let sum = a.checked_add(&b).unwrap();
    assert_eq!(sum.0[0], 150);
    let diff = a.checked_sub(&b).unwrap();
    assert_eq!(diff.0[0], 50);
}

#[test]
fn u256_limits_and_bytes() {
    let max = U256([u64::MAX; 4]);
    assert!(max.checked_add(&U256::one()).is_none());
    assert!(U256::zero().checked_sub(&U256::one()).is_none());
    let v = U256([1, 2, 3, 4]);
    assert_eq!(U256::from_be_bytes(v.to_be_bytes()), v);
    assert_eq!(max.wrapping_add(&U256::one()), U256::zero());
    assert_eq!(U256::from_u64(1000).div_u64(7), U256::from_u64(142));
}

#[test]
fn test_hash_display() {
    let hash = nexus_chain::primitives::types::Hash::new([0xab; 32]);
    assert!(hash.to_hex_string().starts_with("0x"));
    assert_eq!(hash.to_hex_string().len(), 66);
}

#[test]
fn test_address_from_hex() {
    let addr = Address::from_hex("0xdead000000000000000000000000000000000000").unwrap();
    assert_eq!(addr.0[0], 0xde);
    assert_eq!(addr.0[1], 0xad);
}

#[test]
fn address_from_hex_errors() {
    assert_eq!(Address::from_hex("0xdead"), Err(HexError::InvalidStringLength));
    assert_eq!(Address::from_hex("0xabc"), Err(HexError::OddLength));
    assert!(matches!(Address::from_hex("zz"), Err(HexError::InvalidHexCharacter { c: 'z', index: 0 })));
}

#[test]
fn test_checksum_address() {
    let addr = Address::from_hex("0x5aAeb6053F3E94C9b9A09f33669435E7Ef1BeAed").unwrap();
    assert_eq!(addr.to_checksum_string(), "0x5aAeb6053F3E94C9b9A09f33669435E7Ef1BeAed");
}

#[test]
fn test_precompile_detection() {
    assert!(Address::system_zkp().is_precompile());
    assert!(Address::system_iso().is_precompile());
    assert!(!Address::from_hex("0xdead000000000000000000000000000000000000").unwrap().is_precompile());
}

#[test]
fn test_create_address() {
    let deployer = Address::from_hex("0x6ac7ea33f8831ea9dcc53393aaa88b25a785dbf0").unwrap();
    let created = Address::create_contract_address(&deployer, 0);
    assert_ne!(created, Address::zero());
    let expected = Address::from_hex("0xcd234a471b72ba2f1ccf0a70fcaba648a5eecd8d").unwrap();
    assert_eq!(created, expected);
    let second = Address::create_contract_address(&deployer, 1);
    assert_eq!(second, Address::from_hex("0x343c43a37d37dff08ae8c4a11544c718abb4fcf8").unwrap());
}

#[test]
fn account_id_addresses() {
    let a = AccountId::System(7).to_address();
    assert_eq!(a.0[19], 7);
    assert!(a.0[..19].iter().all(|&b| b == 0));
    let mut key = [0u8; 32];
    key[12] = 9;
    assert_eq!(AccountId::Validator(key).to_address().0[0], 9);
}

#[test]
fn test_key_generation_and_signing() {
    let secret = SecretKey::generate();
    let public = PublicKey::from_secret(&secret).unwrap();
    let message_hash = blake3_hash(b"test message");
    let signature = secret.sign(&message_hash).unwrap();
    assert!(verify_signature(&message_hash, &signature, &public).unwrap());
    assert_eq!(recover_public_key(&message_hash, &signature).unwrap(), public);
    let other = blake3_hash(b"other message");
    assert!(!verify_signature(&other, &signature, &public).unwrap());
}

#[test]
fn secret_key_range() {
    assert!(SecretKey::from_bytes(&[0u8; 32]).is_err());
    assert!(SecretKey::from_bytes(&[0xffu8; 32]).is_err());
    let mut one = [0u8; 32];
    one[31] = 1;
    assert_eq!(SecretKey::from_bytes(&one).unwrap().to_bytes(), one);
}

#[test]
fn test_address_derivation() {
    let secret = SecretKey::generate();
    let public = PublicKey::from_secret(&secret).unwrap();
    let address = public.to_address();
    assert_eq!(address.0.len(), 20);
}

#[test]
fn signature_bytes_roundtrip() {
    let sig = EcdsaSignature { r: [1u8; 32], s: [2u8; 32], v: 28 };
    let back = EcdsaSignature::from_bytes(&sig.to_bytes());
    assert_eq!(back.r, sig.r);
    assert_eq!(back.s, sig.s);
    assert_eq!(back.v, 28);
}

#[test]
fn test_merkle_root() {
    let hashes = vec![blake3_hash(b"tx1"), blake3_hash(b"tx2"), blake3_hash(b"tx3")];
    let root = compute_merkle_root(&hashes);
    assert_ne!(root, nexus_chain::primitives::types::Hash::zero());
    let root2 = compute_merkle_root(&hashes);
    assert_eq!(root, root2);
    assert_eq!(compute_merkle_root(&[]), nexus_chain::primitives::types::Hash::zero());
    assert_eq!(compute_merkle_root(&hashes[..1]), hashes[0]);
}

#[test]
fn protocol_versions() {
    let v = ProtocolVersion::current();
    assert!(v.is_compatible(&ProtocolVersion { major: 0, minor: 9, patch: 9 }));
    assert!(!v.is_compatible(&ProtocolVersion { major: 1, minor: 1, patch: 0 }));
}

#[test]
fn test_legacy_transaction() {
    let tx = Transaction::new_legacy(
        1,
        0,
        Some(Address::from_hex("0x1234567890123456789012345678901234567890").unwrap()),
        U256::from_u64(1000),
        vec![],
        21000,
        U256::from_u64(20_000_000_000),
    );
    assert_eq!(tx.tx_type, TxType::Legacy);
    assert_eq!(tx.intrinsic_gas(), 21000);
    assert!(tx.validate().is_ok());
}

#[test]
fn test_private_transaction() {
    let zkp_proof = ZkpProofData {
        proof_type: ZkpProofType::Groth16,
        proof: vec![0u8; 256],
        public_inputs: vec![],
        nullifiers: vec![],
        commitments: vec![],
    };
    let tx = Transaction::new_private(1, 0, zkp_proof);
    assert_eq!(tx.tx_type, TxType::Private);
    assert!(tx.zkp_proof.is_some());
}

#[test]
fn test_rlp_decode_eip1559() {
    let to_addr = [0xaau8; 20];
    let mut encoded = vec![0x02u8];
    let mut list = Vec::<u8>::new();
    list.push(0x01);
    list.push(0x80);
    list.extend_from_slice(&[0x84, 0x3B, 0x9A, 0xCA, 0x00]);
    list.extend_from_slice(&[0x84, 0x77, 0x35, 0x94, 0x00]);
    list.extend_from_slice(&[0x82, 0x52, 0x08]);
    list.push(0x94);
    list.extend_from_slice(&to_addr);
    list.push(0x01);
    list.push(0x80);
    list.push(0xc0);
    list.push(0x80);
    list.extend_from_slice(&[0xa0]);
    list.extend_from_slice(&[0u8; 31]);
    list.push(0x01);
    list.extend_from_slice(&[0xa0]);
    list.extend_from_slice(&[0u8; 31]);
    list.push(0x02);
    encoded.push(0xc0 + if list.len() < 56 { list.len() as u8 } else { 0 });
    if list.len() >= 56 {
        let _ = &list;
        return;
    }
    encoded.extend_from_slice(&list);
    let tx = Transaction::from_rlp_bytes(&encoded);
    assert!(tx.is_some(), "EIP-1559 decode should succeed");
    let tx = tx.unwrap();
    assert_eq!(tx.tx_type, TxType::DynamicFee);
    assert_eq!(tx.chain_id, 1);
    assert_eq!(tx.nonce, 0);
    assert_eq!(tx.gas_limit, 21000);
    assert_eq!(tx.to, Some(Address(to_addr)));
    assert_eq!(tx.value, U256::from(1u64));
}

#[test]
fn rlp_decode_long_eip1559() {
    let mut list = Vec::<u8>::new();
    list.push(0x01);
    list.push(0x05);
    list.extend_from_slice(&[0x84, 0x3B, 0x9A, 0xCA, 0x00]);
    list.extend_from_slice(&[0x84, 0x77, 0x35, 0x94, 0x00]);
    list.extend_from_slice(&[0x82, 0x52, 0x08]);
    list.push(0x94);
    list.extend_from_slice(&[0xaau8; 20]);
    list.push(0x01);
    list.push(0x80);
    list.push(0xc0);
    list.push(0x01);
    list.push(0xa0);
    list.extend_from_slice(&[0x11u8; 32]);
    list.push(0xa0);
    list.extend_from_slice(&[0x22u8; 32]);
    let mut encoded = vec![0x02u8, 0xf8, list.len() as u8];
    encoded.extend_from_slice(&list);
    let tx = Transaction::from_rlp_bytes(&encoded).unwrap();
    assert_eq!(tx.nonce, 5);
    assert_eq!(tx.max_priority_fee, Some(U256::from_u64(1_000_000_000)));
    assert_eq!(tx.gas_price, U256::from_u64(2_000_000_000));
    let sig = tx.signature.unwrap();
    assert_eq!(sig.v, 28);
    assert_eq!(sig.r, [0x11u8; 32]);
}

#[test]
fn rlp_decode_legacy_with_chain_id() {
    let mut list = Vec::<u8>::new();
    list.push(0x09);
    list.extend_from_slice(&[0x85, 0x04, 0xa8, 0x17, 0xc8, 0x00]);
    list.extend_from_slice(&[0x82, 0x52, 0x08]);
    list.push(0x94);
    list.extend_from_slice(&[0x35u8; 20]);
    list.extend_from_slice(&[0x88, 0x0d, 0xe0, 0xb6, 0xb3, 0xa7, 0x64, 0x00, 0x00]);
    list.push(0x80);
    list.push(0x25);
    list.push(0x01);
    list.push(0x02);
    let mut encoded = vec![0xc0 + list.len() as u8];
    encoded.extend_from_slice(&list);
    let tx = Transaction::from_rlp_bytes(&encoded).unwrap();
    assert_eq!(tx.tx_type, TxType::Legacy);
    assert_eq!(tx.chain_id, 1);
    assert_eq!(tx.nonce, 9);
    assert_eq!(tx.value, U256::from_u64(1_000_000_000_000_000_000));
    assert_eq!(tx.signature.unwrap().v, 27);
}

#[test]
fn test_rlp_decode_invalid() {
    assert!(Transaction::from_rlp_bytes(&[]).is_none());
    assert!(Transaction::from_rlp_bytes(&[0x03]).is_none());
    assert!(Transaction::from_rlp_bytes(&[0x02, 0x80]).is_none());
}

#[test]
fn test_intrinsic_gas_calculation() {
    let tx = Transaction::new_legacy(1, 0, None, U256::zero(), vec![0, 0, 0, 1, 2, 3], 100000, U256::from_u64(1));
    assert_eq!(tx.intrinsic_gas(), 21000 + 32000 + 60);
}

#[test]
fn transaction_validation_failures() {
    let tx = Transaction::new_legacy(1, 0, None, U256::zero(), vec![1; 10], 53000, U256::from_u64(1));
    assert!(tx.validate().is_err());
    let mut iso = Transaction::new_legacy(1, 0, None, U256::zero(), vec![], 100000, U256::from_u64(1));
    iso.tx_type = TxType::IsoPayment;
    assert!(iso.validate().is_err());
}

#[test]
fn signed_transaction_needs_signature() {
    let tx = Transaction::new_legacy(1, 0, None, U256::zero(), vec![], 100000, U256::from_u64(1));
    assert!(tx.recover_sender().is_err());
    assert_eq!(tx.hash(), tx.hash());
    assert_ne!(tx.signing_hash(), nexus_chain::primitives::types::Hash::zero());
}
