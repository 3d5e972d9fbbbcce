use nexus_chain::evm::gas::GasSchedule;
use nexus_chain::evm::modexp::modexp;
use nexus_chain::evm::precompiles::{get_precompiles, PrecompileKind, addr, blake2f, ecrecover, identity, is_precompile, ripemd160, sha256};
use nexus_chain::evm::EvmError;

fn hex_bytes(s: &str) -> Vec<u8> {
    (0..s.len()).step_by(2).map(|i| u8::from_str_radix(&s[i..i + 2], 16).unwrap()).collect()
}

#[test]
fn test_is_precompile() {
    assert!(is_precompile(&addr(0x01)));
    assert!(is_precompile(&addr(0x09)));
    assert!(is_precompile(&addr(0x100)));
    assert!(!is_precompile(&addr(0x00)));
    assert!(!is_precompile(&addr(0x0A)));
    assert!(!is_precompile(&addr(0x200)));
}

#[test]
fn test_sha256_precompile() {
    let schedule = GasSchedule::default();
    let result = sha256(b"hello", 10000, &schedule).unwrap();
    assert_eq!(result.output.len(), 32);
}

#[test]
fn test_identity_precompile() {
    let schedule = GasSchedule::default();
    let input = b"test data";
    let result = identity(input, 10000, &schedule).unwrap();
    assert_eq!(result.output, input);
}

#[test]
fn test_modexp_simple() {
    let schedule = GasSchedule::default();
    let mut input = vec![0u8; 96];
    input[31] = 1;
    input[63] = 1;
    input[95] = 1;
    input.push(3);
    input.push(2);
    input.push(5);
    let result = modexp(&input, 10_000_000, &schedule).unwrap();
    assert_eq!(result.output, vec![4]);
}

#[test]
fn test_modexp_zero_exp() {
    let schedule = GasSchedule::default();
    let mut input = vec![0u8; 96];
    input[31] = 1;
    input[63] = 1;
    input[95] = 1;
    input.push(7);
    input.push(0);
    input.push(11);
    let result = modexp(&input, 10_000_000, &schedule).unwrap();
    assert_eq!(result.output, vec![1]);
}

#[test]
fn test_blake2f_known_vector() {
    let schedule = GasSchedule::default();
    let mut input = vec![0u8; 213];
    let iv: [u64; 8] = [
        0x6a09e667f3bcc908, 0xbb67ae8584caa73b,
        0x3c6ef372fe94f82b, 0xa54ff53a5f1d36f1,
        0x510e527fade682d1, 0x9b05688c2b3e6c1f,
        0x1f83d9abfb41bd6b, 0x5be0cd19137e2179,
    ];
    for (i, &word) in iv.iter().enumerate() {
        input[4 + i * 8..12 + i * 8].copy_from_slice(&word.to_le_bytes());
    }
    let result = blake2f(&input, 10_000_000, &schedule).unwrap();
    assert_eq!(result.output.len(), 64);
}

#[test]
fn test_sha256_precompile_digest_and_gas() {
    let schedule = GasSchedule::default();
    let result = sha256(b"hello", 10000, &schedule).unwrap();
    assert_eq!(result.output, hex_bytes("2cf24dba5fb0a30e26e83b2ac5b9e29e1b161e5c1fa7425e73043362938b9824"));
    assert_eq!(result.gas_used, schedule.sha256_base + schedule.sha256_word);
}

#[test]
fn test_ripemd160_precompile_is_left_padded() {
    let schedule = GasSchedule::default();
    let result = ripemd160(b"", 10000, &schedule).unwrap();
    assert_eq!(result.output.len(), 32);
    assert_eq!(&result.output[..12], &[0u8; 12]);
    assert_eq!(&result.output[12..], hex_bytes("9c1185a5c5e9fc54612808977ee8f548b2258d31").as_slice());
}

#[test]
fn test_identity_out_of_gas() {
    let schedule = GasSchedule::default();
    match identity(b"abc", 1, &schedule) {
        Err(EvmError::OutOfGas { used, limit }) => {
            assert_eq!(used, schedule.identity_base + schedule.identity_word);
            assert_eq!(limit, 1);
        }
        _ => panic!("expected out of gas"),
    }
}

#[test]
fn test_blake2f_eip152_twelve_rounds() {
    let schedule = GasSchedule::default();
    let mut input = vec![0u8, 0, 0, 12];
    input.extend(hex_bytes("48c9bdf267e6096a3ba7ca8485ae67bb2bf894fe72f36e3cf1361d5f3af54fa5d182e6ad7f520e511f6c3e2b8c68059b6bbd41fbabd9831f79217e1319cde05b"));
    let mut m = vec![0u8; 128];
    m[..3].copy_from_slice(b"abc");
    input.extend(m);
    input.extend(3u64.to_le_bytes());
    input.extend(0u64.to_le_bytes());
    input.push(1);
    assert_eq!(input.len(), 213);
    let result = blake2f(&input, 10_000_000, &schedule).unwrap();
    assert_eq!(result.output, hex_bytes("ba80a53f981c4d0d6a2797b69f12f6e94c212f14685ac4b74b12bb6fdbffa2d17d87c5392aab792dc252d5de4533cc9518d38aa8dbf1925ab92386edd4009923"));
    assert_eq!(result.gas_used, 12 * schedule.blake2f_round);
}

#[test]
fn test_blake2f_rejects_bad_length_and_flag() {
    let schedule = GasSchedule::default();
    assert!(matches!(blake2f(&[0u8; 10], 10_000_000, &schedule), Err(EvmError::PrecompileError(_))));
    let mut input = vec![0u8; 213];
    input[212] = 2;
    assert!(matches!(blake2f(&input, 10_000_000, &schedule), Err(EvmError::PrecompileError(_))));
}

#[test]
fn test_ecrecover_bad_v_gives_zero_word() {
    let schedule = GasSchedule::default();
    let mut input = vec![0u8; 128];
    input[63] = 29;
    let result = ecrecover(&input, 10_000, &schedule).unwrap();
    assert_eq!(result.output, vec![0u8; 32]);
}

#[test]
fn test_modexp_short_input_and_zero_modulus() {
    let schedule = GasSchedule::default();
    let short = modexp(&[1, 2, 3], 0, &schedule).unwrap();
    assert!(short.output.is_empty());
    assert_eq!(short.gas_used, 200);
    let mut input = vec![0u8; 96];
    input[31] = 1;
    input[63] = 1;
    input[95] = 2;
    input.extend_from_slice(&[3, 2, 0, 0]);
    let result = modexp(&input, 10_000_000, &schedule).unwrap();
    assert_eq!(result.output, vec![0, 0]);
}

#[test]
fn test_modexp_left_pads_result() {
    let schedule = GasSchedule::default();
    let mut input = vec![0u8; 96];
    input[31] = 1;
    input[63] = 1;
    input[95] = 3;
    input.extend_from_slice(&[2, 10, 0x00, 0x03, 0xe9]);
    let result = modexp(&input, 10_000_000, &schedule).unwrap();
    assert_eq!(result.output, vec![0, 0, 23]);
}

#[test]
fn precompile_table_follows_the_documented_numbering() {
    let table = get_precompiles();
    assert_eq!(table.len(), 15);
    let kind_at = |n: u64| table.iter().find(|(a, _)| a.0 == addr(n).0).map(|(_, k)| *k);
    for n in 1..=9u64 {
        assert!(kind_at(n).is_some());
    }
    assert_eq!(kind_at(0x100), Some(PrecompileKind::ZkpVerify));
    assert_eq!(kind_at(0x101), Some(PrecompileKind::Iso20022Parse));
    assert_eq!(kind_at(0x102), Some(PrecompileKind::DagGetVertex));
    assert_eq!(kind_at(0x103), Some(PrecompileKind::ZkpBatchVerify));
    assert_eq!(kind_at(0x104), Some(PrecompileKind::Iso20022Validate));
    assert_eq!(kind_at(0x105), Some(PrecompileKind::PoseidonHash));
    for (a, _) in table.iter() {
        assert!(is_precompile(a));
    }
}
