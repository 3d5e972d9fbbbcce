use nexus_chain::evm::gas::GasSchedule;
use nexus_chain::evm::precompiles::{bn_add, bn_mul, bn_pairing};
use nexus_chain::evm::EvmError;

fn hex_bytes(s: &str) -> Vec<u8> {
    (0..s.len()).step_by(2).map(|i| u8::from_str_radix(&s[i..i + 2], 16).unwrap()).collect()
}

fn generator() -> Vec<u8> {
    let mut g = vec![0u8; 64];
    g[31] = 1;
    g[63] = 2;
    g
}

const TWO_G: &str = "030644e72e131a029b85045b68181585d97816a916871ca8d3c208c16d87cfd315ed738c0e0a7c92e7845f96b2ae9c0a68a6a449e3538fc7ff3ebf7a5a18a2c4";

#[test]
fn test_bn_add_identity() {
    let schedule = GasSchedule::default();
    let input = vec![0u8; 128];
    let result = bn_add(&input, 10_000_000, &schedule).unwrap();
    assert_eq!(result.output, vec![0u8; 64]);
}

#[test]
fn test_bn_mul_zero_scalar() {
    let schedule = GasSchedule::default();
    let mut input = vec![0u8; 96];
    input[31] = 1;
    input[63] = 2;
    let result = bn_mul(&input, 10_000_000, &schedule).unwrap();
    assert_eq!(result.output, vec![0u8; 64]);
}

#[test]
fn test_bn_pairing_empty() {
    let schedule = GasSchedule::default();
    let result = bn_pairing(&[], 10_000_000, &schedule).unwrap();
    assert_eq!(result.output[31], 1);
}

#[test]
fn bn_add_doubles_the_generator() {
    let schedule = GasSchedule::default();
    let mut input = generator();
    input.extend(generator());
    let result = bn_add(&input, 10_000_000, &schedule).unwrap();
    assert_eq!(result.output, hex_bytes(TWO_G));
    assert_eq!(result.gas_used, schedule.bn_add);
}

#[test]
fn bn_add_short_input_is_padded() {
    let schedule = GasSchedule::default();
    let result = bn_add(&generator(), 10_000_000, &schedule).unwrap();
    assert_eq!(result.output, generator());
}

#[test]
fn bn_mul_by_two_matches_addition() {
    let schedule = GasSchedule::default();
    let mut input = generator();
    let mut scalar = vec![0u8; 32];
    scalar[31] = 2;
    input.extend(scalar);
    let result = bn_mul(&input, 10_000_000, &schedule).unwrap();
    assert_eq!(result.output, hex_bytes(TWO_G));
    assert_eq!(result.gas_used, schedule.bn_mul);
}

#[test]
fn bn_points_off_the_curve_are_refused() {
    let schedule = GasSchedule::default();
    let mut input = vec![0u8; 128];
    input[31] = 1;
    input[63] = 3;
    match bn_add(&input, 10_000_000, &schedule) {
        Err(EvmError::PrecompileError(m)) => assert_eq!(m, "BN_ADD: invalid G1 point p1"),
        _ => panic!("expected an error"),
    }
    let mut second = generator();
    second.extend(&input[0..64]);
    match bn_add(&second, 10_000_000, &schedule) {
        Err(EvmError::PrecompileError(m)) => assert_eq!(m, "BN_ADD: invalid G1 point p2"),
        _ => panic!("expected an error"),
    }
    match bn_mul(&input[0..96], 10_000_000, &schedule) {
        Err(EvmError::PrecompileError(m)) => assert_eq!(m, "BN_MUL: invalid G1 point"),
        _ => panic!("expected an error"),
    }
}

#[test]
fn bn_gas_is_checked_first() {
    let schedule = GasSchedule::default();
    match bn_add(&[], 149, &schedule) {
        Err(EvmError::OutOfGas { used, limit }) => assert_eq!((used, limit), (150, 149)),
        _ => panic!("expected out of gas"),
    }
    match bn_mul(&[], 10, &schedule) {
        Err(EvmError::OutOfGas { used, limit }) => assert_eq!((used, limit), (6000, 10)),
        _ => panic!("expected out of gas"),
    }
    match bn_pairing(&vec![0u8; 192], 79_000 - 1, &schedule) {
        Err(EvmError::OutOfGas { used, limit }) => assert_eq!((used, limit), (79_000, 78_999)),
        _ => panic!("expected out of gas"),
    }
}

#[test]
fn bn_pairing_length_and_infinity_pairs() {
    let schedule = GasSchedule::default();
    match bn_pairing(&[0u8; 100], 10_000_000, &schedule) {
        Err(EvmError::PrecompileError(m)) => assert_eq!(m, "BN_PAIRING: input not multiple of 192 bytes"),
        _ => panic!("expected an error"),
    }
    let mut input = generator();
    input.extend(vec![0u8; 128]);
    let result = bn_pairing(&input, 10_000_000, &schedule).unwrap();
    assert_eq!(result.output[31], 1);
    assert_eq!(result.gas_used, 79_000);
    let mut bad = vec![0u8; 192];
    bad[31] = 1;
    bad[63] = 3;
    match bn_pairing(&bad, 10_000_000, &schedule) {
        Err(EvmError::PrecompileError(m)) => assert_eq!(m, "BN_PAIRING: invalid G1 point"),
        _ => panic!("expected an error"),
    }
    let mut bad2 = generator();
    let mut g2 = vec![0u8; 128];
    g2[31] = 1;
    bad2.extend(g2);
    match bn_pairing(&bad2, 10_000_000, &schedule) {
        Err(EvmError::PrecompileError(m)) => assert_eq!(m, "BN_PAIRING: invalid G2 point"),
        _ => panic!("expected an error"),
    }
}
