//! Precompiled contracts: the standard Ethereum set (ecrecover, SHA-256,
//! RIPEMD-160, identity, modexp, BN254 operations, BLAKE2F) and this chain's
//! extensions, with their gas costs.
use vstd::prelude::*;
use crate::evm::EvmError;
use crate::evm::gas::GasSchedule;
use crate::primitives::address::{Address, push_all};
use crate::primitives::hashing::{keccak256, keccak256_spec, sha256_digest, sha256_spec, ripemd160_digest, ripemd160_spec};
use crate::primitives::crypto::{scalar_in_range, is_valid_scalar, recover_prehash, ecdsa_recover_spec};
use crate::evm::bn254::{G1Point, G2Point, PairingPair, parse_g1, parse_g2, parse_g1_spec, parse_g2_spec, g1_add, g1_mul, pairing_check, serialize_g1, g1_bytes, pair_view, bn254_g1_add, bn254_g1_mul, bn254_pairing_check};

verus! {

/// First and last standard precompile numbers.
pub const PRECOMPILE_START: u64 = 0x01;
pub const PRECOMPILE_END: u64 = 0x09;
/// First and last numbers of this chain's precompiles.
pub const NEXUS_PRECOMPILE_START: u64 = 0x100;
pub const NEXUS_PRECOMPILE_END: u64 = 0x110;

/// Output and gas of a precompile run.
pub struct PrecompileResult {
    pub output: Vec<u8>,
    pub gas_used: u64,
}

impl PrecompileResult {
    pub fn ok(output: Vec<u8>, gas_used: u64) -> (r: Result<Self, EvmError>)
        ensures r matches Ok(p) && p.output@ == output@ && p.gas_used == gas_used,
    {
        Ok(PrecompileResult { output, gas_used })
    }

    pub fn error(msg: &str) -> (r: Result<Self, EvmError>)
        ensures r matches Err(EvmError::PrecompileError(m)) && m@ == msg@,
    {
        Err(EvmError::PrecompileError(msg.to_owned()))
    }
}

/// The precompiled contracts.
#[derive(Clone, Copy, Debug, PartialEq, Eq, Structural)]
pub enum PrecompileKind {
    Ecrecover,
    Sha256,
    Ripemd160,
    Identity,
    Modexp,
    BnAdd,
    BnMul,
    BnPairing,
    Blake2f,
    ZkpVerify,
    ZkpBatchVerify,
    Iso20022Parse,
    Iso20022Validate,
    DagGetVertex,
    PoseidonHash,
}

/// The address of precompile number `n` (its low two bytes).
pub open spec fn precompile_address_spec(n: u64) -> Seq<u8> {
    Seq::new(20, |i: int| if i == 19 { (n % 256) as u8 } else if i == 18 { ((n / 256) % 256) as u8 } else { 0u8 })
}

/// The address of precompile number `n`.
pub fn addr(n: u64) -> (r: Address)
    ensures r.0@ == precompile_address_spec(n),
{
    let mut bytes = [0u8; 20];
    bytes[19] = (n % 256) as u8;
    bytes[18] = ((n / 256) % 256) as u8;
    assert(bytes@ =~= precompile_address_spec(n));
    Address::new(bytes)
}

/// Every precompile kind, once each, in address order of the standard ones
/// and then the chain's own.
pub open spec fn precompile_kinds() -> Seq<PrecompileKind> {
    seq![
        PrecompileKind::Ecrecover, PrecompileKind::Sha256, PrecompileKind::Ripemd160, PrecompileKind::Identity,
        PrecompileKind::Modexp, PrecompileKind::BnAdd, PrecompileKind::BnMul, PrecompileKind::BnPairing,
        PrecompileKind::Blake2f, PrecompileKind::ZkpVerify, PrecompileKind::ZkpBatchVerify,
        PrecompileKind::Iso20022Parse, PrecompileKind::Iso20022Validate, PrecompileKind::DagGetVertex,
        PrecompileKind::PoseidonHash,
    ]
}

/// The precompiles and their addresses.
pub fn get_precompiles() -> (r: Vec<(Address, PrecompileKind)>)
    ensures
        r@.len() == 15,
        forall|i: int| 0 <= i < 15 ==> (#[trigger] r@[i]).1 == precompile_kinds()[i],
        forall|i: int| 0 <= i < 15 ==> (#[trigger] r@[i]).0.0@ == precompile_address_spec(precompile_number(r@[i].1)),
        forall|i: int, j: int| 0 <= i < j < 15 ==> (#[trigger] r@[i]).1 != (#[trigger] r@[j]).1,
{
    let kinds = vec![
        PrecompileKind::Ecrecover, PrecompileKind::Sha256, PrecompileKind::Ripemd160, PrecompileKind::Identity,
        PrecompileKind::Modexp, PrecompileKind::BnAdd, PrecompileKind::BnMul, PrecompileKind::BnPairing,
        PrecompileKind::Blake2f, PrecompileKind::ZkpVerify, PrecompileKind::ZkpBatchVerify,
        PrecompileKind::Iso20022Parse, PrecompileKind::Iso20022Validate, PrecompileKind::DagGetVertex,
        PrecompileKind::PoseidonHash,
    ];
    assert(kinds@ =~= precompile_kinds());
    let mut out: Vec<(Address, PrecompileKind)> = Vec::new();
    let mut i: usize = 0;
    while i < kinds.len()
        invariant
            kinds@.len() == 15,
            i <= 15,
            kinds@ == precompile_kinds(),
            out@.len() == i,
            forall|j: int| 0 <= j < i ==> (#[trigger] out@[j]).1 == precompile_kinds()[j],
            forall|j: int| 0 <= j < i ==> (#[trigger] out@[j]).0.0@ == precompile_address_spec(precompile_number(out@[j].1)),
        decreases 15 - i,
    {
        let k = kinds[i];
        out.push((addr(number_of(k)), k));
        i = i + 1;
    }
    proof {
        assert forall|i: int, j: int| 0 <= i < j < 15 implies (#[trigger] out@[i]).1 != (#[trigger] out@[j]).1 by {
            assert(precompile_number(out@[i].1) != precompile_number(out@[j].1));
        }
    }
    out
}

/// The number (address) of each precompile.
pub open spec fn precompile_number(k: PrecompileKind) -> u64 {
    match k {
        PrecompileKind::Ecrecover => 0x01,
        PrecompileKind::Sha256 => 0x02,
        PrecompileKind::Ripemd160 => 0x03,
        PrecompileKind::Identity => 0x04,
        PrecompileKind::Modexp => 0x05,
        PrecompileKind::BnAdd => 0x06,
        PrecompileKind::BnMul => 0x07,
        PrecompileKind::BnPairing => 0x08,
        PrecompileKind::Blake2f => 0x09,
        PrecompileKind::ZkpVerify => 0x100,
        PrecompileKind::ZkpBatchVerify => 0x103,
        PrecompileKind::Iso20022Parse => 0x101,
        PrecompileKind::Iso20022Validate => 0x104,
        PrecompileKind::DagGetVertex => 0x102,
        PrecompileKind::PoseidonHash => 0x105,
    }
}

fn number_of(k: PrecompileKind) -> (r: u64)
    ensures r == precompile_number(k),
{
    match k {
        PrecompileKind::Ecrecover => 0x01,
        PrecompileKind::Sha256 => 0x02,
        PrecompileKind::Ripemd160 => 0x03,
        PrecompileKind::Identity => 0x04,
        PrecompileKind::Modexp => 0x05,
        PrecompileKind::BnAdd => 0x06,
        PrecompileKind::BnMul => 0x07,
        PrecompileKind::BnPairing => 0x08,
        PrecompileKind::Blake2f => 0x09,
        PrecompileKind::ZkpVerify => 0x100,
        PrecompileKind::ZkpBatchVerify => 0x103,
        PrecompileKind::Iso20022Parse => 0x101,
        PrecompileKind::Iso20022Validate => 0x104,
        PrecompileKind::DagGetVertex => 0x102,
        PrecompileKind::PoseidonHash => 0x105,
    }
}

/// An address is a precompile: zero but for its last two bytes, which hold
/// 0x01–0x09 or 0x100–0x110.
pub open spec fn is_precompile_spec(a: Seq<u8>) -> bool {
    let val = a[18] as int * 256 + a[19] as int;
    &&& forall|i: int| 0 <= i < 18 ==> a[i] == 0
    &&& (1 <= val <= 9 || 0x100 <= val <= 0x110)
}

pub fn is_precompile(a: &Address) -> (r: bool)
    ensures r == is_precompile_spec(a.0@),
{
    let bytes = a.as_bytes();
    let mut i: usize = 0;
    while i < 18
        invariant
            i <= 18,
            *bytes == a.0,
            forall|j: int| 0 <= j < i ==> a.0@[j] == 0,
        decreases 18 - i,
    {
        if bytes[i] != 0 {
            return false;
        }
        i = i + 1;
    }
    let val: u64 = (bytes[18] as u64) * 256 + (bytes[19] as u64);
    (PRECOMPILE_START <= val && val <= PRECOMPILE_END) || (NEXUS_PRECOMPILE_START <= val && val <= NEXUS_PRECOMPILE_END)
}

/// Gas of a per-word precompile: base plus a cost per 32-byte word.
pub open spec fn word_gas(len: nat, base: u64, per_word: u64) -> int {
    base + ((len + 31) / 32) * per_word
}

fn word_gas_exec(len: usize, base: u64, per_word: u64) -> (r: u64)
    requires
        len + 31 <= u64::MAX,
        word_gas(len as nat, base, per_word) <= u64::MAX,
    ensures r == word_gas(len as nat, base, per_word),
{
    let words: u64 = (len as u64 + 31) / 32;
    proof {
        assert(0 <= words * per_word) by (nonlinear_arith);
    }
    base + words * per_word
}

/// 0x04: copies its input.
pub fn identity(input: &[u8], gas_limit: u64, schedule: &GasSchedule) -> (r: Result<PrecompileResult, EvmError>)
    requires
        input@.len() + 31 <= u64::MAX,
        word_gas(input@.len(), schedule.identity_base, schedule.identity_word) <= u64::MAX,
    ensures
        match r {
            Ok(p) => gas_limit >= word_gas(input@.len(), schedule.identity_base, schedule.identity_word)
                && p.output@ == input@
                && p.gas_used == word_gas(input@.len(), schedule.identity_base, schedule.identity_word),
            Err(e) => gas_limit < word_gas(input@.len(), schedule.identity_base, schedule.identity_word)
                && e == (EvmError::OutOfGas {
                    used: word_gas(input@.len(), schedule.identity_base, schedule.identity_word) as u64,
                    limit: gas_limit,
                }),
        },
{
    let gas = word_gas_exec(input.len(), schedule.identity_base, schedule.identity_word);
    if gas_limit < gas {
        return Err(EvmError::OutOfGas { used: gas, limit: gas_limit });
    }
    PrecompileResult::ok(vstd::slice::slice_to_vec(input), gas)
}

/// 0x02: the SHA-256 digest of the input.
pub fn sha256(input: &[u8], gas_limit: u64, schedule: &GasSchedule) -> (r: Result<PrecompileResult, EvmError>)
    requires
        input@.len() + 31 <= u64::MAX,
        word_gas(input@.len(), schedule.sha256_base, schedule.sha256_word) <= u64::MAX,
    ensures
        match r {
            Ok(p) => gas_limit >= word_gas(input@.len(), schedule.sha256_base, schedule.sha256_word)
                && p.output@ == sha256_spec(input@)
                && p.gas_used == word_gas(input@.len(), schedule.sha256_base, schedule.sha256_word),
            Err(e) => gas_limit < word_gas(input@.len(), schedule.sha256_base, schedule.sha256_word)
                && e is OutOfGas,
        },
{
    let gas = word_gas_exec(input.len(), schedule.sha256_base, schedule.sha256_word);
    if gas_limit < gas {
        return Err(EvmError::OutOfGas { used: gas, limit: gas_limit });
    }
    let d = sha256_digest(input);
    PrecompileResult::ok(vstd::slice::slice_to_vec(d.as_slice()), gas)
}

/// 0x03: the RIPEMD-160 digest of the input, left-padded to 32 bytes.
pub fn ripemd160(input: &[u8], gas_limit: u64, schedule: &GasSchedule) -> (r: Result<PrecompileResult, EvmError>)
    requires
        input@.len() + 31 <= u64::MAX,
        word_gas(input@.len(), schedule.ripemd160_base, schedule.ripemd160_word) <= u64::MAX,
    ensures
        match r {
            Ok(p) => gas_limit >= word_gas(input@.len(), schedule.ripemd160_base, schedule.ripemd160_word)
                && p.output@ == Seq::new(12, |i: int| 0u8) + ripemd160_spec(input@)
                && p.gas_used == word_gas(input@.len(), schedule.ripemd160_base, schedule.ripemd160_word),
            Err(e) => gas_limit < word_gas(input@.len(), schedule.ripemd160_base, schedule.ripemd160_word)
                && e is OutOfGas,
        },
{
    let gas = word_gas_exec(input.len(), schedule.ripemd160_base, schedule.ripemd160_word);
    if gas_limit < gas {
        return Err(EvmError::OutOfGas { used: gas, limit: gas_limit });
    }
    let d = ripemd160_digest(input);
    let mut out: Vec<u8> = vec![0u8; 12];
    assert(out@ =~= Seq::new(12, |i: int| 0u8));
    push_all(&mut out, d.as_slice());
    PrecompileResult::ok(out, gas)
}

/// What ecrecover answers for a (zero-padded) 128-byte input: the address of
/// the recovered key left-padded to 32 bytes, or 32 zero bytes when v is not
/// 27 or 28, the signature components are out of range, or recovery fails.
pub open spec fn ecrecover_output(input: Seq<u8>) -> Seq<u8> {
    let hash = input.subrange(0, 32);
    let v = input[63];
    let r = input.subrange(64, 96);
    let s = input.subrange(96, 128);
    let zeros = Seq::new(32, |i: int| 0u8);
    if v != 27 && v != 28 {
        zeros
    } else if !scalar_in_range(r) || !scalar_in_range(s) {
        zeros
    } else {
        match ecdsa_recover_spec(hash, r, s, (v - 27) as u8) {
            None => zeros,
            Some(k) => Seq::new(12, |i: int| 0u8) + keccak256_spec(k).subrange(12, 32),
        }
    }
}

/// The input padded with zeros to at least 128 bytes.
pub open spec fn pad_to_128(input: Seq<u8>) -> Seq<u8> {
    if input.len() < 128 { input + Seq::new((128 - input.len()) as nat, |i: int| 0u8) } else { input }
}

fn copy_array32(b: &[u8], off: usize) -> (r: [u8; 32])
    requires off + 32 <= b@.len(),
    ensures r@ == b@.subrange(off as int, off + 32),
{
    let mut a = [0u8; 32];
    let mut i: usize = 0;
    let n: usize = b.len();
    while i < 32
        invariant
            i <= 32,
            n == b@.len(),
            off + 32 <= b@.len(),
            forall|j: int| 0 <= j < i ==> a@[j] == b@[off + j],
        decreases 32 - i,
    {
        a[i] = b[off + i];
        i = i + 1;
    }
    assert(a@ =~= b@.subrange(off as int, off + 32));
    a
}

/// 0x01: recovers the signer of a hash from (hash, v, r, s).
pub fn ecrecover(input: &[u8], gas_limit: u64, schedule: &GasSchedule) -> (r: Result<PrecompileResult, EvmError>)
    ensures
        match r {
            Ok(p) => gas_limit >= schedule.ecrecover && p.gas_used == schedule.ecrecover
                && p.output@ == ecrecover_output(pad_to_128(input@)),
            Err(e) => gas_limit < schedule.ecrecover
                && e == (EvmError::OutOfGas { used: schedule.ecrecover, limit: gas_limit }),
        },
{
    if gas_limit < schedule.ecrecover {
        return Err(EvmError::OutOfGas { used: schedule.ecrecover, limit: gas_limit });
    }
    let mut padded: Vec<u8> = vstd::slice::slice_to_vec(input);
    while padded.len() < 128
        invariant
            input@.len() < 128 ==> padded@ == input@ + Seq::new((padded@.len() - input@.len()) as nat, |i: int| 0u8),
            input@.len() >= 128 ==> padded@ == input@,
            padded@.len() >= input@.len(),
            input@.len() < 128 ==> padded@.len() <= 128,
        decreases 128 - padded@.len(),
    {
        padded.push(0);
        assert(padded@ =~= input@ + Seq::new((padded@.len() - input@.len()) as nat, |i: int| 0u8));
    }
    assert(padded@ =~= pad_to_128(input@));
    let zeros: Vec<u8> = vec![0u8; 32];
    assert(zeros@ =~= Seq::new(32, |i: int| 0u8));
    let hash = copy_array32(padded.as_slice(), 0);
    let v = padded[63];
    let rr = copy_array32(padded.as_slice(), 64);
    let ss = copy_array32(padded.as_slice(), 96);
    if v != 27 && v != 28 {
        return PrecompileResult::ok(zeros, schedule.ecrecover);
    }
    if !is_valid_scalar(&rr) || !is_valid_scalar(&ss) {
        return PrecompileResult::ok(zeros, schedule.ecrecover);
    }
    match recover_prehash(&hash, &rr, &ss, v - 27) {
        None => PrecompileResult::ok(zeros, schedule.ecrecover),
        Some(k) => {
            let h = keccak256(k.as_slice());
            let mut out: Vec<u8> = vec![0u8; 12];
            let mut i: usize = 12;
            while i < 32
                invariant
                    12 <= i <= 32,
                    out@ == Seq::new(12, |j: int| 0u8) + h@.subrange(12, i as int),
                decreases 32 - i,
            {
                out.push(h[i]);
                assert(out@ =~= Seq::new(12, |j: int| 0u8) + h@.subrange(12, i + 1));
                i = i + 1;
            }
            PrecompileResult::ok(out, schedule.ecrecover)
        },
    }
}

/// The first `n` bytes of the input, padded with zeros.
pub open spec fn pad_to(input: Seq<u8>, n: int) -> Seq<u8> {
    Seq::new(n as nat, |i: int| if i < input.len() { input[i] } else { 0u8 })
}

fn padded_copy(input: &[u8], n: usize) -> (r: Vec<u8>)
    ensures r@ == pad_to(input@, n as int),
{
    let mut out: Vec<u8> = Vec::new();
    let mut i: usize = 0;
    while i < n
        invariant i <= n, out@ == pad_to(input@, i as int),
        decreases n - i,
    {
        if i < input.len() { out.push(input[i]); } else { out.push(0); }
        assert(out@ =~= pad_to(input@, i + 1));
        i = i + 1;
    }
    out
}

/// What BN_ADD makes of an input: the encoded sum of its two points, or the
/// message for the first that is not a point.
pub open spec fn bn_add_output(input: Seq<u8>) -> Result<Seq<u8>, Seq<char>> {
    let p = pad_to(input, 128);
    match parse_g1_spec(p.subrange(0, 64)) {
        None => Err("BN_ADD: invalid G1 point p1"@),
        Some(a) => match parse_g1_spec(p.subrange(64, 128)) {
            None => Err("BN_ADD: invalid G1 point p2"@),
            Some(b) => Ok(g1_bytes(bn254_g1_add(a, b))),
        },
    }
}

/// 0x06: adds two points of BN254's G1 (EIP-196).
pub fn bn_add(input: &[u8], gas_limit: u64, schedule: &GasSchedule) -> (r: Result<PrecompileResult, EvmError>)
    ensures
        gas_limit < schedule.bn_add ==> r == Err::<PrecompileResult, EvmError>(EvmError::OutOfGas { used: schedule.bn_add, limit: gas_limit }),
        gas_limit >= schedule.bn_add ==> match bn_add_output(input@) {
            Ok(out) => r matches Ok(p) && p.output@ == out && p.gas_used == schedule.bn_add,
            Err(m) => r matches Err(EvmError::PrecompileError(e)) && e@ == m,
        },
{
    if gas_limit < schedule.bn_add {
        return Err(EvmError::OutOfGas { used: schedule.bn_add, limit: gas_limit });
    }
    let padded = padded_copy(input, 128);
    let p1 = match parse_g1(padded.as_slice(), 0) {
        Some(p) => p,
        None => { return PrecompileResult::error("BN_ADD: invalid G1 point p1"); },
    };
    let p2 = match parse_g1(padded.as_slice(), 64) {
        Some(p) => p,
        None => { return PrecompileResult::error("BN_ADD: invalid G1 point p2"); },
    };
    proof {
        assert(padded@.subrange(0, 64) == pad_to(input@, 128).subrange(0, 64));
    }
    let sum = g1_add(&p1, &p2);
    PrecompileResult::ok(serialize_g1(&sum), schedule.bn_add)
}

/// What BN_MUL makes of an input: the encoded product of its point and
/// scalar, or the message when the point is not one.
pub open spec fn bn_mul_output(input: Seq<u8>) -> Result<Seq<u8>, Seq<char>> {
    let p = pad_to(input, 96);
    match parse_g1_spec(p.subrange(0, 64)) {
        None => Err("BN_MUL: invalid G1 point"@),
        Some(a) => Ok(g1_bytes(bn254_g1_mul(a, p.subrange(64, 96)))),
    }
}

/// 0x07: multiplies a point of BN254's G1 by a scalar (EIP-196).
pub fn bn_mul(input: &[u8], gas_limit: u64, schedule: &GasSchedule) -> (r: Result<PrecompileResult, EvmError>)
    ensures
        gas_limit < schedule.bn_mul ==> r == Err::<PrecompileResult, EvmError>(EvmError::OutOfGas { used: schedule.bn_mul, limit: gas_limit }),
        gas_limit >= schedule.bn_mul ==> match bn_mul_output(input@) {
            Ok(out) => r matches Ok(p) && p.output@ == out && p.gas_used == schedule.bn_mul,
            Err(m) => r matches Err(EvmError::PrecompileError(e)) && e@ == m,
        },
{
    if gas_limit < schedule.bn_mul {
        return Err(EvmError::OutOfGas { used: schedule.bn_mul, limit: gas_limit });
    }
    let padded = padded_copy(input, 96);
    let p = match parse_g1(padded.as_slice(), 0) {
        Some(p) => p,
        None => { return PrecompileResult::error("BN_MUL: invalid G1 point"); },
    };
    let scalar = copy_array32(padded.as_slice(), 64);
    let product = g1_mul(&p, &scalar);
    PrecompileResult::ok(serialize_g1(&product), schedule.bn_mul)
}

/// The finite pairs among the first `k` 192-byte chunks of the input, or the
/// message for the first chunk that does not hold two points.
pub open spec fn pairing_pairs(input: Seq<u8>, k: nat) -> Result<Seq<Seq<Seq<u8>>>, Seq<char>>
    decreases k,
{
    if k == 0 {
        Ok(Seq::empty())
    } else {
        match pairing_pairs(input, (k - 1) as nat) {
            Err(m) => Err(m),
            Ok(ps) => {
                let chunk = input.subrange((k - 1) * 192, (k * 192) as int);
                match parse_g1_spec(chunk.subrange(0, 64)) {
                    None => Err("BN_PAIRING: invalid G1 point"@),
                    Some(a) => match parse_g2_spec(chunk.subrange(64, 192)) {
                        None => Err("BN_PAIRING: invalid G2 point"@),
                        Some(b) => match (a, b) {
                            (Some((x, y)), Some((x0, x1, y0, y1))) => Ok(ps.push(seq![x, y, x0, x1, y0, y1])),
                            _ => Ok(ps),
                        },
                    },
                }
            },
        }
    }
}

proof fn lemma_pairing_pairs_err(input: Seq<u8>, k: nat, k2: nat)
    requires pairing_pairs(input, k) is Err, k <= k2,
    ensures pairing_pairs(input, k2) == pairing_pairs(input, k),
    decreases k2 - k,
{
    if k < k2 {
        lemma_pairing_pairs_err(input, k, (k2 - 1) as nat);
    }
}

/// The gas of a pairing check over an input of `len` bytes.
pub open spec fn bn_pairing_gas(len: nat, s: GasSchedule) -> int {
    s.bn_pairing_base + (len / 192) * s.bn_pairing_point
}

/// The 32-byte result word: 1 for success, 0 otherwise.
pub open spec fn result_word(ok: bool) -> Seq<u8> {
    Seq::new(32, |i: int| if i == 31 && ok { 1u8 } else { 0u8 })
}

/// 0x08: checks that the product of the pairings of the input's
/// (G1, G2) pairs is one (EIP-197); pairs holding the point at infinity are
/// left out.
pub fn bn_pairing(input: &[u8], gas_limit: u64, schedule: &GasSchedule) -> (r: Result<PrecompileResult, EvmError>)
    requires bn_pairing_gas(input@.len(), *schedule) <= u64::MAX,
    ensures
        input@.len() % 192 != 0 ==> (r matches Err(EvmError::PrecompileError(e)) && e@ == "BN_PAIRING: input not multiple of 192 bytes"@),
        input@.len() % 192 == 0 && gas_limit < bn_pairing_gas(input@.len(), *schedule) ==>
            r == Err::<PrecompileResult, EvmError>(EvmError::OutOfGas { used: bn_pairing_gas(input@.len(), *schedule) as u64, limit: gas_limit }),
        input@.len() % 192 == 0 && gas_limit >= bn_pairing_gas(input@.len(), *schedule) ==> match pairing_pairs(input@, input@.len() / 192) {
            Err(m) => r matches Err(EvmError::PrecompileError(e)) && e@ == m,
            Ok(ps) => match bn254_pairing_check(ps) {
                Some(ok) => r matches Ok(p) && p.output@ == result_word(ok) && p.gas_used == bn_pairing_gas(input@.len(), *schedule),
                None => r matches Err(EvmError::PrecompileError(e)) && e@ == "BN_PAIRING: pairing has no result"@,
            },
        },
{
    if input.len() % 192 != 0 {
        return PrecompileResult::error("BN_PAIRING: input not multiple of 192 bytes");
    }
    let num_pairs: usize = input.len() / 192;
    let gas: u64 = schedule.bn_pairing_base + (num_pairs as u64) * schedule.bn_pairing_point;
    if gas_limit < gas {
        return Err(EvmError::OutOfGas { used: gas, limit: gas_limit });
    }
    let mut pairs: Vec<PairingPair> = Vec::new();
    let mut i: usize = 0;
    assert(pairs@.map_values(|p: PairingPair| pair_view(p)) =~= Seq::<Seq<Seq<u8>>>::empty());
    while i < num_pairs
        invariant
            i <= num_pairs,
            gas == bn_pairing_gas(input@.len(), *schedule),
            gas_limit >= gas,
            num_pairs == input@.len() / 192,
            input@.len() % 192 == 0,
            pairing_pairs(input@, i as nat) == Ok::<Seq<Seq<Seq<u8>>>, Seq<char>>(pairs@.map_values(|p: PairingPair| pair_view(p))),
        decreases num_pairs - i,
    {
        let n: usize = input.len();
        assert((i + 1) * 192 <= n) by (nonlinear_arith)
            requires i < num_pairs, num_pairs == n / 192, n % 192 == 0;
        let off: usize = i * 192;
        let ghost chunk = input@.subrange(off as int, off + 192);
        let ghost ps0 = pairs@;
        proof {
            assert(((i + 1) * 192) as int == off + 192);
            assert(input@.subrange(off as int, off + 64) =~= chunk.subrange(0, 64));
            assert(input@.subrange(off + 64, off + 192) =~= chunk.subrange(64, 192));
        }
        let p1 = match parse_g1(input, off) {
            Some(p) => p,
            None => {
                proof { lemma_pairing_pairs_err(input@, (i + 1) as nat, num_pairs as nat); }
                return PrecompileResult::error("BN_PAIRING: invalid G1 point");
            },
        };
        let p2 = match parse_g2(input, off + 64) {
            Some(p) => p,
            None => {
                proof { lemma_pairing_pairs_err(input@, (i + 1) as nat, num_pairs as nat); }
                return PrecompileResult::error("BN_PAIRING: invalid G2 point");
            },
        };
        match (p1, p2) {
            (G1Point::Affine(x, y), G2Point::Affine { x0, x1, y0, y1 }) => {
                let pp = PairingPair { g1x: x, g1y: y, g2x0: x0, g2x1: x1, g2y0: y0, g2y1: y1 };
                pairs.push(pp);
                proof {
                    assert(pairs@.map_values(|p: PairingPair| pair_view(p)) =~= ps0.map_values(|p: PairingPair| pair_view(p)).push(pair_view(pp)));
                }
            },
            _ => {},
        }
        i = i + 1;
    }
    match pairing_check(pairs.as_slice()) {
        Some(ok) => {
            let mut out: Vec<u8> = vec![0u8; 32];
            if ok {
                out.set(31, 1);
            }
            assert(out@ =~= result_word(ok));
            PrecompileResult::ok(out, gas)
        },
        None => PrecompileResult::error("BN_PAIRING: pairing has no result"),
    }
}

// BLAKE2b compression (RFC 7693, with the rounds of EIP-152).

/// The BLAKE2b initialisation vector.
pub open spec fn blake2b_iv() -> Seq<u64> {
    seq![0x6a09e667f3bcc908u64, 0xbb67ae8584caa73bu64, 0x3c6ef372fe94f82bu64, 0xa54ff53a5f1d36f1u64,
        0x510e527fade682d1u64, 0x9b05688c2b3e6c1fu64, 0x1f83d9abfb41bd6bu64, 0x5be0cd19137e2179u64]
}

/// The message schedule σ, ten rows of sixteen.
pub open spec fn sigma_table() -> Seq<int> {
    seq![0, 1, 2, 3, 4, 5, 6, 7, 8, 9, 10, 11, 12, 13, 14, 15, 14, 10, 4, 8, 9, 15, 13, 6, 1, 12, 0, 2, 11, 7, 5, 3, 11, 8, 12, 0, 5, 2, 15, 13, 10, 14, 3, 6, 7, 1, 9, 4, 7, 9, 3, 1, 13, 12, 11, 14, 2, 6, 5, 10, 4, 0, 15, 8, 9, 0, 5, 7, 2, 4, 10, 15, 14, 1, 11, 12, 6, 8, 3, 13, 2, 12, 6, 10, 0, 11, 8, 3, 4, 13, 7, 5, 15, 14, 1, 9, 12, 5, 1, 15, 14, 13, 4, 10, 0, 7, 6, 3, 9, 2, 8, 11, 13, 11, 7, 14, 12, 1, 3, 9, 5, 0, 15, 4, 8, 6, 2, 10, 6, 15, 14, 9, 11, 3, 0, 8, 12, 2, 13, 7, 1, 4, 10, 5, 10, 2, 8, 4, 7, 6, 1, 5, 15, 11, 9, 14, 3, 12, 13, 0]
}

/// Rotation right by `n` bits (0 < n < 64).
pub open spec fn rotr64(x: u64, n: u64) -> u64 {
    (x >> n) | (x << ((64 - n) as u64))
}

/// The mixing function G on words a, b, c, d of the working vector.
pub open spec fn g_mix(v: Seq<u64>, a: int, b: int, c: int, d: int, x: u64, y: u64) -> Seq<u64> {
    let va = v[a].wrapping_add(v[b]).wrapping_add(x);
    let vd = rotr64(v[d] ^ va, 32);
    let vc = v[c].wrapping_add(vd);
    let vb = rotr64(v[b] ^ vc, 24);
    let va2 = va.wrapping_add(vb).wrapping_add(y);
    let vd2 = rotr64(vd ^ va2, 16);
    let vc2 = vc.wrapping_add(vd2);
    let vb2 = rotr64(vb ^ vc2, 63);
    v.update(a, va2).update(d, vd2).update(c, vc2).update(b, vb2)
}

/// Message word σ[r mod 10][i].
pub open spec fn msg_word(m: Seq<u64>, r: int, i: int) -> u64 {
    m[sigma_table()[(r % 10) * 16 + i]]
}

/// One round: G on the columns, then on the diagonals.
pub open spec fn blake2b_round(v: Seq<u64>, m: Seq<u64>, r: int) -> Seq<u64> {
    let v1 = g_mix(v, 0, 4, 8, 12, msg_word(m, r, 0), msg_word(m, r, 1));
    let v2 = g_mix(v1, 1, 5, 9, 13, msg_word(m, r, 2), msg_word(m, r, 3));
    let v3 = g_mix(v2, 2, 6, 10, 14, msg_word(m, r, 4), msg_word(m, r, 5));
    let v4 = g_mix(v3, 3, 7, 11, 15, msg_word(m, r, 6), msg_word(m, r, 7));
    let v5 = g_mix(v4, 0, 5, 10, 15, msg_word(m, r, 8), msg_word(m, r, 9));
    let v6 = g_mix(v5, 1, 6, 11, 12, msg_word(m, r, 10), msg_word(m, r, 11));
    let v7 = g_mix(v6, 2, 7, 8, 13, msg_word(m, r, 12), msg_word(m, r, 13));
    g_mix(v7, 3, 4, 9, 14, msg_word(m, r, 14), msg_word(m, r, 15))
}

/// The working vector after `n` rounds.
pub open spec fn blake2b_rounds(v: Seq<u64>, m: Seq<u64>, n: nat) -> Seq<u64>
    decreases n,
{
    if n == 0 { v } else { blake2b_round(blake2b_rounds(v, m, (n - 1) as nat), m, (n - 1) as int) }
}

/// The initial working vector: state, IV, counter mixed in, and the last
/// block flag inverting word 14.
pub open spec fn blake2b_init(h: Seq<u64>, t0: u64, t1: u64, f: bool) -> Seq<u64> {
    let iv = blake2b_iv();
    let v = h + iv;
    let v = v.update(12, v[12] ^ t0).update(13, v[13] ^ t1);
    if f { v.update(14, !v[14]) } else { v }
}

/// The state after compression.
pub open spec fn blake2b_compress_spec(h: Seq<u64>, m: Seq<u64>, t0: u64, t1: u64, f: bool, rounds: nat) -> Seq<u64> {
    let v = blake2b_rounds(blake2b_init(h, t0, t1, f), m, rounds);
    Seq::new(8, |i: int| h[i] ^ v[i] ^ v[i + 8])
}

fn sigma(r: usize, i: usize) -> (x: usize)
    requires r < 10, i < 16,
    ensures x == sigma_table()[(r * 16 + i) as int], x < 16,
{
    let table: [usize; 160] = [0, 1, 2, 3, 4, 5, 6, 7, 8, 9, 10, 11, 12, 13, 14, 15, 14, 10, 4, 8, 9, 15, 13, 6, 1, 12, 0, 2, 11, 7, 5, 3, 11, 8, 12, 0, 5, 2, 15, 13, 10, 14, 3, 6, 7, 1, 9, 4, 7, 9, 3, 1, 13, 12, 11, 14, 2, 6, 5, 10, 4, 0, 15, 8, 9, 0, 5, 7, 2, 4, 10, 15, 14, 1, 11, 12, 6, 8, 3, 13, 2, 12, 6, 10, 0, 11, 8, 3, 4, 13, 7, 5, 15, 14, 1, 9, 12, 5, 1, 15, 14, 13, 4, 10, 0, 7, 6, 3, 9, 2, 8, 11, 13, 11, 7, 14, 12, 1, 3, 9, 5, 0, 15, 4, 8, 6, 2, 10, 6, 15, 14, 9, 11, 3, 0, 8, 12, 2, 13, 7, 1, 4, 10, 5, 10, 2, 8, 4, 7, 6, 1, 5, 15, 11, 9, 14, 3, 12, 13, 0];
    assert(table@ =~= seq![0usize, 1, 2, 3, 4, 5, 6, 7, 8, 9, 10, 11, 12, 13, 14, 15, 14, 10, 4, 8, 9, 15, 13, 6, 1, 12, 0, 2, 11, 7, 5, 3, 11, 8, 12, 0, 5, 2, 15, 13, 10, 14, 3, 6, 7, 1, 9, 4, 7, 9, 3, 1, 13, 12, 11, 14, 2, 6, 5, 10, 4, 0, 15, 8, 9, 0, 5, 7, 2, 4, 10, 15, 14, 1, 11, 12, 6, 8, 3, 13, 2, 12, 6, 10, 0, 11, 8, 3, 4, 13, 7, 5, 15, 14, 1, 9, 12, 5, 1, 15, 14, 13, 4, 10, 0, 7, 6, 3, 9, 2, 8, 11, 13, 11, 7, 14, 12, 1, 3, 9, 5, 0, 15, 4, 8, 6, 2, 10, 6, 15, 14, 9, 11, 3, 0, 8, 12, 2, 13, 7, 1, 4, 10, 5, 10, 2, 8, 4, 7, 6, 1, 5, 15, 11, 9, 14, 3, 12, 13, 0]);
    assert(forall|k: int| 0 <= k < 160 ==> (#[trigger] table@[k]) < 16);
    assert(forall|k: int| 0 <= k < 160 ==> (#[trigger] table@[k]) as int == sigma_table()[k]);
    table[r * 16 + i]
}

fn rotr(x: u64, n: u64) -> (r: u64)
    requires 0 < n < 64,
    ensures r == rotr64(x, n),
{
    (x >> n) | (x << (64 - n))
}

fn g(v: &mut [u64; 16], a: usize, b: usize, c: usize, d: usize, x: u64, y: u64)
    requires a < 16, b < 16, c < 16, d < 16, a != b, a != c, a != d, b != c, b != d, c != d,
    ensures final(v)@ == g_mix(old(v)@, a as int, b as int, c as int, d as int, x, y),
{
    let va = v[a].wrapping_add(v[b]).wrapping_add(x);
    let vd = rotr(v[d] ^ va, 32);
    let vc = v[c].wrapping_add(vd);
    let vb = rotr(v[b] ^ vc, 24);
    let va2 = va.wrapping_add(vb).wrapping_add(y);
    let vd2 = rotr(vd ^ va2, 16);
    let vc2 = vc.wrapping_add(vd2);
    let vb2 = rotr(vb ^ vc2, 63);
    v[a] = va2;
    v[d] = vd2;
    v[c] = vc2;
    v[b] = vb2;
    assert(v@ =~= g_mix(old(v)@, a as int, b as int, c as int, d as int, x, y));
}

/// The BLAKE2b compression function F with a given number of rounds.
pub fn blake2b_compress(h: &mut [u64; 8], m: &[u64; 16], t: [u64; 2], f: bool, rounds: u32)
    ensures final(h)@ == blake2b_compress_spec(old(h)@, m@, t[0], t[1], f, rounds as nat),
{
    let iv: [u64; 8] = [0x6a09e667f3bcc908, 0xbb67ae8584caa73b, 0x3c6ef372fe94f82b, 0xa54ff53a5f1d36f1,
        0x510e527fade682d1, 0x9b05688c2b3e6c1f, 0x1f83d9abfb41bd6b, 0x5be0cd19137e2179];
    assert(iv@ =~= blake2b_iv());
    let mut v = [0u64; 16];
    let mut i: usize = 0;
    while i < 8
        invariant
            i <= 8,
            iv@ == blake2b_iv(),
            forall|j: int| 0 <= j < i ==> v@[j] == h@[j] && v@[j + 8] == iv@[j],
        decreases 8 - i,
    {
        v[i] = h[i];
        v[i + 8] = iv[i];
        i = i + 1;
    }
    v[12] = v[12] ^ t[0];
    v[13] = v[13] ^ t[1];
    if f {
        v[14] = !v[14];
    }
    assert(v@ =~= blake2b_init(old(h)@, t[0], t[1], f));
    let ghost v0 = v@;
    let mut r: u32 = 0;
    while r < rounds
        invariant
            r <= rounds,
            v@ == blake2b_rounds(v0, m@, r as nat),
        decreases rounds - r,
    {
        let s = (r % 10) as usize;
        let ghost before = v@;
        g(&mut v, 0, 4, 8, 12, m[sigma(s, 0)], m[sigma(s, 1)]);
        g(&mut v, 1, 5, 9, 13, m[sigma(s, 2)], m[sigma(s, 3)]);
        g(&mut v, 2, 6, 10, 14, m[sigma(s, 4)], m[sigma(s, 5)]);
        g(&mut v, 3, 7, 11, 15, m[sigma(s, 6)], m[sigma(s, 7)]);
        g(&mut v, 0, 5, 10, 15, m[sigma(s, 8)], m[sigma(s, 9)]);
        g(&mut v, 1, 6, 11, 12, m[sigma(s, 10)], m[sigma(s, 11)]);
        g(&mut v, 2, 7, 8, 13, m[sigma(s, 12)], m[sigma(s, 13)]);
        g(&mut v, 3, 4, 9, 14, m[sigma(s, 14)], m[sigma(s, 15)]);
        assert(v@ == blake2b_round(before, m@, r as int));
        r = r + 1;
    }
    let mut k: usize = 0;
    while k < 8
        invariant
            k <= 8,
            v@ == blake2b_rounds(v0, m@, rounds as nat),
            v0 == blake2b_init(old(h)@, t[0], t[1], f),
            forall|j: int| 0 <= j < k ==> h@[j] == old(h)@[j] ^ v@[j] ^ v@[j + 8],
            forall|j: int| k <= j < 8 ==> h@[j] == old(h)@[j],
        decreases 8 - k,
    {
        h[k] = h[k] ^ v[k] ^ v[k + 8];
        k = k + 1;
    }
    assert(h@ =~= blake2b_compress_spec(old(h)@, m@, t[0], t[1], f, rounds as nat));
}

/// The little-endian 64-bit word at `b[off..off + 8]`.
pub open spec fn le_word(b: Seq<u8>, off: int) -> u64 {
    (b[off] as u64) | ((b[off + 1] as u64) << 8u64) | ((b[off + 2] as u64) << 16u64)
        | ((b[off + 3] as u64) << 24u64) | ((b[off + 4] as u64) << 32u64) | ((b[off + 5] as u64) << 40u64)
        | ((b[off + 6] as u64) << 48u64) | ((b[off + 7] as u64) << 56u64)
}

fn read_le_word(b: &[u8], off: usize) -> (r: u64)
    requires off + 8 <= b@.len(),
    ensures r == le_word(b@, off as int),
{
    (b[off] as u64) | ((b[off + 1] as u64) << 8u64) | ((b[off + 2] as u64) << 16u64)
        | ((b[off + 3] as u64) << 24u64) | ((b[off + 4] as u64) << 32u64) | ((b[off + 5] as u64) << 40u64)
        | ((b[off + 6] as u64) << 48u64) | ((b[off + 7] as u64) << 56u64)
}

/// The eight little-endian bytes of a word.
pub open spec fn le_bytes(x: u64) -> Seq<u8> {
    Seq::new(8, |j: int| ((x >> (8 * j) as u64) & 0xffu64) as u8)
}

/// The rounds field of a BLAKE2F input (big-endian).
pub open spec fn blake2f_rounds_of(input: Seq<u8>) -> u32 {
    ((input[0] as int) * 16777216 + (input[1] as int) * 65536 + (input[2] as int) * 256 + input[3] as int) as u32
}

/// Gas of BLAKE2F: rounds × per-round cost (saturating), at least 1.
pub open spec fn blake2f_gas(rounds: u32, per_round: u64) -> u64 {
    let g = if rounds * per_round > u64::MAX { u64::MAX as int } else { rounds * per_round };
    if g < 1 { 1 } else { g as u64 }
}

/// The output of BLAKE2F on a well-formed input: the compressed state as
/// sixty-four little-endian bytes.
pub open spec fn blake2f_output(input: Seq<u8>) -> Seq<u8> {
    let h = Seq::new(8, |i: int| le_word(input, 4 + 8 * i));
    let m = Seq::new(16, |i: int| le_word(input, 68 + 8 * i));
    let out = blake2b_compress_spec(h, m, le_word(input, 196), le_word(input, 204), input[212] == 1,
        blake2f_rounds_of(input) as nat);
    Seq::new(64, |k: int| le_bytes(out[k / 8])[k % 8])
}

/// 0x09: the BLAKE2 compression function F (EIP-152).
pub fn blake2f(input: &[u8], gas_limit: u64, schedule: &GasSchedule) -> (r: Result<PrecompileResult, EvmError>)
    ensures
        input@.len() != 213 ==> r matches Err(EvmError::PrecompileError(_)),
        input@.len() == 213 && input@[212] != 0 && input@[212] != 1 ==> r matches Err(EvmError::PrecompileError(_)),
        input@.len() == 213 && (input@[212] == 0 || input@[212] == 1) ==> {
            let gas = blake2f_gas(blake2f_rounds_of(input@), schedule.blake2f_round);
            match r {
                Ok(p) => gas_limit >= gas && p.gas_used == gas && p.output@ == blake2f_output(input@),
                Err(e) => gas_limit < gas && e == (EvmError::OutOfGas { used: gas, limit: gas_limit }),
            }
        },
{
    if input.len() != 213 {
        return PrecompileResult::error("Invalid BLAKE2F input length: expected 213 bytes");
    }
    let f_byte = input[212];
    if f_byte != 0 && f_byte != 1 {
        return PrecompileResult::error("Invalid BLAKE2F f flag: must be 0 or 1");
    }
    let rounds: u32 = ((input[0] as u32) * 16777216 + (input[1] as u32) * 65536 + (input[2] as u32) * 256
        + input[3] as u32) as u32;
    proof {
        let a: int = rounds as int;
        let b: int = schedule.blake2f_round as int;
        assert(a * b <= 0xffff_ffff * 0xffff_ffff_ffff_ffff) by (nonlinear_arith)
            requires 0 <= a <= 0xffff_ffff, 0 <= b <= 0xffff_ffff_ffff_ffff;
    }
    let prod: u128 = (rounds as u128) * (schedule.blake2f_round as u128);
    let sat: u64 = if prod > u64::MAX as u128 { u64::MAX } else { prod as u64 };
    let gas: u64 = if sat < 1 { 1 } else { sat };
    if gas_limit < gas {
        return Err(EvmError::OutOfGas { used: gas, limit: gas_limit });
    }
    let mut h = [0u64; 8];
    let mut i: usize = 0;
    while i < 8
        invariant
            i <= 8,
            input@.len() == 213,
            forall|j: int| 0 <= j < i ==> h@[j] == le_word(input@, 4 + 8 * j),
        decreases 8 - i,
    {
        h[i] = read_le_word(input, 4 + i * 8);
        i = i + 1;
    }
    let mut m = [0u64; 16];
    let mut j: usize = 0;
    while j < 16
        invariant
            j <= 16,
            input@.len() == 213,
            forall|k: int| 0 <= k < j ==> m@[k] == le_word(input@, 68 + 8 * k),
        decreases 16 - j,
    {
        m[j] = read_le_word(input, 68 + j * 8);
        j = j + 1;
    }
    let t = [read_le_word(input, 196), read_le_word(input, 204)];
    assert(h@ =~= Seq::new(8, |i: int| le_word(input@, 4 + 8 * i)));
    assert(m@ =~= Seq::new(16, |i: int| le_word(input@, 68 + 8 * i)));
    blake2b_compress(&mut h, &m, t, f_byte == 1, rounds);
    let ghost hv = h@;
    let mut out: Vec<u8> = Vec::new();
    let mut k: usize = 0;
    while k < 64
        invariant
            k <= 64,
            h@ == hv,
            out@.len() == k,
            forall|q: int| 0 <= q < k ==> out@[q] == le_bytes(hv[q / 8])[q % 8],
        decreases 64 - k,
    {
        let w = h[k / 8];
        let sh: u64 = (8 * (k % 8)) as u64;
        out.push(((w >> sh) & 0xff) as u8);
        k = k + 1;
    }
    assert(out@ =~= blake2f_output(input@));
    PrecompileResult::ok(out, gas)
}

/// 0x100: gas of verifying one zero-knowledge proof by its public inputs.
pub open spec fn zkp_verify_gas(len: nat, s: GasSchedule) -> int {
    s.zkp_verify_base + ((len - 192 - 32) / 32) * s.zkp_verify_per_input
}

/// 0x100: verifies a zero-knowledge proof (inputs of at least 224 bytes);
/// the verifier is not connected and every proof is accepted.
pub fn zkp_verify(input: &[u8], gas_limit: u64, schedule: &GasSchedule) -> (r: Result<PrecompileResult, EvmError>)
    requires input@.len() >= 224 ==> zkp_verify_gas(input@.len(), *schedule) <= u64::MAX,
    ensures
        input@.len() < 224 ==> r matches Err(EvmError::PrecompileError(_)),
        input@.len() >= 224 ==> match r {
            Ok(p) => gas_limit >= zkp_verify_gas(input@.len(), *schedule)
                && p.gas_used == zkp_verify_gas(input@.len(), *schedule)
                && p.output@ == Seq::new(32, |i: int| if i == 31 { 1u8 } else { 0u8 }),
            Err(e) => gas_limit < zkp_verify_gas(input@.len(), *schedule) && e is OutOfGas,
        },
{
    if input.len() < 224 {
        return PrecompileResult::error("Invalid ZKP input length");
    }
    let num_inputs = (input.len() - 192 - 32) / 32;
    proof {
        assert(0 <= num_inputs * schedule.zkp_verify_per_input) by (nonlinear_arith);
    }
    let gas = schedule.zkp_verify_base + (num_inputs as u64) * schedule.zkp_verify_per_input;
    if gas_limit < gas {
        return Err(EvmError::OutOfGas { used: gas, limit: gas_limit });
    }
    let mut output = vec![0u8; 32];
    output.set(31, 1);
    assert(output@ =~= Seq::new(32, |i: int| if i == 31 { 1u8 } else { 0u8 }));
    PrecompileResult::ok(output, gas)
}

/// 0x105: gas of the hash precompile: 500 plus 100 per 32-byte word.
pub open spec fn poseidon_gas(len: nat) -> int {
    (500 + ((len + 31) / 32) * 100) as int
}

/// 0x105: the hash precompile, answering with Keccak-256 of the input.
pub fn poseidon_hash(input: &[u8], gas_limit: u64, schedule: &GasSchedule) -> (r: Result<PrecompileResult, EvmError>)
    requires poseidon_gas(input@.len()) <= u64::MAX,
    ensures
        match r {
            Ok(p) => gas_limit >= poseidon_gas(input@.len()) && p.gas_used == poseidon_gas(input@.len())
                && p.output@ == keccak256_spec(input@),
            Err(e) => gas_limit < poseidon_gas(input@.len()) && e is OutOfGas,
        },
{
    let words: u64 = ((input.len() / 32) + if input.len() % 32 == 0 { 0 } else { 1 }) as u64;
    assert(words == (input@.len() + 31) / 32);
    let gas: u64 = 500 + words * 100;
    if gas_limit < gas {
        return Err(EvmError::OutOfGas { used: gas, limit: gas_limit });
    }
    let d = keccak256(input);
    PrecompileResult::ok(vstd::slice::slice_to_vec(d.as_slice()), gas)
}

/// 0x102: looks a vertex up by hash (32 bytes), for a fixed 1000 gas; the
/// lookup is not connected and answers 128 zero bytes.
pub fn dag_get_vertex(input: &[u8], gas_limit: u64, schedule: &GasSchedule) -> (r: Result<PrecompileResult, EvmError>)
    ensures
        input@.len() < 32 ==> r matches Err(EvmError::PrecompileError(_)),
        input@.len() >= 32 ==> match r {
            Ok(p) => gas_limit >= 1000 && p.gas_used == 1000 && p.output@ == Seq::new(128, |i: int| 0u8),
            Err(e) => gas_limit < 1000 && e == (EvmError::OutOfGas { used: 1000, limit: gas_limit }),
        },
{
    if input.len() < 32 {
        return PrecompileResult::error("Invalid vertex hash");
    }
    if gas_limit < 1000 {
        return Err(EvmError::OutOfGas { used: 1000, limit: gas_limit });
    }
    let output = vec![0u8; 128];
    assert(output@ =~= Seq::new(128, |i: int| 0u8));
    PrecompileResult::ok(output, 1000)
}

/// 0x101: gas of parsing an ISO 20022 message: base plus a cost per byte.
pub open spec fn iso_parse_gas(len: nat, s: GasSchedule) -> int {
    s.iso20022_parse_base + len * s.iso20022_parse_per_byte
}

/// 0x101: parses an ISO 20022 message; the parser is not connected and
/// answers 256 zero bytes.
pub fn iso20022_parse(input: &[u8], gas_limit: u64, schedule: &GasSchedule) -> (r: Result<PrecompileResult, EvmError>)
    requires iso_parse_gas(input@.len(), *schedule) <= u64::MAX,
    ensures
        match r {
            Ok(p) => gas_limit >= iso_parse_gas(input@.len(), *schedule)
                && p.gas_used == iso_parse_gas(input@.len(), *schedule) && p.output@ == Seq::new(256, |i: int| 0u8),
            Err(e) => gas_limit < iso_parse_gas(input@.len(), *schedule) && e is OutOfGas,
        },
{
    proof {
        assert(0 <= input@.len() * schedule.iso20022_parse_per_byte) by (nonlinear_arith);
    }
    let gas = schedule.iso20022_parse_base + (input.len() as u64) * schedule.iso20022_parse_per_byte;
    if gas_limit < gas {
        return Err(EvmError::OutOfGas { used: gas, limit: gas_limit });
    }
    let output = vec![0u8; 256];
    assert(output@ =~= Seq::new(256, |i: int| 0u8));
    PrecompileResult::ok(output, gas)
}

/// 0x104: gas of validating an ISO 20022 message: base plus a cost per two
/// bytes.
pub open spec fn iso_validate_gas(len: nat, s: GasSchedule) -> int {
    s.iso20022_parse_base + (len / 2) * s.iso20022_parse_per_byte
}

/// 0x104: validates an ISO 20022 message; the validator is not connected
/// and every message is accepted.
pub fn iso20022_validate(input: &[u8], gas_limit: u64, schedule: &GasSchedule) -> (r: Result<PrecompileResult, EvmError>)
    requires iso_validate_gas(input@.len(), *schedule) <= u64::MAX,
    ensures
        match r {
            Ok(p) => gas_limit >= iso_validate_gas(input@.len(), *schedule)
                && p.gas_used == iso_validate_gas(input@.len(), *schedule)
                && p.output@ == Seq::new(32, |i: int| if i == 31 { 1u8 } else { 0u8 }),
            Err(e) => gas_limit < iso_validate_gas(input@.len(), *schedule) && e is OutOfGas,
        },
{
    proof {
        assert(0 <= (input@.len() / 2) * schedule.iso20022_parse_per_byte) by (nonlinear_arith);
    }
    let gas = schedule.iso20022_parse_base + ((input.len() / 2) as u64) * schedule.iso20022_parse_per_byte;
    if gas_limit < gas {
        return Err(EvmError::OutOfGas { used: gas, limit: gas_limit });
    }
    let mut output = vec![0u8; 32];
    output.set(31, 1);
    assert(output@ =~= Seq::new(32, |i: int| if i == 31 { 1u8 } else { 0u8 }));
    PrecompileResult::ok(output, gas)
}

/// 0x103: gas of verifying a batch of proofs: 60% of the single cost per
/// proof, the count read big-endian from the first four bytes.
pub open spec fn zkp_batch_gas(input: Seq<u8>, s: GasSchedule) -> int {
    let n = (input[0] as int) * 16777216 + (input[1] as int) * 65536 + (input[2] as int) * 256 + input[3] as int;
    (s.zkp_verify_base * n * 60) / 100
}

/// 0x103: verifies a batch of zero-knowledge proofs; the verifier is not
/// connected and every batch is accepted.
pub fn zkp_batch_verify(input: &[u8], gas_limit: u64, schedule: &GasSchedule) -> (r: Result<PrecompileResult, EvmError>)
    requires input@.len() >= 4 ==> schedule.zkp_verify_base * ((input@[0] as int) * 16777216 + (input@[1] as int) * 65536 + (input@[2] as int) * 256 + input@[3] as int) * 60 <= u64::MAX,
    ensures
        input@.len() < 4 ==> r matches Err(EvmError::PrecompileError(_)),
        input@.len() >= 4 ==> match r {
            Ok(p) => gas_limit >= zkp_batch_gas(input@, *schedule) && p.gas_used == zkp_batch_gas(input@, *schedule)
                && p.output@ == Seq::new(32, |i: int| if i == 31 { 1u8 } else { 0u8 }),
            Err(e) => gas_limit < zkp_batch_gas(input@, *schedule) && e is OutOfGas,
        },
{
    if input.len() < 4 {
        return PrecompileResult::error("Invalid batch verify input");
    }
    let n: u64 = (input[0] as u64) * 16777216 + (input[1] as u64) * 65536 + (input[2] as u64) * 256 + input[3] as u64;
    proof {
        assert(0 <= schedule.zkp_verify_base * n) by (nonlinear_arith);
        assert(schedule.zkp_verify_base * n <= schedule.zkp_verify_base * n * 60) by (nonlinear_arith)
            requires 0 <= schedule.zkp_verify_base * n;
    }
    let gas: u64 = (schedule.zkp_verify_base * n * 60) / 100;
    if gas_limit < gas {
        return Err(EvmError::OutOfGas { used: gas, limit: gas_limit });
    }
    let mut output = vec![0u8; 32];
    output.set(31, 1);
    assert(output@ =~= Seq::new(32, |i: int| if i == 31 { 1u8 } else { 0u8 }));
    PrecompileResult::ok(output, gas)
}

} // verus!
