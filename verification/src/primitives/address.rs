//! 20-byte account addresses: construction, contract-address derivation,
//! hexadecimal parsing and the EIP-55 checksummed form.
use vstd::prelude::*;
use vstd::string::StringSliceAdditionalSpecFns;
use crate::primitives::hashing::{keccak256, keccak256_spec};
use crate::primitives::text::{string_push, hex_decode, hex_decode_spec, HexError};

verus! {

/// A 20-byte, EVM-compatible account address.
#[derive(Clone, Copy, Debug, Hash, Default)]
pub struct Address(pub [u8; 20]);

impl PartialEq for Address {
    fn eq(&self, other: &Self) -> (r: bool) {
        let mut i: usize = 0;
        while i < 20
            invariant
                i <= 20,
                forall|j: int| 0 <= j < i ==> self.0@[j] == other.0@[j],
            decreases 20 - i,
        {
            if self.0[i] != other.0[i] {
                return false;
            }
            i = i + 1;
        }
        assert(self.0@ =~= other.0@);
        true
    }
}

impl vstd::std_specs::cmp::PartialEqSpecImpl for Address {
    open spec fn obeys_eq_spec() -> bool { true }

    open spec fn eq_spec(&self, other: &Self) -> bool { self.0@ == other.0@ }
}

impl Eq for Address {}

/// The address whose first 19 bytes are zero and whose last byte is `b`.
pub open spec fn low_address(b: u8) -> Seq<u8> {
    Seq::new(20, |i: int| if i == 19 { b } else { 0u8 })
}

/// The last twenty bytes of a 32-byte digest.
pub open spec fn digest_tail(h: Seq<u8>) -> Seq<u8> {
    h.subrange(12, 32)
}

/// The bytes of an unsigned number, big-endian, without leading zeros.
pub open spec fn minimal_be(n: nat) -> Seq<u8>
    decreases n,
{
    if n == 0 { Seq::empty() } else { minimal_be(n / 256).push((n % 256) as u8) }
}

/// The RLP encoding of a nonce as an unsigned scalar.
pub open spec fn rlp_nonce(nonce: u64) -> Seq<u8> {
    if nonce == 0 {
        seq![0x80u8]
    } else if nonce < 0x80 {
        seq![nonce as u8]
    } else {
        seq![(0x80 + minimal_be(nonce as nat).len()) as u8] + minimal_be(nonce as nat)
    }
}

/// The RLP encoding of the list [deployer, nonce] hashed for CREATE.
pub open spec fn create_preimage(deployer: Seq<u8>, nonce: u64) -> Seq<u8> {
    seq![(0xC0 + 21 + rlp_nonce(nonce).len()) as u8, 0x94u8] + deployer + rlp_nonce(nonce)
}

/// The bytes hashed for CREATE2.
pub open spec fn create2_preimage(deployer: Seq<u8>, salt: Seq<u8>, init_code_hash: Seq<u8>) -> Seq<u8> {
    seq![0xffu8] + deployer + salt + init_code_hash
}

/// The bytes of `s` after a leading "0x", if it has one.
pub open spec fn strip_0x(b: Seq<u8>) -> Seq<u8> {
    if b.len() >= 2 && b[0] == 48 && b[1] == 120 { b.skip(2) } else { b }
}

/// An address read from hexadecimal bytes (with or without "0x").
pub open spec fn address_from_hex_spec(b: Seq<u8>) -> Result<Seq<u8>, HexError> {
    match hex_decode_spec(strip_0x(b)) {
        Err(e) => Err(e),
        Ok(v) => if v.len() != 20 { Err(HexError::InvalidStringLength) } else { Ok(v) },
    }
}

/// Hexadecimal digit `i` (0 = high nibble of byte 0) of `b`.
pub open spec fn nibble_at(b: Seq<u8>, i: int) -> int {
    if i % 2 == 0 { b[i / 2] as int / 16 } else { b[i / 2] as int % 16 }
}

/// Lowercase hexadecimal ASCII byte of a value below 16.
pub open spec fn lower_hex_byte(n: int) -> u8 {
    if n < 10 { (48 + n) as u8 } else { (87 + n) as u8 }
}

/// The lowercase hexadecimal ASCII bytes of `b`.
pub open spec fn hex_lower_bytes(b: Seq<u8>) -> Seq<u8> {
    Seq::new(2 * b.len(), |i: int| lower_hex_byte(nibble_at(b, i)))
}

/// The EIP-55 form of an address: "0x", then each hexadecimal digit, a
/// letter in uppercase exactly when the matching digit of the Keccak-256
/// hash of the lowercase form is 8 or more.
pub open spec fn checksum_chars(a: Seq<u8>) -> Seq<char> {
    let h = keccak256_spec(hex_lower_bytes(a));
    seq!['0', 'x'] + Seq::new(40, |i: int| {
        let n = nibble_at(a, i);
        if n < 10 {
            (48 + n) as char
        } else if nibble_at(h, i) >= 8 {
            (55 + n) as char
        } else {
            (87 + n) as char
        }
    })
}

impl Address {
    /// The zero address.
    pub fn zero() -> (r: Self)
        ensures r.0@ == Seq::new(20, |i: int| 0u8),
    {
        let r = Address([0u8; 20]);
        assert(r.0@ =~= Seq::new(20, |i: int| 0u8));
        r
    }

    fn low(b: u8) -> (r: Self)
        ensures r.0@ == low_address(b),
    {
        let mut a = [0u8; 20];
        a[19] = b;
        assert(a@ =~= low_address(b));
        Address(a)
    }

    /// The system address of the zero-knowledge precompiles (0x…20).
    pub fn system_zkp() -> (r: Self)
        ensures r.0@ == low_address(0x20),
    {
        Self::low(0x20)
    }

    /// The system address of the ISO precompiles (0x…30).
    pub fn system_iso() -> (r: Self)
        ensures r.0@ == low_address(0x30),
    {
        Self::low(0x30)
    }

    /// The governance system address (0x…01).
    pub fn system_governance() -> (r: Self)
        ensures r.0@ == low_address(0x01),
    {
        Self::low(0x01)
    }

    /// The staking system address (0x…02).
    pub fn system_staking() -> (r: Self)
        ensures r.0@ == low_address(0x02),
    {
        Self::low(0x02)
    }

    pub fn new(bytes: [u8; 20]) -> (r: Self)
        ensures r.0 == bytes,
    {
        Address(bytes)
    }

    /// The address made of exactly twenty bytes, if the slice has twenty.
    pub fn from_slice(slice: &[u8]) -> (r: Option<Self>)
        ensures
            r is Some <==> slice@.len() == 20,
            r matches Some(a) ==> a.0@ == slice@,
    {
        if slice.len() != 20 {
            return None;
        }
        let mut bytes = [0u8; 20];
        let mut i: usize = 0;
        while i < 20
            invariant
                i <= 20,
                slice@.len() == 20,
                forall|j: int| 0 <= j < i ==> bytes@[j] == slice@[j],
            decreases 20 - i,
        {
            bytes[i] = slice[i];
            i = i + 1;
        }
        assert(bytes@ =~= slice@);
        Some(Address(bytes))
    }

    pub fn as_bytes(&self) -> (r: &[u8; 20])
        ensures *r == self.0,
    {
        &self.0
    }

    /// Whether the address is a precompiled contract: 19 zero bytes, then
    /// 0x01–0x0A (standard), 0x20–0x2F (zero-knowledge) or 0x30–0x3F (ISO).
    pub open spec fn is_precompile_spec(&self) -> bool {
        let last = self.0@[19];
        &&& forall|i: int| 0 <= i < 19 ==> self.0@[i] == 0
        &&& (0x01 <= last <= 0x0A || 0x20 <= last <= 0x2F || 0x30 <= last <= 0x3F)
    }

    pub fn is_precompile(&self) -> (r: bool)
        ensures r == self.is_precompile_spec(),
    {
        let last = self.0[19];
        let mut i: usize = 0;
        while i < 19
            invariant
                i <= 19,
                forall|j: int| 0 <= j < i ==> self.0@[j] == 0,
            decreases 19 - i,
        {
            if self.0[i] != 0 {
                return false;
            }
            i = i + 1;
        }
        (0x01 <= last && last <= 0x0A) || (0x20 <= last && last <= 0x2F) || (0x30 <= last && last <= 0x3F)
    }

    /// The address of a contract created with CREATE: the last twenty bytes
    /// of the Keccak-256 hash of RLP([deployer, nonce]).
    pub fn create_contract_address(deployer: &Address, nonce: u64) -> (r: Self)
        ensures r.0@ == digest_tail(keccak256_spec(create_preimage(deployer.0@, nonce))),
    {
        let enc = rlp_encode_nonce(nonce);
        let mut buf: Vec<u8> = Vec::new();
        buf.push((0xC0 + 21 + enc.len()) as u8);
        buf.push(0x94);
        push_all(&mut buf, deployer.0.as_slice());
        push_all(&mut buf, enc.as_slice());
        assert(buf@ =~= create_preimage(deployer.0@, nonce));
        let h = keccak256(buf.as_slice());
        tail_address(&h)
    }

    /// The address of a contract created with CREATE2: the last twenty bytes
    /// of the Keccak-256 hash of 0xff ‖ deployer ‖ salt ‖ init code hash.
    pub fn create2_contract_address(deployer: &Address, salt: &[u8; 32], init_code_hash: &crate::primitives::types::Hash) -> (r: Self)
        ensures r.0@ == digest_tail(keccak256_spec(create2_preimage(deployer.0@, salt@, init_code_hash.0@))),
    {
        let mut data: Vec<u8> = Vec::new();
        data.push(0xff);
        push_all(&mut data, deployer.0.as_slice());
        push_all(&mut data, salt.as_slice());
        push_all(&mut data, init_code_hash.0.as_slice());
        assert(data@ =~= create2_preimage(deployer.0@, salt@, init_code_hash.0@));
        let h = keccak256(data.as_slice());
        tail_address(&h)
    }

    /// Parses an address from hexadecimal text, with or without "0x".
    pub fn from_hex(s: &str) -> (r: Result<Self, HexError>)
        ensures
            match r {
                Ok(a) => address_from_hex_spec(s.spec_bytes()) == Ok::<Seq<u8>, HexError>(a.0@),
                Err(e) => address_from_hex_spec(s.spec_bytes()) == Err::<Seq<u8>, HexError>(e),
            },
    {
        let b = s.as_bytes();
        let body: &[u8] = if b.len() >= 2 && b[0] == 48 && b[1] == 120 {
            vstd::slice::slice_subrange(b, 2, b.len())
        } else {
            b
        };
        assert(body@ =~= strip_0x(b@));
        match hex_decode(body) {
            Err(e) => Err(e),
            Ok(v) => {
                if v.len() != 20 {
                    return Err(HexError::InvalidStringLength);
                }
                match Address::from_slice(v.as_slice()) {
                    Some(a) => Ok(a),
                    None => Err(HexError::InvalidStringLength),
                }
            },
        }
    }

    /// The EIP-55 checksummed hexadecimal form.
    pub fn to_checksum_string(&self) -> (r: String)
        ensures r@ == checksum_chars(self.0@),
    {
        let mut hex: Vec<u8> = Vec::new();
        let mut i: usize = 0;
        while i < 40
            invariant
                i <= 40,
                hex@ == hex_lower_bytes(self.0@).take(i as int),
            decreases 40 - i,
        {
            let byte = self.0[i / 2];
            let n: u8 = if i % 2 == 0 { byte / 16 } else { byte % 16 };
            hex.push(if n < 10 { 48 + n } else { 87 + n });
            assert(hex@ =~= hex_lower_bytes(self.0@).take(i + 1));
            i = i + 1;
        }
        assert(hex_lower_bytes(self.0@).take(40) =~= hex_lower_bytes(self.0@));
        let h = keccak256(hex.as_slice());
        let mut out = String::new();
        string_push(&mut out, '0');
        string_push(&mut out, 'x');
        let ghost expected = checksum_chars(self.0@);
        let mut k: usize = 0;
        while k < 40
            invariant
                k <= 40,
                h@ == keccak256_spec(hex_lower_bytes(self.0@)),
                h@.len() == 32,
                expected == checksum_chars(self.0@),
                out@ == expected.take(k + 2),
            decreases 40 - k,
        {
            let byte = self.0[k / 2];
            let n: u8 = if k % 2 == 0 { byte / 16 } else { byte % 16 };
            let hb = h[k / 2];
            let hn: u8 = if k % 2 == 0 { hb / 16 } else { hb % 16 };
            let c: char = if n < 10 {
                (48 + n) as char
            } else if hn >= 8 {
                (55 + n) as char
            } else {
                (87 + n) as char
            };
            string_push(&mut out, c);
            assert(out@ =~= expected.take(k + 3));
            k = k + 1;
        }
        assert(expected.take(42) =~= expected);
        out
    }
}

/// The address given by the last twenty bytes of a digest.
fn tail_address(h: &[u8; 32]) -> (r: Address)
    ensures r.0@ == digest_tail(h@),
{
    let mut a = [0u8; 20];
    let mut i: usize = 0;
    while i < 20
        invariant
            i <= 20,
            forall|j: int| 0 <= j < i ==> a@[j] == h@[j + 12],
        decreases 20 - i,
    {
        a[i] = h[i + 12];
        i = i + 1;
    }
    assert(a@ =~= digest_tail(h@));
    Address(a)
}

/// Appends the bytes of a slice.
pub fn push_all(out: &mut Vec<u8>, src: &[u8])
    ensures final(out)@ == old(out)@ + src@,
{
    let ghost start = out@;
    let mut i: usize = 0;
    while i < src.len()
        invariant
            i <= src@.len(),
            out@ == start + src@.take(i as int),
        decreases src@.len() - i,
    {
        out.push(src[i]);
        assert(src@.take(i as int).push(src@[i as int]) =~= src@.take(i + 1));
        i = i + 1;
    }
    assert(src@.take(src@.len() as int) =~= src@);
}

proof fn lemma_minimal_be_len(n: nat, k: nat)
    requires n < vstd::arithmetic::power2::pow2(8 * k),
    ensures minimal_be(n).len() <= k,
    decreases n,
{
    if n > 0 {
        if k == 0 {
            vstd::arithmetic::power2::lemma2_to64();
        } else {
            vstd::arithmetic::power2::lemma_pow2_adds(8, (8 * (k - 1)) as nat);
            vstd::arithmetic::power2::lemma2_to64();
            assert(n / 256 < vstd::arithmetic::power2::pow2((8 * (k - 1)) as nat));
            lemma_minimal_be_len(n / 256, (k - 1) as nat);
        }
    }
}

/// The big-endian bytes of `n` without leading zeros.
pub fn minimal_be_bytes(n: u64) -> (r: Vec<u8>)
    ensures r@ == minimal_be(n as nat),
{
    let mut rev: Vec<u8> = Vec::new();
    let mut m: u64 = n;
    while m > 0
        invariant
            minimal_be(n as nat) == minimal_be(m as nat) + rev@.reverse(),
        decreases m,
    {
        let ghost before = rev@;
        rev.push((m % 256) as u8);
        assert(rev@.reverse() =~= seq![(m % 256) as u8] + before.reverse());
        assert(minimal_be(m as nat) == minimal_be((m / 256) as nat).push((m % 256) as u8));
        assert(minimal_be(m as nat) + before.reverse() =~= minimal_be((m / 256) as nat) + rev@.reverse());
        m = m / 256;
    }
    assert(minimal_be(0) =~= Seq::<u8>::empty());
    let mut out: Vec<u8> = Vec::new();
    let mut i: usize = rev.len();
    while i > 0
        invariant
            i <= rev@.len(),
            out@ == rev@.subrange(i as int, rev@.len() as int).reverse(),
        decreases i,
    {
        i = i - 1;
        out.push(rev[i]);
        assert(out@ =~= rev@.subrange(i as int, rev@.len() as int).reverse());
    }
    assert(rev@.subrange(0, rev@.len() as int) =~= rev@);
    assert(out@ =~= minimal_be(n as nat)) by {
        assert(minimal_be(n as nat) =~= rev@.reverse());
    }
    out
}

/// The RLP encoding of a nonce.
pub fn rlp_encode_nonce(nonce: u64) -> (r: Vec<u8>)
    ensures r@ == rlp_nonce(nonce), r@.len() <= 9,
{
    if nonce == 0 {
        let r = vec![0x80u8];
        assert(r@ =~= seq![0x80u8]);
        r
    } else if nonce < 0x80 {
        let r = vec![nonce as u8];
        assert(r@ =~= seq![nonce as u8]);
        r
    } else {
        let bytes = minimal_be_bytes(nonce);
        proof {
            vstd::arithmetic::power2::lemma2_to64();
            lemma_minimal_be_len(nonce as nat, 8);
        }
        let mut r: Vec<u8> = Vec::new();
        r.push((0x80 + bytes.len()) as u8);
        push_all(&mut r, bytes.as_slice());
        r
    }
}

/// An account: an address, a system account, or a validator by key hash.
#[derive(Clone, Copy, Debug)]
pub enum AccountId {
    Address(Address),
    System(u8),
    Validator([u8; 32]),
}

impl AccountId {
    /// The address of an account: itself; the system number in the last
    /// byte; or the last twenty bytes of the validator's key hash.
    pub fn to_address(&self) -> (r: Address)
        ensures
            match self {
                AccountId::Address(a) => r.0@ == a.0@,
                AccountId::System(id) => r.0@ == low_address(*id),
                AccountId::Validator(h) => r.0@ == digest_tail(h@),
            },
    {
        match self {
            AccountId::Address(a) => *a,
            AccountId::System(id) => Address::low(*id),
            AccountId::Validator(h) => tail_address(h),
        }
    }
}

} // verus!
