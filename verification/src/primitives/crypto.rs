//! secp256k1 keys and ECDSA signatures, and the hashes built on BLAKE3:
//! vertex identifiers and Merkle roots.
use vstd::prelude::*;
use crate::primitives::error::NexusError;
use crate::primitives::address::{Address, digest_tail};
use crate::primitives::hashing::{keccak256, keccak256_spec, blake3_digest, blake3_spec};

verus! {

/// The number that big-endian bytes stand for.
pub open spec fn be_value(b: Seq<u8>) -> nat
    decreases b.len(),
{
    if b.len() == 0 { 0 } else { be_value(b.drop_last()) * 256 + b.last() as nat }
}

/// The order n of the secp256k1 group.
pub open spec fn secp256k1_order() -> nat {
    0xFFFF_FFFF_FFFF_FFFF_FFFF_FFFF_FFFF_FFFE_BAAE_DCE6_AF48_A03B_BFD2_5E8C_D036_4141nat
}

/// A 32-byte big-endian scalar in 1..n, as secret keys and signature
/// components must be.
pub open spec fn scalar_in_range(b: Seq<u8>) -> bool {
    0 < be_value(b) < secp256k1_order()
}

/// The uncompressed public key (x ‖ y, 64 bytes) of a secret scalar.
pub uninterp spec fn secp256k1_public_key(secret: Seq<u8>) -> Seq<u8>;

/// Whether 64 bytes x ‖ y are a point of the curve usable as a key.
pub uninterp spec fn secp256k1_point_valid(point: Seq<u8>) -> bool;

/// The RFC 6979 deterministic ECDSA signature (r, s, recovery id) of a
/// 32-byte prehash, or `None` when signing fails.
pub uninterp spec fn ecdsa_sign_spec(secret: Seq<u8>, prehash: Seq<u8>) -> Option<(Seq<u8>, Seq<u8>, u8)>;

/// Whether (r, s) is a valid ECDSA signature of the prehash under the key.
pub uninterp spec fn ecdsa_verify_spec(point: Seq<u8>, prehash: Seq<u8>, r: Seq<u8>, s: Seq<u8>) -> bool;

/// The public key recovered from a signature and recovery id, if any.
pub uninterp spec fn ecdsa_recover_spec(prehash: Seq<u8>, r: Seq<u8>, s: Seq<u8>, recid: u8) -> Option<Seq<u8>>;

/// Draws a secret key with `k256::ecdsa::SigningKey::random` from the
/// operating system's generator; trusted only to give a scalar in 1..n.
#[verifier::external_body]
fn random_secret() -> (r: [u8; 32])
    ensures scalar_in_range(r@),
{
    let key = k256::ecdsa::SigningKey::random(&mut rand::rngs::OsRng);
    key.to_bytes().into()
}

/// Computes the public key with `SigningKey::verifying_key` and its
/// uncompressed SEC1 encoding, without the leading 0x04; trusted to be a
/// function of the secret and a valid curve point.
#[verifier::external_body]
fn public_key_of(secret: &[u8; 32]) -> (r: [u8; 64])
    requires scalar_in_range(secret@),
    ensures
        r@ == secp256k1_public_key(secret@),
        secp256k1_point_valid(r@),
{
    let key = k256::ecdsa::SigningKey::from_bytes(secret.into()).unwrap();
    let encoded = key.verifying_key().to_encoded_point(false);
    let mut out = [0u8; 64];
    out.copy_from_slice(&encoded.as_bytes()[1..65]);
    out
}

/// Signs a prehash with `SigningKey::sign_prehash_recoverable` (RFC 6979,
/// deterministic). Trusted to be a function of its arguments and, when it
/// signs, to give components in 1..n, a recovery id below 4, and a signature
/// that verifies under the key's public key.
#[verifier::external_body]
fn sign_recoverable(secret: &[u8; 32], prehash: &[u8; 32]) -> (r: Option<([u8; 32], [u8; 32], u8)>)
    requires scalar_in_range(secret@),
    ensures
        match r {
            Some((rr, ss, id)) => ecdsa_sign_spec(secret@, prehash@) == Some((rr@, ss@, id))
                && scalar_in_range(rr@) && scalar_in_range(ss@) && id < 4
                && ecdsa_verify_spec(secp256k1_public_key(secret@), prehash@, rr@, ss@)
                && secp256k1_point_valid(secp256k1_public_key(secret@)),
            None => ecdsa_sign_spec(secret@, prehash@) is None,
        },
{
    let key = k256::ecdsa::SigningKey::from_bytes(secret.into()).unwrap();
    match key.sign_prehash_recoverable(prehash) {
        Ok((sig, recid)) => {
            let bytes = sig.to_bytes();
            let mut rr = [0u8; 32];
            let mut ss = [0u8; 32];
            rr.copy_from_slice(&bytes[0..32]);
            ss.copy_from_slice(&bytes[32..64]);
            Some((rr, ss, recid.to_byte()))
        },
        Err(_) => None,
    }
}

/// Checks with `VerifyingKey::from_sec1_bytes` whether x ‖ y (prefixed with
/// 0x04) is a usable public key.
#[verifier::external_body]
fn point_valid(point: &[u8; 64]) -> (r: bool)
    ensures r == secp256k1_point_valid(point@),
{
    let mut bytes = [0u8; 65];
    bytes[0] = 0x04;
    bytes[1..].copy_from_slice(point);
    k256::ecdsa::VerifyingKey::from_sec1_bytes(&bytes).is_ok()
}

/// Verifies a signature of a prehash with `PrehashVerifier::verify_prehash`.
#[verifier::external_body]
fn verify_prehash(point: &[u8; 64], prehash: &[u8; 32], r: &[u8; 32], s: &[u8; 32]) -> (b: bool)
    requires
        secp256k1_point_valid(point@),
        scalar_in_range(r@),
        scalar_in_range(s@),
    ensures b == ecdsa_verify_spec(point@, prehash@, r@, s@),
{
    let mut bytes = [0u8; 65];
    bytes[0] = 0x04;
    bytes[1..].copy_from_slice(point);
    let key = k256::ecdsa::VerifyingKey::from_sec1_bytes(&bytes).unwrap();
    let sig = k256::ecdsa::Signature::from_scalars(*r, *s).unwrap();
    <k256::ecdsa::VerifyingKey as k256::ecdsa::signature::hazmat::PrehashVerifier<k256::ecdsa::Signature>>::verify_prehash(&key, prehash, &sig).is_ok()
}

/// Recovers a public key with `VerifyingKey::recover_from_prehash`.
#[verifier::external_body]
pub(crate) fn recover_prehash(prehash: &[u8; 32], r: &[u8; 32], s: &[u8; 32], recid: u8) -> (k: Option<[u8; 64]>)
    requires
        scalar_in_range(r@),
        scalar_in_range(s@),
        recid < 4,
    ensures
        match k {
            Some(p) => ecdsa_recover_spec(prehash@, r@, s@, recid) == Some(p@) && secp256k1_point_valid(p@),
            None => ecdsa_recover_spec(prehash@, r@, s@, recid) is None,
        },
{
    let sig = k256::ecdsa::Signature::from_scalars(*r, *s).unwrap();
    let id = k256::ecdsa::RecoveryId::from_byte(recid).unwrap();
    match k256::ecdsa::VerifyingKey::recover_from_prehash(prehash, &sig, id) {
        Ok(key) => {
            let encoded = key.to_encoded_point(false);
            let mut out = [0u8; 64];
            out.copy_from_slice(&encoded.as_bytes()[1..65]);
            Some(out)
        },
        Err(_) => None,
    }
}

/// The bytes of the group order, big-endian.
fn order_bytes() -> (r: [u8; 32])
    ensures be_value(r@) == secp256k1_order(),
{
    let r: [u8; 32] = [
        0xFF, 0xFF, 0xFF, 0xFF, 0xFF, 0xFF, 0xFF, 0xFF, 0xFF, 0xFF, 0xFF, 0xFF, 0xFF, 0xFF, 0xFF, 0xFE,
        0xBA, 0xAE, 0xDC, 0xE6, 0xAF, 0x48, 0xA0, 0x3B, 0xBF, 0xD2, 0x5E, 0x8C, 0xD0, 0x36, 0x41, 0x41,
    ];
    proof {
        reveal_with_fuel(be_value, 33);
        assert(r@ =~= seq![
            0xFFu8, 0xFF, 0xFF, 0xFF, 0xFF, 0xFF, 0xFF, 0xFF, 0xFF, 0xFF, 0xFF, 0xFF, 0xFF, 0xFF, 0xFF, 0xFE,
            0xBA, 0xAE, 0xDC, 0xE6, 0xAF, 0x48, 0xA0, 0x3B, 0xBF, 0xD2, 0x5E, 0x8C, 0xD0, 0x36, 0x41, 0x41,
        ]);
    }
    r
}

pub proof fn lemma_be_value_bound(b: Seq<u8>)
    ensures be_value(b) < vstd::arithmetic::power2::pow2(8 * b.len()),
    decreases b.len(),
{
    if b.len() > 0 {
        lemma_be_value_bound(b.drop_last());
        vstd::arithmetic::power2::lemma_pow2_adds(8 * (b.len() - 1) as nat, 8);
        vstd::arithmetic::power2::lemma2_to64();
        let p = vstd::arithmetic::power2::pow2(8 * (b.len() - 1) as nat);
        assert(be_value(b.drop_last()) * 256 + b.last() < p * 256) by (nonlinear_arith)
            requires be_value(b.drop_last()) < p, b.last() < 256;
    } else {
        vstd::arithmetic::power2::lemma2_to64();
    }
}

/// Comparing big-endian numbers of equal length: the first differing byte
/// decides.
proof fn lemma_be_value_prefix_order(a: Seq<u8>, b: Seq<u8>, i: int)
    requires
        a.len() == b.len(),
        0 <= i < a.len(),
        a.take(i) == b.take(i),
        a[i] < b[i],
    ensures
        be_value(a) < be_value(b),
    decreases a.len(),
{
    if i < a.len() - 1 {
        assert(a.drop_last().take(i) =~= a.take(i));
        assert(b.drop_last().take(i) =~= b.take(i));
        lemma_be_value_prefix_order(a.drop_last(), b.drop_last(), i);
        assert(be_value(a.drop_last()) + 1 <= be_value(b.drop_last()));
        assert(be_value(a) < be_value(b)) by (nonlinear_arith)
            requires
                be_value(a) == be_value(a.drop_last()) * 256 + a.last(),
                be_value(b) == be_value(b.drop_last()) * 256 + b.last(),
                be_value(a.drop_last()) + 1 <= be_value(b.drop_last()),
                a.last() < 256,
                b.last() >= 0;
    } else {
        assert(a.drop_last() =~= a.take(i));
        assert(b.drop_last() =~= b.take(i));
    }
}

proof fn lemma_be_value_zero(a: Seq<u8>)
    requires forall|k: int| 0 <= k < a.len() ==> a[k] == 0,
    ensures be_value(a) == 0,
    decreases a.len(),
{
    if a.len() > 0 {
        lemma_be_value_zero(a.drop_last());
    }
}

proof fn lemma_be_value_nonzero(a: Seq<u8>, i: int)
    requires 0 <= i < a.len(), a[i] != 0,
    ensures be_value(a) > 0,
    decreases a.len(),
{
    if i < a.len() - 1 {
        lemma_be_value_nonzero(a.drop_last(), i);
        assert(be_value(a.drop_last()) * 256 >= 256) by (nonlinear_arith)
            requires be_value(a.drop_last()) >= 1;
    }
}

/// Whether 32 big-endian bytes hold a scalar in 1..n.
pub fn is_valid_scalar(b: &[u8; 32]) -> (r: bool)
    ensures r == scalar_in_range(b@),
{
    let n = order_bytes();
    let mut nonzero = false;
    let mut i: usize = 0;
    while i < 32
        invariant
            i <= 32,
            nonzero == exists|k: int| 0 <= k < i && b@[k] != 0,
        decreases 32 - i,
    {
        if b[i] != 0 {
            nonzero = true;
        }
        i = i + 1;
    }
    if !nonzero {
        proof {
            lemma_be_value_zero(b@);
        }
        return false;
    }
    proof {
        let k = choose|k: int| 0 <= k < 32 && b@[k] != 0;
        lemma_be_value_nonzero(b@, k);
    }
    let mut j: usize = 0;
    while j < 32
        invariant
            j <= 32,
            be_value(b@) > 0,
            be_value(n@) == secp256k1_order(),
            b@.take(j as int) == n@.take(j as int),
        decreases 32 - j,
    {
        if b[j] < n[j] {
            proof {
                lemma_be_value_prefix_order(b@, n@, j as int);
            }
            return true;
        }
        if b[j] > n[j] {
            proof {
                lemma_be_value_prefix_order(n@, b@, j as int);
            }
            return false;
        }
        assert(b@.take(j + 1) =~= b@.take(j as int).push(b@[j as int]));
        assert(n@.take(j + 1) =~= n@.take(j as int).push(n@[j as int]));
        j = j + 1;
    }
    assert(b@ =~= b@.take(32));
    assert(n@ =~= n@.take(32));
    false
}

/// An ECDSA signature on secp256k1 with the Ethereum recovery byte.
#[derive(Clone, Copy, Debug)]
pub struct EcdsaSignature {
    pub r: [u8; 32],
    pub s: [u8; 32],
    /// Recovery id plus 27.
    pub v: u8,
}

impl EcdsaSignature {
    /// r ‖ s ‖ v, 65 bytes.
    pub fn to_bytes(&self) -> (b: [u8; 65])
        ensures b@ == self.r@ + self.s@ + seq![self.v],
    {
        let mut b = [0u8; 65];
        let mut i: usize = 0;
        while i < 32
            invariant
                i <= 32,
                forall|k: int| 0 <= k < i ==> b@[k] == self.r@[k],
                forall|k: int| 0 <= k < i ==> b@[32 + k] == self.s@[k],
            decreases 32 - i,
        {
            b[i] = self.r[i];
            b[32 + i] = self.s[i];
            i = i + 1;
        }
        b[64] = self.v;
        assert(b@ =~= self.r@ + self.s@ + seq![self.v]);
        b
    }

    /// Reads r ‖ s ‖ v from 65 bytes.
    pub fn from_bytes(bytes: &[u8; 65]) -> (sig: Self)
        ensures
            sig.r@ == bytes@.subrange(0, 32),
            sig.s@ == bytes@.subrange(32, 64),
            sig.v == bytes@[64],
    {
        let mut r = [0u8; 32];
        let mut s = [0u8; 32];
        let mut i: usize = 0;
        while i < 32
            invariant
                i <= 32,
                forall|k: int| 0 <= k < i ==> r@[k] == bytes@[k],
                forall|k: int| 0 <= k < i ==> s@[k] == bytes@[32 + k],
            decreases 32 - i,
        {
            r[i] = bytes[i];
            s[i] = bytes[32 + i];
            i = i + 1;
        }
        assert(r@ =~= bytes@.subrange(0, 32));
        assert(s@ =~= bytes@.subrange(32, 64));
        EcdsaSignature { r, s, v: bytes[64] }
    }
}

/// Reading back the bytes of a signature gives the signature.
pub proof fn lemma_signature_bytes_roundtrip(r: Seq<u8>, s: Seq<u8>, v: u8)
    requires r.len() == 32, s.len() == 32,
    ensures
        (r + s + seq![v]).subrange(0, 32) == r,
        (r + s + seq![v]).subrange(32, 64) == s,
        (r + s + seq![v])[64] == v,
{
    assert((r + s + seq![v]).subrange(0, 32) =~= r);
    assert((r + s + seq![v]).subrange(32, 64) =~= s);
}

/// An uncompressed secp256k1 public key, x ‖ y without the SEC1 prefix.
#[derive(Clone, Copy, Debug)]
pub struct PublicKey(pub [u8; 64]);

impl PartialEq for PublicKey {
    fn eq(&self, other: &Self) -> (r: bool) {
        crate::primitives::types::bytes_eq(self.0.as_slice(), other.0.as_slice())
    }
}

impl vstd::std_specs::cmp::PartialEqSpecImpl for PublicKey {
    open spec fn obeys_eq_spec() -> bool { true }

    open spec fn eq_spec(&self, other: &Self) -> bool { self.0@ == other.0@ }
}

impl Eq for PublicKey {}

/// A secp256k1 secret key: a scalar in 1..n.
pub struct SecretKey {
    bytes: [u8; 32],
}

impl SecretKey {
    #[verifier::type_invariant]
    spec fn in_range(self) -> bool {
        scalar_in_range(self.bytes@)
    }

    /// The scalar of the key, big-endian.
    pub closed spec fn scalar(&self) -> Seq<u8> {
        self.bytes@
    }

    /// A fresh random key.
    pub fn generate() -> (r: Self)
        ensures scalar_in_range(r.scalar()),
    {
        SecretKey { bytes: random_secret() }
    }

    /// The key with this scalar, if it is in 1..n.
    pub fn from_bytes(bytes: &[u8; 32]) -> (r: Result<Self, NexusError>)
        ensures
            r is Ok <==> scalar_in_range(bytes@),
            r matches Ok(k) ==> k.scalar() == bytes@,
            r matches Err(e) ==> e is Crypto,
    {
        if is_valid_scalar(bytes) {
            Ok(SecretKey { bytes: *bytes })
        } else {
            Err(NexusError::Crypto("Invalid secret key".to_owned()))
        }
    }

    pub fn to_bytes(&self) -> (r: [u8; 32])
        ensures r@ == self.scalar(), scalar_in_range(r@),
    {
        proof {
            use_type_invariant(self);
        }
        self.bytes
    }

    /// Signs a 32-byte message hash; the signature carries the recovery id
    /// plus 27 and verifies under this key's public key.
    pub fn sign(&self, message_hash: &crate::primitives::types::Hash) -> (r: Result<EcdsaSignature, NexusError>)
        ensures
            match r {
                Ok(sig) => ecdsa_sign_spec(self.scalar(), message_hash.0@) == Some((sig.r@, sig.s@, (sig.v - 27) as u8))
                    && sig.v >= 27
                    && verify_signature_spec(message_hash.0@, sig, secp256k1_public_key(self.scalar()))
                        == Ok::<bool, ()>(true),
                Err(e) => ecdsa_sign_spec(self.scalar(), message_hash.0@) is None && e is Crypto,
            },
    {
        proof {
            use_type_invariant(self);
        }
        match sign_recoverable(&self.bytes, &message_hash.0) {
            Some((rr, ss, id)) => {
                let sig = EcdsaSignature { r: rr, s: ss, v: id + 27 };
                Ok(sig)
            },
            None => Err(NexusError::Crypto("Signing failed".to_owned())),
        }
    }
}

impl PublicKey {
    /// The public key of a secret key.
    pub fn from_secret(secret: &SecretKey) -> (r: Result<Self, NexusError>)
        ensures
            r matches Ok(k) && k.0@ == secp256k1_public_key(secret.scalar())
                && secp256k1_point_valid(k.0@),
    {
        let b = secret.to_bytes();
        Ok(PublicKey(public_key_of(&b)))
    }

    /// The Ethereum-style address of the key: the last twenty bytes of the
    /// Keccak-256 hash of x ‖ y.
    pub fn to_address(&self) -> (r: Address)
        ensures r.0@ == digest_tail(keccak256_spec(self.0@)),
    {
        let h = keccak256(self.0.as_slice());
        let mut a = [0u8; 20];
        let mut i: usize = 0;
        while i < 20
            invariant
                i <= 20,
                forall|j: int| 0 <= j < i ==> a@[j] == h@[j + 12],
            decreases 20 - i,
        {
            a[i] = h[i + 12];
            i = i + 1;
        }
        assert(a@ =~= digest_tail(h@));
        Address(a)
    }
}

/// The outcome of checking a signature: an error (`Err`) when the key is
/// not a curve point, a component is outside 1..n, or v − 27 (saturating)
/// is not a recovery id; else whether the signature verifies.
pub open spec fn verify_signature_spec(prehash: Seq<u8>, sig: EcdsaSignature, key: Seq<u8>) -> Result<bool, ()> {
    let recid = if sig.v >= 27 { sig.v - 27 } else { 0 };
    if !secp256k1_point_valid(key) || !scalar_in_range(sig.r@) || !scalar_in_range(sig.s@) || recid >= 4 {
        Err(())
    } else {
        Ok(ecdsa_verify_spec(key, prehash, sig.r@, sig.s@))
    }
}

/// Verifies an ECDSA signature of a message hash under a public key.
pub fn verify_signature(message_hash: &crate::primitives::types::Hash, signature: &EcdsaSignature, public_key: &PublicKey) -> (r: Result<bool, NexusError>)
    ensures
        match r {
            Ok(b) => verify_signature_spec(message_hash.0@, *signature, public_key.0@) == Ok::<bool, ()>(b),
            Err(e) => verify_signature_spec(message_hash.0@, *signature, public_key.0@) is Err && e is Crypto,
        },
{
    if !point_valid(&public_key.0) {
        return Err(NexusError::Crypto("Invalid public key".to_owned()));
    }
    if !is_valid_scalar(&signature.r) || !is_valid_scalar(&signature.s) {
        return Err(NexusError::Crypto("Invalid signature format".to_owned()));
    }
    let recid: u8 = if signature.v >= 27 { signature.v - 27 } else { 0 };
    if recid >= 4 {
        return Err(NexusError::Crypto("Invalid recovery id".to_owned()));
    }
    Ok(verify_prehash(&public_key.0, &message_hash.0, &signature.r, &signature.s))
}

/// The outcome of recovering a key from a signature, as
/// `verify_signature_spec` but giving the recovered key.
pub open spec fn recover_spec(prehash: Seq<u8>, sig: EcdsaSignature) -> Option<Seq<u8>> {
    let recid = if sig.v >= 27 { (sig.v - 27) as u8 } else { 0u8 };
    if !scalar_in_range(sig.r@) || !scalar_in_range(sig.s@) || recid >= 4 {
        None
    } else {
        ecdsa_recover_spec(prehash, sig.r@, sig.s@, recid)
    }
}

/// Recovers the public key that made a signature.
pub fn recover_public_key(message_hash: &crate::primitives::types::Hash, signature: &EcdsaSignature) -> (r: Result<PublicKey, NexusError>)
    ensures
        match r {
            Ok(k) => recover_spec(message_hash.0@, *signature) == Some(k.0@),
            Err(e) => recover_spec(message_hash.0@, *signature) is None && e is Crypto,
        },
{
    if !is_valid_scalar(&signature.r) || !is_valid_scalar(&signature.s) {
        return Err(NexusError::Crypto("Invalid signature".to_owned()));
    }
    let recid: u8 = if signature.v >= 27 { signature.v - 27 } else { 0 };
    if recid >= 4 {
        return Err(NexusError::Crypto("Invalid recovery id".to_owned()));
    }
    match recover_prehash(&message_hash.0, &signature.r, &signature.s, recid) {
        Some(p) => Ok(PublicKey(p)),
        None => Err(NexusError::Crypto("Recovery failed".to_owned())),
    }
}

/// The BLAKE3 hash of `data`.
pub fn blake3_hash(data: &[u8]) -> (r: crate::primitives::types::Hash)
    ensures r.0@ == blake3_spec(data@),
{
    crate::primitives::types::Hash(blake3_digest(data))
}

/// The little-endian bytes of a 32-bit number.
pub open spec fn le_u32(x: u32) -> Seq<u8> {
    seq![(x % 256) as u8, ((x / 256) % 256) as u8, ((x / 65536) % 256) as u8, ((x / 16777216) % 256) as u8]
}

/// The little-endian bytes of a 64-bit number.
pub open spec fn le_u64(x: u64) -> Seq<u8> {
    Seq::new(8, |i: int| ((x as nat / vstd::arithmetic::power2::pow2((8 * i) as nat)) % 256) as u8)
}

/// The concatenated bytes of a list of hashes.
pub open spec fn hashes_bytes(h: Seq<crate::primitives::types::Hash>) -> Seq<u8>
    decreases h.len(),
{
    if h.len() == 0 { Seq::empty() } else { hashes_bytes(h.drop_last()) + h.last().0@ }
}

/// The bytes whose BLAKE3 hash identifies a vertex: parent count (32-bit,
/// little-endian), parents, transaction count, transactions, timestamp
/// (64-bit, little-endian), validator.
pub open spec fn vertex_preimage(parents: Seq<crate::primitives::types::Hash>, transactions: Seq<crate::primitives::types::Hash>, timestamp: u64, validator: Seq<u8>) -> Seq<u8> {
    le_u32(parents.len() as u32) + hashes_bytes(parents) + le_u32(transactions.len() as u32)
        + hashes_bytes(transactions) + le_u64(timestamp) + validator
}

fn push_le_u32(out: &mut Vec<u8>, x: u32)
    ensures final(out)@ == old(out)@ + le_u32(x),
{
    out.push((x % 256) as u8);
    out.push(((x / 256) % 256) as u8);
    out.push(((x / 65536) % 256) as u8);
    out.push(((x / 16777216) % 256) as u8);
    assert(final(out)@ =~= old(out)@ + le_u32(x));
}

fn push_le_u64(out: &mut Vec<u8>, x: u64)
    ensures final(out)@ == old(out)@ + le_u64(x),
{
    let ghost start = out@;
    let mut m: u64 = x;
    let mut i: u64 = 0;
    proof {
        vstd::arithmetic::power2::lemma2_to64();
        assert(x as nat / 1 == x as nat);
        assert(out@ =~= start + le_u64(x).take(0));
    }
    while i < 8
        invariant
            i <= 8,
            m as nat == x as nat / vstd::arithmetic::power2::pow2((8 * i) as nat),
            out@ == start + le_u64(x).take(i as int),
        decreases 8 - i,
    {
        proof {
            vstd::arithmetic::power2::lemma_pow2_adds((8 * i) as nat, 8);
            vstd::arithmetic::power2::lemma2_to64();
            vstd::arithmetic::power2::lemma_pow2_pos((8 * i) as nat);
            vstd::arithmetic::div_mod::lemma_div_denominator(x as int, vstd::arithmetic::power2::pow2((8 * i) as nat) as int, 256);
        }
        out.push((m % 256) as u8);
        assert(out@ =~= start + le_u64(x).take(i + 1));
        m = m / 256;
        i = i + 1;
    }
    assert(le_u64(x).take(8) =~= le_u64(x));
    proof {
        vstd::arithmetic::power2::lemma2_to64();
    }
}

fn push_hashes(out: &mut Vec<u8>, hs: &[crate::primitives::types::Hash])
    ensures final(out)@ == old(out)@ + hashes_bytes(hs@),
{
    let ghost start = out@;
    let mut i: usize = 0;
    while i < hs.len()
        invariant
            i <= hs@.len(),
            out@ == start + hashes_bytes(hs@.take(i as int)),
        decreases hs@.len() - i,
    {
        assert(hs@.take(i + 1).drop_last() =~= hs@.take(i as int));
        crate::primitives::address::push_all(out, hs[i].0.as_slice());
        assert(out@ =~= start + hashes_bytes(hs@.take(i + 1)));
        i = i + 1;
    }
    assert(hs@.take(hs@.len() as int) =~= hs@);
}

/// The identifier of a DAG vertex.
pub fn vertex_hash(parents: &[crate::primitives::types::Hash], transactions: &[crate::primitives::types::Hash], timestamp: u64, validator: &[u8; 32]) -> (r: crate::primitives::types::Hash)
    requires
        parents@.len() <= u32::MAX,
        transactions@.len() <= u32::MAX,
    ensures r.0@ == blake3_spec(vertex_preimage(parents@, transactions@, timestamp, validator@)),
{
    let mut buf: Vec<u8> = Vec::new();
    push_le_u32(&mut buf, parents.len() as u32);
    push_hashes(&mut buf, parents);
    push_le_u32(&mut buf, transactions.len() as u32);
    push_hashes(&mut buf, transactions);
    push_le_u64(&mut buf, timestamp);
    crate::primitives::address::push_all(&mut buf, validator.as_slice());
    assert(buf@ =~= vertex_preimage(parents@, transactions@, timestamp, validator@));
    crate::primitives::types::Hash(blake3_digest(buf.as_slice()))
}

/// The byte contents of a list of hashes.
pub open spec fn hash_views(h: Seq<crate::primitives::types::Hash>) -> Seq<Seq<u8>> {
    Seq::new(h.len(), |i: int| h[i].0@)
}

/// One level of the Merkle tree: hashes of adjacent pairs, the last one
/// paired with itself when the count is odd.
pub open spec fn merkle_level(h: Seq<Seq<u8>>) -> Seq<Seq<u8>> {
    Seq::new(((h.len() + 1) / 2) as nat, |i: int|
        if 2 * i + 1 < h.len() { blake3_spec(h[2 * i] + h[2 * i + 1]) } else { blake3_spec(h[2 * i] + h[2 * i]) })
}

/// The Merkle root of a nonempty list: the single element, or the root of
/// the next level.
pub open spec fn merkle_root_of(h: Seq<Seq<u8>>) -> Seq<u8>
    decreases h.len(),
{
    if h.len() <= 1 {
        h[0]
    } else {
        merkle_root_of(merkle_level(h))
    }
}

fn hash_pair(a: &crate::primitives::types::Hash, b: &crate::primitives::types::Hash) -> (r: crate::primitives::types::Hash)
    ensures r.0@ == blake3_spec(a.0@ + b.0@),
{
    let mut data: Vec<u8> = Vec::new();
    crate::primitives::address::push_all(&mut data, a.0.as_slice());
    crate::primitives::address::push_all(&mut data, b.0.as_slice());
    assert(data@ =~= a.0@ + b.0@);
    crate::primitives::types::Hash(blake3_digest(data.as_slice()))
}

/// The next level of a Merkle tree.
pub fn merkle_next_level(level: &Vec<crate::primitives::types::Hash>) -> (r: Vec<crate::primitives::types::Hash>)
    ensures hash_views(r@) == merkle_level(hash_views(level@)),
{
    let ghost hv = hash_views(level@);
    let mut out: Vec<crate::primitives::types::Hash> = Vec::new();
    let npairs = level.len() / 2 + level.len() % 2;
    let mut k: usize = 0;
    while k < npairs
        invariant
            hv == hash_views(level@),
            npairs == level@.len() / 2 + level@.len() % 2,
            level@.len() <= usize::MAX,
            k <= npairs,
            out@.len() == k,
            forall|j: int| 0 <= j < out@.len() ==> (#[trigger] out@[j]).0@ == merkle_level(hv)[j],
        decreases npairs - k,
    {
        assert(level@.len() == 2 * (level@.len() / 2) + level@.len() % 2);
        assert(k + k < level@.len());
        let i = k + k;
        let h = if i + 1 < level.len() { hash_pair(&level[i], &level[i + 1]) } else { hash_pair(&level[i], &level[i]) };
        out.push(h);
        k = k + 1;
    }
    assert(hash_views(out@) =~= merkle_level(hv));
    out
}

/// Merkle root of a list of hashes: zero for none, else pairs hashed level
/// by level (an odd last hash paired with itself) down to one.
pub fn compute_merkle_root(hashes: &[crate::primitives::types::Hash]) -> (r: crate::primitives::types::Hash)
    ensures
        hashes@.len() == 0 ==> r.0@ == Seq::new(32, |i: int| 0u8),
        hashes@.len() > 0 ==> r.0@ == merkle_root_of(hash_views(hashes@)),
{
    if hashes.len() == 0 {
        return crate::primitives::types::Hash::zero();
    }
    if hashes.len() == 1 {
        return hashes[0];
    }
    let mut level: Vec<crate::primitives::types::Hash> = vstd::slice::slice_to_vec(hashes);
    while level.len() > 1
        invariant
            level@.len() >= 1,
            merkle_root_of(hash_views(level@)) == merkle_root_of(hash_views(hashes@)),
        decreases level@.len(),
    {
        let next = merkle_next_level(&level);
        assert(hash_views(next@).len() == next@.len());
        assert(next@.len() == (level@.len() + 1) / 2);
        level = next;
    }
    level[0]
}

} // verus!
