//! Digest functions of outside crates, each behind one trusted wrapper.
use vstd::prelude::*;

verus! {

/// The Keccak-256 digest of `data`.
pub uninterp spec fn keccak256_spec(data: Seq<u8>) -> Seq<u8>;

/// The BLAKE3 digest (32 bytes) of `data`.
pub uninterp spec fn blake3_spec(data: Seq<u8>) -> Seq<u8>;

/// The SHA-256 digest of `data`.
pub uninterp spec fn sha256_spec(data: Seq<u8>) -> Seq<u8>;

/// The RIPEMD-160 digest of `data`.
pub uninterp spec fn ripemd160_spec(data: Seq<u8>) -> Seq<u8>;

/// Calls `sha3::Keccak256::digest`; trusted to return the 32-byte
/// Keccak-256 digest of the input, a function of the input alone.
#[verifier::external_body]
pub fn keccak256(data: &[u8]) -> (r: [u8; 32])
    ensures r@ == keccak256_spec(data@),
{
    let out: [u8; 32] = <sha3::Keccak256 as sha3::Digest>::digest(data).into();
    out
}

/// Calls `blake3::hash`; trusted to return the 32-byte BLAKE3 digest of the
/// input, a function of the input alone.
#[verifier::external_body]
pub fn blake3_digest(data: &[u8]) -> (r: [u8; 32])
    ensures r@ == blake3_spec(data@),
{
    *blake3::hash(data).as_bytes()
}

/// Calls `sha2::Sha256::digest`; trusted to return the 32-byte SHA-256 digest
/// of the input, a function of the input alone.
#[verifier::external_body]
pub fn sha256_digest(data: &[u8]) -> (r: [u8; 32])
    ensures r@ == sha256_spec(data@),
{
    let out: [u8; 32] = <sha2::Sha256 as sha2::Digest>::digest(data).into();
    out
}

/// Calls `ripemd::Ripemd160::digest`; trusted to return the 20-byte
/// RIPEMD-160 digest of the input, a function of the input alone.
#[verifier::external_body]
pub fn ripemd160_digest(data: &[u8]) -> (r: [u8; 20])
    ensures r@ == ripemd160_spec(data@),
{
    let out: [u8; 20] = <ripemd::Ripemd160 as ripemd::Digest>::digest(data).into();
    out
}

} // verus!
