//! Transactions: kinds and fields, signing and identifying hashes, intrinsic
//! gas, basic validation, and decoding of raw RLP-encoded Ethereum
//! transactions.
use vstd::prelude::*;
use crate::primitives::types::{U256, Gas, Nonce, limbs_from_be, u256_be_bytes};
use crate::primitives::address::{Address, low_address, push_all};
use crate::primitives::crypto::{EcdsaSignature, PublicKey, be_value, recover_public_key, recover_spec, blake3_hash, lemma_be_value_bound};
use crate::primitives::error::NexusError;
use crate::primitives::hashing::{keccak256, keccak256_spec, blake3_spec};

verus! {

/// Kinds of transaction.
#[derive(Clone, Copy, Debug, PartialEq, Eq, Structural)]
pub enum TxType {
    /// Legacy Ethereum transaction.
    Legacy,
    /// EIP-2930 access-list transaction.
    AccessList,
    /// EIP-1559 dynamic-fee transaction.
    DynamicFee,
    /// Shielded transaction with a zero-knowledge proof.
    Private,
    /// ISO 20022 payment.
    IsoPayment,
    /// System transaction (rewards, governance).
    System,
}

impl TxType {
    /// The type byte.
    pub open spec fn byte_spec(self) -> u8 {
        match self {
            TxType::Legacy => 0,
            TxType::AccessList => 1,
            TxType::DynamicFee => 2,
            TxType::Private => 0x80,
            TxType::IsoPayment => 0x81,
            TxType::System => 0xFF,
        }
    }

    pub fn to_byte(&self) -> (r: u8)
        ensures r == self.byte_spec(),
    {
        match self {
            TxType::Legacy => 0,
            TxType::AccessList => 1,
            TxType::DynamicFee => 2,
            TxType::Private => 0x80,
            TxType::IsoPayment => 0x81,
            TxType::System => 0xFF,
        }
    }
}

/// Access list entry (EIP-2930).
#[derive(Clone, Debug)]
pub struct AccessListEntry {
    pub address: Address,
    pub storage_keys: Vec<crate::primitives::types::Hash>,
}

/// Kinds of zero-knowledge proof.
#[derive(Clone, Copy, Debug, PartialEq, Eq, Structural)]
pub enum ZkpProofType {
    Groth16,
    Plonk,
    Stark,
}

/// A zero-knowledge proof of a shielded transaction.
#[derive(Clone, Debug)]
pub struct ZkpProofData {
    pub proof_type: ZkpProofType,
    pub proof: Vec<u8>,
    pub public_inputs: Vec<[u8; 32]>,
    /// Spent notes, to prevent double spending.
    pub nullifiers: Vec<crate::primitives::types::Hash>,
    /// New notes.
    pub commitments: Vec<crate::primitives::types::Hash>,
}

/// ISO 20022 message kinds carried by transactions.
#[derive(Clone, Copy, Debug, PartialEq, Eq, Structural)]
pub enum IsoMessageType {
    CreditTransfer,
    PaymentStatus,
    AccountStatement,
    DirectDebit,
    Return,
}

/// A postal address (ISO 20022).
#[derive(Clone, Debug)]
pub struct PostalAddress {
    pub street_name: Option<String>,
    pub building_number: Option<String>,
    pub postal_code: Option<String>,
    pub town_name: Option<String>,
    /// ISO 3166-1 alpha-2.
    pub country: String,
}

/// A debtor or creditor.
#[derive(Clone, Debug)]
pub struct PartyInfo {
    pub name: String,
    /// IBAN or other account identifier.
    pub account: String,
    pub bic: Option<String>,
    pub lei: Option<String>,
    pub address: Option<PostalAddress>,
}

/// An amount in minor units with its currency.
#[derive(Clone, Debug)]
pub struct IsoAmount {
    pub value: u64,
    pub currency: String,
}

/// The payment message data of an ISO payment transaction.
#[derive(Clone, Debug)]
pub struct IsoMessageData {
    pub message_type: IsoMessageType,
    pub msg_id: String,
    pub creation_timestamp: String,
    pub instructing_agent: Option<String>,
    pub instructed_agent: Option<String>,
    pub debtor: Option<PartyInfo>,
    pub creditor: Option<PartyInfo>,
    pub amount: Option<IsoAmount>,
    pub raw_xml: Option<String>,
}

/// A transaction.
#[derive(Clone, Debug)]
pub struct Transaction {
    pub tx_type: TxType,
    pub chain_id: u64,
    pub nonce: Nonce,
    /// Recipient; `None` creates a contract.
    pub to: Option<Address>,
    pub value: U256,
    /// Call data or init code.
    pub data: Vec<u8>,
    pub gas_limit: Gas,
    /// Gas price, or the maximum fee per gas for EIP-1559.
    pub gas_price: U256,
    /// Maximum priority fee (EIP-1559).
    pub max_priority_fee: Option<U256>,
    pub access_list: Vec<AccessListEntry>,
    pub zkp_proof: Option<ZkpProofData>,
    pub iso_data: Option<IsoMessageData>,
    pub signature: Option<EcdsaSignature>,
}

/// Largest transaction data accepted, in bytes.
pub const MAX_TX_SIZE: usize = 131072;

/// The eight big-endian bytes of a 64-bit number.
pub open spec fn be8(x: u64) -> Seq<u8> {
    Seq::new(8, |j: int| crate::primitives::types::be_byte_of(x, j))
}

/// The four big-endian bytes of a 32-bit number.
pub open spec fn be4(x: u32) -> Seq<u8> {
    seq![(x / 16777216) as u8, ((x / 65536) % 256) as u8, ((x / 256) % 256) as u8, (x % 256) as u8]
}

/// The bytes hashed for signing: type, chain id, nonce, gas limit, gas
/// price, recipient (flag and address), value, data length (32-bit) and
/// data.
pub open spec fn signing_preimage(tx: Transaction) -> Seq<u8> {
    seq![tx.tx_type.byte_spec()] + be8(tx.chain_id) + be8(tx.nonce) + be8(tx.gas_limit)
        + u256_be_bytes(tx.gas_price.0@)
        + (match tx.to {
            Some(a) => seq![1u8] + a.0@,
            None => seq![0u8],
        })
        + u256_be_bytes(tx.value.0@) + be4(tx.data@.len() as u32) + tx.data@
}

/// The full encoding: the signing bytes, then the signature if any.
pub open spec fn full_encoding(tx: Transaction) -> Seq<u8> {
    signing_preimage(tx) + match tx.signature {
        Some(sig) => sig.r@ + sig.s@ + seq![sig.v],
        None => Seq::empty(),
    }
}

/// The base intrinsic gas of a transaction kind.
pub open spec fn base_gas(t: TxType) -> nat {
    match t {
        TxType::Legacy | TxType::AccessList | TxType::DynamicFee => 21_000,
        TxType::Private => 100_000,
        TxType::IsoPayment => 50_000,
        TxType::System => 0,
    }
}

/// Gas for data: 4 per zero byte, 16 per other byte.
pub open spec fn data_gas(d: Seq<u8>) -> nat
    decreases d.len(),
{
    if d.len() == 0 { 0 } else { data_gas(d.drop_last()) + if d.last() == 0 { 4nat } else { 16nat } }
}

proof fn lemma_data_gas_bound(d: Seq<u8>)
    ensures data_gas(d) <= 16 * d.len(),
    decreases d.len(),
{
    if d.len() > 0 {
        lemma_data_gas_bound(d.drop_last());
    }
}

/// Intrinsic gas: base by kind, data gas, and 32,000 for creation.
pub open spec fn intrinsic_gas_spec(tx: Transaction) -> nat {
    base_gas(tx.tx_type) + data_gas(tx.data@) + if tx.to is None { 32_000nat } else { 0nat }
}

pub(crate) fn push_be8(out: &mut Vec<u8>, x: u64)
    ensures final(out)@ == old(out)@ + be8(x),
{
    let ghost start = out@;
    let mut j: u64 = 0;
    while j < 8
        invariant
            j <= 8,
            out@ == start + be8(x).take(j as int),
        decreases 8 - j,
    {
        out.push(((x >> (56 - 8 * j)) & 0xff) as u8);
        assert(out@ =~= start + be8(x).take(j + 1));
        j = j + 1;
    }
    assert(be8(x).take(8) =~= be8(x));
}

impl Transaction {
    fn unsigned(tx_type: TxType, chain_id: u64, nonce: Nonce, to: Option<Address>, value: U256, data: Vec<u8>,
        gas_limit: Gas, gas_price: U256, max_priority_fee: Option<U256>) -> (r: Self)
        ensures
            r.tx_type == tx_type && r.chain_id == chain_id && r.nonce == nonce && r.to == to && r.value == value
                && r.data@ == data@ && r.gas_limit == gas_limit && r.gas_price == gas_price
                && r.max_priority_fee == max_priority_fee && r.access_list@.len() == 0 && r.zkp_proof is None
                && r.iso_data is None && r.signature is None,
    {
        Transaction {
            tx_type,
            chain_id,
            nonce,
            to,
            value,
            data,
            gas_limit,
            gas_price,
            max_priority_fee,
            access_list: Vec::new(),
            zkp_proof: None,
            iso_data: None,
            signature: None,
        }
    }

    /// A legacy transaction, unsigned.
    pub fn new_legacy(chain_id: u64, nonce: Nonce, to: Option<Address>, value: U256, data: Vec<u8>, gas_limit: Gas,
        gas_price: U256) -> (r: Self)
        ensures
            r.tx_type == TxType::Legacy && r.chain_id == chain_id && r.nonce == nonce && r.to == to && r.value == value
                && r.data@ == data@ && r.gas_limit == gas_limit && r.gas_price == gas_price
                && r.max_priority_fee is None && r.access_list@.len() == 0 && r.zkp_proof is None
                && r.iso_data is None && r.signature is None,
    {
        Self::unsigned(TxType::Legacy, chain_id, nonce, to, value, data, gas_limit, gas_price, None)
    }

    /// An EIP-1559 transaction, unsigned; the maximum fee is kept as the gas
    /// price.
    pub fn new_dynamic_fee(chain_id: u64, nonce: Nonce, to: Option<Address>, value: U256, data: Vec<u8>,
        gas_limit: Gas, max_fee_per_gas: U256, max_priority_fee: U256) -> (r: Self)
        ensures
            r.tx_type == TxType::DynamicFee && r.chain_id == chain_id && r.nonce == nonce && r.to == to
                && r.value == value && r.data@ == data@ && r.gas_limit == gas_limit && r.gas_price == max_fee_per_gas
                && r.max_priority_fee == Some(max_priority_fee) && r.access_list@.len() == 0 && r.zkp_proof is None
                && r.iso_data is None && r.signature is None,
    {
        Self::unsigned(TxType::DynamicFee, chain_id, nonce, to, value, data, gas_limit, max_fee_per_gas, Some(max_priority_fee))
    }

    /// A shielded transaction: no recipient, value or data, 500,000 gas at
    /// 1,000,000,000 per gas.
    pub fn new_private(chain_id: u64, nonce: Nonce, zkp_proof: ZkpProofData) -> (r: Self)
        ensures
            r.tx_type == TxType::Private && r.chain_id == chain_id && r.nonce == nonce && r.to is None
                && r.value.value() == 0 && r.data@.len() == 0 && r.gas_limit == 500_000
                && r.gas_price.value() == 1_000_000_000 && r.max_priority_fee is None
                && r.access_list@.len() == 0 && r.zkp_proof is Some && r.iso_data is None && r.signature is None,
    {
        let mut r = Self::unsigned(TxType::Private, chain_id, nonce, None, U256::zero(), Vec::new(), 500_000,
            U256::from_u64(1_000_000_000), None);
        r.zkp_proof = Some(zkp_proof);
        r
    }

    /// An ISO payment transaction to the ISO system address, without value.
    pub fn new_iso_payment(chain_id: u64, nonce: Nonce, iso_data: IsoMessageData, gas_limit: Gas, gas_price: U256) -> (r: Self)
        ensures
            r.tx_type == TxType::IsoPayment && r.chain_id == chain_id && r.nonce == nonce,
            r.to matches Some(a) && a.0@ == low_address(0x30),
            r.value.value() == 0 && r.data@.len() == 0 && r.gas_limit == gas_limit
                && r.gas_price == gas_price && r.max_priority_fee is None
                && r.access_list@.len() == 0 && r.zkp_proof is None && r.iso_data is Some && r.signature is None,
    {
        let mut r = Self::unsigned(TxType::IsoPayment, chain_id, nonce, Some(Address::system_iso()), U256::zero(),
            Vec::new(), gas_limit, gas_price, None);
        r.iso_data = Some(iso_data);
        r
    }

    /// The bytes signed for this transaction.
    fn encode_for_signing(&self) -> (r: Vec<u8>)
        ensures r@ == signing_preimage(*self),
    {
        let mut buf: Vec<u8> = Vec::new();
        buf.push(self.tx_type.to_byte());
        push_be8(&mut buf, self.chain_id);
        push_be8(&mut buf, self.nonce);
        push_be8(&mut buf, self.gas_limit);
        let gp = self.gas_price.to_be_bytes();
        push_all(&mut buf, gp.as_slice());
        match &self.to {
            Some(a) => {
                buf.push(1);
                push_all(&mut buf, a.0.as_slice());
            },
            None => {
                buf.push(0);
            },
        }
        let v = self.value.to_be_bytes();
        push_all(&mut buf, v.as_slice());
        let n: u32 = self.data.len() as u32;
        buf.push((n / 16777216) as u8);
        buf.push(((n / 65536) % 256) as u8);
        buf.push(((n / 256) % 256) as u8);
        buf.push((n % 256) as u8);
        push_all(&mut buf, self.data.as_slice());
        assert(buf@ =~= signing_preimage(*self));
        buf
    }

    /// The hash that is signed: Keccak-256 of the signing bytes.
    pub fn signing_hash(&self) -> (r: crate::primitives::types::Hash)
        ensures r.0@ == keccak256_spec(signing_preimage(*self)),
    {
        let e = self.encode_for_signing();
        crate::primitives::types::Hash::new(keccak256(e.as_slice()))
    }

    /// The identifying hash: BLAKE3 of the signing bytes and signature.
    pub fn hash(&self) -> (r: crate::primitives::types::Hash)
        ensures r.0@ == blake3_spec(full_encoding(*self)),
    {
        let mut e = self.encode_for_signing();
        match &self.signature {
            Some(sig) => {
                let b = sig.to_bytes();
                push_all(&mut e, b.as_slice());
            },
            None => {},
        }
        assert(e@ =~= full_encoding(*self));
        blake3_hash(e.as_slice())
    }

    /// The address that signed the transaction.
    pub fn recover_sender(&self) -> (r: Result<Address, NexusError>)
        ensures
            self.signature is None ==> r matches Err(NexusError::Validation(_)),
            self.signature matches Some(sig) ==> match r {
                Ok(a) => recover_spec(keccak256_spec(signing_preimage(*self)), sig) matches Some(k)
                    && a.0@ == crate::primitives::address::digest_tail(keccak256_spec(k)),
                Err(e) => recover_spec(keccak256_spec(signing_preimage(*self)), sig) is None && e is Crypto,
            },
    {
        match &self.signature {
            None => Err(NexusError::Validation("Missing signature".to_owned())),
            Some(sig) => {
                let h = self.signing_hash();
                match recover_public_key(&h, sig) {
                    Ok(k) => Ok(k.to_address()),
                    Err(e) => Err(e),
                }
            },
        }
    }

    /// Intrinsic gas: 21,000 for Ethereum kinds, 100,000 for shielded,
    /// 50,000 for ISO payments, nothing for system transactions; 4 per zero
    /// and 16 per other data byte; 32,000 more for creation.
    pub fn intrinsic_gas(&self) -> (r: Gas)
        requires intrinsic_gas_spec(*self) <= u64::MAX,
        ensures r == intrinsic_gas_spec(*self),
    {
        let base: u64 = match self.tx_type {
            TxType::Legacy | TxType::AccessList | TxType::DynamicFee => 21_000,
            TxType::Private => 100_000,
            TxType::IsoPayment => 50_000,
            TxType::System => 0,
        };
        let mut dg: u64 = 0;
        let mut i: usize = 0;
        proof {
            lemma_data_gas_bound(self.data@);
        }
        while i < self.data.len()
            invariant
                i <= self.data@.len(),
                dg == data_gas(self.data@.take(i as int)),
                data_gas(self.data@) + base <= u64::MAX,
                intrinsic_gas_spec(*self) <= u64::MAX,
            decreases self.data@.len() - i,
        {
            assert(self.data@.take(i + 1).drop_last() =~= self.data@.take(i as int));
            proof {
                lemma_data_gas_prefix(self.data@, i + 1);
            }
            if self.data[i] == 0 {
                dg = dg + 4;
            } else {
                dg = dg + 16;
            }
            i = i + 1;
        }
        assert(self.data@.take(self.data@.len() as int) =~= self.data@);
        let create: u64 = if self.to.is_none() { 32_000 } else { 0 };
        base + dg + create
    }

    /// Basic validity: gas limit covers intrinsic gas, data within the size
    /// limit, and shielded/ISO transactions carry their proof/message.
    pub fn validate(&self) -> (r: Result<(), NexusError>)
        requires intrinsic_gas_spec(*self) <= u64::MAX,
        ensures
            r is Ok <==> (self.gas_limit >= intrinsic_gas_spec(*self)
                && self.data@.len() <= MAX_TX_SIZE
                && (self.tx_type == TxType::Private ==> self.zkp_proof is Some)
                && (self.tx_type == TxType::IsoPayment ==> self.iso_data is Some)),
            r matches Err(e) ==> e is Validation,
    {
        if self.gas_limit < self.intrinsic_gas() {
            return Err(NexusError::Validation("Gas limit below intrinsic gas".to_owned()));
        }
        if self.data.len() > MAX_TX_SIZE {
            return Err(NexusError::Validation("Transaction too large".to_owned()));
        }
        match self.tx_type {
            TxType::Private => {
                if self.zkp_proof.is_none() {
                    return Err(NexusError::Validation("Private tx missing ZKP proof".to_owned()));
                }
            },
            TxType::IsoPayment => {
                if self.iso_data.is_none() {
                    return Err(NexusError::Validation("ISO tx missing message data".to_owned()));
                }
            },
            _ => {},
        }
        Ok(())
    }
}

proof fn lemma_data_gas_prefix(d: Seq<u8>, i: int)
    requires 0 <= i <= d.len(),
    ensures data_gas(d.take(i)) <= data_gas(d),
    decreases d.len() - i,
{
    if i < d.len() {
        lemma_data_gas_prefix(d, i + 1);
        assert(d.take(i + 1).drop_last() =~= d.take(i));
    } else {
        assert(d.take(i) =~= d);
    }
}

// Decoding of raw RLP-encoded transactions.

/// An RLP header at the start of `b`: whether it opens a list, the payload
/// length, and how many bytes remain after the header; `None` when the
/// header is missing, not canonical, or announces more bytes than follow.
/// A byte below 0x80 is its own one-byte payload and is not consumed.
pub open spec fn rlp_header_spec(b: Seq<u8>) -> Option<(bool, nat, nat)> {
    if b.len() == 0 {
        None
    } else if b[0] < 0x80 {
        Some((false, 1, b.len()))
    } else if b[0] <= 0xB7 {
        let n = (b[0] - 0x80) as nat;
        if n == 1 && (b.len() < 2 || b[1] < 0x80) {
            None
        } else if b.len() - 1 < n {
            None
        } else {
            Some((false, n, (b.len() - 1) as nat))
        }
    } else if b[0] <= 0xBF || b[0] >= 0xF8 {
        let list = b[0] >= 0xF8;
        let ll = (if list { b[0] - 0xF7 } else { b[0] - 0xB7 }) as nat;
        if b.len() - 1 < ll {
            None
        } else if b[1] == 0 {
            None
        } else {
            let len = be_value(b.subrange(1, 1 + ll as int));
            if len > usize::MAX || len < 56 || b.len() - 1 - ll < len {
                None
            } else {
                Some((list, len, (b.len() - 1 - ll) as nat))
            }
        }
    } else {
        let n = (b[0] - 0xC0) as nat;
        if b.len() - 1 < n { None } else { Some((true, n, (b.len() - 1) as nat)) }
    }
}

/// Calls `alloy_rlp::Header::decode` on a byte slice; trusted to follow the
/// RLP header rules as `rlp_header_spec` states them, giving the list flag,
/// the payload length and the length of what is left after the header.
#[verifier::external_body]
fn rlp_header(buf: &[u8]) -> (r: Option<(bool, usize, usize)>)
    ensures
        match r {
            Some((list, n, rest)) => rlp_header_spec(buf@) == Some((list, n as nat, rest as nat)),
            None => rlp_header_spec(buf@) is None,
        },
{
    let mut s: &[u8] = buf;
    match alloy_rlp::Header::decode(&mut s) {
        Ok(h) => Some((h.list, h.payload_length, s.len())),
        Err(_) => None,
    }
}

/// The string item at `pos`: a single byte below 0x80, or a string with a
/// header; its content and the position after it.
pub open spec fn item_spec(b: Seq<u8>, pos: int) -> Option<(Seq<u8>, int)> {
    if pos < 0 || pos >= b.len() {
        None
    } else if b[pos] < 0x80 {
        Some((b.subrange(pos, pos + 1), pos + 1))
    } else {
        match rlp_header_spec(b.skip(pos)) {
            Some((false, n, rest)) => {
                let start = b.len() - rest;
                Some((b.subrange(start, start + n), start + n))
            },
            _ => None,
        }
    }
}

/// The position after a list item at `pos`.
pub open spec fn skip_list_spec(b: Seq<u8>, pos: int) -> Option<int> {
    if pos < 0 || pos > b.len() {
        None
    } else {
        match rlp_header_spec(b.skip(pos)) {
            Some((true, n, rest)) => Some(b.len() - rest + n),
            _ => None,
        }
    }
}

/// The position after a list header at the start.
pub open spec fn list_start(b: Seq<u8>) -> Option<int> {
    match rlp_header_spec(b) {
        Some((true, _, rest)) => Some(b.len() - rest),
        _ => None,
    }
}

/// An unsigned number of at most eight bytes.
pub open spec fn uint_item(b: Seq<u8>, pos: int) -> Option<(u64, int)> {
    match item_spec(b, pos) {
        Some((x, q)) => if x.len() > 8 { None } else { Some((be_value(x) as u64, q)) },
        None => None,
    }
}

/// `x` padded on the left with zeros to 32 bytes.
pub open spec fn pad32(x: Seq<u8>) -> Seq<u8> {
    Seq::new((32 - x.len()) as nat, |i: int| 0u8) + x
}

/// A number of at most 32 bytes, as 32 big-endian bytes.
pub open spec fn u256_item(b: Seq<u8>, pos: int) -> Option<(Seq<u8>, int)> {
    match item_spec(b, pos) {
        Some((x, q)) => if x.len() > 32 { None } else { Some((pad32(x), q)) },
        None => None,
    }
}

/// A signature component: at most 32 bytes, padded to 32.
pub open spec fn sig_item(b: Seq<u8>, pos: int) -> Option<(Seq<u8>, int)> {
    u256_item(b, pos)
}

/// A recipient: empty for creation, else exactly twenty bytes.
pub open spec fn address_item(b: Seq<u8>, pos: int) -> Option<(Option<Seq<u8>>, int)> {
    match item_spec(b, pos) {
        Some((x, q)) => if x.len() == 0 {
            Some((None, q))
        } else if x.len() == 20 {
            Some((Some(x), q))
        } else {
            None
        },
        None => None,
    }
}

/// The fields of a decoded transaction.
pub struct DecodedTx {
    pub tx_type: TxType,
    pub chain_id: u64,
    pub nonce: u64,
    pub to: Option<Seq<u8>>,
    pub value: Seq<u8>,
    pub data: Seq<u8>,
    pub gas_limit: u64,
    pub gas_price: Seq<u8>,
    pub max_priority_fee: Option<Seq<u8>>,
    pub r: Seq<u8>,
    pub s: Seq<u8>,
    pub y_parity: u8,
}

/// Chain id and parity from a legacy v: 27/28 carry no chain id; from 35
/// on, v = 2 × chain id + 35 + parity (EIP-155).
pub open spec fn legacy_finish(nonce: u64, gas_price: Seq<u8>, gas_limit: u64, to: Option<Seq<u8>>, value: Seq<u8>,
    data: Seq<u8>, v_raw: u64, r: Seq<u8>, s: Seq<u8>) -> Option<DecodedTx> {
    if v_raw == 27 || v_raw == 28 {
        Some(DecodedTx { tx_type: TxType::Legacy, chain_id: 0, nonce, to, value, data, gas_limit, gas_price,
            max_priority_fee: None, r, s, y_parity: (v_raw - 27) as u8 })
    } else if v_raw >= 35 {
        let cid = ((v_raw - 35) / 2) as u64;
        Some(DecodedTx { tx_type: TxType::Legacy, chain_id: cid, nonce, to, value, data, gas_limit, gas_price,
            max_priority_fee: None, r, s, y_parity: (v_raw - cid * 2 - 35) as u8 })
    } else {
        None
    }
}

/// An EIP-1559 payload: RLP([chainId, nonce, maxPriorityFee, maxFee, gas,
/// to, value, data, accessList, yParity, r, s]); fields are read one after
/// another after the list header, and trailing bytes are ignored.
pub open spec fn eip1559_spec(p: Seq<u8>) -> Option<DecodedTx> {
    match list_start(p) {
        None => None,
        Some(q0) =>
    match uint_item(p, q0) {
        None => None,
        Some((chain_id, q1)) => 
        match uint_item(p, q1) {
            None => None,
            Some((nonce, q2)) => 
            match u256_item(p, q2) {
                None => None,
                Some((max_priority_fee, q3)) => 
                match u256_item(p, q3) {
                    None => None,
                    Some((max_fee, q4)) => 
                    match uint_item(p, q4) {
                        None => None,
                        Some((gas_limit, q5)) => 
                        match address_item(p, q5) {
                            None => None,
                            Some((to, q6)) => 
                            match u256_item(p, q6) {
                                None => None,
                                Some((value, q7)) => 
                                match item_spec(p, q7) {
                                    None => None,
                                    Some((data, q8)) => 
                                    match skip_list_spec(p, q8) {
                                        None => None,
                                        Some(q9) => 
                                        match uint_item(p, q9) {
                                            None => None,
                                            Some((y_raw, q10)) => 
                                            match sig_item(p, q10) {
                                                None => None,
                                                Some((r, q11)) => 
                                                match sig_item(p, q11) {
                                                    None => None,
                                                    Some((s, q12)) => 
                                                    Some(DecodedTx { tx_type: TxType::DynamicFee, chain_id, nonce, to, value, data, gas_limit, gas_price: max_fee, max_priority_fee: Some(max_priority_fee), r, s, y_parity: y_raw as u8 })
                                                },
                                            },
                                        },
                                    },
                                },
                            },
                        },
                    },
                },
            },
        },
    }
    }
}

/// An EIP-2930 payload: RLP([chainId, nonce, gasPrice, gas, to, value,
/// data, accessList, yParity, r, s]).
pub open spec fn eip2930_spec(p: Seq<u8>) -> Option<DecodedTx> {
    match list_start(p) {
        None => None,
        Some(q0) =>
    match uint_item(p, q0) {
        None => None,
        Some((chain_id, q1)) => 
        match uint_item(p, q1) {
            None => None,
            Some((nonce, q2)) => 
            match u256_item(p, q2) {
                None => None,
                Some((gas_price, q3)) => 
                match uint_item(p, q3) {
                    None => None,
                    Some((gas_limit, q4)) => 
                    match address_item(p, q4) {
                        None => None,
                        Some((to, q5)) => 
                        match u256_item(p, q5) {
                            None => None,
                            Some((value, q6)) => 
                            match item_spec(p, q6) {
                                None => None,
                                Some((data, q7)) => 
                                match skip_list_spec(p, q7) {
                                    None => None,
                                    Some(q8) => 
                                    match uint_item(p, q8) {
                                        None => None,
                                        Some((y_raw, q9)) => 
                                        match sig_item(p, q9) {
                                            None => None,
                                            Some((r, q10)) => 
                                            match sig_item(p, q10) {
                                                None => None,
                                                Some((s, q11)) => 
                                                Some(DecodedTx { tx_type: TxType::AccessList, chain_id, nonce, to, value, data, gas_limit, gas_price, max_priority_fee: None, r, s, y_parity: y_raw as u8 })
                                            },
                                        },
                                    },
                                },
                            },
                        },
                    },
                },
            },
        },
    }
    }
}

/// A legacy payload: RLP([nonce, gasPrice, gas, to, value, data, v, r, s]),
/// with the chain id and parity taken from v (27/28, or EIP-155).
pub open spec fn legacy_spec(p: Seq<u8>) -> Option<DecodedTx> {
    match list_start(p) {
        None => None,
        Some(q0) =>
    match uint_item(p, q0) {
        None => None,
        Some((nonce, q1)) => 
        match u256_item(p, q1) {
            None => None,
            Some((gas_price, q2)) => 
            match uint_item(p, q2) {
                None => None,
                Some((gas_limit, q3)) => 
                match address_item(p, q3) {
                    None => None,
                    Some((to, q4)) => 
                    match u256_item(p, q4) {
                        None => None,
                        Some((value, q5)) => 
                        match item_spec(p, q5) {
                            None => None,
                            Some((data, q6)) => 
                            match uint_item(p, q6) {
                                None => None,
                                Some((v_raw, q7)) => 
                                match sig_item(p, q7) {
                                    None => None,
                                    Some((r, q8)) => 
                                    match sig_item(p, q8) {
                                        None => None,
                                        Some((s, q9)) => 
                                        legacy_finish(nonce, gas_price, gas_limit, to, value, data, v_raw, r, s)
                                    },
                                },
                            },
                        },
                    },
                },
            },
        },
    }
    }
}


/// The transaction that raw bytes hold, if they are a well-formed typed
/// (0x01, 0x02) or legacy (list) transaction.
pub open spec fn from_rlp_spec(raw: Seq<u8>) -> Option<DecodedTx> {
    if raw.len() == 0 {
        None
    } else if raw[0] == 0x02 {
        eip1559_spec(raw.skip(1))
    } else if raw[0] == 0x01 {
        eip2930_spec(raw.skip(1))
    } else if raw[0] >= 0xc0 {
        legacy_spec(raw)
    } else {
        None
    }
}

/// Decoding does not reach the addition of 27 to a parity byte of 229 or
/// more, which overflows.
pub open spec fn rlp_parity_fits(raw: Seq<u8>) -> bool {
    from_rlp_spec(raw) matches Some(d) ==> d.y_parity < 229
}

/// A transaction holds the decoded fields, with v = parity + 27.
pub open spec fn holds_decoded(tx: Transaction, d: DecodedTx) -> bool {
    &&& tx.tx_type == d.tx_type
    &&& tx.chain_id == d.chain_id
    &&& tx.nonce == d.nonce
    &&& (match (tx.to, d.to) {
        (Some(a), Some(b)) => a.0@ == b,
        (None, None) => true,
        _ => false,
    })
    &&& tx.value.0@ == limbs_from_be(d.value)
    &&& tx.data@ == d.data
    &&& tx.gas_limit == d.gas_limit
    &&& tx.gas_price.0@ == limbs_from_be(d.gas_price)
    &&& (match (tx.max_priority_fee, d.max_priority_fee) {
        (Some(a), Some(b)) => a.0@ == limbs_from_be(b),
        (None, None) => true,
        _ => false,
    })
    &&& tx.access_list@.len() == 0
    &&& tx.zkp_proof is None
    &&& tx.iso_data is None
    &&& tx.signature matches Some(sig) && sig.r@ == d.r && sig.s@ == d.s && sig.v == d.y_parity + 27
}

fn next_bytes(p: &[u8], pos: usize) -> (r: Option<(Vec<u8>, usize)>)
    ensures
        match item_spec(p@, pos as int) {
            Some((x, q)) => r matches Some((v, q2)) && v@ == x && q2 == q,
            None => r is None,
        },
{
    if pos >= p.len() {
        return None;
    }
    if p[pos] < 0x80 {
        let v = vec![p[pos]];
        assert(v@ =~= p@.subrange(pos as int, pos + 1));
        return Some((v, pos + 1));
    }
    let rest = vstd::slice::slice_subrange(p, pos, p.len());
    assert(rest@ =~= p@.skip(pos as int));
    match rlp_header(rest) {
        Some((list, n, after)) => {
            if list {
                return None;
            }
            let start = p.len() - after;
            assert(n <= after);
            let end = start + n;
            let mut v: Vec<u8> = Vec::new();
            let mut i: usize = start;
            while i < end
                invariant
                    end == start + n,
                    start <= i <= start + n <= p@.len(),
                    v@ == p@.subrange(start as int, i as int),
                decreases end - i,
            {
                v.push(p[i]);
                assert(v@ =~= p@.subrange(start as int, i + 1));
                i = i + 1;
            }
            Some((v, start + n))
        },
        None => None,
    }
}

fn skip_list(p: &[u8], pos: usize) -> (r: Option<usize>)
    ensures
        match skip_list_spec(p@, pos as int) {
            Some(q) => r == Some(q as usize) && q <= p@.len(),
            None => r is None,
        },
{
    if pos > p.len() {
        return None;
    }
    let rest = vstd::slice::slice_subrange(p, pos, p.len());
    assert(rest@ =~= p@.skip(pos as int));
    match rlp_header(rest) {
        Some((list, n, after)) => {
            if !list {
                return None;
            }
            Some(p.len() - after + n)
        },
        None => None,
    }
}

fn next_uint(p: &[u8], pos: usize) -> (r: Option<(u64, usize)>)
    ensures
        match uint_item(p@, pos as int) {
            Some((x, q)) => r == Some((x, q as usize)),
            None => r is None,
        },
{
    match next_bytes(p, pos) {
        Some((v, q)) => {
            if v.len() > 8 {
                return None;
            }
            let mut acc: u64 = 0;
            let mut i: usize = 0;
            while i < v.len()
                invariant
                    i <= v@.len() <= 8,
                    acc == be_value(v@.take(i as int)),
                decreases v@.len() - i,
            {
                proof {
                    lemma_be_value_bound(v@.take(i as int));
                    vstd::arithmetic::power2::lemma2_to64();
                    vstd::arithmetic::power2::lemma2_to64_rest();
                    assert(v@.take(i + 1).drop_last() =~= v@.take(i as int));
                    if i < 7 {
                        vstd::arithmetic::power2::lemma_pow2_strictly_increases((8 * i) as nat, 56);
                    }
                    assert(acc * 256 + v@[i as int] <= 0xffff_ffff_ffff_ffff) by (nonlinear_arith)
                        requires acc < vstd::arithmetic::power2::pow2(56), v@[i as int] < 256,
                            vstd::arithmetic::power2::pow2(56) == 0x100_0000_0000_0000;
                }
                acc = acc * 256 + v[i] as u64;
                i = i + 1;
            }
            assert(v@.take(v@.len() as int) =~= v@);
            Some((acc, q))
        },
        None => None,
    }
}

fn padded32(v: &Vec<u8>) -> (r: [u8; 32])
    requires v@.len() <= 32,
    ensures r@ == pad32(v@),
{
    let mut arr = [0u8; 32];
    let off = 32 - v.len();
    let mut i: usize = 0;
    while i < v.len()
        invariant
            i <= v@.len() <= 32,
            off == 32 - v@.len(),
            forall|k: int| 0 <= k < off ==> arr@[k] == 0,
            forall|k: int| 0 <= k < i ==> arr@[off + k] == v@[k],
        decreases v@.len() - i,
    {
        arr[off + i] = v[i];
        i = i + 1;
    }
    assert(arr@ =~= pad32(v@));
    arr
}

fn next_u256(p: &[u8], pos: usize) -> (r: Option<([u8; 32], usize)>)
    ensures
        match u256_item(p@, pos as int) {
            Some((x, q)) => r matches Some((a, q2)) && a@ == x && q2 == q,
            None => r is None,
        },
{
    match next_bytes(p, pos) {
        Some((v, q)) => {
            if v.len() > 32 {
                return None;
            }
            Some((padded32(&v), q))
        },
        None => None,
    }
}

fn next_sig_scalar(p: &[u8], pos: usize) -> (r: Option<([u8; 32], usize)>)
    ensures
        match sig_item(p@, pos as int) {
            Some((x, q)) => r matches Some((a, q2)) && a@ == x && q2 == q,
            None => r is None,
        },
{
    next_u256(p, pos)
}

fn next_address(p: &[u8], pos: usize) -> (r: Option<(Option<[u8; 20]>, usize)>)
    ensures
        match address_item(p@, pos as int) {
            Some((None, q)) => r matches Some((None, q2)) && q2 == q,
            Some((Some(x), q)) => r matches Some((Some(a), q2)) && a@ == x && q2 == q,
            None => r is None,
        },
{
    match next_bytes(p, pos) {
        Some((v, q)) => {
            if v.len() == 0 {
                Some((None, q))
            } else if v.len() == 20 {
                match Address::from_slice(v.as_slice()) {
                    Some(a) => Some((Some(a.0), q)),
                    None => None,
                }
            } else {
                None
            }
        },
        None => None,
    }
}

/// Decoded fields before they become a transaction.
struct DecodedParts {
    tx_type: TxType,
    chain_id: u64,
    nonce: u64,
    to: Option<[u8; 20]>,
    value: [u8; 32],
    data: Vec<u8>,
    gas_limit: u64,
    gas_price: [u8; 32],
    max_priority_fee: Option<[u8; 32]>,
    r: [u8; 32],
    s: [u8; 32],
    y_parity: u8,
}

spec fn parts_view(d: DecodedParts) -> DecodedTx {
    DecodedTx {
        tx_type: d.tx_type,
        chain_id: d.chain_id,
        nonce: d.nonce,
        to: match d.to {
            Some(a) => Some(a@),
            None => None,
        },
        value: d.value@,
        data: d.data@,
        gas_limit: d.gas_limit,
        gas_price: d.gas_price@,
        max_priority_fee: match d.max_priority_fee {
            Some(a) => Some(a@),
            None => None,
        },
        r: d.r@,
        s: d.s@,
        y_parity: d.y_parity,
    }
}

fn legacy_finish_exec(nonce: u64, gas_price: [u8; 32], gas_limit: u64, to: Option<[u8; 20]>, value: [u8; 32],
    data: Vec<u8>, v_raw: u64, r: [u8; 32], s: [u8; 32]) -> (out: Option<DecodedParts>)
    ensures
        match legacy_finish(nonce, gas_price@, gas_limit, match to { Some(a) => Some(a@), None => None }, value@,
            data@, v_raw, r@, s@) {
            Some(d) => out matches Some(x) && parts_view(x) == d,
            None => out is None,
        },
{
    if v_raw == 27 || v_raw == 28 {
        Some(DecodedParts { tx_type: TxType::Legacy, chain_id: 0, nonce, to, value, data, gas_limit, gas_price,
            max_priority_fee: None, r, s, y_parity: (v_raw - 27) as u8 })
    } else if v_raw >= 35 {
        let cid = (v_raw - 35) / 2;
        Some(DecodedParts { tx_type: TxType::Legacy, chain_id: cid, nonce, to, value, data, gas_limit, gas_price,
            max_priority_fee: None, r, s, y_parity: (v_raw - cid * 2 - 35) as u8 })
    } else {
        None
    }
}

#[verifier::rlimit(100)]
#[verifier::spinoff_prover]
fn decode_eip1559(p: &[u8]) -> (out: Option<DecodedParts>)
    ensures
        match eip1559_spec(p@) {
            Some(d) => out matches Some(x) && parts_view(x) == d,
            None => out is None,
        },
{
    let q0 = match rlp_header(p) {
        Some((true, _, rest)) => p.len() - rest,
        _ => { return None; },
    };
    let (chain_id, q1) = match next_uint(p, q0) { Some(x) => x, None => { return None; } };
    let (nonce, q2) = match next_uint(p, q1) { Some(x) => x, None => { return None; } };
    let (max_priority_fee, q3) = match next_u256(p, q2) { Some(x) => x, None => { return None; } };
    let (max_fee, q4) = match next_u256(p, q3) { Some(x) => x, None => { return None; } };
    let (gas_limit, q5) = match next_uint(p, q4) { Some(x) => x, None => { return None; } };
    let (to, q6) = match next_address(p, q5) { Some(x) => x, None => { return None; } };
    let (value, q7) = match next_u256(p, q6) { Some(x) => x, None => { return None; } };
    let (data, q8) = match next_bytes(p, q7) { Some(x) => x, None => { return None; } };
    let q9 = match skip_list(p, q8) { Some(x) => x, None => { return None; } };
    let (y_raw, q10) = match next_uint(p, q9) { Some(x) => x, None => { return None; } };
    let (r, q11) = match next_sig_scalar(p, q10) { Some(x) => x, None => { return None; } };
    let (s, q12) = match next_sig_scalar(p, q11) { Some(x) => x, None => { return None; } };
    Some(DecodedParts { tx_type: TxType::DynamicFee, chain_id, nonce, to, value, data, gas_limit, gas_price: max_fee, max_priority_fee: Some(max_priority_fee), r, s, y_parity: y_raw as u8 })
}

#[verifier::rlimit(100)]
#[verifier::spinoff_prover]
fn decode_eip2930(p: &[u8]) -> (out: Option<DecodedParts>)
    ensures
        match eip2930_spec(p@) {
            Some(d) => out matches Some(x) && parts_view(x) == d,
            None => out is None,
        },
{
    let q0 = match rlp_header(p) {
        Some((true, _, rest)) => p.len() - rest,
        _ => { return None; },
    };
    let (chain_id, q1) = match next_uint(p, q0) { Some(x) => x, None => { return None; } };
    let (nonce, q2) = match next_uint(p, q1) { Some(x) => x, None => { return None; } };
    let (gas_price, q3) = match next_u256(p, q2) { Some(x) => x, None => { return None; } };
    let (gas_limit, q4) = match next_uint(p, q3) { Some(x) => x, None => { return None; } };
    let (to, q5) = match next_address(p, q4) { Some(x) => x, None => { return None; } };
    let (value, q6) = match next_u256(p, q5) { Some(x) => x, None => { return None; } };
    let (data, q7) = match next_bytes(p, q6) { Some(x) => x, None => { return None; } };
    let q8 = match skip_list(p, q7) { Some(x) => x, None => { return None; } };
    let (y_raw, q9) = match next_uint(p, q8) { Some(x) => x, None => { return None; } };
    let (r, q10) = match next_sig_scalar(p, q9) { Some(x) => x, None => { return None; } };
    let (s, q11) = match next_sig_scalar(p, q10) { Some(x) => x, None => { return None; } };
    Some(DecodedParts { tx_type: TxType::AccessList, chain_id, nonce, to, value, data, gas_limit, gas_price, max_priority_fee: None, r, s, y_parity: y_raw as u8 })
}

fn decode_legacy(p: &[u8]) -> (out: Option<DecodedParts>)
    ensures
        match legacy_spec(p@) {
            Some(d) => out matches Some(x) && parts_view(x) == d,
            None => out is None,
        },
{
    let q0 = match rlp_header(p) {
        Some((true, _, rest)) => p.len() - rest,
        _ => { return None; },
    };
    let (nonce, q1) = match next_uint(p, q0) { Some(x) => x, None => { return None; } };
    let (gas_price, q2) = match next_u256(p, q1) { Some(x) => x, None => { return None; } };
    let (gas_limit, q3) = match next_uint(p, q2) { Some(x) => x, None => { return None; } };
    let (to, q4) = match next_address(p, q3) { Some(x) => x, None => { return None; } };
    let (value, q5) = match next_u256(p, q4) { Some(x) => x, None => { return None; } };
    let (data, q6) = match next_bytes(p, q5) { Some(x) => x, None => { return None; } };
    let (v_raw, q7) = match next_uint(p, q6) { Some(x) => x, None => { return None; } };
    let (r, q8) = match next_sig_scalar(p, q7) { Some(x) => x, None => { return None; } };
    let (s, q9) = match next_sig_scalar(p, q8) { Some(x) => x, None => { return None; } };
    legacy_finish_exec(nonce, gas_price, gas_limit, to, value, data, v_raw, r, s)
}

impl Transaction {
    /// Decodes a raw Ethereum transaction: EIP-1559 (0x02), EIP-2930 (0x01)
    /// or legacy (an RLP list).
    pub fn from_rlp_bytes(raw: &[u8]) -> (r: Option<Self>)
        requires rlp_parity_fits(raw@),
        ensures
            match from_rlp_spec(raw@) {
                Some(d) => r matches Some(tx) && holds_decoded(tx, d),
                None => r is None,
            },
    {
        if raw.len() == 0 {
            return None;
        }
        let parts = if raw[0] == 0x02 {
            let body = vstd::slice::slice_subrange(raw, 1, raw.len());
            assert(body@ =~= raw@.skip(1));
            decode_eip1559(body)
        } else if raw[0] == 0x01 {
            let body = vstd::slice::slice_subrange(raw, 1, raw.len());
            assert(body@ =~= raw@.skip(1));
            decode_eip2930(body)
        } else if raw[0] >= 0xc0 {
            decode_legacy(raw)
        } else {
            None
        };
        match parts {
            None => None,
            Some(d) => {
                let to = match d.to {
                    Some(a) => Some(Address(a)),
                    None => None,
                };
                let mpf = match d.max_priority_fee {
                    Some(b) => Some(U256::from_be_bytes(b)),
                    None => None,
                };
                Some(Transaction {
                    tx_type: d.tx_type,
                    chain_id: d.chain_id,
                    nonce: d.nonce,
                    to,
                    value: U256::from_be_bytes(d.value),
                    data: d.data,
                    gas_limit: d.gas_limit,
                    gas_price: U256::from_be_bytes(d.gas_price),
                    max_priority_fee: mpf,
                    access_list: Vec::new(),
                    zkp_proof: None,
                    iso_data: None,
                    signature: Some(EcdsaSignature { r: d.r, s: d.s, v: d.y_parity + 27 }),
                })
            },
        }
    }
}

/// A transaction with its hash and recovered sender.
#[derive(Clone, Debug)]
pub struct SignedTransaction {
    pub transaction: Transaction,
    pub hash: crate::primitives::types::Hash,
    pub sender: Address,
}

impl SignedTransaction {
    /// Hashes a transaction and recovers its sender.
    pub fn new(transaction: Transaction) -> (r: Result<Self, NexusError>)
        ensures
            r matches Ok(st) ==> (st.hash.0@ == blake3_spec(full_encoding(transaction))
                && st.transaction.data@ == transaction.data@
                && (transaction.signature matches Some(sig)
                && (recover_spec(keccak256_spec(signing_preimage(transaction)), sig) matches Some(k)
                && st.sender.0@ == crate::primitives::address::digest_tail(keccak256_spec(k))))),
            r is Err <==> (transaction.signature is None
                || recover_spec(keccak256_spec(signing_preimage(transaction)), transaction.signature.unwrap()) is None),
    {
        let hash = transaction.hash();
        match transaction.recover_sender() {
            Ok(sender) => Ok(SignedTransaction { transaction, hash, sender }),
            Err(e) => Err(e),
        }
    }
}

/// An event log.
#[derive(Clone, Debug)]
pub struct Log {
    pub address: Address,
    pub topics: Vec<crate::primitives::types::Hash>,
    pub data: Vec<u8>,
    pub log_index: u32,
}

/// ISO payment processing states.
#[derive(Clone, Copy, Debug, PartialEq, Eq, Structural)]
pub enum IsoStatusCode {
    Accepted,
    Pending,
    Rejected,
    Settled,
}

/// ISO payment processing status.
#[derive(Clone, Debug)]
pub struct IsoTransactionStatus {
    pub status: IsoStatusCode,
    pub reason: Option<String>,
    pub settlement_date: Option<String>,
}

/// The outcome of executing a transaction.
#[derive(Clone, Debug)]
pub struct TransactionReceipt {
    pub tx_hash: crate::primitives::types::Hash,
    pub vertex_hash: crate::primitives::types::Hash,
    pub tx_index: u32,
    pub from: Address,
    pub to: Option<Address>,
    pub contract_address: Option<Address>,
    pub gas_used: Gas,
    pub cumulative_gas_used: Gas,
    /// 1 for success, 0 for failure.
    pub status: u8,
    pub logs: Vec<Log>,
    /// 256-byte log bloom.
    pub logs_bloom: Vec<u8>,
    pub zkp_verified: Option<bool>,
    pub iso_status: Option<IsoTransactionStatus>,
}

} // verus!
