//! The JSON-RPC wire types, and the hex formats of numbers, hashes,
//! addresses and bytes.
use vstd::prelude::*;
use crate::primitives::address::Address;
use crate::primitives::text::{hex_char_lower, hex_digit_lower, hex_decode, hex_decode_spec, str_to_chars, chars_to_string, parse_u64_radix, parse_u64_spec};
use crate::primitives::types::U256;
use crate::node::genesis::{ascii_bytes, ascii_bytes_exec, hex_text, hex_text_string};

verus! {

type VHash = crate::primitives::types::Hash;

/// A block: by number, by hash, or by tag.
pub enum BlockId {
    Number(u64),
    Hash(VHash),
    Tag(BlockTag),
}

/// A named block.
#[derive(Clone, Copy, Debug, PartialEq, Eq, Structural)]
pub enum BlockTag {
    Latest,
    Earliest,
    Pending,
    Safe,
    Finalized,
}

/// A transaction as the API shows it, every number in hex.
pub struct RpcTransaction {
    pub hash: String,
    pub nonce: String,
    pub block_hash: Option<String>,
    pub block_number: Option<String>,
    pub transaction_index: Option<String>,
    pub from: String,
    pub to: Option<String>,
    pub value: String,
    pub gas: String,
    pub gas_price: String,
    pub max_fee_per_gas: Option<String>,
    pub max_priority_fee_per_gas: Option<String>,
    pub input: String,
    pub v: String,
    pub r: String,
    pub s: String,
    pub tx_type: String,
    pub chain_id: String,
}

/// A receipt as the API shows it.
pub struct RpcReceipt {
    pub transaction_hash: String,
    pub transaction_index: String,
    pub block_hash: String,
    pub block_number: String,
    pub from: String,
    pub to: Option<String>,
    pub cumulative_gas_used: String,
    pub gas_used: String,
    pub contract_address: Option<String>,
    pub logs: Vec<RpcLog>,
    pub logs_bloom: String,
    pub status: String,
    pub effective_gas_price: String,
    pub tx_type: String,
}

/// A log as the API shows it.
pub struct RpcLog {
    pub address: String,
    pub topics: Vec<String>,
    pub data: String,
    pub block_number: String,
    pub transaction_hash: String,
    pub transaction_index: String,
    pub block_hash: String,
    pub log_index: String,
    pub removed: bool,
}

/// The arguments of a call.
pub struct CallRequest {
    pub from: Option<String>,
    pub to: String,
    pub gas: Option<String>,
    pub gas_price: Option<String>,
    pub value: Option<String>,
    pub data: Option<String>,
}

/// A filter for logs.
pub struct LogFilter {
    pub from_block: Option<BlockId>,
    pub to_block: Option<BlockId>,
    pub address: Option<Vec<String>>,
    pub topics: Option<Vec<Option<Vec<String>>>>,
}

/// The progress of syncing.
pub struct SyncStatus {
    pub starting_block: String,
    pub current_block: String,
    pub highest_block: String,
}

/// Lowercase hex digits of a number, without leading zeros.
pub open spec fn hex_digits(n: nat) -> Seq<char>
    decreases n,
{
    if n < 16 {
        seq![hex_char_lower(n as int)]
    } else {
        hex_digits(n / 16).push(hex_char_lower((n % 16) as int))
    }
}

/// The text without one leading "0x".
pub open spec fn strip_prefix_0x(s: Seq<char>) -> Seq<char> {
    if s.len() >= 2 && s[0] == '0' && s[1] == 'x' { s.subrange(2, s.len() as int) } else { s }
}

/// The bytes a hex text (one optional "0x") stands for.
pub open spec fn hex_bytes_of(s: Seq<char>) -> Option<Seq<u8>> {
    match ascii_bytes(strip_prefix_0x(s)) {
        None => None,
        Some(b) => match hex_decode_spec(b) {
            Ok(v) => Some(v),
            Err(_) => None,
        },
    }
}

fn strip_prefix_0x_exec(s: &str) -> (r: Vec<char>)
    ensures r@ == strip_prefix_0x(s@),
{
    let cs = str_to_chars(s);
    if cs.len() >= 2 && cs[0] == '0' && cs[1] == 'x' {
        let mut out: Vec<char> = Vec::new();
        let mut i: usize = 2;
        while i < cs.len()
            invariant 2 <= i <= cs@.len(), out@ == cs@.subrange(2, i as int),
            decreases cs@.len() - i,
        {
            out.push(cs[i]);
            assert(out@ =~= cs@.subrange(2, i + 1));
            i = i + 1;
        }
        out
    } else {
        cs
    }
}

fn hex_bytes_exec(s: &str) -> (r: Option<Vec<u8>>)
    ensures
        match hex_bytes_of(s@) {
            Some(v) => r matches Some(x) && x@ == v,
            None => r is None,
        },
{
    let stripped = strip_prefix_0x_exec(s);
    match ascii_bytes_exec(&stripped) {
        None => None,
        Some(b) => match hex_decode(b.as_slice()) {
            Ok(v) => Some(v),
            Err(_) => None,
        },
    }
}

/// "0x" and the lowercase hex digits of the number, without leading zeros.
pub fn format_u64(value: u64) -> (r: String)
    ensures r@ == "0x"@ + hex_digits(value as nat),
{
    let mut digits: Vec<char> = Vec::new();
    let mut m: u64 = value;
    loop
        invariant_except_break
            hex_digits(value as nat) == hex_digits(m as nat) + digits@.reverse(),
        ensures
            hex_digits(value as nat) == digits@.reverse(),
        decreases m,
    {
        if m < 16 {
            let ghost before = digits@;
            digits.push(hex_digit_lower(m as u8));
            assert(digits@.reverse() =~= seq![hex_char_lower(m as int)] + before.reverse());
            break;
        }
        let ghost before = digits@;
        digits.push(hex_digit_lower((m % 16) as u8));
        assert(hex_digits(m as nat) == hex_digits((m / 16) as nat).push(hex_char_lower((m % 16) as int)));
        assert(digits@.reverse() =~= seq![hex_char_lower((m % 16) as int)] + before.reverse());
        assert(hex_digits(m as nat) + before.reverse() =~= hex_digits((m / 16) as nat) + digits@.reverse());
        m = m / 16;
    }
    let mut out = str_to_chars("0x");
    let ghost start = out@;
    let mut i: usize = digits.len();
    while i > 0
        invariant
            i <= digits@.len(),
            out@ == start + digits@.subrange(i as int, digits@.len() as int).reverse(),
        decreases i,
    {
        i = i - 1;
        out.push(digits[i]);
        assert(out@ =~= start + digits@.subrange(i as int, digits@.len() as int).reverse());
    }
    assert(digits@.subrange(0, digits@.len() as int) =~= digits@);
    chars_to_string(out.as_slice())
}

/// The low 64 bits of the number, as `format_u64` writes them.
pub fn format_u256(value: &U256) -> (r: String)
    ensures r@ == "0x"@ + hex_digits((value.value() % 0x1_0000_0000_0000_0000) as nat),
{
    format_u64(value.as_u64())
}

pub fn format_hash(hash: &VHash) -> (r: String)
    ensures r@ == hex_text(hash.0@),
{
    hex_text_string(hash.0.as_slice())
}

pub fn format_address(addr: &Address) -> (r: String)
    ensures r@ == hex_text(addr.0@),
{
    hex_text_string(addr.0.as_slice())
}

pub fn format_bytes(data: &[u8]) -> (r: String)
    ensures r@ == hex_text(data@),
{
    hex_text_string(data)
}

/// A hex number (one optional "0x"), as the standard library reads it:
/// an optional '+', at least one digit, no overflow.
pub fn parse_u64(s: &str) -> (r: Option<u64>)
    ensures r == parse_u64_spec(strip_prefix_0x(s@), 16),
{
    let cs = strip_prefix_0x_exec(s);
    parse_u64_radix(cs.as_slice(), 16)
}

/// A hex address (one optional "0x") of exactly twenty bytes.
pub fn parse_address(s: &str) -> (r: Option<Address>)
    ensures
        match hex_bytes_of(s@) {
            Some(b) => if b.len() == 20 { r matches Some(a) && a.0@ == b } else { r is None },
            None => r is None,
        },
{
    match hex_bytes_exec(s) {
        None => None,
        Some(b) => if b.len() != 20 { None } else { Address::from_slice(b.as_slice()) },
    }
}

/// A hex hash (one optional "0x") of exactly thirty-two bytes.
pub fn parse_hash(s: &str) -> (r: Option<VHash>)
    ensures
        match hex_bytes_of(s@) {
            Some(b) => if b.len() == 32 { r matches Some(h) && h.0@ == b } else { r is None },
            None => r is None,
        },
{
    match hex_bytes_exec(s) {
        None => None,
        Some(b) => if b.len() != 32 { None } else { crate::primitives::types::Hash::from_slice(b.as_slice()) },
    }
}

/// Hex bytes (one optional "0x").
pub fn parse_bytes(s: &str) -> (r: Option<Vec<u8>>)
    ensures
        match hex_bytes_of(s@) {
            Some(b) => r matches Some(x) && x@ == b,
            None => r is None,
        },
{
    hex_bytes_exec(s)
}

} // verus!
