//! Execution receipts, logs, and the 2048-bit logs bloom filter.
use vstd::prelude::*;
use crate::primitives::address::Address;
use crate::primitives::hashing::{keccak256, keccak256_spec};
use crate::primitives::text::string_from_utf8;
use crate::primitives::types::U256;

verus! {

/// A log entry (event) emitted by a contract.
#[derive(Clone, Debug)]
pub struct Log {
    pub address: Address,
    pub topics: Vec<crate::primitives::types::Hash>,
    pub data: Vec<u8>,
}

/// How a transaction's execution ended.
#[derive(Clone, Copy, Debug, PartialEq, Eq, Structural)]
pub enum ExecutionStatus {
    Success,
    Revert,
    Failure,
}

impl ExecutionStatus {
    pub fn is_success(&self) -> (r: bool)
        ensures r == (*self == ExecutionStatus::Success),
    {
        match self {
            ExecutionStatus::Success => true,
            _ => false,
        }
    }
}

/// The bit that position `idx` (0..2048) names in a 256-byte filter.
pub open spec fn bit_of(bytes: Seq<u8>, idx: int) -> bool {
    bytes[idx / 8] & (1u8 << ((idx % 8) as u8)) != 0
}

/// The `i`-th (0..3) filter position a 32-byte digest selects: its bytes
/// `2i` and `2i+1`, big-endian, modulo 2048.
pub open spec fn bloom_index(h: Seq<u8>, i: int) -> int {
    ((h[2 * i] as int) * 256 + h[2 * i + 1] as int) % 2048
}

/// Position `idx` is one of the three that digest `h` selects.
pub open spec fn selects(h: Seq<u8>, idx: int) -> bool {
    idx == bloom_index(h, 0) || idx == bloom_index(h, 1) || idx == bloom_index(h, 2)
}

/// All three positions of digest `h` are set in the filter.
pub open spec fn bloom_has(bytes: Seq<u8>, h: Seq<u8>) -> bool {
    bit_of(bytes, bloom_index(h, 0)) && bit_of(bytes, bloom_index(h, 1)) && bit_of(bytes, bloom_index(h, 2))
}

/// The filter's set bits are exactly those that some digest of `keys`
/// selects.
pub open spec fn bloom_exact(bytes: Seq<u8>, keys: Seq<Seq<u8>>) -> bool {
    forall|idx: int| 0 <= idx < 2048 ==> (#[trigger] bit_of(bytes, idx) <==> exists|k: int| 0 <= k < keys.len() && selects(#[trigger] keys[k], idx))
}

/// The digests a log feeds into the filter: that of its address, then that
/// of each topic.
pub open spec fn log_keys(log: Log) -> Seq<Seq<u8>> {
    seq![keccak256_spec(log.address.0@)] + log.topics@.map_values(|t: crate::primitives::types::Hash| keccak256_spec(t.0@))
}

/// The digests that a list of logs feeds into the filter, in order.
pub open spec fn logs_keys(logs: Seq<Log>) -> Seq<Seq<u8>>
    decreases logs.len(),
{
    if logs.len() == 0 { Seq::empty() } else { logs_keys(logs.drop_last()) + log_keys(logs.last()) }
}

proof fn lemma_or_bit(x: u8, p: u8, q: u8)
    requires p < 8, q < 8,
    ensures ((x | (1u8 << p)) & (1u8 << q) != 0) == ((x & (1u8 << q)) != 0 || p == q),
{
    assert(((x | (1u8 << p)) & (1u8 << q) != 0) == ((x & (1u8 << q)) != 0 || p == q)) by (bit_vector)
        requires p < 8, q < 8;
}

proof fn lemma_or_bytes(x: u8, y: u8, q: u8)
    requires q < 8,
    ensures ((x | y) & (1u8 << q) != 0) == ((x & (1u8 << q)) != 0 || (y & (1u8 << q)) != 0),
{
    assert(((x | y) & (1u8 << q) != 0) == ((x & (1u8 << q)) != 0 || (y & (1u8 << q)) != 0)) by (bit_vector)
        requires q < 8;
}

proof fn lemma_zero_bits(q: u8)
    requires q < 8,
    ensures (0u8 & (1u8 << q)) == 0,
{
    assert((0u8 & (1u8 << q)) == 0) by (bit_vector);
}

/// Logs bloom filter of 2048 bits.
#[derive(Clone, Debug)]
pub struct Bloom(pub [u8; 256]);

impl Default for Bloom {
    fn default() -> (r: Self)
        ensures r.0@ == Seq::new(256, |i: int| 0u8),
    {
        let r = Bloom([0u8; 256]);
        assert(r.0@ =~= Seq::new(256, |i: int| 0u8));
        r
    }
}

impl Bloom {
    /// The filter built from the addresses and topics of `logs`.
    pub fn from_logs(logs: &[Log]) -> (r: Self)
        ensures bloom_exact(r.0@, logs_keys(logs@)),
    {
        let mut bloom = Bloom::default();
        proof {
            assert forall|idx: int| 0 <= idx < 2048 implies !#[trigger] bit_of(bloom.0@, idx) by {
                lemma_zero_bits((idx % 8) as u8);
            }
            assert(logs@.subrange(0, 0) =~= Seq::<Log>::empty());
        }
        let mut i: usize = 0;
        while i < logs.len()
            invariant
                i <= logs@.len(),
                bloom_exact(bloom.0@, logs_keys(logs@.subrange(0, i as int))),
            decreases logs@.len() - i,
        {
            let log = &logs[i];
            let ghost before = logs_keys(logs@.subrange(0, i as int));
            bloom.accrue_address(&log.address);
            proof {
                assert(bloom_exact(bloom.0@, before.push(keccak256_spec(log.address.0@)))) by {
                    lemma_exact_push(before, keccak256_spec(log.address.0@));
                }
                assert(before.push(keccak256_spec(log.address.0@)) =~= before + log_keys(*log).subrange(0, 1));
            }
            let mut j: usize = 0;
            while j < log.topics.len()
                invariant
                    j <= log.topics@.len(),
                    *log == logs@[i as int],
                    bloom_exact(bloom.0@, before + log_keys(*log).subrange(0, j + 1)),
                decreases log.topics@.len() - j,
            {
                let ghost keys = before + log_keys(*log).subrange(0, j + 1);
                bloom.accrue_hash(&log.topics[j]);
                proof {
                    lemma_exact_push(keys, keccak256_spec(log.topics@[j as int].0@));
                    assert(keys.push(keccak256_spec(log.topics@[j as int].0@)) =~= before + log_keys(*log).subrange(0, j + 2));
                }
                j = j + 1;
            }
            proof {
                let sub = logs@.subrange(0, i + 1);
                assert(sub.drop_last() =~= logs@.subrange(0, i as int));
                assert(log_keys(*log).subrange(0, j + 1) =~= log_keys(*log));
            }
            i = i + 1;
        }
        proof {
            assert(logs@.subrange(0, logs@.len() as int) =~= logs@);
        }
        bloom
    }

    /// Adds an address to the filter.
    pub fn accrue_address(&mut self, address: &Address)
        ensures
            forall|idx: int| 0 <= idx < 2048 ==> (#[trigger] bit_of(final(self).0@, idx)
                <==> bit_of(old(self).0@, idx) || selects(keccak256_spec(address.0@), idx)),
    {
        let hash = keccak256(address.as_bytes());
        self.accrue_raw(&hash);
    }

    /// Adds a hash to the filter.
    pub fn accrue_hash(&mut self, hash: &crate::primitives::types::Hash)
        ensures
            forall|idx: int| 0 <= idx < 2048 ==> (#[trigger] bit_of(final(self).0@, idx)
                <==> bit_of(old(self).0@, idx) || selects(keccak256_spec(hash.0@), idx)),
    {
        let h = keccak256(hash.as_bytes());
        self.accrue_raw(&h);
    }

    fn accrue_raw(&mut self, hash: &[u8; 32])
        ensures
            forall|idx: int| 0 <= idx < 2048 ==> (#[trigger] bit_of(final(self).0@, idx)
                <==> bit_of(old(self).0@, idx) || selects(hash@, idx)),
    {
        let ghost start = self.0@;
        let mut i: usize = 0;
        while i < 3
            invariant
                i <= 3,
                forall|idx: int| 0 <= idx < 2048 ==> (#[trigger] bit_of(self.0@, idx)
                    <==> bit_of(start, idx) || (exists|k: int| 0 <= k < i && idx == bloom_index(hash@, k))),
            decreases 3 - i,
        {
            let bit_index: usize = ((hash[i * 2] as usize) * 256 + (hash[i * 2 + 1] as usize)) % 2048;
            let byte_index: usize = bit_index / 8;
            let bit_position: u8 = (bit_index % 8) as u8;
            let ghost prev = self.0@;
            let old_byte = self.0[byte_index];
            self.0[byte_index] = old_byte | (1u8 << bit_position);
            proof {
                assert(bit_index == bloom_index(hash@, i as int));
                assert forall|idx: int| 0 <= idx < 2048 implies (#[trigger] bit_of(self.0@, idx)
                    <==> bit_of(prev, idx) || idx == bit_index) by {
                    if idx / 8 == byte_index {
                        lemma_or_bit(old_byte, bit_position, (idx % 8) as u8);
                    }
                }
                assert forall|idx: int| 0 <= idx < 2048 implies (#[trigger] bit_of(self.0@, idx)
                    <==> bit_of(start, idx) || (exists|k: int| 0 <= k < i + 1 && idx == bloom_index(hash@, k))) by {
                    if idx == bit_index {
                        assert(0 <= i < i + 1 && idx == bloom_index(hash@, i as int));
                    }
                    if exists|k: int| 0 <= k < i + 1 && idx == bloom_index(hash@, k) {
                        let k = choose|k: int| 0 <= k < i + 1 && idx == bloom_index(hash@, k);
                        if k < i {
                            assert(exists|k2: int| 0 <= k2 < i && idx == bloom_index(hash@, k2));
                        }
                    }
                }
            }
            i = i + 1;
        }
        proof {
            assert forall|idx: int| 0 <= idx < 2048 implies ((exists|k: int| 0 <= k < 3 && idx == bloom_index(hash@, k))
                <==> selects(hash@, idx)) by {
                if selects(hash@, idx) {
                    if idx == bloom_index(hash@, 0) { assert(0 <= 0int < 3); }
                    else if idx == bloom_index(hash@, 1) { assert(0 <= 1int < 3); }
                    else { assert(0 <= 2int < 3); }
                }
            }
        }
    }

    /// All positions of an address's digest are set: the address may have
    /// been added (never false when it was).
    pub fn contains_address(&self, address: &Address) -> (r: bool)
        ensures r == bloom_has(self.0@, keccak256_spec(address.0@)),
    {
        let hash = keccak256(address.as_bytes());
        self.contains_raw(&hash)
    }

    /// All positions of a hash's digest are set.
    pub fn contains_hash(&self, hash: &crate::primitives::types::Hash) -> (r: bool)
        ensures r == bloom_has(self.0@, keccak256_spec(hash.0@)),
    {
        let h = keccak256(hash.as_bytes());
        self.contains_raw(&h)
    }

    fn contains_raw(&self, hash: &[u8; 32]) -> (r: bool)
        ensures r == bloom_has(self.0@, hash@),
    {
        let mut i: usize = 0;
        while i < 3
            invariant
                i <= 3,
                forall|k: int| 0 <= k < i ==> bit_of(self.0@, bloom_index(hash@, k)),
            decreases 3 - i,
        {
            let bit_index: usize = ((hash[i * 2] as usize) * 256 + (hash[i * 2 + 1] as usize)) % 2048;
            let byte_index: usize = bit_index / 8;
            let bit_position: u8 = (bit_index % 8) as u8;
            assert(bit_index == bloom_index(hash@, i as int));
            if self.0[byte_index] & (1u8 << bit_position) == 0 {
                return false;
            }
            i = i + 1;
        }
        true
    }

    /// Sets every bit that `other` has set.
    pub fn combine(&mut self, other: &Bloom)
        ensures
            forall|i: int| 0 <= i < 256 ==> #[trigger] final(self).0@[i] == old(self).0@[i] | other.0@[i],
            forall|idx: int| 0 <= idx < 2048 ==> (#[trigger] bit_of(final(self).0@, idx)
                <==> bit_of(old(self).0@, idx) || bit_of(other.0@, idx)),
    {
        let ghost start = self.0@;
        let mut i: usize = 0;
        while i < 256
            invariant
                i <= 256,
                forall|j: int| 0 <= j < i ==> #[trigger] self.0@[j] == start[j] | other.0@[j],
                forall|j: int| i <= j < 256 ==> #[trigger] self.0@[j] == start[j],
            decreases 256 - i,
        {
            let b = self.0[i] | other.0[i];
            self.0[i] = b;
            i = i + 1;
        }
        proof {
            assert forall|idx: int| 0 <= idx < 2048 implies (#[trigger] bit_of(self.0@, idx)
                <==> bit_of(start, idx) || bit_of(other.0@, idx)) by {
                lemma_or_bytes(start[idx / 8], other.0@[idx / 8], (idx % 8) as u8);
            }
        }
    }
}

/// A filter never forgets: once a digest's positions are added, the filter
/// reports the digest as present, and whatever it held before stays.
pub proof fn lemma_bloom_accrue_then_contains(before: Seq<u8>, after: Seq<u8>, h: Seq<u8>, other: Seq<u8>)
    requires
        h.len() == 32,
        forall|idx: int| 0 <= idx < 2048 ==> (#[trigger] bit_of(after, idx) <==> bit_of(before, idx) || selects(h, idx)),
    ensures
        bloom_has(after, h),
        other.len() == 32 && bloom_has(before, other) ==> bloom_has(after, other),
{
    assert(bit_of(after, bloom_index(h, 0)));
    assert(bit_of(after, bloom_index(h, 1)));
    assert(bit_of(after, bloom_index(h, 2)));
    if other.len() == 32 && bloom_has(before, other) {
        assert(bit_of(after, bloom_index(other, 0)));
        assert(bit_of(after, bloom_index(other, 1)));
        assert(bit_of(after, bloom_index(other, 2)));
    }
}

/// A filter built from logs reports every digest it was built from.
pub proof fn lemma_bloom_exact_contains(bytes: Seq<u8>, keys: Seq<Seq<u8>>, k: int)
    requires
        bloom_exact(bytes, keys),
        0 <= k < keys.len(),
    ensures
        bloom_has(bytes, keys[k]),
{
    let h = keys[k];
    assert(selects(keys[k], bloom_index(h, 0)));
    assert(selects(keys[k], bloom_index(h, 1)));
    assert(selects(keys[k], bloom_index(h, 2)));
    assert(bit_of(bytes, bloom_index(h, 0)));
    assert(bit_of(bytes, bloom_index(h, 1)));
    assert(bit_of(bytes, bloom_index(h, 2)));
}

proof fn lemma_exact_push(keys: Seq<Seq<u8>>, h: Seq<u8>)
    ensures
        forall|b: Seq<u8>, b2: Seq<u8>|
            bloom_exact(b, keys)
            && (forall|idx: int| 0 <= idx < 2048 ==> (#[trigger] bit_of(b2, idx) <==> bit_of(b, idx) || selects(h, idx)))
            ==> bloom_exact(b2, keys.push(h)),
{
    assert forall|b: Seq<u8>, b2: Seq<u8>|
        bloom_exact(b, keys)
        && (forall|idx: int| 0 <= idx < 2048 ==> (#[trigger] bit_of(b2, idx) <==> bit_of(b, idx) || selects(h, idx)))
        implies bloom_exact(b2, keys.push(h)) by {
        let ks = keys.push(h);
        assert forall|idx: int| 0 <= idx < 2048 implies (#[trigger] bit_of(b2, idx) <==> exists|k: int| 0 <= k < ks.len() && selects(#[trigger] ks[k], idx)) by {
            if bit_of(b2, idx) {
                if bit_of(b, idx) {
                    let k = choose|k: int| 0 <= k < keys.len() && selects(#[trigger] keys[k], idx);
                    assert(ks[k] == keys[k]);
                } else {
                    assert(ks[keys.len() as int] == h);
                }
            }
            if exists|k: int| 0 <= k < ks.len() && selects(#[trigger] ks[k], idx) {
                let k = choose|k: int| 0 <= k < ks.len() && selects(#[trigger] ks[k], idx);
                if k < keys.len() {
                    assert(ks[k] == keys[k]);
                    assert(bit_of(b, idx));
                }
            }
        }
    }
}

/// A receipt: what executing a transaction did.
#[derive(Clone, Debug)]
pub struct Receipt {
    pub tx_hash: crate::primitives::types::Hash,
    pub tx_index: u32,
    pub vertex_hash: crate::primitives::types::Hash,
    pub status: ExecutionStatus,
    pub cumulative_gas_used: u64,
    pub gas_used: u64,
    pub effective_gas_price: U256,
    pub contract_address: Option<Address>,
    pub logs: Vec<Log>,
    pub logs_bloom: Bloom,
    pub revert_reason: Option<String>,
}

impl Receipt {
    /// The receipt of a successful transaction, its bloom built from its logs.
    pub fn success(
        tx_hash: crate::primitives::types::Hash,
        vertex_hash: crate::primitives::types::Hash,
        gas_used: u64,
        effective_gas_price: U256,
        logs: Vec<Log>,
    ) -> (r: Self)
        ensures
            r.tx_hash == tx_hash && r.vertex_hash == vertex_hash && r.tx_index == 0,
            r.status == ExecutionStatus::Success,
            r.gas_used == gas_used && r.cumulative_gas_used == gas_used,
            r.effective_gas_price == effective_gas_price,
            r.contract_address is None && r.revert_reason is None,
            r.logs@ == logs@,
            bloom_exact(r.logs_bloom.0@, logs_keys(logs@)),
    {
        let logs_bloom = Bloom::from_logs(logs.as_slice());
        Receipt {
            tx_hash,
            tx_index: 0,
            vertex_hash,
            status: ExecutionStatus::Success,
            cumulative_gas_used: gas_used,
            gas_used,
            effective_gas_price,
            contract_address: None,
            logs,
            logs_bloom,
            revert_reason: None,
        }
    }

    /// The receipt of a reverted transaction, with its reason.
    pub fn revert(
        tx_hash: crate::primitives::types::Hash,
        vertex_hash: crate::primitives::types::Hash,
        gas_used: u64,
        effective_gas_price: U256,
        reason: String,
    ) -> (r: Self)
        ensures
            r.tx_hash == tx_hash && r.vertex_hash == vertex_hash && r.tx_index == 0,
            r.status == ExecutionStatus::Revert,
            r.gas_used == gas_used && r.cumulative_gas_used == gas_used,
            r.effective_gas_price == effective_gas_price,
            r.contract_address is None,
            r.revert_reason == Some(reason),
            r.logs@.len() == 0,
            r.logs_bloom.0@ == Seq::new(256, |i: int| 0u8),
    {
        Receipt {
            tx_hash,
            tx_index: 0,
            vertex_hash,
            status: ExecutionStatus::Revert,
            cumulative_gas_used: gas_used,
            gas_used,
            effective_gas_price,
            contract_address: None,
            logs: Vec::new(),
            logs_bloom: Bloom::default(),
            revert_reason: Some(reason),
        }
    }

    /// The receipt of a failed transaction.
    pub fn failure(
        tx_hash: crate::primitives::types::Hash,
        vertex_hash: crate::primitives::types::Hash,
        gas_used: u64,
        effective_gas_price: U256,
    ) -> (r: Self)
        ensures
            r.tx_hash == tx_hash && r.vertex_hash == vertex_hash && r.tx_index == 0,
            r.status == ExecutionStatus::Failure,
            r.gas_used == gas_used && r.cumulative_gas_used == gas_used,
            r.effective_gas_price == effective_gas_price,
            r.contract_address is None && r.revert_reason is None,
            r.logs@.len() == 0,
            r.logs_bloom.0@ == Seq::new(256, |i: int| 0u8),
    {
        Receipt {
            tx_hash,
            tx_index: 0,
            vertex_hash,
            status: ExecutionStatus::Failure,
            cumulative_gas_used: gas_used,
            gas_used,
            effective_gas_price,
            contract_address: None,
            logs: Vec::new(),
            logs_bloom: Bloom::default(),
            revert_reason: None,
        }
    }
}

/// The outcome of running code in the EVM.
#[derive(Clone, Debug)]
pub struct ExecutionResult {
    pub success: bool,
    pub gas_used: u64,
    pub gas_refunded: u64,
    pub output: Vec<u8>,
    pub logs: Vec<Log>,
    pub created_address: Option<Address>,
}

/// The length word of an ABI `Error(string)` payload: bytes 60..68,
/// big-endian.
pub open spec fn abi_string_len(out: Seq<u8>) -> nat {
    crate::primitives::crypto::be_value(out.subrange(60, 68))
}

/// The output begins with the `Error(string)` selector 0x08c379a0.
pub open spec fn has_error_selector(out: Seq<u8>) -> bool {
    out.len() >= 4 && out[0] == 0x08 && out[1] == 0xc3 && out[2] == 0x79 && out[3] == 0xa0
}

/// The reason string that a revert output carries, where it is a
/// well-formed `Error(string)` payload of UTF-8 text.
pub open spec fn revert_reason_spec(success: bool, out: Seq<u8>) -> Option<Seq<char>> {
    if success || !has_error_selector(out) || out.len() < 68 {
        None
    } else {
        let len = abi_string_len(out);
        if out.len() < 68 + len {
            None
        } else {
            let body = out.subrange(68, 68 + len as int);
            if vstd::utf8::valid_utf8(body) { Some(vstd::utf8::decode_utf8(body)) } else { None }
        }
    }
}

impl ExecutionResult {
    /// A successful run.
    pub fn success(gas_used: u64, gas_refunded: u64, output: Vec<u8>, logs: Vec<Log>) -> (r: Self)
        ensures
            r.success && r.gas_used == gas_used && r.gas_refunded == gas_refunded,
            r.output@ == output@ && r.logs@ == logs@ && r.created_address is None,
    {
        ExecutionResult { success: true, gas_used, gas_refunded, output, logs, created_address: None }
    }

    /// A reverted run: no refund, no logs.
    pub fn revert(gas_used: u64, output: Vec<u8>) -> (r: Self)
        ensures
            !r.success && r.gas_used == gas_used && r.gas_refunded == 0,
            r.output@ == output@ && r.logs@.len() == 0 && r.created_address is None,
    {
        ExecutionResult { success: false, gas_used, gas_refunded: 0, output, logs: Vec::new(), created_address: None }
    }

    /// The reason of a revert, decoded from an ABI `Error(string)` payload.
    pub fn revert_reason(&self) -> (r: Option<String>)
        requires
            !self.success && has_error_selector(self.output@) && self.output@.len() >= 68
                ==> 68 + abi_string_len(self.output@) <= usize::MAX,
        ensures
            match r {
                Some(s) => revert_reason_spec(self.success, self.output@) == Some(s@),
                None => revert_reason_spec(self.success, self.output@) is None,
            },
    {
        if self.success || self.output.len() < 4 {
            return None;
        }
        if !(self.output[0] == 0x08 && self.output[1] == 0xc3 && self.output[2] == 0x79 && self.output[3] == 0xa0) {
            return None;
        }
        if self.output.len() < 68 {
            return None;
        }
        let mut len: u64 = 0;
        let mut k: usize = 60;
        proof { assert(self.output@.subrange(60, 60) =~= Seq::<u8>::empty()); }
        while k < 68
            invariant
                60 <= k <= 68,
                self.output@.len() >= 68,
                len == crate::primitives::crypto::be_value(self.output@.subrange(60, k as int)),
            decreases 68 - k,
        {
            proof {
                let s = self.output@.subrange(60, k + 1);
                assert(s.drop_last() =~= self.output@.subrange(60, k as int));
                crate::primitives::crypto::lemma_be_value_bound(s);
                if s.len() < 8 {
                    vstd::arithmetic::power2::lemma_pow2_strictly_increases(8 * s.len(), 64);
                }
                vstd::arithmetic::power2::lemma2_to64();
            }
            len = len * 256 + self.output[k] as u64;
            k = k + 1;
        }
        let n: usize = len as usize;
        if self.output.len() - 68 < n {
            return None;
        }
        let body = vstd::slice::slice_to_vec(vstd::slice::slice_subrange(self.output.as_slice(), 68, 68 + n));
        string_from_utf8(body)
    }
}

} // verus!
