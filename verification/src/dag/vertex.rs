//! Vertices: the units of the DAG, holding transactions and references to
//! their parents.
use vstd::prelude::*;
use crate::primitives::crypto::{EcdsaSignature, vertex_hash, vertex_preimage, compute_merkle_root, merkle_root_of, hash_views};
use crate::primitives::hashing::blake3_spec;
use crate::primitives::transaction::{Transaction, full_encoding};
use crate::primitives::types::{ValidatorId, MAX_PARENTS, PROTOCOL_VERSION};

verus! {

/// Most transactions a vertex may hold.
pub const MAX_TRANSACTIONS_PER_VERTEX: usize = 1000;

/// A vertex of the DAG.
#[derive(Clone, Debug)]
pub struct Vertex {
    /// Hash of the vertex's parents, transactions, time and validator.
    pub hash: crate::primitives::types::Hash,
    pub parents: Vec<crate::primitives::types::Hash>,
    /// One more than the highest parent.
    pub height: u64,
    pub timestamp: u64,
    pub validator: ValidatorId,
    pub transactions: Vec<Transaction>,
    /// Merkle root of the transaction hashes.
    pub tx_root: crate::primitives::types::Hash,
    pub state_root: crate::primitives::types::Hash,
    pub receipts_root: crate::primitives::types::Hash,
    pub weight: u128,
    pub signature: EcdsaSignature,
    pub version: u32,
    pub extra_data: Vec<u8>,
}

/// The hashes of a list of transactions.
pub open spec fn tx_hash_views(txs: Seq<Transaction>) -> Seq<Seq<u8>> {
    Seq::new(txs.len(), |i: int| blake3_spec(full_encoding(txs[i])))
}

/// Merkle root of transaction hashes (all zero for none).
pub open spec fn tx_root_spec(txs: Seq<Transaction>) -> Seq<u8> {
    if txs.len() == 0 { Seq::new(32, |i: int| 0u8) } else { merkle_root_of(tx_hash_views(txs)) }
}

/// The hash a vertex with these contents carries.
pub open spec fn vertex_hash_spec(parents: Seq<crate::primitives::types::Hash>, txs: Seq<Transaction>, timestamp: u64, validator: Seq<u8>) -> Seq<u8> {
    blake3_spec(vertex_preimage(parents, Seq::new(txs.len(), |i: int| crate::primitives::types::Hash(arr_of(blake3_spec(full_encoding(txs[i]))))), timestamp, validator))
}

/// The 32-byte array with these bytes.
pub open spec fn arr_of(s: Seq<u8>) -> [u8; 32] {
    choose|a: [u8; 32]| a@ == s
}

/// The hashes of transactions, in order.
pub fn tx_hashes(txs: &[Transaction]) -> (r: Vec<crate::primitives::types::Hash>)
    ensures
        r@.len() == txs@.len(),
        forall|i: int| 0 <= i < txs@.len() ==> (#[trigger] r@[i]).0@ == blake3_spec(full_encoding(txs@[i])),
{
    let mut out: Vec<crate::primitives::types::Hash> = Vec::new();
    let mut i: usize = 0;
    while i < txs.len()
        invariant
            i <= txs@.len(),
            out@.len() == i,
            forall|j: int| 0 <= j < i ==> (#[trigger] out@[j]).0@ == blake3_spec(full_encoding(txs@[j])),
        decreases txs@.len() - i,
    {
        out.push(txs[i].hash());
        i = i + 1;
    }
    out
}

proof fn lemma_hashes_as_spec(h: Seq<crate::primitives::types::Hash>, txs: Seq<Transaction>)
    requires
        h.len() == txs.len(),
        forall|i: int| 0 <= i < txs.len() ==> (#[trigger] h[i]).0@ == blake3_spec(full_encoding(txs[i])),
    ensures
        h == Seq::new(txs.len(), |i: int| crate::primitives::types::Hash(arr_of(blake3_spec(full_encoding(txs[i]))))),
        hash_views(h) == tx_hash_views(txs),
{
    let s = Seq::new(txs.len(), |i: int| crate::primitives::types::Hash(arr_of(blake3_spec(full_encoding(txs[i])))));
    assert forall|i: int| 0 <= i < txs.len() implies h[i] == s[i] by {
        let a = h[i].0;
        assert(a@ == blake3_spec(full_encoding(txs[i])));
        let b = arr_of(blake3_spec(full_encoding(txs[i])));
        assert(b@ == a@);
        assert(a == b);
    }
    assert(h =~= s);
    assert(hash_views(h) =~= tx_hash_views(txs));
}

impl Vertex {
    /// A new unsigned vertex of weight 1: its hash and transaction root
    /// computed from its contents.
    pub fn new(
        parents: Vec<crate::primitives::types::Hash>,
        height: u64,
        timestamp: u64,
        validator: ValidatorId,
        transactions: Vec<Transaction>,
        state_root: crate::primitives::types::Hash,
        receipts_root: crate::primitives::types::Hash,
    ) -> (v: Self)
        requires
            parents@.len() <= u32::MAX,
            transactions@.len() <= u32::MAX,
        ensures
            v.parents@ == parents@ && v.height == height && v.timestamp == timestamp,
            v.validator == validator && v.transactions@ == transactions@,
            v.state_root == state_root && v.receipts_root == receipts_root,
            v.tx_root.0@ == tx_root_spec(transactions@),
            v.hash.0@ == vertex_hash_spec(parents@, transactions@, timestamp, validator.0@),
            v.weight == 1 && v.version == PROTOCOL_VERSION && v.extra_data@.len() == 0,
            v.signature.r@ == Seq::new(32, |i: int| 0u8) && v.signature.s@ == Seq::new(32, |i: int| 0u8) && v.signature.v == 0,
    {
        let hashes = tx_hashes(transactions.as_slice());
        proof { lemma_hashes_as_spec(hashes@, transactions@); }
        let tx_root = compute_merkle_root(hashes.as_slice());
        let hash = vertex_hash(parents.as_slice(), hashes.as_slice(), timestamp, &validator.0);
        let sig = EcdsaSignature { r: [0u8; 32], s: [0u8; 32], v: 0 };
        assert(sig.r@ =~= Seq::new(32, |i: int| 0u8));
        assert(sig.s@ =~= Seq::new(32, |i: int| 0u8));
        Vertex {
            hash,
            parents,
            height,
            timestamp,
            validator,
            transactions,
            tx_root,
            state_root,
            receipts_root,
            weight: 1,
            signature: sig,
            version: PROTOCOL_VERSION,
            extra_data: Vec::new(),
        }
    }

    /// The root vertex of a chain: no parents, height 0, all-zero hashes,
    /// the largest weight, and the chain id (big-endian) as extra data.
    pub fn genesis(chain_id: u64, timestamp: u64) -> (v: Self)
        ensures
            v.parents@.len() == 0 && v.height == 0 && v.timestamp == timestamp,
            v.transactions@.len() == 0,
            v.validator.0@ == Seq::new(32, |i: int| 0u8),
            v.hash.0@ == Seq::new(32, |i: int| 0u8),
            v.tx_root.0@ == Seq::new(32, |i: int| 0u8),
            v.state_root.0@ == Seq::new(32, |i: int| 0u8),
            v.receipts_root.0@ == Seq::new(32, |i: int| 0u8),
            v.weight == u128::MAX && v.version == 1,
            v.extra_data@ == crate::primitives::transaction::be8(chain_id),
    {
        let validator = ValidatorId([0u8; 32]);
        assert(validator.0@ =~= Seq::new(32, |i: int| 0u8));
        let mut extra: Vec<u8> = Vec::new();
        crate::primitives::transaction::push_be8(&mut extra, chain_id);
        assert(extra@ =~= crate::primitives::transaction::be8(chain_id));
        Vertex {
            hash: crate::primitives::types::Hash::new([0u8; 32]),
            parents: Vec::new(),
            height: 0,
            timestamp,
            validator,
            transactions: Vec::new(),
            tx_root: crate::primitives::types::Hash::zero(),
            state_root: crate::primitives::types::Hash::zero(),
            receipts_root: crate::primitives::types::Hash::zero(),
            weight: u128::MAX,
            signature: EcdsaSignature { r: [0u8; 32], s: [0u8; 32], v: 0 },
            version: 1,
            extra_data: extra,
        }
    }

    /// A vertex with no parents at height 0.
    pub open spec fn is_genesis_spec(&self) -> bool {
        self.parents@.len() == 0 && self.height == 0
    }

    pub fn is_genesis(&self) -> (r: bool)
        ensures r == self.is_genesis_spec(),
    {
        self.parents.len() == 0 && self.height == 0
    }

    /// The first structural fault of a vertex, in the order they are
    /// checked, or none.
    pub open spec fn structure_error(&self) -> Option<VertexError> {
        if !self.is_genesis_spec() && self.parents@.len() == 0 {
            Some(VertexError::NoParents)
        } else if self.parents@.len() > MAX_PARENTS {
            Some(VertexError::TooManyParents(self.parents@.len() as usize))
        } else if self.transactions@.len() > MAX_TRANSACTIONS_PER_VERTEX {
            Some(VertexError::TooManyTransactions(self.transactions@.len() as usize))
        } else if tx_root_spec(self.transactions@) != self.tx_root.0@ {
            Some(VertexError::InvalidMerkleRoot)
        } else if vertex_hash_spec(self.parents@, self.transactions@, self.timestamp, self.validator.0@) != self.hash.0@ {
            Some(VertexError::InvalidHash)
        } else {
            None
        }
    }

    /// Checks the structure (not the signature): parents present and not
    /// too many, not too many transactions, the transaction root and the
    /// hash match the contents.
    pub fn verify_structure(&self) -> (r: Result<(), VertexError>)
        ensures
            match self.structure_error() {
                Some(e) => r == Err::<(), VertexError>(e),
                None => r is Ok,
            },
    {
        if !self.is_genesis() && self.parents.len() == 0 {
            return Err(VertexError::NoParents);
        }
        if self.parents.len() > MAX_PARENTS {
            return Err(VertexError::TooManyParents(self.parents.len()));
        }
        if self.transactions.len() > MAX_TRANSACTIONS_PER_VERTEX {
            return Err(VertexError::TooManyTransactions(self.transactions.len()));
        }
        let hashes = tx_hashes(self.transactions.as_slice());
        proof { lemma_hashes_as_spec(hashes@, self.transactions@); }
        let computed_root = compute_merkle_root(hashes.as_slice());
        if !(computed_root == self.tx_root) {
            return Err(VertexError::InvalidMerkleRoot);
        }
        let computed_hash = vertex_hash(self.parents.as_slice(), hashes.as_slice(), self.timestamp, &self.validator.0);
        if !(computed_hash == self.hash) {
            return Err(VertexError::InvalidHash);
        }
        Ok(())
    }

    /// Approximate encoded size in bytes: fixed fields, 32 per parent, the
    /// extra data, and each transaction's data plus 200.
    pub open spec fn size_spec(&self) -> int {
        293 + self.parents@.len() * 32 + self.extra_data@.len() + txs_size(self.transactions@)
    }

    pub fn size(&self) -> (r: usize)
        requires self.size_spec() <= usize::MAX,
        ensures r == self.size_spec(),
    {
        proof { lemma_txs_size_nonneg(self.transactions@); }
        let base: usize = 293 + self.parents.len() * 32 + self.extra_data.len();
        let mut total: usize = base;
        let mut i: usize = 0;
        while i < self.transactions.len()
            invariant
                i <= self.transactions@.len(),
                base == 293 + self.parents@.len() * 32 + self.extra_data@.len(),
                total == base + txs_size(self.transactions@.subrange(0, i as int)),
                base + txs_size(self.transactions@) <= usize::MAX,
            decreases self.transactions@.len() - i,
        {
            proof {
                let s = self.transactions@.subrange(0, i + 1);
                assert(s.drop_last() =~= self.transactions@.subrange(0, i as int));
                lemma_txs_size_prefix(self.transactions@, i + 1);
            }
            total = total + self.transactions[i].data.len() + 200;
            i = i + 1;
        }
        proof { assert(self.transactions@.subrange(0, i as int) =~= self.transactions@); }
        total
    }
}

/// The transaction part of a vertex's size.
pub open spec fn txs_size(txs: Seq<Transaction>) -> int
    decreases txs.len(),
{
    if txs.len() == 0 { 0 } else { txs_size(txs.drop_last()) + txs.last().data@.len() + 200 }
}

proof fn lemma_txs_size_nonneg(txs: Seq<Transaction>)
    ensures txs_size(txs) >= 0,
    decreases txs.len(),
{
    if txs.len() > 0 { lemma_txs_size_nonneg(txs.drop_last()); }
}

proof fn lemma_txs_size_prefix(txs: Seq<Transaction>, k: int)
    requires 0 <= k <= txs.len(),
    ensures txs_size(txs.subrange(0, k)) <= txs_size(txs),
    decreases txs.len() - k,
{
    if k < txs.len() {
        lemma_txs_size_prefix(txs, k + 1);
        assert(txs.subrange(0, k + 1).drop_last() =~= txs.subrange(0, k));
    } else {
        assert(txs.subrange(0, k) =~= txs);
    }
}

/// Faults of a vertex.
#[derive(Clone, Debug)]
pub enum VertexError {
    NoParents,
    TooManyParents(usize),
    TooManyTransactions(usize),
    InvalidMerkleRoot,
    InvalidHash,
    InvalidSignature,
    ParentNotFound(crate::primitives::types::Hash),
    TimestampTooOld,
    TimestampInFuture,
    InvalidHeight { expected: u64, got: u64 },
}

/// The header of a vertex: all but its transactions, which it counts.
#[derive(Clone, Debug)]
pub struct VertexHeader {
    pub hash: crate::primitives::types::Hash,
    pub parents: Vec<crate::primitives::types::Hash>,
    pub height: u64,
    pub timestamp: u64,
    pub validator: ValidatorId,
    pub tx_root: crate::primitives::types::Hash,
    pub state_root: crate::primitives::types::Hash,
    pub receipts_root: crate::primitives::types::Hash,
    pub weight: u128,
    pub tx_count: u32,
}

impl VertexHeader {
    /// The header of a vertex (the count truncated to 32 bits).
    pub fn from_vertex(vertex: &Vertex) -> (h: Self)
        ensures
            h.hash == vertex.hash && h.parents@ == vertex.parents@ && h.height == vertex.height,
            h.timestamp == vertex.timestamp && h.validator == vertex.validator,
            h.tx_root == vertex.tx_root && h.state_root == vertex.state_root,
            h.receipts_root == vertex.receipts_root && h.weight == vertex.weight,
            h.tx_count == vertex.transactions@.len() as u32,
    {
        VertexHeader {
            hash: vertex.hash,
            parents: vertex.parents.clone(),
            height: vertex.height,
            timestamp: vertex.timestamp,
            validator: vertex.validator,
            tx_root: vertex.tx_root,
            state_root: vertex.state_root,
            receipts_root: vertex.receipts_root,
            weight: vertex.weight,
            tx_count: vertex.transactions.len() as u32,
        }
    }
}

/// Where a vertex stands in the DAG.
#[derive(Clone, Copy, Debug, PartialEq, Eq, Structural)]
pub enum VertexStatus {
    Pending,
    AwaitingParents,
    Confirmed,
    Finalized,
    Rejected,
    Orphaned,
}

} // verus!
