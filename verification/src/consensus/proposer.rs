//! Vertex proposal: the pool of pending transactions and their priority.
use vstd::prelude::*;
use crate::primitives::hashing::blake3_spec;
use crate::primitives::transaction::{Transaction, full_encoding, TxType};
use crate::primitives::address::Address;
use crate::primitives::types::ValidatorId;
use crate::dag::graph::Dag;
use crate::dag::vertex::Vertex;
use crate::dag::tip_selection::{parents_height, height_for_parents};
use crate::consensus::bft::BftConsensus;
use crate::consensus::ConsensusError;

verus! {

/// Settings of the vertex proposer.
#[derive(Clone, Debug)]
pub struct ProposerConfig {
    pub max_txs_per_vertex: usize,
    pub max_vertex_size: usize,
    /// Target interval between proposals, in milliseconds.
    pub target_interval_ms: u64,
    pub max_parents: usize,
    pub min_parents: usize,
}

impl Default for ProposerConfig {
    fn default() -> (r: Self)
        ensures
            r.max_txs_per_vertex == 1000 && r.max_vertex_size == 1024 * 1024,
            r.target_interval_ms == 500 && r.max_parents == 8 && r.min_parents == 1,
    {
        ProposerConfig {
            max_txs_per_vertex: 1000,
            max_vertex_size: 1024 * 1024,
            target_interval_ms: 500,
            max_parents: 8,
            min_parents: 1,
        }
    }
}

/// The hash that identifies a transaction.
pub open spec fn tx_id(tx: Transaction) -> Seq<u8> {
    blake3_spec(full_encoding(tx))
}

/// Some transaction of `txs` has identifier `h`.
pub open spec fn holds_id(txs: Seq<Transaction>, h: Seq<u8>) -> bool {
    exists|i: int| 0 <= i < txs.len() && tx_id(#[trigger] txs[i]) == h
}

/// Pending transactions, first come first out, each once.
pub struct TransactionPool {
    pending: Vec<Transaction>,
    max_size: usize,
}

impl TransactionPool {
    pub closed spec fn contents(&self) -> Seq<Transaction> {
        self.pending@
    }

    pub closed spec fn capacity(&self) -> usize {
        self.max_size
    }

    /// No transaction is held twice and the pool is within its capacity.
    pub closed spec fn wf(&self) -> bool {
        &&& forall|i: int, j: int| 0 <= i < j < self.pending@.len() ==> tx_id(#[trigger] self.pending@[i]) != tx_id(#[trigger] self.pending@[j])
        &&& self.pending@.len() <= self.max_size
    }

    pub fn new(max_size: usize) -> (p: Self)
        ensures p.wf(), p.contents().len() == 0, p.capacity() == max_size,
    {
        TransactionPool { pending: Vec::new(), max_size }
    }

    /// Adds a transaction unless the pool is full or holds it already.
    pub fn add(&mut self, tx: Transaction) -> (r: bool)
        requires old(self).wf(),
        ensures
            final(self).wf(),
            final(self).capacity() == old(self).capacity(),
            r == (old(self).contents().len() < old(self).capacity() && !holds_id(old(self).contents(), tx_id(tx))),
            r ==> final(self).contents() == old(self).contents().push(tx),
            !r ==> final(self).contents() == old(self).contents(),
    {
        if self.pending.len() >= self.max_size {
            return false;
        }
        let hash = tx.hash();
        let mut i: usize = 0;
        while i < self.pending.len()
            invariant
                self.wf(),
                self.pending@ == old(self).pending@,
                self.max_size == old(self).max_size,
                i <= self.pending@.len(),
                hash.0@ == tx_id(tx),
                forall|k: int| 0 <= k < i ==> tx_id(#[trigger] self.pending@[k]) != tx_id(tx),
            decreases self.pending@.len() - i,
        {
            if self.pending[i].hash() == hash {
                return false;
            }
            i = i + 1;
        }
        let ghost old_p = self.pending@;
        self.pending.push(tx);
        proof {
            assert forall|a: int, b: int| 0 <= a < b < self.pending@.len() implies tx_id(#[trigger] self.pending@[a]) != tx_id(#[trigger] self.pending@[b]) by {
                if b == old_p.len() {
                    assert(self.pending@[a] == old_p[a]);
                } else {
                    assert(self.pending@[a] == old_p[a] && self.pending@[b] == old_p[b]);
                }
            }
        }
        true
    }

    /// The first `max` pending transactions, oldest first.
    pub fn get_pending(&self, max: usize) -> (r: Vec<&Transaction>)
        ensures
            r@.len() == (if max < self.contents().len() { max as int } else { self.contents().len() as int }),
            forall|i: int| 0 <= i < r@.len() ==> *(#[trigger] r@[i]) == self.contents()[i],
    {
        let mut out: Vec<&Transaction> = Vec::new();
        let mut i: usize = 0;
        while i < self.pending.len() && i < max
            invariant
                i <= self.pending@.len(),
                i <= max,
                out@.len() == i,
                forall|k: int| 0 <= k < i ==> *(#[trigger] out@[k]) == self.pending@[k],
            decreases self.pending@.len() - i,
        {
            out.push(&self.pending[i]);
            i = i + 1;
        }
        out
    }

    /// Drops the pending transactions whose hash is listed.
    pub fn remove(&mut self, hashes: &[crate::primitives::types::Hash])
        requires old(self).wf(),
        ensures
            final(self).wf(),
            final(self).capacity() == old(self).capacity(),
            forall|i: int| 0 <= i < final(self).contents().len() ==> old(self).contents().contains(#[trigger] final(self).contents()[i]),
            forall|i: int| 0 <= i < old(self).contents().len() ==>
                (final(self).contents().contains(#[trigger] old(self).contents()[i])
                    <==> !(exists|j: int| 0 <= j < hashes@.len() && hashes@[j].0@ == tx_id(old(self).contents()[i]))),
    {
        let ghost old_p = self.pending@;
        let mut kept: Vec<Transaction> = Vec::new();
        while self.pending.len() > 0
            invariant
                self.max_size == old(self).max_size,
                old_p == old(self).pending@,
                old_p.len() <= self.max_size,
                forall|a: int, b: int| 0 <= a < b < old_p.len() ==> tx_id(#[trigger] old_p[a]) != tx_id(#[trigger] old_p[b]),
                kept@.len() + self.pending@.len() <= old_p.len(),
                self.pending@ == old_p.subrange(old_p.len() - self.pending@.len(), old_p.len() as int),
                forall|a: int| 0 <= a < kept@.len() ==> exists|k: int| 0 <= k < old_p.len() - self.pending@.len() && old_p[k] == #[trigger] kept@[a],
                forall|a: int, b: int| 0 <= a < b < kept@.len() ==> tx_id(#[trigger] kept@[a]) != tx_id(#[trigger] kept@[b]),
                forall|k: int| 0 <= k < old_p.len() - self.pending@.len() ==>
                    (kept@.contains(#[trigger] old_p[k]) <==> !(exists|j: int| 0 <= j < hashes@.len() && hashes@[j].0@ == tx_id(old_p[k]))),
            decreases self.pending@.len(),
        {
            let ghost before = self.pending@;
            let ghost kp = kept@;
            let tx = self.pending.remove(0);
            let ghost idx = old_p.len() - before.len();
            proof {
                assert(tx == old_p[idx]);
                assert(self.pending@ =~= old_p.subrange(old_p.len() - self.pending@.len(), old_p.len() as int));
            }
            let h = tx.hash();
            let mut listed = false;
            let mut j: usize = 0;
            while j < hashes.len()
                invariant
                    j <= hashes@.len(),
                    h.0@ == tx_id(tx),
                    listed == exists|q: int| 0 <= q < j && hashes@[q].0@ == tx_id(tx),
                decreases hashes@.len() - j,
            {
                if hashes[j] == h {
                    listed = true;
                }
                proof {
                    if exists|q: int| 0 <= q < j + 1 && hashes@[q].0@ == tx_id(tx) {
                        let q = choose|q: int| 0 <= q < j + 1 && hashes@[q].0@ == tx_id(tx);
                        if q < j { assert(exists|q2: int| 0 <= q2 < j && hashes@[q2].0@ == tx_id(tx)); }
                    }
                }
                j = j + 1;
            }
            if !listed {
                kept.push(tx);
            }
            proof {
                assert forall|a: int, b: int| 0 <= a < b < kept@.len() implies tx_id(#[trigger] kept@[a]) != tx_id(#[trigger] kept@[b]) by {
                    if b == kp.len() {
                        assert(kept@[a] == kp[a]);
                        let k = choose|k: int| 0 <= k < idx && old_p[k] == #[trigger] kp[a];
                        assert(tx_id(old_p[k]) != tx_id(old_p[idx]));
                    } else {
                        assert(kept@[a] == kp[a] && kept@[b] == kp[b]);
                    }
                }
                assert forall|a: int| 0 <= a < kept@.len() implies exists|k: int| 0 <= k < idx + 1 && old_p[k] == #[trigger] kept@[a] by {
                    if a < kp.len() {
                        assert(kept@[a] == kp[a]);
                        let k = choose|k: int| 0 <= k < idx && old_p[k] == #[trigger] kp[a];
                        assert(0 <= k < idx + 1);
                    } else {
                        assert(old_p[idx] == kept@[a]);
                    }
                }
                assert forall|k: int| 0 <= k < idx + 1 implies
                    (kept@.contains(#[trigger] old_p[k]) <==> !(exists|j2: int| 0 <= j2 < hashes@.len() && hashes@[j2].0@ == tx_id(old_p[k]))) by {
                    if k < idx {
                        if kept@.contains(old_p[k]) {
                            let a = choose|a: int| 0 <= a < kept@.len() && kept@[a] == old_p[k];
                            if a < kp.len() { assert(kp[a] == old_p[k]); assert(kp.contains(old_p[k])); }
                            else { assert(tx_id(old_p[k]) != tx_id(old_p[idx])); }
                        }
                        if kp.contains(old_p[k]) {
                            let a = choose|a: int| 0 <= a < kp.len() && kp[a] == old_p[k];
                            assert(kept@[a] == kp[a]);
                        }
                    } else {
                        if !listed { assert(kept@[kp.len() as int] == tx); }
                        else {
                            if kept@.contains(old_p[k]) {
                                let a = choose|a: int| 0 <= a < kept@.len() && kept@[a] == old_p[k];
                                assert(kept@[a] == kp[a]);
                                let k2 = choose|k2: int| 0 <= k2 < idx && old_p[k2] == #[trigger] kp[a];
                                assert(tx_id(old_p[k2]) != tx_id(old_p[idx]));
                            }
                        }
                    }
                }
            }
        }
        let ghost kf = kept@;
        proof {
            assert forall|i: int| 0 <= i < kf.len() implies old_p.contains(#[trigger] kf[i]) by {
                let k = choose|k: int| 0 <= k < old_p.len() - 0 && old_p[k] == #[trigger] kf[i];
            }
        }
        self.pending = kept;
    }

    pub fn len(&self) -> (r: usize)
        ensures r == self.contents().len(),
    {
        self.pending.len()
    }

    pub fn is_empty(&self) -> (r: bool)
        ensures r == (self.contents().len() == 0),
    {
        self.pending.len() == 0
    }
}

impl Default for TransactionPool {
    fn default() -> (p: Self)
        ensures p.wf(), p.contents().len() == 0, p.capacity() == 100_000,
    {
        TransactionPool::new(100_000)
    }
}

/// Priority of a transaction by its gas price.
#[derive(Clone, Copy, Debug, PartialEq, Eq, Structural)]
pub enum TxPriority {
    High,
    Normal,
    Low,
}

/// The priority of a gas price: above 100 gwei high, above 10 gwei normal,
/// else low (the price read from its low 64 bits).
pub open spec fn priority_of(low64: u64) -> TxPriority {
    let gwei = low64 / 1_000_000_000;
    if gwei > 100 { TxPriority::High } else if gwei > 10 { TxPriority::Normal } else { TxPriority::Low }
}

impl TxPriority {
    pub fn from_tx(tx: &Transaction) -> (r: Self)
        ensures r == priority_of(tx.gas_price.0@[0]),
    {
        let gas_price_gwei = tx.gas_price.as_u64() / 1_000_000_000;
        if gas_price_gwei > 100 {
            TxPriority::High
        } else if gas_price_gwei > 10 {
            TxPriority::Normal
        } else {
            TxPriority::Low
        }
    }
}

/// A vertex proposal and the transactions it carries.
pub struct ProposedVertex {
    pub vertex: Vertex,
    pub transactions: Vec<Transaction>,
}

/// Whether to propose now: this validator leads the view by stake, the
/// target interval has passed since its last proposal, and transactions
/// are waiting.
pub fn should_propose(bft: &BftConsensus, address: &Address, elapsed_ms: u64, config: &ProposerConfig, pool: &TransactionPool) -> (r: bool)
    requires bft.wf(),
    ensures r == (bft.weighted_leader_is(address.0@) && elapsed_ms >= config.target_interval_ms && pool.contents().len() > 0),
{
    if !bft.is_weighted_leader(address) {
        return false;
    }
    if elapsed_ms < config.target_interval_ms {
        return false;
    }
    if pool.is_empty() {
        return false;
    }
    true
}

/// An ISO payment that carries no ISO data.
pub open spec fn iso_payment_without_data(tx: Transaction) -> bool {
    tx.tx_type == TxType::IsoPayment && tx.iso_data is None
}

/// The smaller of two lengths.
pub open spec fn min_len(a: int, b: int) -> int {
    if a < b { a } else { b }
}

/// Builds a vertex proposal: the first `max_parents` tips as parents (an
/// error when fewer than `min_parents`), the first `max_txs_per_vertex`
/// pending transactions (an error when one is an ISO payment without ISO
/// data), and a height one above the highest parent.
pub fn create_proposal(
    dag: &Dag,
    pool: &TransactionPool,
    config: &ProposerConfig,
    validator: ValidatorId,
    timestamp: u64,
) -> (r: Result<ProposedVertex, ConsensusError>)
    requires
        dag.wf(),
        config.max_parents <= u32::MAX,
        config.max_txs_per_vertex <= u32::MAX,
        parents_height(dag@.vertices, dag@.tips.take(min_len(config.max_parents as int, dag@.tips.len() as int))) <= u64::MAX,
    ensures
        ({
            let parents = dag@.tips.take(min_len(config.max_parents as int, dag@.tips.len() as int));
            let txs = pool.contents().take(min_len(config.max_txs_per_vertex as int, pool.contents().len() as int));
            if parents.len() < config.min_parents {
                r matches Err(ConsensusError::InvalidProposal(m)) && m@ == "Not enough parent tips available"@
            } else if exists|i: int| 0 <= i < txs.len() && iso_payment_without_data(#[trigger] txs[i]) {
                r matches Err(ConsensusError::InvalidProposal(m)) && m@ == "ISO payment transaction missing iso_data"@
            } else {
                r matches Ok(p) && {
                    &&& p.vertex.parents@ == parents
                    &&& p.vertex.height == parents_height(dag@.vertices, parents)
                    &&& p.vertex.validator == validator && p.vertex.timestamp == timestamp
                    &&& p.transactions@.len() == txs.len() && p.vertex.transactions@.len() == txs.len()
                    &&& forall|i: int| 0 <= i < txs.len() ==> cloned::<Transaction>(txs[i], #[trigger] p.transactions@[i])
                    &&& forall|i: int| 0 <= i < txs.len() ==> cloned::<Transaction>(txs[i], #[trigger] p.vertex.transactions@[i])
                }
            }
        }),
{
    let tips = dag.get_tips();
    let mut parents: Vec<crate::primitives::types::Hash> = Vec::new();
    let mut i: usize = 0;
    while i < tips.len() && i < config.max_parents
        invariant
            tips@ == dag@.tips,
            i <= tips@.len(), i <= config.max_parents,
            parents@ == tips@.take(i as int),
        decreases tips@.len() - i,
    {
        parents.push(tips[i]);
        assert(parents@ =~= tips@.take(i + 1));
        i = i + 1;
    }
    proof { assert(parents@ =~= dag@.tips.take(min_len(config.max_parents as int, dag@.tips.len() as int))); }
    if parents.len() < config.min_parents {
        return Err(ConsensusError::InvalidProposal("Not enough parent tips available".to_owned()));
    }
    let pending = pool.get_pending(config.max_txs_per_vertex);
    let ghost txs = pool.contents().take(min_len(config.max_txs_per_vertex as int, pool.contents().len() as int));
    let mut for_vertex: Vec<Transaction> = Vec::new();
    let mut carried: Vec<Transaction> = Vec::new();
    let mut k: usize = 0;
    while k < pending.len()
        invariant
            pending@.len() == txs.len(),
            txs == pool.contents().take(min_len(config.max_txs_per_vertex as int, pool.contents().len() as int)),
            parents@ == dag@.tips.take(min_len(config.max_parents as int, dag@.tips.len() as int)),
            parents@.len() >= config.min_parents,
            forall|j: int| 0 <= j < pending@.len() ==> *(#[trigger] pending@[j]) == txs[j],
            k <= pending@.len(),
            for_vertex@.len() == k && carried@.len() == k,
            forall|j: int| 0 <= j < k ==> !iso_payment_without_data(#[trigger] txs[j]),
            forall|j: int| 0 <= j < k ==> cloned::<Transaction>(txs[j], #[trigger] carried@[j]),
            forall|j: int| 0 <= j < k ==> cloned::<Transaction>(txs[j], #[trigger] for_vertex@[j]),
        decreases pending@.len() - k,
    {
        let tx = pending[k];
        let is_iso = match tx.tx_type { TxType::IsoPayment => true, _ => false };
        if is_iso && tx.iso_data.is_none() {
            proof { assert(iso_payment_without_data(txs[k as int])); }
            return Err(ConsensusError::InvalidProposal("ISO payment transaction missing iso_data".to_owned()));
        }
        for_vertex.push(tx.clone());
        carried.push(tx.clone());
        k = k + 1;
    }
    let height = height_for_parents(dag, parents.as_slice());
    let vertex = Vertex::new(parents, height, timestamp, validator, for_vertex,
        crate::primitives::types::Hash::zero(), crate::primitives::types::Hash::zero());
    Ok(ProposedVertex { vertex, transactions: carried })
}

} // verus!
