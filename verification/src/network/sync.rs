//! The sync protocol: answering peers' requests from the local DAG, and
//! queueing and batching the vertices this node is missing.
use vstd::prelude::*;
use crate::dag::graph::{Dag, has_hash, vertex_of, in_prefix};
use crate::dag::vertex::Vertex;
use crate::network::{NetworkError, NetworkResult};
use crate::network::protocol::{SyncRequest, SyncResponse};
use crate::rpc::mempool::Mempool;

verus! {

type VHash = crate::primitives::types::Hash;

/// Where syncing stands.
#[derive(Clone, Copy, Debug, PartialEq, Eq, Structural)]
pub enum SyncState {
    Idle,
    Syncing,
    Synced,
}

/// Settings of syncing.
#[derive(Clone, Copy, Debug)]
pub struct SyncConfig {
    /// Most hashes in one request.
    pub batch_size: u32,
    /// Most requests in flight.
    pub max_concurrent: usize,
    /// Request timeout, in seconds.
    pub timeout: u64,
    pub min_peers: usize,
}

impl Default for SyncConfig {
    fn default() -> (r: Self)
        ensures r.batch_size == 100 && r.max_concurrent == 4 && r.timeout == 30 && r.min_peers == 1,
    {
        SyncConfig { batch_size: 100, max_concurrent: 4, timeout: 30, min_peers: 1 }
    }
}

/// The hashes among `hs` of vertices in the DAG, in order.
pub open spec fn known_hashes(vs: Seq<Vertex>, hs: Seq<VHash>) -> Seq<VHash>
    decreases hs.len(),
{
    if hs.len() == 0 {
        hs
    } else if has_hash(vs, hs.last().0@) {
        known_hashes(vs, hs.drop_last()).push(hs.last())
    } else {
        known_hashes(vs, hs.drop_last())
    }
}

/// The hashes among `hs` of vertices missing from the DAG, in order.
pub open spec fn missing_hashes(vs: Seq<Vertex>, hs: Seq<VHash>) -> Seq<VHash>
    decreases hs.len(),
{
    if hs.len() == 0 {
        hs
    } else if !has_hash(vs, hs.last().0@) {
        missing_hashes(vs, hs.drop_last()).push(hs.last())
    } else {
        missing_hashes(vs, hs.drop_last())
    }
}

/// Keeps the DAG in step with peers.
pub struct SyncManager {
    config: SyncConfig,
    dag: Dag,
    state: SyncState,
    /// Hashes still to ask for, oldest first.
    pending_requests: Vec<VHash>,
    in_flight: usize,
    /// The pool that answers requests for transactions.
    tx_provider: Option<Mempool>,
    /// The last vertex BFT finality reached.
    finalized_tip: Option<VHash>,
}

impl SyncManager {
    pub closed spec fn config_spec(&self) -> SyncConfig { self.config }
    pub closed spec fn dag_spec(&self) -> Dag { self.dag }
    pub closed spec fn state_spec(&self) -> SyncState { self.state }
    pub closed spec fn pending_spec(&self) -> Seq<VHash> { self.pending_requests@ }
    pub closed spec fn in_flight_spec(&self) -> usize { self.in_flight }
    pub closed spec fn finalized_spec(&self) -> Option<VHash> { self.finalized_tip }

    pub fn new(config: SyncConfig, dag: Dag) -> (r: Self)
        ensures
            r.config_spec() == config, r.dag_spec() == dag, r.state_spec() == SyncState::Idle,
            r.pending_spec().len() == 0 && r.in_flight_spec() == 0 && r.finalized_spec() is None,
    {
        SyncManager { config, dag, state: SyncState::Idle, pending_requests: Vec::new(), in_flight: 0, tx_provider: None, finalized_tip: None }
    }

    /// Gives the pool that answers requests for transactions.
    pub fn set_tx_provider(&mut self, pool: Mempool)
        ensures
            final(self).dag_spec() == old(self).dag_spec() && final(self).state_spec() == old(self).state_spec(),
            final(self).pending_spec() == old(self).pending_spec() && final(self).in_flight_spec() == old(self).in_flight_spec(),
            final(self).finalized_spec() == old(self).finalized_spec(),
    {
        self.tx_provider = Some(pool);
    }

    /// Records the last vertex BFT finality reached.
    pub fn set_finalized_tip(&mut self, tip: Option<VHash>)
        ensures
            final(self).finalized_spec() == tip,
            final(self).dag_spec() == old(self).dag_spec() && final(self).state_spec() == old(self).state_spec(),
            final(self).pending_spec() == old(self).pending_spec() && final(self).in_flight_spec() == old(self).in_flight_spec(),
    {
        self.finalized_tip = tip;
    }

    /// The DAG.
    pub fn dag(&self) -> (r: &Dag)
        ensures *r == self.dag_spec(),
    {
        &self.dag
    }

    /// The hashes asked for that the DAG holds, in the order asked.
    pub fn requested_vertices(&self, hashes: &[VHash]) -> (r: Vec<VHash>)
        requires self.dag_spec().wf(),
        ensures r@ == known_hashes(self.dag_spec()@.vertices, hashes@),
    {
        let mut out: Vec<VHash> = Vec::new();
        let mut i: usize = 0;
        assert(hashes@.take(0) =~= Seq::<VHash>::empty());
        while i < hashes.len()
            invariant
                i <= hashes@.len(),
                self.dag_spec().wf(),
                out@ == known_hashes(self.dag_spec()@.vertices, hashes@.take(i as int)),
            decreases hashes@.len() - i,
        {
            assert(hashes@.take(i + 1).drop_last() =~= hashes@.take(i as int));
            assert(hashes@.take(i + 1).last() == hashes@[i as int]);
            if self.dag.get_vertex(&hashes[i]).is_some() {
                out.push(hashes[i]);
            }
            i = i + 1;
        }
        assert(hashes@.take(i as int) =~= hashes@);
        out
    }

    /// Up to `limit` hashes of vertices above `height`, lowest heights first;
    /// when fewer than `limit` come back, they are all the vertices above
    /// `height` up to the DAG's latest height.
    pub fn vertices_since(&self, height: u64, limit: u32) -> (r: Vec<VHash>)
        requires self.dag_spec().wf(),
        ensures
            r@.len() <= limit,
            forall|i: int| 0 <= i < r@.len() ==> has_hash(self.dag_spec()@.vertices, (#[trigger] r@[i]).0@)
                && vertex_of(self.dag_spec()@.vertices, r@[i].0@).height > height,
            forall|i: int, j: int| 0 <= i < j < r@.len() ==> vertex_of(self.dag_spec()@.vertices, (#[trigger] r@[i]).0@).height
                <= vertex_of(self.dag_spec()@.vertices, (#[trigger] r@[j]).0@).height,
            r@.len() < limit ==> forall|k: int| 0 <= k < self.dag_spec()@.vertices.len()
                && height < (#[trigger] self.dag_spec()@.vertices[k]).height
                && self.dag_spec()@.vertices[k].height <= crate::dag::graph::latest_height_spec(self.dag_spec()@.vertices, self.dag_spec()@.tips)
                ==> in_prefix(r@, r@.len() as int, self.dag_spec()@.vertices[k].hash.0@),
    {
        let mut out: Vec<VHash> = Vec::new();
        let current = self.dag.latest_height();
        if height >= current {
            return out;
        }
        let ghost vs = self.dag@.vertices;
        let mut hh: u128 = height as u128 + 1;
        while hh <= current as u128 && out.len() < limit as usize
            invariant
                self.dag.wf(),
                vs == self.dag@.vertices,
                height < hh,
                hh <= current + 1,
                current == crate::dag::graph::latest_height_spec(vs, self.dag@.tips),
                out@.len() <= limit,
                forall|i: int| 0 <= i < out@.len() ==> has_hash(vs, (#[trigger] out@[i]).0@)
                    && height < vertex_of(vs, out@[i].0@).height && vertex_of(vs, out@[i].0@).height < hh,
                forall|i: int, j: int| 0 <= i < j < out@.len() ==> vertex_of(vs, (#[trigger] out@[i]).0@).height
                    <= vertex_of(vs, (#[trigger] out@[j]).0@).height,
                out@.len() < limit ==> forall|k: int| 0 <= k < vs.len() && height < (#[trigger] vs[k]).height && vs[k].height < hh
                    ==> in_prefix(out@, out@.len() as int, vs[k].hash.0@),
            decreases current + 1 - hh,
        {
            let h: u64 = hh as u64;
            let at = self.dag.get_vertices_at_height(h);
            let ghost o0 = out@;
            let mut j: usize = 0;
            while j < at.len() && out.len() < limit as usize
                invariant
                    self.dag.wf(),
                    vs == self.dag@.vertices,
                    height < h <= current,
                    j <= at@.len(),
                    out@.len() <= limit,
                    o0.len() <= out@.len(),
                    forall|i: int| 0 <= i < o0.len() ==> out@[i] == o0[i],
                    forall|x: Seq<u8>| in_prefix(at@, at@.len() as int, x) <==>
                        exists|i: int| 0 <= i < vs.len() && (#[trigger] vs[i]).height == h && vs[i].hash.0@ == x,
                    forall|i: int| 0 <= i < out@.len() ==> has_hash(vs, (#[trigger] out@[i]).0@)
                        && height < vertex_of(vs, out@[i].0@).height && vertex_of(vs, out@[i].0@).height <= h,
                    forall|i: int| o0.len() <= i < out@.len() ==> vertex_of(vs, (#[trigger] out@[i]).0@).height == h,
                    forall|i: int, k: int| 0 <= i < k < out@.len() ==> vertex_of(vs, (#[trigger] out@[i]).0@).height
                        <= vertex_of(vs, (#[trigger] out@[k]).0@).height,
                    forall|i: int| 0 <= i < o0.len() ==> vertex_of(vs, (#[trigger] o0[i]).0@).height < h,
                    forall|q: int| 0 <= q < j ==> in_prefix(out@, out@.len() as int, (#[trigger] at@[q]).0@),
                    o0.len() < limit ==> forall|k: int| 0 <= k < vs.len() && height < (#[trigger] vs[k]).height && vs[k].height < h
                        ==> in_prefix(o0, o0.len() as int, vs[k].hash.0@),
                decreases at@.len() - j,
            {
                let hh = at[j];
                proof {
                    assert(in_prefix(at@, at@.len() as int, hh.0@));
                    let w = choose|i: int| 0 <= i < vs.len() && (#[trigger] vs[i]).height == h && vs[i].hash.0@ == hh.0@;
                    crate::dag::graph::lemma_wf_unique(self.dag);
                    crate::dag::graph::lemma_vertex_of_index(vs, w);
                }
                match self.dag.get_vertex(&hh) {
                    Some(_) => {
                        let ghost ob = out@;
                        out.push(hh);
                        proof {
                            assert forall|q: int| 0 <= q < j + 1 implies in_prefix(out@, out@.len() as int, (#[trigger] at@[q]).0@) by {
                                if q < j {
                                    let w = choose|w: int| 0 <= w < ob.len() && (#[trigger] ob[w]).0@ == at@[q].0@;
                                    assert(out@[w] == ob[w]);
                                } else {
                                    assert(out@[ob.len() as int] == hh);
                                }
                            }
                            assert forall|i: int, k: int| 0 <= i < k < out@.len() implies vertex_of(vs, (#[trigger] out@[i]).0@).height
                                <= vertex_of(vs, (#[trigger] out@[k]).0@).height by {
                                if k < ob.len() { assert(out@[i] == ob[i] && out@[k] == ob[k]); }
                                else { assert(out@[i] == ob[i]); }
                            }
                        }
                    },
                    None => {},
                }
                j = j + 1;
            }
            proof {
                if out@.len() < limit {
                    assert forall|k: int| 0 <= k < vs.len() && height < (#[trigger] vs[k]).height && vs[k].height < h + 1
                        implies in_prefix(out@, out@.len() as int, vs[k].hash.0@) by {
                        if vs[k].height < h {
                            let w = choose|w: int| 0 <= w < o0.len() && (#[trigger] o0[w]).0@ == vs[k].hash.0@;
                            assert(out@[w] == o0[w]);
                        } else {
                            assert(in_prefix(at@, at@.len() as int, vs[k].hash.0@));
                            let q = choose|q: int| 0 <= q < at@.len() && (#[trigger] at@[q]).0@ == vs[k].hash.0@;
                            assert(in_prefix(out@, out@.len() as int, at@[q].0@));
                        }
                    }
                }
            }
            hh = hh + 1;
        }
        out
    }

    /// Answers a peer's request from the DAG, the transaction pool and the
    /// finalized tip.
    pub fn handle_request(&self, request: SyncRequest) -> (r: SyncResponse)
        requires self.dag_spec().wf(),
        ensures
            match request {
                SyncRequest::GetVertices(hs) => r matches SyncResponse::Vertices(v)
                    && v@.len() == known_hashes(self.dag_spec()@.vertices, hs@).len(),
                SyncRequest::GetVerticesSince { height, limit } => r matches SyncResponse::Vertices(v) && v@.len() <= limit,
                SyncRequest::GetTransactions(_) => r is Transactions,
                SyncRequest::GetTips => r matches SyncResponse::Tips(t) && t@ == self.dag_spec()@.tips,
                SyncRequest::GetFinalized => r == SyncResponse::Finalized(self.finalized_spec()),
            },
    {
        match request {
            SyncRequest::GetVertices(hashes) => {
                let found = self.requested_vertices(hashes.as_slice());
                proof { lemma_known_has(self.dag@.vertices, hashes@); }
                SyncResponse::Vertices(self.vertices_of(&found))
            },
            SyncRequest::GetVerticesSince { height, limit } => {
                let found = self.vertices_since(height, limit);
                SyncResponse::Vertices(self.vertices_of(&found))
            },
            SyncRequest::GetTransactions(hashes) => {
                let mut txs: Vec<crate::primitives::transaction::Transaction> = Vec::new();
                match &self.tx_provider {
                    Some(pool) => {
                        let found = pool.get_by_hashes(hashes.as_slice());
                        let mut i: usize = 0;
                        while i < found.len()
                            decreases found@.len() - i,
                        {
                            txs.push(found[i].clone());
                            i = i + 1;
                        }
                    },
                    None => {},
                }
                SyncResponse::Transactions(txs)
            },
            SyncRequest::GetTips => SyncResponse::Tips(self.dag.get_tips()),
            SyncRequest::GetFinalized => SyncResponse::Finalized(self.finalized_tip),
        }
    }

    /// Copies of the DAG's vertices with the given hashes.
    fn vertices_of(&self, hashes: &Vec<VHash>) -> (r: Vec<Vertex>)
        requires
            self.dag_spec().wf(),
            forall|i: int| 0 <= i < hashes@.len() ==> has_hash(self.dag_spec()@.vertices, (#[trigger] hashes@[i]).0@),
        ensures r@.len() == hashes@.len(),
    {
        let mut out: Vec<Vertex> = Vec::new();
        let mut i: usize = 0;
        while i < hashes.len()
            invariant
                i <= hashes@.len(),
                out@.len() == i,
                self.dag_spec().wf(),
                forall|q: int| 0 <= q < hashes@.len() ==> has_hash(self.dag_spec()@.vertices, (#[trigger] hashes@[q]).0@),
            decreases hashes@.len() - i,
        {
            match self.dag.get_vertex(&hashes[i]) {
                Some(v) => { out.push(v.clone()); },
                None => { proof { assert(has_hash(self.dag_spec()@.vertices, hashes@[i as int].0@)); } },
            }
            i = i + 1;
        }
        out
    }

    /// Takes in a peer's response: vertices are added to the DAG (those
    /// refused are skipped) and a request is done; tips the DAG lacks are
    /// queued; an error ends a request.
    pub fn handle_response(&mut self, response: SyncResponse) -> (r: NetworkResult<()>)
        requires old(self).dag_spec().wf(),
        ensures
            r is Ok,
            final(self).dag_spec().wf(),
            final(self).state_spec() == old(self).state_spec(),
            final(self).finalized_spec() == old(self).finalized_spec(),
            match response {
                SyncResponse::Vertices(_) => final(self).in_flight_spec() == (if old(self).in_flight_spec() > 0 { old(self).in_flight_spec() - 1 } else { 0 })
                    && final(self).pending_spec() == old(self).pending_spec(),
                SyncResponse::Tips(t) => final(self).pending_spec() == old(self).pending_spec() + missing_hashes(old(self).dag_spec()@.vertices, t@)
                    && final(self).in_flight_spec() == old(self).in_flight_spec() && final(self).dag_spec() == old(self).dag_spec(),
                SyncResponse::Error(_) => final(self).in_flight_spec() == (if old(self).in_flight_spec() > 0 { old(self).in_flight_spec() - 1 } else { 0 })
                    && final(self).pending_spec() == old(self).pending_spec() && final(self).dag_spec() == old(self).dag_spec(),
                _ => final(self).pending_spec() == old(self).pending_spec() && final(self).in_flight_spec() == old(self).in_flight_spec()
                    && final(self).dag_spec() == old(self).dag_spec(),
            },
    {
        match response {
            SyncResponse::Vertices(vertices) => {
                let mut vs = vertices;
                while vs.len() > 0
                    invariant
                        self.dag.wf(),
                        self.pending_requests@ == old(self).pending_requests@,
                        self.in_flight == old(self).in_flight,
                        self.state == old(self).state,
                        self.finalized_tip == old(self).finalized_tip,
                    decreases vs@.len(),
                {
                    let v = vs.remove(0);
                    let _ = self.dag.add_vertex(v);
                }
                self.in_flight = if self.in_flight > 0 { self.in_flight - 1 } else { 0 };
            },
            SyncResponse::Tips(tips) => {
                let ghost p0 = self.pending_requests@;
                let mut i: usize = 0;
                assert(tips@.take(0) =~= Seq::<VHash>::empty());
                while i < tips.len()
                    invariant
                        i <= tips@.len(),
                        self.dag == old(self).dag,
                        self.in_flight == old(self).in_flight,
                        self.state == old(self).state,
                        self.finalized_tip == old(self).finalized_tip,
                        self.dag.wf(),
                        self.pending_requests@ == p0 + missing_hashes(self.dag@.vertices, tips@.take(i as int)),
                    decreases tips@.len() - i,
                {
                    assert(tips@.take(i + 1).drop_last() =~= tips@.take(i as int));
                    assert(tips@.take(i + 1).last() == tips@[i as int]);
                    if self.dag.get_vertex(&tips[i]).is_none() {
                        self.pending_requests.push(tips[i]);
                    }
                    assert(self.pending_requests@ =~= p0 + missing_hashes(self.dag@.vertices, tips@.take(i + 1)));
                    i = i + 1;
                }
                assert(tips@.take(i as int) =~= tips@);
            },
            SyncResponse::Error(_) => {
                self.in_flight = if self.in_flight > 0 { self.in_flight - 1 } else { 0 };
            },
            _ => {},
        }
        Ok(())
    }

    /// The next request: up to a batch of queued hashes, unless too many
    /// requests are in flight or none are queued.
    pub fn next_request(&mut self) -> (r: Option<SyncRequest>)
        requires old(self).in_flight_spec() < usize::MAX,
        ensures
            final(self).dag_spec() == old(self).dag_spec() && final(self).state_spec() == old(self).state_spec(),
            final(self).finalized_spec() == old(self).finalized_spec(),
            ({
                let n = if (old(self).config_spec().batch_size as int) < old(self).pending_spec().len() { old(self).config_spec().batch_size as int }
                    else { old(self).pending_spec().len() as int };
                if old(self).in_flight_spec() >= old(self).config_spec().max_concurrent || old(self).pending_spec().len() == 0 {
                    r is None && final(self).pending_spec() == old(self).pending_spec() && final(self).in_flight_spec() == old(self).in_flight_spec()
                } else if n == 0 {
                    r is None && final(self).pending_spec() == old(self).pending_spec() && final(self).in_flight_spec() == old(self).in_flight_spec()
                } else {
                    &&& r matches Some(SyncRequest::GetVertices(b)) && b@ == old(self).pending_spec().subrange(0, n)
                    &&& final(self).pending_spec() == old(self).pending_spec().subrange(n, old(self).pending_spec().len() as int)
                    &&& final(self).in_flight_spec() == old(self).in_flight_spec() + 1
                }
            }),
    {
        if self.in_flight >= self.config.max_concurrent {
            return None;
        }
        let bs = self.config.batch_size as usize;
        let n = if bs < self.pending_requests.len() { bs } else { self.pending_requests.len() };
        if n == 0 {
            return None;
        }
        let mut batch = self.pending_requests.split_off(n);
        std::mem::swap(&mut batch, &mut self.pending_requests);
        self.in_flight = self.in_flight + 1;
        Some(SyncRequest::GetVertices(batch))
    }

    pub fn state(&self) -> (r: SyncState)
        ensures r == self.state_spec(),
    {
        self.state
    }

    pub fn is_synced(&self) -> (r: bool)
        ensures r == (self.state_spec() == SyncState::Synced),
    {
        self.state == SyncState::Synced
    }

    pub fn start_sync(&mut self)
        ensures
            final(self).state_spec() == SyncState::Syncing,
            final(self).dag_spec() == old(self).dag_spec() && final(self).pending_spec() == old(self).pending_spec(),
            final(self).in_flight_spec() == old(self).in_flight_spec(),
    {
        self.state = SyncState::Syncing;
    }

    pub fn mark_synced(&mut self)
        ensures
            final(self).state_spec() == SyncState::Synced,
            final(self).dag_spec() == old(self).dag_spec() && final(self).pending_spec() == old(self).pending_spec(),
            final(self).in_flight_spec() == old(self).in_flight_spec(),
    {
        self.state = SyncState::Synced;
    }
}

proof fn lemma_known_has(vs: Seq<Vertex>, hs: Seq<VHash>)
    ensures forall|i: int| 0 <= i < known_hashes(vs, hs).len() ==> has_hash(vs, (#[trigger] known_hashes(vs, hs)[i]).0@),
    decreases hs.len(),
{
    if hs.len() > 0 {
        lemma_known_has(vs, hs.drop_last());
        let k = known_hashes(vs, hs);
        let k0 = known_hashes(vs, hs.drop_last());
        assert forall|i: int| 0 <= i < k.len() implies has_hash(vs, (#[trigger] k[i]).0@) by {
            if i < k0.len() { assert(k[i] == k0[i]); }
        }
    }
}

} // verus!
