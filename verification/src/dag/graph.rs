//! The DAG: vertices by hash, their status, the current tips, vertices that
//! wait for missing parents, and ancestry queries.
use vstd::prelude::*;
use crate::dag::vertex::{Vertex, VertexError, VertexStatus};
use crate::primitives::error::NexusError;
use crate::primitives::text::{str_to_chars, u64_to_decimal, chars_to_string, push_chars, dec_digits};

verus! {

type VHash = crate::primitives::types::Hash;

/// Settings of the DAG.
#[derive(Clone, Debug)]
pub struct DagConfig {
    pub max_tip_depth: u64,
    pub confirmation_threshold: u128,
    pub max_vertices_in_memory: usize,
    pub pruning_depth: u64,
    /// Largest drift of a vertex timestamp into the future, in seconds.
    pub max_time_drift: u64,
}

impl Default for DagConfig {
    fn default() -> (r: Self)
        ensures
            r.max_tip_depth == 100 && r.confirmation_threshold == 1000,
            r.max_vertices_in_memory == 100_000 && r.pruning_depth == 10_000 && r.max_time_drift == 30,
    {
        DagConfig {
            max_tip_depth: 100,
            confirmation_threshold: 1000,
            max_vertices_in_memory: 100_000,
            pruning_depth: 10_000,
            max_time_drift: 30,
        }
    }
}

/// Some vertex of `vs` has hash `h`.
pub open spec fn has_hash(vs: Seq<Vertex>, h: Seq<u8>) -> bool {
    exists|i: int| 0 <= i < vs.len() && (#[trigger] vs[i]).hash.0@ == h
}

/// No two vertices of `vs` share a hash.
pub open spec fn unique_hashes(vs: Seq<Vertex>) -> bool {
    forall|i: int, j: int| 0 <= i < j < vs.len() ==> (#[trigger] vs[i]).hash.0@ != (#[trigger] vs[j]).hash.0@
}

/// No hash occurs twice.
pub open spec fn unique_seq(s: Seq<Seq<u8>>) -> bool {
    forall|i: int, j: int| 0 <= i < j < s.len() ==> s[i] != s[j]
}

/// The vertex of `vs` with hash `h` (meaningful when there is one).
pub open spec fn vertex_of(vs: Seq<Vertex>, h: Seq<u8>) -> Vertex {
    vs[choose|i: int| 0 <= i < vs.len() && (#[trigger] vs[i]).hash.0@ == h]
}

/// Vertex `v` names `h` among its parents.
pub open spec fn has_parent(v: Vertex, h: Seq<u8>) -> bool {
    exists|j: int| 0 <= j < v.parents@.len() && (#[trigger] v.parents@[j]).0@ == h
}

/// The height a vertex with these parents must have: one more than its
/// highest parent that is in `vs`, or 0 when none is.
pub open spec fn expected_height(vs: Seq<Vertex>, parents: Seq<VHash>) -> int
    decreases parents.len(),
{
    if parents.len() == 0 {
        0
    } else {
        let rest = expected_height(vs, parents.drop_last());
        let p = parents.last().0@;
        let here: int = if has_hash(vs, p) { vertex_of(vs, p).height + 1 } else { 0 };
        if rest < here { here } else { rest }
    }
}

/// Some parent of `v` is not in `vs`.
pub open spec fn missing_parent(vs: Seq<Vertex>, v: Vertex) -> bool {
    exists|j: int| 0 <= j < v.parents@.len() && !has_hash(vs, (#[trigger] v.parents@[j]).0@)
}

/// The status recorded for `h`: the latest entry for it.
pub open spec fn status_of(st: Seq<(VHash, VertexStatus)>, h: Seq<u8>) -> Option<VertexStatus>
    decreases st.len(),
{
    if st.len() == 0 {
        None
    } else if st.last().0.0@ == h {
        Some(st.last().1)
    } else {
        status_of(st.drop_last(), h)
    }
}

/// One of the first `n` hashes of `ps` is `x`.
pub open spec fn in_prefix(ps: Seq<VHash>, n: int, x: Seq<u8>) -> bool {
    exists|k: int| 0 <= k < n && (#[trigger] ps[k]).0@ == x
}

/// `h` is one of the tips.
pub open spec fn has_tip(tips: Seq<VHash>, h: Seq<u8>) -> bool {
    exists|i: int| 0 <= i < tips.len() && (#[trigger] tips[i]).0@ == h
}

/// The abstract state of a DAG.
pub struct DagView {
    /// Vertices in the graph, in insertion order.
    pub vertices: Seq<Vertex>,
    /// Recorded status per hash.
    pub status: Seq<(VHash, VertexStatus)>,
    /// Current tips.
    pub tips: Seq<VHash>,
    pub finalized_height: u64,
    pub genesis: Option<Seq<u8>>,
    /// Vertices waiting for parents.
    pub pending: Seq<Vertex>,
    pub max_time_drift: u64,
}

/// The DAG of vertices.
pub struct Dag {
    config: DagConfig,
    vertices: Vec<Vertex>,
    status: Vec<(VHash, VertexStatus)>,
    tips: Vec<VHash>,
    finalized_height: u64,
    genesis_hash: Option<VHash>,
    pending: Vec<Vertex>,
}

/// Counts of a DAG.
#[derive(Clone, Debug)]
pub struct DagStats {
    pub total_vertices: usize,
    pub tips_count: usize,
    pub pending_count: usize,
    pub latest_height: u64,
    pub finalized_height: u64,
}

/// The hashes of a list of hashes, as bytes.
pub open spec fn hash_seq(s: Seq<VHash>) -> Seq<Seq<u8>> {
    s.map_values(|h: VHash| h.0@)
}

/// `tips` after adding vertex `v`: its parents leave, it joins.
pub open spec fn tips_after_insert(tips: Seq<VHash>, v: Vertex, new_tips: Seq<VHash>) -> bool {
    forall|h: Seq<u8>| #[trigger] has_tip(new_tips, h) <==> ((has_tip(tips, h) && !has_parent(v, h)) || h == v.hash.0@)
}

/// `st2` is `st` with `h` given status `s` (replaced, or added last).
pub open spec fn status_set(st: Seq<(VHash, VertexStatus)>, h: Seq<u8>, s: VertexStatus, st2: Seq<(VHash, VertexStatus)>) -> bool {
    &&& status_of(st2, h) == Some(s)
    &&& forall|k: Seq<u8>| k != h ==> status_of(st2, k) == status_of(st, k)
}

/// A valid vertex joined the graph: appended to the vertices, made a tip in
/// place of its parents, and confirmed.
pub open spec fn inserted_one(a: DagView, b: DagView, v: Vertex) -> bool {
    &&& b.vertices == a.vertices.push(v)
    &&& tips_after_insert(a.tips, v, b.tips)
    &&& status_set(a.status, v.hash.0@, VertexStatus::Confirmed, b.status)
    &&& b.pending == a.pending
    &&& b.finalized_height == a.finalized_height && b.genesis == a.genesis && b.max_time_drift == a.max_time_drift
}

/// Waiting vertices that the newly present parents complete joined the
/// graph after the others: every vertex added was waiting, nothing before
/// is lost, and the waiting list only shrinks.
pub open spec fn cascaded(a: DagView, b: DagView) -> bool {
    &&& a.vertices.len() <= b.vertices.len()
    &&& b.vertices.subrange(0, a.vertices.len() as int) == a.vertices
    &&& forall|i: int| a.vertices.len() <= i < b.vertices.len() ==> a.pending.contains(#[trigger] b.vertices[i])
    &&& b.pending.len() <= a.pending.len()
    &&& forall|q: int| 0 <= q < b.pending.len() ==> a.pending.contains(#[trigger] b.pending[q])
    &&& b.finalized_height == a.finalized_height && b.genesis == a.genesis && b.max_time_drift == a.max_time_drift
}

proof fn lemma_cascade_step(start: DagView, pre: DagView, m: DagView, post: DagView, v: Vertex)
    requires
        start.vertices.len() <= pre.vertices.len(),
        pre.vertices.subrange(0, start.vertices.len() as int) == start.vertices,
        forall|i: int| start.vertices.len() <= i < pre.vertices.len() ==> start.pending.contains(#[trigger] pre.vertices[i]),
        pre.pending.len() < start.pending.len(),
        forall|q: int| 0 <= q < pre.pending.len() ==> start.pending.contains(#[trigger] pre.pending[q]),
        start.pending.contains(v),
        pre.finalized_height == start.finalized_height && pre.genesis == start.genesis && pre.max_time_drift == start.max_time_drift,
        inserted_one(pre, m, v),
        cascaded(m, post),
    ensures
        cascaded(start, post),
        post.pending.len() < start.pending.len(),
{
    assert forall|i: int| start.vertices.len() <= i < post.vertices.len() implies start.pending.contains(#[trigger] post.vertices[i]) by {
        if i < m.vertices.len() {
            assert(post.vertices.subrange(0, m.vertices.len() as int)[i] == m.vertices[i]);
            if i < pre.vertices.len() {
                assert(m.vertices[i] == pre.vertices[i]);
            } else {
                assert(m.vertices[i] == v);
            }
        } else {
            assert(m.pending.contains(post.vertices[i]));
            let w = choose|w: int| 0 <= w < m.pending.len() && m.pending[w] == post.vertices[i];
            assert(start.pending.contains(pre.pending[w]));
        }
    }
    assert forall|q: int| 0 <= q < post.pending.len() implies start.pending.contains(#[trigger] post.pending[q]) by {
        let w = choose|w: int| 0 <= w < m.pending.len() && m.pending[w] == post.pending[q];
        assert(start.pending.contains(pre.pending[w]));
    }
    assert forall|i: int| 0 <= i < start.vertices.len() implies post.vertices[i] == start.vertices[i] by {
        assert(post.vertices.subrange(0, m.vertices.len() as int)[i] == m.vertices[i]);
        assert(m.vertices[i] == pre.vertices[i]);
        assert(pre.vertices.subrange(0, start.vertices.len() as int)[i] == pre.vertices[i]);
    }
    assert(post.vertices.subrange(0, start.vertices.len() as int) =~= start.vertices);
}

/// The latest time a vertex may carry: now plus the allowed drift.
pub open spec fn max_future(now_ms: u64, drift_s: u64) -> int {
    now_ms + drift_s * 1000
}

/// The vertex is too far in the future, or older than one of its parents in
/// the graph.
pub open spec fn timestamp_fault(vs: Seq<Vertex>, v: Vertex, now_ms: u64, drift_s: u64) -> bool {
    ||| v.timestamp > max_future(now_ms, drift_s)
    ||| exists|j: int| 0 <= j < v.parents@.len() && has_hash(vs, (#[trigger] v.parents@[j]).0@)
            && v.timestamp < vertex_of(vs, v.parents@[j].0@).timestamp
}

/// `x` has parent `p` in the graph.
pub open spec fn parent_edge(vs: Seq<Vertex>, x: Seq<u8>, p: Seq<u8>) -> bool {
    has_hash(vs, x) && has_parent(vertex_of(vs, x), p)
}

/// A path from `d` to `a` along parent edges: `a` is `d` or an ancestor.
pub open spec fn is_path(vs: Seq<Vertex>, path: Seq<Seq<u8>>) -> bool {
    &&& path.len() >= 1
    &&& forall|i: int| 0 <= i < path.len() - 1 ==> parent_edge(vs, #[trigger] path[i], path[i + 1])
}

pub open spec fn reaches(vs: Seq<Vertex>, d: Seq<u8>, a: Seq<u8>) -> bool {
    exists|path: Seq<Seq<u8>>| is_path(vs, path) && path[0] == d && path.last() == a
}

impl View for Dag {
    type V = DagView;

    closed spec fn view(&self) -> DagView {
        DagView {
            vertices: self.vertices@,
            status: self.status@,
            tips: self.tips@,
            finalized_height: self.finalized_height,
            genesis: match self.genesis_hash { Some(h) => Some(h.0@), None => None },
            pending: self.pending@,
            max_time_drift: self.config.max_time_drift,
        }
    }
}

/// The message of a vertex fault.
pub open spec fn vertex_error_text(e: VertexError) -> Seq<char> {
    match e {
        VertexError::NoParents => "Vertex has no parents (non-genesis)"@,
        VertexError::TooManyParents(n) => "Too many parents: "@ + dec_digits(n as nat) + " (max 8)"@,
        VertexError::TooManyTransactions(n) => "Too many transactions: "@ + dec_digits(n as nat) + " (max 1000)"@,
        VertexError::InvalidMerkleRoot => "Invalid merkle root"@,
        VertexError::InvalidHash => "Invalid vertex hash"@,
        VertexError::InvalidSignature => "Invalid signature"@,
        VertexError::ParentNotFound(_) => "Parent not found"@,
        VertexError::TimestampTooOld => "Timestamp too old"@,
        VertexError::TimestampInFuture => "Timestamp in future"@,
        VertexError::InvalidHeight { expected, got } =>
            "Invalid height: expected "@ + dec_digits(expected as nat) + ", got "@ + dec_digits(got as nat),
    }
}

/// The message of a vertex fault.
pub fn vertex_error_message(e: &VertexError) -> (s: String)
    ensures s@ == vertex_error_text(*e),
{
    match e {
        VertexError::NoParents => "Vertex has no parents (non-genesis)".to_owned(),
        VertexError::TooManyParents(n) => join_number("Too many parents: ", *n as u64, " (max 8)"),
        VertexError::TooManyTransactions(n) => join_number("Too many transactions: ", *n as u64, " (max 1000)"),
        VertexError::InvalidMerkleRoot => "Invalid merkle root".to_owned(),
        VertexError::InvalidHash => "Invalid vertex hash".to_owned(),
        VertexError::InvalidSignature => "Invalid signature".to_owned(),
        VertexError::ParentNotFound(_) => "Parent not found".to_owned(),
        VertexError::TimestampTooOld => "Timestamp too old".to_owned(),
        VertexError::TimestampInFuture => "Timestamp in future".to_owned(),
        VertexError::InvalidHeight { expected, got } => height_message(*expected, *got),
    }
}

fn join_number(prefix: &str, n: u64, suffix: &str) -> (s: String)
    ensures s@ == prefix@ + dec_digits(n as nat) + suffix@,
{
    let mut v = str_to_chars(prefix);
    let d = u64_to_decimal(n);
    push_chars(&mut v, d.as_slice());
    let tail = str_to_chars(suffix);
    push_chars(&mut v, tail.as_slice());
    chars_to_string(v.as_slice())
}

fn height_message(expected: u64, got: u64) -> (s: String)
    ensures s@ == "Invalid height: expected "@ + dec_digits(expected as nat) + ", got "@ + dec_digits(got as nat),
{
    let mut v = str_to_chars("Invalid height: expected ");
    let d = u64_to_decimal(expected);
    push_chars(&mut v, d.as_slice());
    let mid = str_to_chars(", got ");
    push_chars(&mut v, mid.as_slice());
    let e = u64_to_decimal(got);
    push_chars(&mut v, e.as_slice());
    chars_to_string(v.as_slice())
}

fn find_in(vs: &Vec<Vertex>, h: &VHash) -> (r: Option<usize>)
    ensures
        match r {
            Some(i) => i < vs@.len() && vs@[i as int].hash.0@ == h.0@,
            None => !has_hash(vs@, h.0@),
        },
{
    let mut i: usize = 0;
    while i < vs.len()
        invariant
            i <= vs@.len(),
            forall|j: int| 0 <= j < i ==> (#[trigger] vs@[j]).hash.0@ != h.0@,
        decreases vs@.len() - i,
    {
        if vs[i].hash == *h {
            return Some(i);
        }
        i = i + 1;
    }
    None
}

pub(crate) proof fn lemma_vertex_of_index(vs: Seq<Vertex>, i: int)
    requires unique_hashes(vs), 0 <= i < vs.len(),
    ensures vertex_of(vs, vs[i].hash.0@) == vs[i], has_hash(vs, vs[i].hash.0@),
{
    let h = vs[i].hash.0@;
    assert(vs[i].hash.0@ == h);
    let k = choose|k: int| 0 <= k < vs.len() && (#[trigger] vs[k]).hash.0@ == h;
    if k != i {
        if k < i { assert(vs[k].hash.0@ != vs[i].hash.0@); } else { assert(vs[i].hash.0@ != vs[k].hash.0@); }
    }
}

/// A consistent DAG holds each hash once.
pub proof fn lemma_wf_unique(d: Dag)
    requires d.wf(),
    ensures unique_hashes(d@.vertices),
{
}

/// The outcome of adding `vertex` to `pre` at time `now_ms`.
pub open spec fn add_step(pre: DagView, vertex: Vertex, now_ms: u64, post: DagView, r: Result<(), NexusError>) -> bool {
    &&& has_hash(pre.vertices, vertex.hash.0@) ==> r is Ok && post == pre
    &&& !has_hash(pre.vertices, vertex.hash.0@) && vertex.structure_error() is Some
            ==> (r matches Err(NexusError::Dag(_)) && post == pre)
    &&& !has_hash(pre.vertices, vertex.hash.0@) && vertex.structure_error() is None
            && timestamp_fault(pre.vertices, vertex, now_ms, pre.max_time_drift)
            ==> (r matches Err(NexusError::Dag(_)) && post == pre)
    &&& !has_hash(pre.vertices, vertex.hash.0@) && vertex.structure_error() is None
            && !timestamp_fault(pre.vertices, vertex, now_ms, pre.max_time_drift)
            && missing_parent(pre.vertices, vertex)
            ==> r is Ok
                && post.vertices == pre.vertices && post.tips == pre.tips
                && has_hash(post.pending, vertex.hash.0@)
                && vertex_of(post.pending, vertex.hash.0@) == vertex
                && status_set(pre.status, vertex.hash.0@, VertexStatus::AwaitingParents, post.status)
                && post.finalized_height == pre.finalized_height && post.genesis == pre.genesis
    &&& !has_hash(pre.vertices, vertex.hash.0@) && vertex.structure_error() is None
            && !timestamp_fault(pre.vertices, vertex, now_ms, pre.max_time_drift)
            && !missing_parent(pre.vertices, vertex)
            && vertex.height != expected_height(pre.vertices, vertex.parents@)
            ==> (r matches Err(NexusError::Dag(_)) && post == pre)
    &&& !has_hash(pre.vertices, vertex.hash.0@) && vertex.structure_error() is None
            && !timestamp_fault(pre.vertices, vertex, now_ms, pre.max_time_drift)
            && !missing_parent(pre.vertices, vertex)
            && vertex.height == expected_height(pre.vertices, vertex.parents@)
            ==> exists|mid: DagView| inserted_one(pre, mid, vertex) && cascaded(mid, post)
}

impl Dag {
    /// The DAG is consistent: one vertex per hash, one entry per tip, per
    /// status and per waiting vertex.
    pub closed spec fn wf(&self) -> bool {
        &&& unique_hashes(self.vertices@)
        &&& forall|i: int, j: int| 0 <= i < j < self.tips@.len() ==> (#[trigger] self.tips@[i]).0@ != (#[trigger] self.tips@[j]).0@
        &&& unique_hashes(self.pending@)
    }

    /// An empty DAG.
    pub fn new(config: DagConfig) -> (d: Self)
        ensures
            d.wf(),
            d@.vertices.len() == 0 && d@.status.len() == 0 && d@.tips.len() == 0 && d@.pending.len() == 0,
            d@.finalized_height == 0 && d@.genesis is None && d@.max_time_drift == config.max_time_drift,
    {
        Dag {
            config,
            vertices: Vec::new(),
            status: Vec::new(),
            tips: Vec::new(),
            finalized_height: 0,
            genesis_hash: None,
            pending: Vec::new(),
        }
    }

    fn set_status(&mut self, h: VHash, s: VertexStatus)
        requires old(self).wf(),
        ensures
            final(self).wf(),
            status_set(old(self)@.status, h.0@, s, final(self)@.status),
            final(self)@.vertices == old(self)@.vertices && final(self)@.tips == old(self)@.tips,
            final(self)@.pending == old(self)@.pending && final(self)@.finalized_height == old(self)@.finalized_height,
            final(self)@.genesis == old(self)@.genesis && final(self)@.max_time_drift == old(self)@.max_time_drift,
    {
        let ghost st = self.status@;
        self.status.push((h, s));
        proof {
            assert(self.status@.drop_last() =~= st);
        }
    }

    fn add_tip(&mut self, h: VHash)
        requires old(self).wf(),
        ensures
            final(self).wf(),
            forall|x: Seq<u8>| #[trigger] has_tip(final(self)@.tips, x) <==> (has_tip(old(self)@.tips, x) || x == h.0@),
            final(self)@.tips == (if has_tip(old(self)@.tips, h.0@) { old(self)@.tips } else { old(self)@.tips.push(h) }),
            final(self)@.vertices == old(self)@.vertices && final(self)@.status == old(self)@.status,
            final(self)@.pending == old(self)@.pending && final(self)@.finalized_height == old(self)@.finalized_height,
            final(self)@.genesis == old(self)@.genesis && final(self)@.max_time_drift == old(self)@.max_time_drift,
    {
        let mut i: usize = 0;
        while i < self.tips.len()
            invariant
                self.wf(),
                self@ == old(self)@,
                i <= self.tips@.len(),
                forall|j: int| 0 <= j < i ==> (#[trigger] self.tips@[j]).0@ != h.0@,
            decreases self.tips@.len() - i,
        {
            if self.tips[i] == h {
                proof { assert(self.tips@[i as int].0@ == h.0@); assert(has_tip(self.tips@, h.0@)); }
                return;
            }
            i = i + 1;
        }
        let ghost ot = self.tips@;
        self.tips.push(h);
        proof {
            let t = self.tips@;
            assert forall|a: int, b: int| 0 <= a < b < t.len() implies (#[trigger] t[a]).0@ != (#[trigger] t[b]).0@ by {
                if b == ot.len() {
                    assert(t[a] == ot[a]);
                } else {
                    assert(t[a] == ot[a] && t[b] == ot[b]);
                }
            }
            assert forall|x: Seq<u8>| has_tip(t, x) <==> (has_tip(ot, x) || x == h.0@) by {
                if has_tip(t, x) {
                    let k = choose|k: int| 0 <= k < t.len() && (#[trigger] t[k]).0@ == x;
                    if k < ot.len() { assert(ot[k] == t[k]); }
                }
                if has_tip(ot, x) {
                    let k = choose|k: int| 0 <= k < ot.len() && (#[trigger] ot[k]).0@ == x;
                    assert(t[k] == ot[k]);
                }
                if x == h.0@ { assert(t[ot.len() as int] == h); }
            }
        }
    }

    fn remove_tip(&mut self, h: VHash)
        requires old(self).wf(),
        ensures
            final(self).wf(),
            forall|x: Seq<u8>| #[trigger] has_tip(final(self)@.tips, x) <==> (has_tip(old(self)@.tips, x) && x != h.0@),
            final(self)@.vertices == old(self)@.vertices && final(self)@.status == old(self)@.status,
            final(self)@.pending == old(self)@.pending && final(self)@.finalized_height == old(self)@.finalized_height,
            final(self)@.genesis == old(self)@.genesis && final(self)@.max_time_drift == old(self)@.max_time_drift,
    {
        let ghost ot = self.tips@;
        let mut kept: Vec<VHash> = Vec::new();
        let mut i: usize = 0;
        while i < self.tips.len()
            invariant
                i <= ot.len(),
                self.tips@ == ot,
                forall|a: int, b: int| 0 <= a < b < ot.len() ==> (#[trigger] ot[a]).0@ != (#[trigger] ot[b]).0@,
                forall|x: Seq<u8>| #[trigger] has_tip(kept@, x) <==> (x != h.0@ && in_prefix(ot, i as int, x)),
                forall|a: int, b: int| 0 <= a < b < kept@.len() ==> (#[trigger] kept@[a]).0@ != (#[trigger] kept@[b]).0@,
                forall|a: int| 0 <= a < kept@.len() ==> exists|k: int| 0 <= k < i && (#[trigger] ot[k]) == #[trigger] kept@[a],
            decreases ot.len() - i,
        {
            let t = self.tips[i];
            let ghost kp = kept@;
            if !(t == h) {
                kept.push(t);
                proof {
                    assert forall|a: int, b: int| 0 <= a < b < kept@.len() implies (#[trigger] kept@[a]).0@ != (#[trigger] kept@[b]).0@ by {
                        if b == kp.len() {
                            assert(kept@[a] == kp[a]);
                            let k = choose|k: int| 0 <= k < i && (#[trigger] ot[k]) == kp[a];
                            assert(ot[k].0@ != ot[i as int].0@);
                        } else {
                            assert(kept@[a] == kp[a] && kept@[b] == kp[b]);
                        }
                    }
                    assert forall|a: int| 0 <= a < kept@.len() implies exists|k: int| 0 <= k < i + 1 && (#[trigger] ot[k]) == #[trigger] kept@[a] by {
                        if a < kp.len() {
                            assert(kept@[a] == kp[a]);
                            let k = choose|k: int| 0 <= k < i && (#[trigger] ot[k]) == kp[a];
                            assert(0 <= k < i + 1 && ot[k] == kept@[a]);
                        } else {
                            assert(0 <= i < i + 1 && ot[i as int] == kept@[a]);
                        }
                    }
                }
            }
            proof {
                assert forall|x: Seq<u8>| #[trigger] has_tip(kept@, x) <==> (x != h.0@ && in_prefix(ot, i + 1, x)) by {
                    if has_tip(kept@, x) {
                        let a = choose|a: int| 0 <= a < kept@.len() && (#[trigger] kept@[a]).0@ == x;
                        if a < kp.len() {
                            assert(kept@[a] == kp[a]);
                            assert(kp[a].0@ == x);
                            assert(has_tip(kp, x));
                            let k = choose|k: int| 0 <= k < i && (#[trigger] ot[k]).0@ == x;
                            assert(0 <= k < i + 1 && ot[k].0@ == x);
                            assert(in_prefix(ot, i + 1, x));
                        } else {
                            assert(0 <= i < i + 1 && ot[i as int].0@ == x);
                            assert(in_prefix(ot, i + 1, x));
                        }
                    }
                    if x != h.0@ && in_prefix(ot, i + 1, x) {
                        let k = choose|k: int| 0 <= k < i + 1 && (#[trigger] ot[k]).0@ == x;
                        if k < i {
                            assert(in_prefix(ot, i as int, x));
                            assert(has_tip(kp, x));
                            let a = choose|a: int| 0 <= a < kp.len() && (#[trigger] kp[a]).0@ == x;
                            assert(kept@[a] == kp[a]);
                        } else {
                            assert(kept@[kp.len() as int] == t);
                        }
                    }
                }
            }
            i = i + 1;
        }
        self.tips = kept;
        proof {
            assert forall|x: Seq<u8>| #[trigger] has_tip(self.tips@, x) <==> (has_tip(ot, x) && x != h.0@) by {
                assert(has_tip(ot, x) == in_prefix(ot, ot.len() as int, x));
            }
        }
    }

    /// Sets the genesis vertex: stored, finalized and made the first tip.
    /// Fails when a genesis is already set.
    pub fn init_genesis(&mut self, genesis: Vertex) -> (r: Result<(), NexusError>)
        requires old(self).wf(),
        ensures
            final(self).wf(),
            old(self)@.genesis is Some ==> (r matches Err(NexusError::Dag(_)) && final(self)@ == old(self)@),
            old(self)@.genesis is None ==> r is Ok,
            old(self)@.genesis is None ==> final(self)@.genesis == Some(genesis.hash.0@),
            old(self)@.genesis is None ==> has_hash(final(self)@.vertices, genesis.hash.0@),
            old(self)@.genesis is None ==> vertex_of(final(self)@.vertices, genesis.hash.0@) == genesis,
            old(self)@.genesis is None ==> status_of(final(self)@.status, genesis.hash.0@) == Some(VertexStatus::Finalized),
            old(self)@.genesis is None ==> has_tip(final(self)@.tips, genesis.hash.0@),
            old(self)@.genesis is None ==> final(self)@.pending == old(self)@.pending,
            old(self)@.genesis is None ==> final(self)@.tips == (if has_tip(old(self)@.tips, genesis.hash.0@) { old(self)@.tips }
                else { old(self)@.tips.push(genesis.hash) }),
            old(self)@.genesis is None && !has_hash(old(self)@.vertices, genesis.hash.0@)
                ==> final(self)@.vertices == old(self)@.vertices.push(genesis),
            old(self)@.genesis is None && has_hash(old(self)@.vertices, genesis.hash.0@) ==> ({
                &&& final(self)@.vertices.len() == old(self)@.vertices.len()
                &&& forall|j: int| 0 <= j < old(self)@.vertices.len() && old(self)@.vertices[j].hash.0@ != genesis.hash.0@
                    ==> #[trigger] final(self)@.vertices[j] == old(self)@.vertices[j]
            }),
            old(self)@.genesis is None ==> status_set(old(self)@.status, genesis.hash.0@, VertexStatus::Finalized, final(self)@.status),
            old(self)@.genesis is None ==> final(self)@.finalized_height == old(self)@.finalized_height,
    {
        if self.genesis_hash.is_some() {
            return Err(NexusError::Dag("Genesis already set".to_owned()));
        }
        let hash = genesis.hash;
        match find_in(&self.vertices, &hash) {
            Some(i) => {
                let ghost vs = self.vertices@;
                self.vertices.set(i, genesis);
                proof {
                    assert forall|a: int, b: int| 0 <= a < b < self.vertices@.len() implies
                        (#[trigger] self.vertices@[a]).hash.0@ != (#[trigger] self.vertices@[b]).hash.0@ by {
                        assert(vs[a].hash.0@ != vs[b].hash.0@);
                    }
                    lemma_vertex_of_index(self.vertices@, i as int);
                }
            },
            None => {
                let ghost vs = self.vertices@;
                self.vertices.push(genesis);
                proof {
                    assert forall|a: int, b: int| 0 <= a < b < self.vertices@.len() implies
                        (#[trigger] self.vertices@[a]).hash.0@ != (#[trigger] self.vertices@[b]).hash.0@ by {
                        if b == vs.len() {
                            assert(vs[a] == self.vertices@[a]);
                        }
                    }
                    lemma_vertex_of_index(self.vertices@, vs.len() as int);
                }
            },
        }
        let ghost vs2 = self.vertices@;
        self.set_status(hash, VertexStatus::Finalized);
        self.add_tip(hash);
        let ghost tips_now = self@.tips;
        assert(has_tip(tips_now, hash.0@));
        self.genesis_hash = Some(hash);
        assert(self@.tips == tips_now);
        Ok(())
    }

    /// The waiting vertex with hash `h`, if any.
    fn find_pending(&self, h: &VHash) -> (r: Option<usize>)
        ensures
            match r {
                Some(i) => i < self.pending@.len() && self.pending@[i as int].hash.0@ == h.0@,
                None => !has_hash(self.pending@, h.0@),
            },
    {
        find_in(&self.pending, h)
    }

    fn first_missing_parent(&self, v: &Vertex) -> (r: bool)
        ensures r == missing_parent(self.vertices@, *v),
    {
        let mut j: usize = 0;
        while j < v.parents.len()
            invariant
                j <= v.parents@.len(),
                forall|k: int| 0 <= k < j ==> has_hash(self.vertices@, (#[trigger] v.parents@[k]).0@),
            decreases v.parents@.len() - j,
        {
            if find_in(&self.vertices, &v.parents[j]).is_none() {
                return true;
            }
            j = j + 1;
        }
        false
    }

    /// Checks the timestamp of a vertex against `now_ms`: not beyond the
    /// allowed drift, not older than a parent in the graph.
    pub fn verify_timestamp_at(&self, vertex: &Vertex, now_ms: u64) -> (r: Result<(), NexusError>)
        requires self.wf(),
        ensures
            r is Ok <==> !timestamp_fault(self@.vertices, *vertex, now_ms, self@.max_time_drift),
            r matches Err(e) ==> e is Dag,
    {
        let limit: u128 = (now_ms as u128) + (self.config.max_time_drift as u128) * 1000;
        if (vertex.timestamp as u128) > limit {
            return Err(NexusError::Dag("Vertex timestamp too far in future".to_owned()));
        }
        let mut j: usize = 0;
        while j < vertex.parents.len()
            invariant
                j <= vertex.parents@.len(),
                unique_hashes(self.vertices@),
                forall|k: int| 0 <= k < j && has_hash(self.vertices@, (#[trigger] vertex.parents@[k]).0@)
                    ==> vertex.timestamp >= vertex_of(self.vertices@, vertex.parents@[k].0@).timestamp,
            decreases vertex.parents@.len() - j,
        {
            match find_in(&self.vertices, &vertex.parents[j]) {
                Some(i) => {
                    proof { lemma_vertex_of_index(self.vertices@, i as int); }
                    if vertex.timestamp < self.vertices[i].timestamp {
                        return Err(NexusError::Dag("Vertex timestamp before parent".to_owned()));
                    }
                },
                None => {},
            }
            j = j + 1;
        }
        Ok(())
    }

    fn expected_height_exec(&self, parents: &Vec<VHash>) -> (r: u128)
        requires self.wf(),
        ensures r == expected_height(self@.vertices, parents@),
    {
        let mut best: u128 = 0;
        let mut j: usize = 0;
        assert(parents@.subrange(0, 0) =~= Seq::<VHash>::empty());
        while j < parents.len()
            invariant
                j <= parents@.len(),
                unique_hashes(self.vertices@),
                best == expected_height(self.vertices@, parents@.subrange(0, j as int)),
                best <= u64::MAX as int + 1,
            decreases parents@.len() - j,
        {
            proof {
                assert(parents@.subrange(0, j + 1).drop_last() =~= parents@.subrange(0, j as int));
            }
            match find_in(&self.vertices, &parents[j]) {
                Some(i) => {
                    proof { lemma_vertex_of_index(self.vertices@, i as int); }
                    let here: u128 = (self.vertices[i].height as u128) + 1;
                    if best < here {
                        best = here;
                    }
                },
                None => {},
            }
            j = j + 1;
        }
        proof { assert(parents@.subrange(0, parents@.len() as int) =~= parents@); }
        best
    }

    /// Adds a vertex, reading the clock for the timestamp check: the
    /// outcome is that of `add_vertex_at` at the time read.
    pub fn add_vertex(&mut self, vertex: Vertex) -> (r: Result<(), NexusError>)
        requires old(self).wf(),
        ensures
            final(self).wf(),
            exists|now_ms: u64| #[trigger] add_step(old(self)@, vertex, now_ms, final(self)@, r),
    {
        let now_ms: u64 = (crate::primitives::clock::unix_time_nanos() / 1_000_000) as u64;
        let ghost v = vertex;
        let r = self.add_vertex_at(vertex, now_ms);
        assert(add_step(old(self)@, v, now_ms, self@, r));
        r
    }

    /// Adds a vertex at time `now_ms`. A vertex already in the graph is
    /// accepted as it is. Otherwise its structure and timestamp are checked;
    /// one with a parent not in the graph waits; one whose parents are all
    /// present joins the graph if its height is right, and then completes
    /// the vertices that waited for it.
    pub fn add_vertex_at(&mut self, vertex: Vertex, now_ms: u64) -> (r: Result<(), NexusError>)
        requires old(self).wf(),
        ensures
            final(self).wf(),
            add_step(old(self)@, vertex, now_ms, final(self)@, r),
    {
        if find_in(&self.vertices, &vertex.hash).is_some() {
            return Ok(());
        }
        match vertex.verify_structure() {
            Err(e) => { return Err(NexusError::Dag(vertex_error_message(&e))); },
            Ok(()) => {},
        }
        match self.verify_timestamp_at(&vertex, now_ms) {
            Err(e) => { return Err(e); },
            Ok(()) => {},
        }
        if self.first_missing_parent(&vertex) {
            let h = vertex.hash;
            self.put_pending(vertex);
            self.set_status(h, VertexStatus::AwaitingParents);
            return Ok(());
        }
        self.insert_vertex(vertex)
    }

    fn put_pending(&mut self, v: Vertex)
        requires old(self).wf(),
        ensures
            final(self).wf(),
            has_hash(final(self)@.pending, v.hash.0@) && vertex_of(final(self)@.pending, v.hash.0@) == v,
            forall|k: int| 0 <= k < final(self)@.pending.len() ==> (#[trigger] final(self)@.pending[k]) == v || old(self)@.pending.contains(final(self)@.pending[k]),
            final(self)@.pending.len() <= old(self)@.pending.len() + 1,
            final(self)@.vertices == old(self)@.vertices && final(self)@.status == old(self)@.status,
            final(self)@.tips == old(self)@.tips && final(self)@.finalized_height == old(self)@.finalized_height,
            final(self)@.genesis == old(self)@.genesis && final(self)@.max_time_drift == old(self)@.max_time_drift,
    {
        let ghost ps = self.pending@;
        match find_in(&self.pending, &v.hash) {
            Some(i) => {
                self.pending.set(i, v);
                proof {
                    assert forall|a: int, b: int| 0 <= a < b < self.pending@.len() implies
                        (#[trigger] self.pending@[a]).hash.0@ != (#[trigger] self.pending@[b]).hash.0@ by {
                        assert(ps[a].hash.0@ != ps[b].hash.0@);
                    }
                    lemma_vertex_of_index(self.pending@, i as int);
                    assert forall|k: int| 0 <= k < self.pending@.len() implies (#[trigger] self.pending@[k]) == v || ps.contains(self.pending@[k]) by {
                        if k != i { assert(self.pending@[k] == ps[k]); }
                    }
                }
            },
            None => {
                self.pending.push(v);
                proof {
                    assert forall|a: int, b: int| 0 <= a < b < self.pending@.len() implies
                        (#[trigger] self.pending@[a]).hash.0@ != (#[trigger] self.pending@[b]).hash.0@ by {
                        if b == ps.len() { assert(ps[a] == self.pending@[a]); }
                    }
                    lemma_vertex_of_index(self.pending@, ps.len() as int);
                    assert forall|k: int| 0 <= k < self.pending@.len() implies (#[trigger] self.pending@[k]) == v || ps.contains(self.pending@[k]) by {
                        if k < ps.len() { assert(self.pending@[k] == ps[k]); }
                    }
                }
            },
        }
    }

    /// Adds a vertex whose parents are all present: the height is checked,
    /// the vertex joins, and the vertices that waited for it follow.
    fn insert_vertex(&mut self, vertex: Vertex) -> (r: Result<(), NexusError>)
        requires
            old(self).wf(),
            !has_hash(old(self)@.vertices, vertex.hash.0@),
        ensures
            final(self).wf(),
            vertex.height != expected_height(old(self)@.vertices, vertex.parents@)
                ==> (r matches Err(NexusError::Dag(_)) && final(self)@ == old(self)@),
            vertex.height == expected_height(old(self)@.vertices, vertex.parents@)
                ==> exists|mid: DagView| inserted_one(old(self)@, mid, vertex) && cascaded(mid, final(self)@),
        decreases old(self)@.pending.len(), 1int,
    {
        let expected = self.expected_height_exec(&vertex.parents);
        if (vertex.height as u128) != expected {
            let e: u64 = if expected > u64::MAX as u128 { u64::MAX } else { expected as u64 };
            return Err(NexusError::Dag(height_message(e, vertex.height)));
        }
        let hash = vertex.hash;
        let parents = vertex.parents.clone();
        let ghost a = self@;
        let ghost vs = self.vertices@;
        self.vertices.push(vertex);
        proof {
            assert forall|x: int, y: int| 0 <= x < y < self.vertices@.len() implies
                (#[trigger] self.vertices@[x]).hash.0@ != (#[trigger] self.vertices@[y]).hash.0@ by {
                if y == vs.len() {
                    assert(vs[x] == self.vertices@[x]);
                    assert(vs[x].hash.0@ != vertex.hash.0@);
                }
            }
        }
        self.set_status(hash, VertexStatus::Confirmed);
        let ghost t0 = self@.tips;
        let mut j: usize = 0;
        while j < parents.len()
            invariant
                self.wf(),
                j <= parents@.len(),
                parents@ == vertex.parents@,
                self@.vertices == a.vertices.push(vertex),
                status_set(a.status, vertex.hash.0@, VertexStatus::Confirmed, self@.status),
                self@.pending == a.pending && self@.finalized_height == a.finalized_height,
                self@.genesis == a.genesis && self@.max_time_drift == a.max_time_drift,
                t0 == a.tips,
                forall|x: Seq<u8>| #[trigger] has_tip(self@.tips, x) <==> (has_tip(t0, x) && !in_prefix(parents@, j as int, x)),
            decreases parents@.len() - j,
        {
            let ghost prev = self@.tips;
            self.remove_tip(parents[j]);
            proof {
                assert forall|x: Seq<u8>| has_tip(self@.tips, x) <==> (has_tip(t0, x) && !in_prefix(parents@, j + 1, x)) by {
                    assert(has_tip(self@.tips, x) == (has_tip(prev, x) && x != parents@[j as int].0@));
                    assert(has_tip(prev, x) == (has_tip(t0, x) && !in_prefix(parents@, j as int, x)));
                    if in_prefix(parents@, j + 1, x) {
                        let k = choose|k: int| 0 <= k < j + 1 && (#[trigger] parents@[k]).0@ == x;
                        if k < j { assert(in_prefix(parents@, j as int, x)); }
                    }
                    if in_prefix(parents@, j as int, x) {
                        let k = choose|k: int| 0 <= k < j && (#[trigger] parents@[k]).0@ == x;
                        assert(0 <= k < j + 1 && parents@[k].0@ == x);
                    }
                    if x == parents@[j as int].0@ {
                        assert(0 <= j < j + 1 && parents@[j as int].0@ == x);
                    }
                }
            }
            j = j + 1;
        }
        self.add_tip(hash);
        proof {
            let mid = self@;
            assert forall|x: Seq<u8>| has_tip(mid.tips, x) <==> ((has_tip(a.tips, x) && !has_parent(vertex, x)) || x == vertex.hash.0@) by {
                assert(has_parent(vertex, x) == in_prefix(parents@, parents@.len() as int, x));
            }
            assert(inserted_one(a, mid, vertex));
        }
        let ghost mid = self@;
        let r = self.process_orphans(&hash);
        proof {
            assert(cascaded(mid, self@));
        }
        r
    }

    /// Inserts the waiting vertices that named `new_parent` and now have
    /// every parent present; the others keep waiting.
    fn process_orphans(&mut self, new_parent: &VHash) -> (r: Result<(), NexusError>)
        requires old(self).wf(),
        ensures
            final(self).wf(),
            cascaded(old(self)@, final(self)@),
        decreases old(self)@.pending.len(), 0int,
    {
        let ghost start = self@;
        let mut waiting: Vec<VHash> = Vec::new();
        let mut i: usize = 0;
        while i < self.pending.len()
            invariant i <= self.pending@.len(),
            decreases self.pending@.len() - i,
        {
            let mut j: usize = 0;
            let mut found = false;
            while j < self.pending[i].parents.len()
                invariant i < self.pending@.len(), j <= self.pending@[i as int].parents@.len(),
                decreases self.pending@[i as int].parents@.len() - j,
            {
                if self.pending[i].parents[j] == *new_parent {
                    found = true;
                }
                j = j + 1;
            }
            if found {
                waiting.push(self.pending[i].hash);
            }
            i = i + 1;
        }
        proof {
            assert(self@.vertices.subrange(0, start.vertices.len() as int) =~= start.vertices);
        }
        let mut k: usize = 0;
        while k < waiting.len()
            invariant
                self.wf(),
                start == old(self)@,
                k <= waiting@.len(),
                cascaded(start, self@),
            decreases waiting@.len() - k,
        {
            match self.find_pending(&waiting[k]) {
                Some(idx) => {
                    let ghost before = self@;
                    let v = self.pending.remove(idx);
                    proof {
                        let ps = before.pending;
                        assert(self.pending@ =~= ps.subrange(0, idx as int) + ps.subrange(idx + 1, ps.len() as int));
                        assert(start.pending.contains(v)) by {
                            assert(ps[idx as int] == v);
                            assert(start.pending.contains(ps[idx as int]));
                        }
                        assert forall|a: int, b: int| 0 <= a < b < self.pending@.len() implies
                            (#[trigger] self.pending@[a]).hash.0@ != (#[trigger] self.pending@[b]).hash.0@ by {
                            let oa = if a < idx { a } else { a + 1 };
                            let ob = if b < idx { b } else { b + 1 };
                            assert(self.pending@[a] == ps[oa] && self.pending@[b] == ps[ob]);
                        }
                        assert forall|q: int| 0 <= q < self.pending@.len() implies start.pending.contains(#[trigger] self.pending@[q]) by {
                            let oq = if q < idx { q } else { q + 1 };
                            assert(self.pending@[q] == ps[oq]);
                            assert(start.pending.contains(ps[oq]));
                        }
                        assert(self@.vertices == before.vertices);
                        assert(cascaded(start, self@));
                    }
                    if !self.first_missing_parent(&v) && find_in(&self.vertices, &v.hash).is_none() {
                        let ghost pre = self@;
                        let res = self.insert_vertex(v);
                        proof {
                            if v.height == expected_height(pre.vertices, v.parents@) {
                                let m = choose|m: DagView| inserted_one(pre, m, v) && cascaded(m, self@);
                                lemma_cascade_step(start, pre, m, self@, v);
                            }
                        }
                        match res {
                            Err(e) => { return Err(e); },
                            Ok(()) => {},
                        }
                    } else {
                        let ghost pre = self@;
                        self.put_pending(v);
                        proof {
                            assert forall|q: int| 0 <= q < self@.pending.len() implies start.pending.contains(#[trigger] self@.pending[q]) by {
                                if self@.pending[q] != v {
                                    let w = choose|w: int| 0 <= w < pre.pending.len() && pre.pending[w] == self@.pending[q];
                                    assert(start.pending.contains(pre.pending[w]));
                                }
                            }
                            assert(self@.vertices.subrange(0, start.vertices.len() as int) =~= start.vertices) by {
                                assert(self@.vertices == pre.vertices);
                            }
                        }
                    }
                },
                None => {},
            }
            k = k + 1;
        }
        Ok(())
    }
}


/// The number of set flags.
pub open spec fn count_true(s: Seq<bool>) -> nat
    decreases s.len(),
{
    if s.len() == 0 { 0 } else { count_true(s.drop_last()) + if s.last() { 1nat } else { 0nat } }
}

pub proof fn lemma_count_true_bound(s: Seq<bool>)
    ensures count_true(s) <= s.len(),
    decreases s.len(),
{
    if s.len() > 0 { lemma_count_true_bound(s.drop_last()); }
}

pub proof fn lemma_count_true_set(s: Seq<bool>, i: int)
    requires 0 <= i < s.len(), !s[i],
    ensures count_true(s.update(i, true)) == count_true(s) + 1,
    decreases s.len(),
{
    let u = s.update(i, true);
    if i == s.len() - 1 {
        assert(u.drop_last() =~= s.drop_last());
    } else {
        assert(u.drop_last() =~= s.drop_last().update(i, true));
        lemma_count_true_set(s.drop_last(), i);
    }
}

proof fn lemma_path_extend(vs: Seq<Vertex>, path: Seq<Seq<u8>>, p: Seq<u8>)
    requires is_path(vs, path), parent_edge(vs, path.last(), p),
    ensures is_path(vs, path.push(p)), path.push(p)[0] == path[0], path.push(p).last() == p,
{
    let q = path.push(p);
    assert forall|i: int| 0 <= i < q.len() - 1 implies parent_edge(vs, #[trigger] q[i], q[i + 1]) by {
        if i < path.len() - 1 {
            assert(q[i] == path[i] && q[i + 1] == path[i + 1]);
        } else {
            assert(q[i] == path.last() && q[i + 1] == p);
        }
    }
}

/// The hashes in the queue that came out of it already do not include `a`,
/// each vertex flagged visited left the queue with all its parents queued,
/// and each vertex that left the queue is flagged.
pub open spec fn search_closed(vs: Seq<Vertex>, q: Seq<VHash>, k: int, vis: Seq<bool>) -> bool {
    &&& forall|i: int| 0 <= i < vs.len() && #[trigger] vis[i] ==>
            forall|j: int| 0 <= j < vs[i].parents@.len() ==> in_prefix(q, q.len() as int, (#[trigger] vs[i].parents@[j]).0@)
    &&& forall|t: int, i: int| 0 <= t < k && 0 <= i < vs.len() && (#[trigger] vs[i]).hash.0@ == (#[trigger] q[t]).0@ ==> vis[i]
}

proof fn lemma_search_complete(vs: Seq<Vertex>, q: Seq<VHash>, vis: Seq<bool>, path: Seq<Seq<u8>>, m: int)
    requires
        unique_hashes(vs),
        vis.len() == vs.len(),
        search_closed(vs, q, q.len() as int, vis),
        is_path(vs, path),
        in_prefix(q, q.len() as int, path[0]),
        0 <= m < path.len(),
    ensures in_prefix(q, q.len() as int, path[m]),
    decreases m,
{
    if m > 0 {
        lemma_search_complete(vs, q, vis, path, m - 1);
        let x = path[m - 1];
        assert(parent_edge(vs, path[m - 1], path[m]));
        let t = choose|t: int| 0 <= t < q.len() && (#[trigger] q[t]).0@ == x;
        let i = choose|i: int| 0 <= i < vs.len() && (#[trigger] vs[i]).hash.0@ == x;
        lemma_vertex_of_index(vs, i);
        assert(vis[i]);
        let j = choose|j: int| 0 <= j < vs[i].parents@.len() && (#[trigger] vs[i].parents@[j]).0@ == path[m];
        assert(in_prefix(q, q.len() as int, vs[i].parents@[j].0@));
    }
}

impl Dag {
    /// The current tips.
    pub fn get_tips(&self) -> (r: Vec<VHash>)
        ensures r@ == self@.tips,
    {
        let mut out: Vec<VHash> = Vec::new();
        let mut i: usize = 0;
        while i < self.tips.len()
            invariant i <= self.tips@.len(), out@ == self.tips@.subrange(0, i as int),
            decreases self.tips@.len() - i,
        {
            out.push(self.tips[i]);
            proof { assert(out@ =~= self.tips@.subrange(0, i + 1)); }
            i = i + 1;
        }
        proof { assert(self.tips@.subrange(0, i as int) =~= self.tips@); }
        out
    }

    /// The vertex with a hash, if it is in the graph.
    pub fn get_vertex(&self, hash: &VHash) -> (r: Option<&Vertex>)
        requires self.wf(),
        ensures
            match r {
                Some(v) => has_hash(self@.vertices, hash.0@) && *v == vertex_of(self@.vertices, hash.0@),
                None => !has_hash(self@.vertices, hash.0@),
            },
    {
        match find_in(&self.vertices, hash) {
            Some(i) => {
                proof { lemma_vertex_of_index(self.vertices@, i as int); }
                Some(&self.vertices[i])
            },
            None => None,
        }
    }

    /// The recorded status of a hash.
    pub fn get_status(&self, hash: &VHash) -> (r: Option<VertexStatus>)
        ensures r == status_of(self@.status, hash.0@),
    {
        let mut i: usize = self.status.len();
        assert(self.status@.subrange(0, i as int) =~= self.status@);
        while i > 0
            invariant
                i <= self.status@.len(),
                status_of(self.status@, hash.0@) == status_of(self.status@.subrange(0, i as int), hash.0@),
            decreases i,
        {
            let sub = Ghost(self.status@.subrange(0, i as int));
            assert(sub@.last() == self.status@[i - 1]);
            if self.status[i - 1].0 == *hash {
                return Some(self.status[i - 1].1);
            }
            assert(sub@.drop_last() =~= self.status@.subrange(0, i - 1));
            i = i - 1;
        }
        None
    }

    /// The hashes of the vertices at a height, in insertion order.
    pub fn get_vertices_at_height(&self, height: u64) -> (r: Vec<VHash>)
        ensures
            forall|x: Seq<u8>| in_prefix(r@, r@.len() as int, x) <==>
                exists|i: int| 0 <= i < self@.vertices.len() && (#[trigger] self@.vertices[i]).height == height && self@.vertices[i].hash.0@ == x,
    {
        let mut out: Vec<VHash> = Vec::new();
        let mut i: usize = 0;
        while i < self.vertices.len()
            invariant
                i <= self.vertices@.len(),
                forall|x: Seq<u8>| in_prefix(out@, out@.len() as int, x) <==>
                    exists|k: int| 0 <= k < i && (#[trigger] self@.vertices[k]).height == height && self@.vertices[k].hash.0@ == x,
            decreases self.vertices@.len() - i,
        {
            let ghost o = out@;
            if self.vertices[i].height == height {
                out.push(self.vertices[i].hash);
            }
            proof {
                assert forall|x: Seq<u8>| in_prefix(out@, out@.len() as int, x) <==>
                    exists|k: int| 0 <= k < i + 1 && (#[trigger] self@.vertices[k]).height == height && self@.vertices[k].hash.0@ == x by {
                    if in_prefix(out@, out@.len() as int, x) {
                        let t = choose|t: int| 0 <= t < out@.len() && (#[trigger] out@[t]).0@ == x;
                        if t < o.len() {
                            assert(out@[t] == o[t]);
                            assert(in_prefix(o, o.len() as int, x));
                        } else {
                            assert(0 <= i < i + 1 && self@.vertices[i as int].height == height);
                        }
                    }
                    if exists|k: int| 0 <= k < i + 1 && (#[trigger] self@.vertices[k]).height == height && self@.vertices[k].hash.0@ == x {
                        let k = choose|k: int| 0 <= k < i + 1 && (#[trigger] self@.vertices[k]).height == height && self@.vertices[k].hash.0@ == x;
                        if k < i {
                            assert(in_prefix(o, o.len() as int, x));
                            let t = choose|t: int| 0 <= t < o.len() && (#[trigger] o[t]).0@ == x;
                            assert(out@[t] == o[t]);
                        } else {
                            assert(out@[o.len() as int].0@ == x);
                        }
                    }
                }
            }
            i = i + 1;
        }
        out
    }

    /// The hashes of the vertices that name `hash` as a parent.
    pub fn get_children(&self, hash: &VHash) -> (r: Vec<VHash>)
        ensures
            forall|x: Seq<u8>| in_prefix(r@, r@.len() as int, x) <==>
                exists|i: int| 0 <= i < self@.vertices.len() && has_parent(#[trigger] self@.vertices[i], hash.0@) && self@.vertices[i].hash.0@ == x,
    {
        let mut out: Vec<VHash> = Vec::new();
        let mut i: usize = 0;
        while i < self.vertices.len()
            invariant
                i <= self.vertices@.len(),
                forall|x: Seq<u8>| in_prefix(out@, out@.len() as int, x) <==>
                    exists|k: int| 0 <= k < i && has_parent(#[trigger] self@.vertices[k], hash.0@) && self@.vertices[k].hash.0@ == x,
            decreases self.vertices@.len() - i,
        {
            let ghost o = out@;
            let v = &self.vertices[i];
            let mut j: usize = 0;
            let mut named = false;
            while j < v.parents.len()
                invariant
                    j <= v.parents@.len(),
                    named == in_prefix(v.parents@, j as int, hash.0@),
                decreases v.parents@.len() - j,
            {
                if v.parents[j] == *hash {
                    named = true;
                }
                proof {
                    if in_prefix(v.parents@, j + 1, hash.0@) && !in_prefix(v.parents@, j as int, hash.0@) {
                        let k = choose|k: int| 0 <= k < j + 1 && (#[trigger] v.parents@[k]).0@ == hash.0@;
                        assert(k == j);
                    }
                    if in_prefix(v.parents@, j as int, hash.0@) {
                        let k = choose|k: int| 0 <= k < j && (#[trigger] v.parents@[k]).0@ == hash.0@;
                        assert(0 <= k < j + 1);
                    }
                    if v.parents@[j as int].0@ == hash.0@ {
                        assert(0 <= j < j + 1 && v.parents@[j as int].0@ == hash.0@);
                    }
                }
                j = j + 1;
            }
            proof { assert(named == has_parent(*v, hash.0@)); }
            if named {
                out.push(v.hash);
            }
            proof {
                assert forall|x: Seq<u8>| in_prefix(out@, out@.len() as int, x) <==>
                    exists|k: int| 0 <= k < i + 1 && has_parent(#[trigger] self@.vertices[k], hash.0@) && self@.vertices[k].hash.0@ == x by {
                    if in_prefix(out@, out@.len() as int, x) {
                        let t = choose|t: int| 0 <= t < out@.len() && (#[trigger] out@[t]).0@ == x;
                        if t < o.len() {
                            assert(out@[t] == o[t]);
                            assert(in_prefix(o, o.len() as int, x));
                        } else {
                            assert(0 <= i < i + 1 && has_parent(self@.vertices[i as int], hash.0@));
                        }
                    }
                    if exists|k: int| 0 <= k < i + 1 && has_parent(#[trigger] self@.vertices[k], hash.0@) && self@.vertices[k].hash.0@ == x {
                        let k = choose|k: int| 0 <= k < i + 1 && has_parent(#[trigger] self@.vertices[k], hash.0@) && self@.vertices[k].hash.0@ == x;
                        if k < i {
                            assert(in_prefix(o, o.len() as int, x));
                            let t = choose|t: int| 0 <= t < o.len() && (#[trigger] o[t]).0@ == x;
                            assert(out@[t] == o[t]);
                        } else {
                            assert(out@[o.len() as int].0@ == x);
                        }
                    }
                }
            }
            i = i + 1;
        }
        out
    }

    /// The finalized height.
    pub fn finalized_height(&self) -> (r: u64)
        ensures r == self@.finalized_height,
    {
        self.finalized_height
    }

    /// The highest height among the tips in the graph, 0 when none is.
    pub fn latest_height(&self) -> (r: u64)
        requires self.wf(),
        ensures r == latest_height_spec(self@.vertices, self@.tips),
    {
        let mut best: u64 = 0;
        let mut i: usize = 0;
        assert(self.tips@.subrange(0, 0) =~= Seq::<VHash>::empty());
        while i < self.tips.len()
            invariant
                self.wf(),
                i <= self.tips@.len(),
                best == latest_height_spec(self@.vertices, self.tips@.subrange(0, i as int)),
            decreases self.tips@.len() - i,
        {
            assert(self.tips@.subrange(0, i + 1).drop_last() =~= self.tips@.subrange(0, i as int));
            match find_in(&self.vertices, &self.tips[i]) {
                Some(k) => {
                    proof { lemma_vertex_of_index(self.vertices@, k as int); }
                    if self.vertices[k].height > best {
                        best = self.vertices[k].height;
                    }
                },
                None => {},
            }
            i = i + 1;
        }
        assert(self.tips@.subrange(0, i as int) =~= self.tips@);
        best
    }

    /// Raises the finalized height and marks the vertices at the new height
    /// finalized; a lower or equal height changes nothing.
    pub fn set_finalized_height(&mut self, height: u64)
        requires old(self).wf(),
        ensures
            final(self).wf(),
            height <= old(self)@.finalized_height ==> final(self)@ == old(self)@,
            height > old(self)@.finalized_height ==> final(self)@.finalized_height == height,
            height > old(self)@.finalized_height ==> forall|h: Seq<u8>| #[trigger] status_of(final(self)@.status, h) ==
                if (exists|i: int| 0 <= i < old(self)@.vertices.len() && (#[trigger] old(self)@.vertices[i]).height == height && old(self)@.vertices[i].hash.0@ == h) {
                    Some(VertexStatus::Finalized)
                } else {
                    status_of(old(self)@.status, h)
                },
            final(self)@.vertices == old(self)@.vertices && final(self)@.tips == old(self)@.tips,
            final(self)@.pending == old(self)@.pending && final(self)@.genesis == old(self)@.genesis,
            final(self)@.finalized_height >= old(self)@.finalized_height,
    {
        if height <= self.finalized_height {
            return;
        }
        self.finalized_height = height;
        let ghost st0 = self@.status;
        let mut i: usize = 0;
        while i < self.vertices.len()
            invariant
                self.wf(),
                i <= self.vertices@.len(),
                self@.vertices == old(self)@.vertices && self@.tips == old(self)@.tips,
                self@.pending == old(self)@.pending && self@.genesis == old(self)@.genesis,
                self@.finalized_height == height,
                st0 == old(self)@.status,
                forall|h: Seq<u8>| #[trigger] status_of(self@.status, h) ==
                    if (exists|k: int| 0 <= k < i && (#[trigger] self@.vertices[k]).height == height && self@.vertices[k].hash.0@ == h) {
                        Some(VertexStatus::Finalized)
                    } else {
                        status_of(st0, h)
                    },
            decreases self.vertices@.len() - i,
        {
            if self.vertices[i].height == height {
                let h = self.vertices[i].hash;
                let ghost prev = self@.status;
                self.set_status(h, VertexStatus::Finalized);
                proof {
                    assert forall|x: Seq<u8>| #[trigger] status_of(self@.status, x) ==
                        if (exists|k: int| 0 <= k < i + 1 && (#[trigger] self@.vertices[k]).height == height && self@.vertices[k].hash.0@ == x) {
                            Some(VertexStatus::Finalized)
                        } else {
                            status_of(st0, x)
                        } by {
                        if x == h.0@ {
                            assert(0 <= i < i + 1 && self@.vertices[i as int].height == height);
                        } else {
                            assert(status_of(self@.status, x) == status_of(prev, x));
                            if exists|k: int| 0 <= k < i + 1 && (#[trigger] self@.vertices[k]).height == height && self@.vertices[k].hash.0@ == x {
                                let k = choose|k: int| 0 <= k < i + 1 && (#[trigger] self@.vertices[k]).height == height && self@.vertices[k].hash.0@ == x;
                                assert(k != i);
                            }
                            if exists|k: int| 0 <= k < i && (#[trigger] self@.vertices[k]).height == height && self@.vertices[k].hash.0@ == x {
                                let k = choose|k: int| 0 <= k < i && (#[trigger] self@.vertices[k]).height == height && self@.vertices[k].hash.0@ == x;
                                assert(0 <= k < i + 1);
                            }
                        }
                    }
                }
            } else {
                proof {
                    assert forall|x: Seq<u8>| #[trigger] status_of(self@.status, x) ==
                        if (exists|k: int| 0 <= k < i + 1 && (#[trigger] self@.vertices[k]).height == height && self@.vertices[k].hash.0@ == x) {
                            Some(VertexStatus::Finalized)
                        } else {
                            status_of(st0, x)
                        } by {
                        if exists|k: int| 0 <= k < i + 1 && (#[trigger] self@.vertices[k]).height == height && self@.vertices[k].hash.0@ == x {
                            let k = choose|k: int| 0 <= k < i + 1 && (#[trigger] self@.vertices[k]).height == height && self@.vertices[k].hash.0@ == x;
                            assert(k != i);
                            assert(0 <= k < i);
                        }
                    }
                }
            }
            i = i + 1;
        }
    }

    /// `ancestor` is `descendant` or one of its ancestors (searched
    /// breadth-first along parents).
    pub fn is_ancestor(&self, ancestor: &VHash, descendant: &VHash) -> (r: bool)
        requires self.wf(),
        ensures r == reaches(self@.vertices, descendant.0@, ancestor.0@),
    {
        let ghost vs = self.vertices@;
        let n: usize = self.vertices.len();
        let mut vis: Vec<bool> = Vec::new();
        let mut z: usize = 0;
        while z < n
            invariant z <= n, vis@.len() == z, forall|i: int| 0 <= i < z ==> !vis@[i],
            decreases n - z,
        {
            vis.push(false);
            z = z + 1;
        }
        proof {
            assert(count_true(vis@) == 0) by {
                lemma_count_zero(vis@);
            }
        }
        let mut q: Vec<VHash> = Vec::new();
        q.push(*descendant);
        let mut k: usize = 0;
        let mut seen: usize = 0;
        proof {
            let p0 = seq![descendant.0@];
            assert(is_path(vs, p0));
            assert(p0[0] == descendant.0@ && p0.last() == descendant.0@);
            assert(q@[0] == *descendant);
        }
        while k < q.len()
            invariant
                self.wf(),
                vs == self.vertices@,
                n == vs.len(),
                vis@.len() == n,
                seen == count_true(vis@),
                seen <= n,
                k <= q@.len(),
                q@.len() >= 1,
                q@[0].0@ == descendant.0@,
                forall|t: int| 0 <= t < q@.len() ==> reaches(vs, descendant.0@, (#[trigger] q@[t]).0@),
                forall|t: int| 0 <= t < k ==> (#[trigger] q@[t]).0@ != ancestor.0@,
                search_closed(vs, q@, k as int, vis@),
            decreases n - seen, q@.len() - k,
        {
            let x = q[k];
            if x == *ancestor {
                proof { assert(reaches(vs, descendant.0@, q@[k as int].0@)); }
                return true;
            }
            match find_in(&self.vertices, &x) {
                None => {
                    proof {
                        assert forall|t: int, i: int| 0 <= t < k + 1 && 0 <= i < vs.len() && (#[trigger] vs[i]).hash.0@ == (#[trigger] q@[t]).0@ implies vis@[i] by {
                            if t == k { assert(vs[i].hash.0@ == x.0@); }
                        }
                    }
                    k = k + 1;
                },
                Some(i) => {
                    if vis[i] {
                        proof {
                            assert forall|t: int, i2: int| 0 <= t < k + 1 && 0 <= i2 < vs.len() && (#[trigger] vs[i2]).hash.0@ == (#[trigger] q@[t]).0@ implies vis@[i2] by {
                                if t == k {
                                    if i2 != i {
                                        if i2 < i { assert(vs[i2].hash.0@ != vs[i as int].hash.0@); } else { assert(vs[i as int].hash.0@ != vs[i2].hash.0@); }
                                    }
                                }
                            }
                        }
                        k = k + 1;
                    } else {
                        let ghost vis0 = vis@;
                        let ghost q0 = q@;
                        proof {
                            lemma_count_true_set(vis@, i as int);
                            lemma_count_true_bound(vis@.update(i as int, true));
                        }
                        vis.set(i, true);
                        seen = seen + 1;
                        let v = &self.vertices[i];
                        proof { lemma_vertex_of_index(vs, i as int); }
                        let mut j: usize = 0;
                        while j < v.parents.len()
                            invariant
                                j <= v.parents@.len(),
                                *v == vs[i as int],
                                k < q0.len(),
                                q0[k as int] == x,
                                vs[i as int].hash.0@ == x.0@,
                                q@.len() == q0.len() + j,
                                q@.subrange(0, q0.len() as int) == q0,
                                forall|t: int| 0 <= t < j ==> (#[trigger] q@[q0.len() + t]) == v.parents@[t],
                                forall|t: int| 0 <= t < q@.len() ==> reaches(vs, descendant.0@, (#[trigger] q@[t]).0@),
                                unique_hashes(vs),
                                i < vs.len(),
                            decreases v.parents@.len() - j,
                        {
                            let p = v.parents[j];
                            proof {
                                assert(reaches(vs, descendant.0@, q@[k as int].0@)) by {
                                    assert(q@[k as int] == q0[k as int]);
                                }
                                let path = choose|path: Seq<Seq<u8>>| is_path(vs, path) && path[0] == descendant.0@ && path.last() == q@[k as int].0@;
                                assert(q0[k as int] == x);
                                assert(parent_edge(vs, path.last(), p.0@)) by {
                                    assert(vs[i as int].hash.0@ == x.0@);
                                    assert(0 <= j < v.parents@.len() && v.parents@[j as int].0@ == p.0@);
                                }
                                lemma_path_extend(vs, path, p.0@);
                            }
                            q.push(p);
                            proof {
                                assert forall|t: int| 0 <= t < q@.len() implies reaches(vs, descendant.0@, (#[trigger] q@[t]).0@) by {
                                    if t < q@.len() - 1 {
                                        assert(q@[t] == q@.drop_last()[t]);
                                    } else {
                                        let path = choose|path: Seq<Seq<u8>>| is_path(vs, path) && path[0] == descendant.0@ && path.last() == q0[k as int].0@;
                                        lemma_path_extend(vs, path, p.0@);
                                        assert(is_path(vs, path.push(p.0@)) && path.push(p.0@)[0] == descendant.0@ && path.push(p.0@).last() == q@[t].0@);
                                    }
                                }
                                assert(q@.subrange(0, q0.len() as int) =~= q0);
                            }
                            j = j + 1;
                        }
                        proof {
                            assert forall|ii: int| 0 <= ii < vs.len() && #[trigger] vis@[ii] implies
                                forall|jj: int| 0 <= jj < vs[ii].parents@.len() ==> in_prefix(q@, q@.len() as int, (#[trigger] vs[ii].parents@[jj]).0@) by {
                                if ii == i {
                                    assert forall|jj: int| 0 <= jj < vs[ii].parents@.len() implies in_prefix(q@, q@.len() as int, (#[trigger] vs[ii].parents@[jj]).0@) by {
                                        assert(q@[q0.len() + jj] == v.parents@[jj]);
                                    }
                                } else {
                                    assert(vis0[ii]);
                                    assert forall|jj: int| 0 <= jj < vs[ii].parents@.len() implies in_prefix(q@, q@.len() as int, (#[trigger] vs[ii].parents@[jj]).0@) by {
                                        assert(in_prefix(q0, q0.len() as int, vs[ii].parents@[jj].0@));
                                        let t = choose|t: int| 0 <= t < q0.len() && (#[trigger] q0[t]).0@ == vs[ii].parents@[jj].0@;
                                        assert(q@[t] == q0[t]);
                                    }
                                }
                            }
                            assert forall|t: int, i2: int| 0 <= t < k + 1 && 0 <= i2 < vs.len() && (#[trigger] vs[i2]).hash.0@ == (#[trigger] q@[t]).0@ implies vis@[i2] by {
                                assert(q@[t] == q0[t]);
                                if t == k {
                                    if i2 != i {
                                        if i2 < i { assert(vs[i2].hash.0@ != vs[i as int].hash.0@); } else { assert(vs[i as int].hash.0@ != vs[i2].hash.0@); }
                                    }
                                } else {
                                    assert(vis0[i2]);
                                }
                            }
                            assert forall|t: int| 0 <= t < k + 1 implies (#[trigger] q@[t]).0@ != ancestor.0@ by {
                                assert(q@[t] == q0[t]);
                            }
                            assert(q@[0] == q0[0]);
                        }
                        k = k + 1;
                    }
                },
            }
        }
        proof {
            if reaches(vs, descendant.0@, ancestor.0@) {
                let path = choose|path: Seq<Seq<u8>>| is_path(vs, path) && path[0] == descendant.0@ && path.last() == ancestor.0@;
                assert(in_prefix(q@, q@.len() as int, path[0])) by { assert(q@[0].0@ == path[0]); }
                lemma_search_complete(vs, q@, vis@, path, path.len() - 1);
                let t = choose|t: int| 0 <= t < q@.len() && (#[trigger] q@[t]).0@ == path[path.len() - 1];
                assert(q@[t].0@ != ancestor.0@);
            }
        }
        false
    }

    /// Counts of the DAG.
    pub fn stats(&self) -> (r: DagStats)
        requires self.wf(),
        ensures
            r.total_vertices == self@.vertices.len() && r.tips_count == self@.tips.len(),
            r.pending_count == self@.pending.len() && r.finalized_height == self@.finalized_height,
            r.latest_height == latest_height_spec(self@.vertices, self@.tips),
    {
        DagStats {
            total_vertices: self.vertices.len(),
            tips_count: self.tips.len(),
            pending_count: self.pending.len(),
            latest_height: self.latest_height(),
            finalized_height: self.finalized_height,
        }
    }
}


/// The vertices at or above height `keep`, in order.
pub open spec fn kept_vertices(vs: Seq<Vertex>, keep: u64) -> Seq<Vertex>
    decreases vs.len(),
{
    if vs.len() == 0 {
        vs
    } else {
        let r = kept_vertices(vs.drop_last(), keep);
        if vs.last().height >= keep { r.push(vs.last()) } else { r }
    }
}

/// `h` is the hash of a vertex below height `keep`.
pub open spec fn pruned_hash(vs: Seq<Vertex>, keep: u64, h: Seq<u8>) -> bool {
    exists|i: int| 0 <= i < vs.len() && (#[trigger] vs[i]).height < keep && vs[i].hash.0@ == h
}

/// The status entries whose hash is not pruned, in order.
pub open spec fn status_kept(st: Seq<(VHash, VertexStatus)>, vs: Seq<Vertex>, keep: u64) -> Seq<(VHash, VertexStatus)>
    decreases st.len(),
{
    if st.len() == 0 {
        st
    } else {
        let r = status_kept(st.drop_last(), vs, keep);
        if pruned_hash(vs, keep, st.last().0.0@) { r } else { r.push(st.last()) }
    }
}

proof fn lemma_kept_unique(vs: Seq<Vertex>, keep: u64)
    requires unique_hashes(vs),
    ensures
        unique_hashes(kept_vertices(vs, keep)),
        forall|a: int| 0 <= a < kept_vertices(vs, keep).len() ==> vs.contains(#[trigger] kept_vertices(vs, keep)[a]),
        kept_vertices(vs, keep).len() <= vs.len(),
    decreases vs.len(),
{
    if vs.len() > 0 {
        let dl = vs.drop_last();
        assert forall|a: int, b: int| 0 <= a < b < dl.len() implies (#[trigger] dl[a]).hash.0@ != (#[trigger] dl[b]).hash.0@ by {
            assert(dl[a] == vs[a] && dl[b] == vs[b]);
        }
        lemma_kept_unique(dl, keep);
        let r = kept_vertices(dl, keep);
        let k = kept_vertices(vs, keep);
        assert forall|a: int| 0 <= a < k.len() implies vs.contains(#[trigger] k[a]) by {
            if a < r.len() {
                assert(k[a] == r[a]);
                let w = choose|w: int| 0 <= w < dl.len() && dl[w] == r[a];
                assert(vs[w] == dl[w]);
            } else {
                assert(k[a] == vs.last());
                assert(vs[vs.len() - 1] == vs.last());
            }
        }
        assert forall|a: int, b: int| 0 <= a < b < k.len() implies (#[trigger] k[a]).hash.0@ != (#[trigger] k[b]).hash.0@ by {
            if b < r.len() {
                assert(k[a] == r[a] && k[b] == r[b]);
            } else {
                assert(k[a] == r[a]);
                let w = choose|w: int| 0 <= w < dl.len() && dl[w] == r[a];
                assert(vs[w] == dl[w]);
                assert(k[b] == vs[vs.len() - 1]);
                assert(vs[w].hash.0@ != vs[vs.len() - 1].hash.0@);
            }
        }
    }
}

proof fn lemma_status_kept(st: Seq<(VHash, VertexStatus)>, vs: Seq<Vertex>, keep: u64, h: Seq<u8>)
    ensures status_of(status_kept(st, vs, keep), h) == if pruned_hash(vs, keep, h) { None } else { status_of(st, h) },
    decreases st.len(),
{
    if st.len() > 0 {
        lemma_status_kept(st.drop_last(), vs, keep, h);
        let r = status_kept(st.drop_last(), vs, keep);
        if !pruned_hash(vs, keep, st.last().0.0@) {
            assert(r.push(st.last()).drop_last() =~= r);
        }
    }
}

impl Dag {
    /// Drops the vertices below height `keep_above_height`, with their
    /// status, when that height is below the finalized height; returns how
    /// many were dropped.
    pub fn prune(&mut self, keep_above_height: u64) -> (r: usize)
        requires old(self).wf(),
        ensures
            final(self).wf(),
            keep_above_height >= old(self)@.finalized_height ==> r == 0 && final(self)@ == old(self)@,
            keep_above_height < old(self)@.finalized_height ==> {
                &&& final(self)@.vertices == kept_vertices(old(self)@.vertices, keep_above_height)
                &&& r == old(self)@.vertices.len() - final(self)@.vertices.len()
                &&& forall|h: Seq<u8>| #[trigger] status_of(final(self)@.status, h)
                        == if pruned_hash(old(self)@.vertices, keep_above_height, h) { None } else { status_of(old(self)@.status, h) }
                &&& final(self)@.tips == old(self)@.tips && final(self)@.pending == old(self)@.pending
                &&& final(self)@.finalized_height == old(self)@.finalized_height && final(self)@.genesis == old(self)@.genesis
            },
    {
        if keep_above_height >= self.finalized_height {
            return 0;
        }
        let ghost vs = self.vertices@;
        let ghost st = self.status@;
        let mut kept_status: Vec<(VHash, VertexStatus)> = Vec::new();
        let mut j: usize = 0;
        assert(st.subrange(0, 0) =~= Seq::<(VHash, VertexStatus)>::empty());
        while j < self.status.len()
            invariant
                st == self.status@,
                vs == self.vertices@,
                j <= st.len(),
                kept_status@ == status_kept(st.subrange(0, j as int), vs, keep_above_height),
            decreases st.len() - j,
        {
            proof { assert(st.subrange(0, j + 1).drop_last() =~= st.subrange(0, j as int)); }
            let entry = self.status[j];
            let mut below = false;
            let mut t: usize = 0;
            while t < self.vertices.len()
                invariant
                    vs == self.vertices@,
                    t <= vs.len(),
                    below == exists|k: int| 0 <= k < t && (#[trigger] vs[k]).height < keep_above_height && vs[k].hash.0@ == entry.0.0@,
                decreases vs.len() - t,
            {
                if self.vertices[t].height < keep_above_height && self.vertices[t].hash == entry.0 {
                    below = true;
                }
                proof {
                    if exists|k: int| 0 <= k < t + 1 && (#[trigger] vs[k]).height < keep_above_height && vs[k].hash.0@ == entry.0.0@ {
                        let k = choose|k: int| 0 <= k < t + 1 && (#[trigger] vs[k]).height < keep_above_height && vs[k].hash.0@ == entry.0.0@;
                        if k < t {
                            assert(exists|k2: int| 0 <= k2 < t && (#[trigger] vs[k2]).height < keep_above_height && vs[k2].hash.0@ == entry.0.0@);
                        }
                    }
                    if exists|k: int| 0 <= k < t && (#[trigger] vs[k]).height < keep_above_height && vs[k].hash.0@ == entry.0.0@ {
                        let k = choose|k: int| 0 <= k < t && (#[trigger] vs[k]).height < keep_above_height && vs[k].hash.0@ == entry.0.0@;
                        assert(0 <= k < t + 1);
                    }
                }
                t = t + 1;
            }
            if !below {
                kept_status.push(entry);
            }
            j = j + 1;
        }
        proof {
            assert(st.subrange(0, j as int) =~= st);
            assert forall|h: Seq<u8>| #[trigger] status_of(kept_status@, h)
                == if pruned_hash(vs, keep_above_height, h) { None } else { status_of(st, h) } by {
                lemma_status_kept(st, vs, keep_above_height, h);
            }
        }
        self.status = kept_status;
        let n0: usize = self.vertices.len();
        let mut i: usize = 0;
        let ghost mut p: int = 0;
        let ghost snap = self@;
        let ghost old_pending = self.pending@;
        let ghost old_tips = self.tips@;
        assert(vs.subrange(0, 0) =~= Seq::<Vertex>::empty());
        assert(self.vertices@ =~= kept_vertices(vs.subrange(0, 0), keep_above_height) + vs.subrange(0, vs.len() as int));
        while i < self.vertices.len()
            invariant
                0 <= p <= vs.len(),
                n0 == vs.len(),
                self@.status == snap.status && self@.tips == snap.tips && self@.pending == snap.pending,
                self@.finalized_height == snap.finalized_height && self@.genesis == snap.genesis,
                self@.max_time_drift == snap.max_time_drift,
                self.pending@ == old_pending && self.tips@ == old_tips,
                i == kept_vertices(vs.subrange(0, p), keep_above_height).len(),
                self.vertices@ == kept_vertices(vs.subrange(0, p), keep_above_height) + vs.subrange(p, vs.len() as int),
            decreases vs.len() - p,
        {
            proof {
                assert(vs.subrange(0, p + 1).drop_last() =~= vs.subrange(0, p));
                assert(self.vertices@[i as int] == vs[p]);
            }
            if self.vertices[i].height < keep_above_height {
                let ghost before = self.vertices@;
                self.vertices.remove(i);
                proof {
                    assert(self.vertices@ =~= kept_vertices(vs.subrange(0, p + 1), keep_above_height) + vs.subrange(p + 1, vs.len() as int));
                }
            } else {
                proof {
                    assert(self.vertices@ =~= kept_vertices(vs.subrange(0, p + 1), keep_above_height) + vs.subrange(p + 1, vs.len() as int));
                }
                i = i + 1;
            }
            proof { p = p + 1; }
        }
        proof {
            assert(vs.subrange(p, vs.len() as int).len() == 0);
            assert(vs.subrange(0, p) =~= vs);
            assert(self.vertices@ =~= kept_vertices(vs, keep_above_height));
            lemma_kept_unique(vs, keep_above_height);
        }
        let removed: usize = n0 - self.vertices.len();
        removed
    }
}


/// `a` is a proper ancestor of `d`: reached by at least one parent edge.
pub open spec fn proper_ancestor(vs: Seq<Vertex>, d: Seq<u8>, a: Seq<u8>) -> bool {
    exists|path: Seq<Seq<u8>>| is_path(vs, path) && path.len() >= 2 && path[0] == d && path.last() == a
}

fn all_false(n: usize) -> (v: Vec<bool>)
    ensures v@.len() == n, count_true(v@) == 0, forall|i: int| 0 <= i < n ==> !v@[i],
{
    let mut vis: Vec<bool> = Vec::new();
    let mut z: usize = 0;
    while z < n
        invariant z <= n, vis@.len() == z, forall|i: int| 0 <= i < z ==> !vis@[i],
        decreases n - z,
    {
        vis.push(false);
        z = z + 1;
    }
    proof { lemma_count_zero(vis@); }
    vis
}

impl Dag {
    /// The number of vertices reached from `hash` along child edges, the
    /// vertex itself included: 0 when it is not in the graph.
    pub fn calculate_weight(&self, hash: &VHash) -> (r: u128)
        requires self.wf(),
        ensures
            r <= self@.vertices.len(),
            (r > 0) == has_hash(self@.vertices, hash.0@),
    {
        let ghost vs = self.vertices@;
        let n: usize = self.vertices.len();
        let mut vis = all_false(n);
        let mut q: Vec<VHash> = Vec::new();
        q.push(*hash);
        let mut k: usize = 0;
        let mut seen: usize = 0;
        while k < q.len()
            invariant
                self.wf(),
                vs == self.vertices@,
                n == vs.len(),
                vis@.len() == n,
                seen == count_true(vis@),
                seen <= n,
                k <= q@.len(),
                q@.len() >= 1,
                q@[0] == *hash,
                k >= 1 ==> (seen > 0) == has_hash(vs, hash.0@),
                k == 0 ==> seen == 0 && forall|i: int| 0 <= i < n ==> !vis@[i],
                !has_hash(vs, hash.0@) ==> q@.len() == 1,
            decreases n - seen, q@.len() - k,
        {
            let x = q[k];
            match find_in(&self.vertices, &x) {
                None => {
                    proof {
                        if k == 0 { assert(x == *hash); }
                    }
                },
                Some(i) => {
                    proof {
                        if k == 0 {
                            assert(x == *hash);
                            assert(vs[i as int].hash.0@ == hash.0@);
                            assert(has_hash(vs, hash.0@));
                            assert(!vis@[i as int]);
                        }
                    }
                    if !vis[i] {
                        proof {
                            lemma_count_true_set(vis@, i as int);
                            lemma_count_true_bound(vis@.update(i as int, true));
                        }
                        vis.set(i, true);
                        seen = seen + 1;
                        let children = self.get_children(&x);
                        let mut c: usize = 0;
                        let ghost q0 = q@;
                        while c < children.len()
                            invariant
                                c <= children@.len(),
                                q@.len() == q0.len() + c,
                                q@[0] == q0[0],
                                q0.len() >= 1,
                            decreases children@.len() - c,
                        {
                            q.push(children[c]);
                            c = c + 1;
                        }
                    }
                },
            }
            k = k + 1;
        }
        seen as u128
    }

    /// Ancestors of a vertex up to `max_depth` parent steps, nearest first
    /// (searched breadth-first), each once.
    #[verifier::rlimit(40)]
    pub fn get_ancestors(&self, hash: &VHash, max_depth: usize) -> (r: Vec<VHash>)
        requires self.wf(), self@.vertices.len() + 2 <= usize::MAX,
        ensures
            forall|a: int| 0 <= a < r@.len() ==> proper_ancestor(self@.vertices, hash.0@, (#[trigger] r@[a]).0@),
            forall|a: int, b: int| 0 <= a < b < r@.len() ==> (#[trigger] r@[a]).0@ != (#[trigger] r@[b]).0@,
            max_depth >= 1 ==> forall|p: Seq<u8>| #[trigger] parent_edge(self@.vertices, hash.0@, p) ==> in_prefix(r@, r@.len() as int, p),
            max_depth > self@.vertices.len() ==> forall|x: Seq<u8>| #[trigger] proper_ancestor(self@.vertices, hash.0@, x) ==> in_prefix(r@, r@.len() as int, x),
    {
        let ghost vs = self.vertices@;
        let n: usize = self.vertices.len();
        let mut vis = all_false(n);
        let mut visited: Vec<VHash> = Vec::new();
        let mut q: Vec<(VHash, usize)> = Vec::new();
        match find_in(&self.vertices, hash) {
            Some(i) => {
                proof { lemma_vertex_of_index(vs, i as int); }
                let v = &self.vertices[i];
                let mut j: usize = 0;
                while j < v.parents.len()
                    invariant
                        j <= v.parents@.len(),
                        *v == vs[i as int],
                        vs[i as int].hash.0@ == hash.0@,
                        unique_hashes(vs),
                        i < vs.len(),
                        forall|t: int| 0 <= t < q@.len() ==> proper_ancestor(vs, hash.0@, (#[trigger] q@[t]).0.0@) && q@[t].1 <= 1,
                        q@.len() == j,
                        forall|t: int| 0 <= t < j ==> (#[trigger] q@[t]).0 == v.parents@[t] && q@[t].1 == 1,
                    decreases v.parents@.len() - j,
                {
                    let p = v.parents[j];
                    proof {
                        lemma_vertex_of_index(vs, i as int);
                        let path = seq![hash.0@, p.0@];
                        assert(parent_edge(vs, hash.0@, p.0@)) by {
                            assert(0 <= j < v.parents@.len() && v.parents@[j as int].0@ == p.0@);
                        }
                        assert(is_path(vs, path)) by {
                            assert forall|ii: int| 0 <= ii < path.len() - 1 implies parent_edge(vs, #[trigger] path[ii], path[ii + 1]) by {
                                assert(ii == 0);
                            }
                        }
                        assert(path.last() == p.0@);
                    }
                    q.push((p, 1));
                    j = j + 1;
                }
                proof {
                    lemma_vertex_of_index(vs, i as int);
                    assert forall|p: Seq<u8>| #[trigger] parent_edge(vs, hash.0@, p) implies
                        exists|t: int| 0 <= t < q@.len() && (#[trigger] q@[t]).0.0@ == p && q@[t].1 == 1 by {
                        let jj = choose|jj: int| 0 <= jj < v.parents@.len() && (#[trigger] v.parents@[jj]).0@ == p;
                        assert(q@[jj].0.0@ == p);
                    }
                }
            },
            None => {
                proof {
                    assert forall|p: Seq<u8>| #[trigger] parent_edge(vs, hash.0@, p) implies
                        exists|t: int| 0 <= t < q@.len() && (#[trigger] q@[t]).0.0@ == p && q@[t].1 == 1 by {
                        assert(!has_hash(vs, hash.0@));
                    }
                }
            },
        }
        let ghost qinit = q@;
        let mut out: Vec<VHash> = Vec::new();
        let mut k: usize = 0;
        let mut seen: usize = 0;
        while k < q.len()
            invariant
                self.wf(),
                vs == self.vertices@,
                n == vs.len(),
                n + 2 <= usize::MAX,
                vis@.len() == n,
                seen == count_true(vis@),
                seen <= n,
                k <= q@.len(),
                out@ == visited@,
                forall|t: int| 0 <= t < q@.len() ==> proper_ancestor(vs, hash.0@, (#[trigger] q@[t]).0.0@) && q@[t].1 <= seen + 1,
                forall|a: int| 0 <= a < out@.len() ==> proper_ancestor(vs, hash.0@, (#[trigger] out@[a]).0@),
                forall|a: int, b: int| 0 <= a < b < out@.len() ==> (#[trigger] out@[a]).0@ != (#[trigger] out@[b]).0@,
                forall|i: int| 0 <= i < n ==> (#[trigger] vis@[i] <==> in_prefix(visited@, visited@.len() as int, vs[i].hash.0@)),
                q@.len() >= qinit.len(),
                q@.subrange(0, qinit.len() as int) == qinit,
                forall|p: Seq<u8>| #[trigger] parent_edge(vs, hash.0@, p) ==>
                    exists|t: int| 0 <= t < qinit.len() && (#[trigger] qinit[t]).0.0@ == p && qinit[t].1 == 1,
                forall|t: int| 0 <= t < k && (#[trigger] q@[t]).1 <= max_depth ==> in_prefix(out@, out@.len() as int, q@[t].0.0@),
                max_depth > n ==> forall|x: Seq<u8>, p: Seq<u8>| in_prefix(out@, out@.len() as int, x) && #[trigger] parent_edge(vs, x, p)
                    ==> in_prefix(out@, out@.len() as int, p) || queued_from(q@, k as int, p),
            decreases n - seen, q@.len() - k,
        {
            let ghost qs = q@;
            let (cur, depth) = q[k];
            let mut already = false;
            let mut w: usize = 0;
            while w < visited.len()
                invariant w <= visited@.len(), already == in_prefix(visited@, w as int, cur.0@),
                decreases visited@.len() - w,
            {
                if visited[w] == cur {
                    already = true;
                }
                proof {
                    if in_prefix(visited@, w + 1, cur.0@) && !in_prefix(visited@, w as int, cur.0@) {
                        let t = choose|t: int| 0 <= t < w + 1 && (#[trigger] visited@[t]).0@ == cur.0@;
                        assert(t == w);
                    }
                    if in_prefix(visited@, w as int, cur.0@) {
                        let t = choose|t: int| 0 <= t < w && (#[trigger] visited@[t]).0@ == cur.0@;
                        assert(0 <= t < w + 1);
                    }
                    if visited@[w as int].0@ == cur.0@ { assert(0 <= w < w + 1 && visited@[w as int].0@ == cur.0@); }
                }
                w = w + 1;
            }
            if already || depth > max_depth {
                proof {
                    assert forall|t: int| 0 <= t < k + 1 && (#[trigger] q@[t]).1 <= max_depth implies in_prefix(out@, out@.len() as int, q@[t].0.0@) by {
                        if t == k { assert(q@[t].0 == cur); }
                    }
                    if max_depth > n {
                        assert forall|x: Seq<u8>, p: Seq<u8>| in_prefix(out@, out@.len() as int, x) && #[trigger] parent_edge(vs, x, p)
                            implies in_prefix(out@, out@.len() as int, p) || queued_from(q@, k + 1, p) by {
                            if !in_prefix(out@, out@.len() as int, p) {
                                let t = choose|t: int| k <= t < q@.len() && (#[trigger] q@[t]).0.0@ == p;
                                if t == k {
                                    assert(q@[t].0 == cur);
                                    assert(depth <= seen + 1);
                                }
                            }
                        }
                    }
                }
                k = k + 1;
            } else {
                let ghost old_out = out@;
                let ghost old_vis = vis@;
                let ghost old_visited = visited@;
                let ghost seen0 = seen;
                visited.push(cur);
                out.push(cur);
                proof {
                    assert(proper_ancestor(vs, hash.0@, q@[k as int].0.0@));
                    assert forall|a: int, b: int| 0 <= a < b < out@.len() implies (#[trigger] out@[a]).0@ != (#[trigger] out@[b]).0@ by {
                        if b == old_out.len() {
                            assert(out@[a] == old_out[a]);
                            if old_out[a].0@ == cur.0@ {
                                assert(in_prefix(old_visited, old_visited.len() as int, cur.0@));
                            }
                        } else {
                            assert(out@[a] == old_out[a] && out@[b] == old_out[b]);
                        }
                    }
                    assert forall|a: int| 0 <= a < out@.len() implies proper_ancestor(vs, hash.0@, (#[trigger] out@[a]).0@) by {
                        if a < old_out.len() { assert(out@[a] == old_out[a]); }
                    }
                }
                match find_in(&self.vertices, &cur) {
                    None => {
                        proof {
                            assert forall|i: int| 0 <= i < n implies (#[trigger] vis@[i] <==> in_prefix(visited@, visited@.len() as int, vs[i].hash.0@)) by {
                                if in_prefix(visited@, visited@.len() as int, vs[i].hash.0@) {
                                    let t = choose|t: int| 0 <= t < visited@.len() && (#[trigger] visited@[t]).0@ == vs[i].hash.0@;
                                    if t < old_visited.len() {
                                        assert(visited@[t] == old_visited[t]);
                                    }
                                }
                                if in_prefix(old_visited, old_visited.len() as int, vs[i].hash.0@) {
                                    let t = choose|t: int| 0 <= t < old_visited.len() && (#[trigger] old_visited[t]).0@ == vs[i].hash.0@;
                                    assert(visited@[t] == old_visited[t]);
                                }
                            }
                        }
                    },
                    Some(i) => {
                        proof {
                            if vis@[i as int] {
                                assert(in_prefix(old_visited, old_visited.len() as int, cur.0@));
                            }
                            lemma_count_true_set(vis@, i as int);
                            lemma_count_true_bound(vis@.update(i as int, true));
                            lemma_vertex_of_index(vs, i as int);
                        }
                        vis.set(i, true);
                        seen = seen + 1;
                        proof {
                            assert forall|ii: int| 0 <= ii < n implies (#[trigger] vis@[ii] <==> in_prefix(visited@, visited@.len() as int, vs[ii].hash.0@)) by {
                                if ii == i {
                                    assert(visited@[old_visited.len() as int] == cur);
                                } else {
                                    assert(vis@[ii] == old_vis[ii]);
                                    if in_prefix(visited@, visited@.len() as int, vs[ii].hash.0@) {
                                        let t = choose|t: int| 0 <= t < visited@.len() && (#[trigger] visited@[t]).0@ == vs[ii].hash.0@;
                                        if t < old_visited.len() {
                                            assert(visited@[t] == old_visited[t]);
                                        } else {
                                            if ii < i { assert(vs[ii].hash.0@ != vs[i as int].hash.0@); } else { assert(vs[i as int].hash.0@ != vs[ii].hash.0@); }
                                        }
                                    }
                                    if in_prefix(old_visited, old_visited.len() as int, vs[ii].hash.0@) {
                                        let t = choose|t: int| 0 <= t < old_visited.len() && (#[trigger] old_visited[t]).0@ == vs[ii].hash.0@;
                                        assert(visited@[t] == old_visited[t]);
                                    }
                                }
                            }
                        }
                        let v = &self.vertices[i];
                        let nd: usize = depth + 1;
                        let mut j: usize = 0;
                        let ghost q0 = q@;
                        while j < v.parents.len()
                            invariant
                                q@.len() == q0.len() + j,
                                forall|jj: int| 0 <= jj < j ==> (#[trigger] q@[q0.len() + jj]).0 == v.parents@[jj],
                                j <= v.parents@.len(),
                                *v == vs[i as int],
                                vs[i as int].hash.0@ == cur.0@,
                                unique_hashes(vs),
                                i < vs.len(),
                                nd <= seen + 1,
                                proper_ancestor(vs, hash.0@, cur.0@),
                                q@.len() >= q0.len(),
                                q@.subrange(0, q0.len() as int) == q0,
                                forall|t: int| 0 <= t < q@.len() ==> proper_ancestor(vs, hash.0@, (#[trigger] q@[t]).0.0@) && q@[t].1 <= seen + 1,
                            decreases v.parents@.len() - j,
                        {
                            let p = v.parents[j];
                            proof {
                                lemma_vertex_of_index(vs, i as int);
                                let path = choose|path: Seq<Seq<u8>>| is_path(vs, path) && path.len() >= 2 && path[0] == hash.0@ && path.last() == cur.0@;
                                assert(parent_edge(vs, cur.0@, p.0@)) by {
                                    assert(0 <= j < v.parents@.len() && v.parents@[j as int].0@ == p.0@);
                                }
                                lemma_path_extend(vs, path, p.0@);
                                assert(proper_ancestor(vs, hash.0@, p.0@)) by {
                                    assert(path.push(p.0@).len() >= 2);
                                }
                            }
                            q.push((p, nd));
                            proof {
                                assert(q@.subrange(0, q0.len() as int) =~= q0);
                                assert forall|t: int| 0 <= t < q@.len() implies proper_ancestor(vs, hash.0@, (#[trigger] q@[t]).0.0@) && q@[t].1 <= seen + 1 by {
                                    if t < q@.len() - 1 { assert(q@[t] == q@.drop_last()[t]); }
                                }
                            }
                            j = j + 1;
                        }
                        proof {
                            lemma_vertex_of_index(vs, i as int);
                            assert(vs[i as int].hash.0@ == cur.0@);
                            assert forall|p: Seq<u8>| #[trigger] parent_edge(vs, cur.0@, p) implies queued_from(q@, k + 1, p) by {
                                let jj = choose|jj: int| 0 <= jj < v.parents@.len() && (#[trigger] v.parents@[jj]).0@ == p;
                                assert(q@[q0.len() + jj].0 == v.parents@[jj]);
                            }
                        }
                    },
                }
                proof {
                    assert(q@.subrange(0, qs.len() as int) =~= qs);
                    assert(q@.subrange(0, qinit.len() as int) =~= qinit) by {
                        assert(qs.subrange(0, qinit.len() as int) == qinit);
                    }
                    assert forall|t: int| 0 <= t < k + 1 && (#[trigger] q@[t]).1 <= max_depth implies in_prefix(out@, out@.len() as int, q@[t].0.0@) by {
                        assert(q@[t] == qs[t]);
                        if t == k {
                            assert(out@[old_out.len() as int] == cur);
                        } else {
                            assert(in_prefix(old_out, old_out.len() as int, qs[t].0.0@));
                            let w2 = choose|w2: int| 0 <= w2 < old_out.len() && (#[trigger] old_out[w2]).0@ == qs[t].0.0@;
                            assert(out@[w2] == old_out[w2]);
                        }
                    }
                    if max_depth > n {
                        assert forall|x: Seq<u8>, p: Seq<u8>| in_prefix(out@, out@.len() as int, x) && #[trigger] parent_edge(vs, x, p)
                            implies in_prefix(out@, out@.len() as int, p) || queued_from(q@, k + 1, p) by {
                            if x == cur.0@ {
                                assert(queued_from(q@, k + 1, p));
                            } else {
                                let w2 = choose|w2: int| 0 <= w2 < out@.len() && (#[trigger] out@[w2]).0@ == x;
                                assert(w2 < old_out.len());
                                assert(old_out[w2] == out@[w2]);
                                assert(in_prefix(old_out, old_out.len() as int, x));
                                if in_prefix(old_out, old_out.len() as int, p) {
                                    let w3 = choose|w3: int| 0 <= w3 < old_out.len() && (#[trigger] old_out[w3]).0@ == p;
                                    assert(out@[w3] == old_out[w3]);
                                } else {
                                    let t = choose|t: int| k <= t < qs.len() && (#[trigger] qs[t]).0.0@ == p;
                                    assert(q@[t] == qs[t]);
                                    if t == k {
                                        assert(out@[old_out.len() as int] == cur);
                                    }
                                }
                            }
                        }
                    }
                }
                k = k + 1;
            }
        }
        proof {
            assert forall|p: Seq<u8>| max_depth >= 1 && #[trigger] parent_edge(vs, hash.0@, p) implies in_prefix(out@, out@.len() as int, p) by {
                let t = choose|t: int| 0 <= t < qinit.len() && (#[trigger] qinit[t]).0.0@ == p && qinit[t].1 == 1;
                assert(q@[t] == qinit[t]);
            }
            if max_depth > n {
                assert forall|x: Seq<u8>, p: Seq<u8>| in_prefix(out@, out@.len() as int, x) && #[trigger] parent_edge(vs, x, p)
                    implies in_prefix(out@, out@.len() as int, p) by {
                    if !in_prefix(out@, out@.len() as int, p) {
                        assert(queued_from(q@, k as int, p));
                        let t = choose|t: int| k <= t < q@.len() && (#[trigger] q@[t]).0.0@ == p;
                    }
                }
                assert forall|x: Seq<u8>| #[trigger] proper_ancestor(vs, hash.0@, x) implies in_prefix(out@, out@.len() as int, x) by {
                    let path = choose|path: Seq<Seq<u8>>| is_path(vs, path) && path.len() >= 2 && path[0] == hash.0@ && path.last() == x;
                    assert(parent_edge(vs, path[0], path[1]));
                    assert(in_prefix(out@, out@.len() as int, path[1]));
                    lemma_path_in_out(vs, out@, path);
                }
            }
        }
        out
    }
}

/// `p` is queued at index `k` or later.
pub open spec fn queued_from(q: Seq<(VHash, usize)>, k: int, p: Seq<u8>) -> bool {
    exists|t: int| k <= t < q.len() && (#[trigger] q[t]).0.0@ == p
}

proof fn lemma_path_in_out(vs: Seq<Vertex>, out: Seq<VHash>, path: Seq<Seq<u8>>)
    requires
        is_path(vs, path),
        path.len() >= 2,
        in_prefix(out, out.len() as int, path[1]),
        forall|x: Seq<u8>, p: Seq<u8>| in_prefix(out, out.len() as int, x) && #[trigger] parent_edge(vs, x, p) ==> in_prefix(out, out.len() as int, p),
    ensures in_prefix(out, out.len() as int, path.last()),
    decreases path.len(),
{
    if path.len() > 2 {
        let sub = path.drop_last();
        assert(is_path(vs, sub)) by {
            assert forall|i: int| 0 <= i < sub.len() - 1 implies parent_edge(vs, #[trigger] sub[i], sub[i + 1]) by {
                assert(sub[i] == path[i] && sub[i + 1] == path[i + 1]);
                assert(parent_edge(vs, path[i], path[i + 1]));
            }
        }
        assert(sub[1] == path[1]);
        lemma_path_in_out(vs, out, sub);
        assert(parent_edge(vs, path[path.len() - 2], path[path.len() - 1]));
        assert(sub.last() == path[path.len() - 2]);
    }
}

pub proof fn lemma_count_zero(s: Seq<bool>)
    requires forall|i: int| 0 <= i < s.len() ==> !s[i],
    ensures count_true(s) == 0,
    decreases s.len(),
{
    if s.len() > 0 { lemma_count_zero(s.drop_last()); }
}

/// The highest height among the tips that are in the graph, 0 when none is.
pub open spec fn latest_height_spec(vs: Seq<Vertex>, tips: Seq<VHash>) -> u64
    decreases tips.len(),
{
    if tips.len() == 0 {
        0
    } else {
        let rest = latest_height_spec(vs, tips.drop_last());
        let h = tips.last().0@;
        if has_hash(vs, h) && vertex_of(vs, h).height > rest { vertex_of(vs, h).height } else { rest }
    }
}

/// With every flag set, the count is the length.
pub proof fn lemma_count_true_all(s: Seq<bool>)
    requires forall|i: int| 0 <= i < s.len() ==> s[i],
    ensures count_true(s) == s.len(),
    decreases s.len(),
{
    if s.len() > 0 {
        assert forall|i: int| 0 <= i < s.drop_last().len() implies s.drop_last()[i] by { assert(s.drop_last()[i] == s[i]); }
        lemma_count_true_all(s.drop_last());
        assert(s.last() == s[s.len() - 1]);
    }
}

/// The height owed to a prefix of the parents is no more than to all.
pub proof fn lemma_expected_height_prefix(vs: Seq<Vertex>, ps: Seq<VHash>, k: int)
    requires 0 <= k <= ps.len(),
    ensures expected_height(vs, ps.subrange(0, k)) <= expected_height(vs, ps),
    decreases ps.len() - k,
{
    if k < ps.len() {
        lemma_expected_height_prefix(vs, ps, k + 1);
        assert(ps.subrange(0, k + 1).drop_last() =~= ps.subrange(0, k));
    } else {
        assert(ps.subrange(0, k) =~= ps);
    }
}

} // verus!
