//! Checkpoints of the state: the changes each DAG vertex made, kept so that
//! they can be applied again or undone, and pruned once finalized.
use vstd::prelude::*;
use crate::primitives::address::Address;
use crate::primitives::types::U256;
use crate::state::{StateError, StateResult};
use crate::state::storage::{StateDb, StoreView, AccountState, account_in, slot_in, slots_without};
use crate::primitives::hashing::keccak256_spec;

verus! {

type VHash = crate::primitives::types::Hash;

/// Identifier of a checkpoint.
pub type CheckpointId = u64;

/// One change to the state, with the value before and after it.
#[derive(Clone, Debug)]
pub enum StateChange {
    BalanceChange { address: Address, old_value: U256, new_value: U256 },
    NonceChange { address: Address, old_value: u64, new_value: u64 },
    CodeChange { address: Address, old_code: Vec<u8>, new_code: Vec<u8> },
    StorageChange { address: Address, key: U256, old_value: U256, new_value: U256 },
    AccountCreated { address: Address },
    AccountDeleted { address: Address, balance: U256, nonce: u64 },
}

/// The changes of one vertex, with the state root after them.
#[derive(Clone, Debug)]
pub struct Checkpoint {
    pub id: CheckpointId,
    pub vertex_hash: VHash,
    pub state_root: VHash,
    pub changes: Vec<StateChange>,
    /// The checkpoints of the vertex's parents that were known.
    pub parents: Vec<CheckpointId>,
}

/// The checkpoints of a list, by id; a later entry wins.
pub open spec fn checkpoints_map(s: Seq<Checkpoint>) -> Map<u64, Checkpoint>
    decreases s.len(),
{
    if s.len() == 0 { Map::empty() } else { checkpoints_map(s.drop_last()).insert(s.last().id, s.last()) }
}

/// The checkpoint of each vertex in a list, by vertex hash; a later entry wins.
pub open spec fn vertex_map(s: Seq<(VHash, u64)>) -> Map<Seq<u8>, u64>
    decreases s.len(),
{
    if s.len() == 0 { Map::empty() } else { vertex_map(s.drop_last()).insert(s.last().0.0@, s.last().1) }
}

/// The checkpoints of the given vertices, in order, skipping unknown ones.
pub open spec fn parent_ids(vm: Map<Seq<u8>, u64>, hs: Seq<VHash>) -> Seq<u64>
    decreases hs.len(),
{
    if hs.len() == 0 {
        Seq::empty()
    } else if vm.contains_key(hs.last().0@) {
        parent_ids(vm, hs.drop_last()).push(vm[hs.last().0@])
    } else {
        parent_ids(vm, hs.drop_last())
    }
}

/// The vertex hashes of the checkpoints below `before`.
pub open spec fn pruned_vertices(m: Map<u64, Checkpoint>, before: u64) -> Set<Seq<u8>> {
    Set::new(|h: Seq<u8>| exists|x: u64| m.contains_key(x) && x < before && (#[trigger] m[x]).vertex_hash.0@ == h)
}

/// The first parent of a checkpoint, or zero.
pub open spec fn first_parent(c: Checkpoint) -> u64 {
    if c.parents@.len() > 0 { c.parents@[0] } else { 0 }
}

/// The checkpoints from `cur` back to the finalized one (excluded), following
/// first parents, oldest first.
pub open spec fn chain_to(m: Map<u64, Checkpoint>, finalized: u64, cur: u64) -> Seq<u64>
    decreases cur,
{
    if cur <= finalized {
        Seq::empty()
    } else if !m.contains_key(cur) {
        seq![cur]
    } else if first_parent(m[cur]) < cur {
        chain_to(m, finalized, first_parent(m[cur])).push(cur)
    } else {
        seq![cur]
    }
}

proof fn lemma_checkpoints_map_dom(s: Seq<Checkpoint>, x: u64)
    ensures checkpoints_map(s).contains_key(x) <==> exists|i: int| 0 <= i < s.len() && (#[trigger] s[i]).id == x,
    decreases s.len(),
{
    if s.len() > 0 {
        lemma_checkpoints_map_dom(s.drop_last(), x);
        if checkpoints_map(s.drop_last()).contains_key(x) {
            let i = choose|i: int| 0 <= i < s.drop_last().len() && (#[trigger] s.drop_last()[i]).id == x;
            assert(s[i] == s.drop_last()[i]);
        }
        if exists|i: int| 0 <= i < s.len() && (#[trigger] s[i]).id == x {
            let i = choose|i: int| 0 <= i < s.len() && (#[trigger] s[i]).id == x;
            if i < s.len() - 1 { assert(s.drop_last()[i] == s[i]); } else { assert(s.last() == s[i]); }
        }
    }
}

/// No id occurs twice.
pub open spec fn distinct_ids(s: Seq<Checkpoint>) -> bool {
    forall|i: int, j: int| 0 <= i < j < s.len() ==> (#[trigger] s[i]).id != (#[trigger] s[j]).id
}

proof fn lemma_checkpoints_map_entry(s: Seq<Checkpoint>, i: int)
    requires distinct_ids(s), 0 <= i < s.len(),
    ensures checkpoints_map(s).contains_key(s[i].id), checkpoints_map(s)[s[i].id] == s[i],
    decreases s.len(),
{
    if i == s.len() - 1 {
        assert(s.last() == s[i]);
    } else {
        let d = s.drop_last();
        assert(d[i] == s[i]);
        assert(distinct_ids(d)) by {
            assert forall|x: int, y: int| 0 <= x < y < d.len() implies (#[trigger] d[x]).id != (#[trigger] d[y]).id by {
                assert(d[x] == s[x] && d[y] == s[y]);
            }
        }
        lemma_checkpoints_map_entry(d, i);
        assert(s[s.len() - 1] == s.last());
        assert(s[i].id != s[s.len() - 1].id);
    }
}

/// Removes the checkpoints whose id is below `before`, keeping the order of
/// the others.
#[verifier::rlimit(40)]
fn retain_from(list: &mut Vec<Checkpoint>, before: u64)
    requires distinct_ids(old(list)@),
    ensures
        distinct_ids(final(list)@),
        checkpoints_map(final(list)@) == checkpoints_map(old(list)@).remove_keys(Set::new(|x: u64| x < before)),
        forall|j: int| 0 <= j < final(list)@.len() ==> exists|t: int| 0 <= t < old(list)@.len() && old(list)@[t] == #[trigger] final(list)@[j],
{
    let ghost s = list@;
    let ghost low = Set::new(|x: u64| x < before);
    let mut i: usize = 0;
    let ghost mut j: int = 0;
    assert(checkpoints_map(s.subrange(0, 0)) =~= Map::<u64, Checkpoint>::empty());
    assert(list@ =~= list@.subrange(0, 0) + s.subrange(0, s.len() as int));
    assert(checkpoints_map(list@.subrange(0, 0)) =~= checkpoints_map(s.subrange(0, 0)).remove_keys(low));
    while i < list.len()
        invariant
            s == old(list)@,
            distinct_ids(s),
            0 <= i <= j <= s.len(),
            low == Set::new(|x: u64| x < before),
            i <= list@.len(),
            list@.len() == i + (s.len() - j),
            list@ == list@.subrange(0, i as int) + s.subrange(j, s.len() as int),
            distinct_ids(list@.subrange(0, i as int)),
            checkpoints_map(list@.subrange(0, i as int)) == checkpoints_map(s.subrange(0, j)).remove_keys(low),
            forall|k: int| 0 <= k < i ==> exists|t: int| 0 <= t < j && s[t] == #[trigger] list@[k],
        decreases list@.len() - i,
    {
        let ghost l0 = list@;
        let ghost k0 = l0.subrange(0, i as int);
        proof {
            assert(l0[i as int] == s[j]);
            assert(s.subrange(0, j + 1).drop_last() =~= s.subrange(0, j));
            assert(s.subrange(0, j + 1).last() == s[j]);
        }
        if list[i].id >= before {
            proof {
                let k1 = l0.subrange(0, i + 1);
                assert(k1.drop_last() =~= k0);
                assert(k1.last() == s[j]);
                assert(!low.contains(s[j].id));
                assert(checkpoints_map(k1) =~= checkpoints_map(s.subrange(0, j + 1)).remove_keys(low));
                assert(l0 =~= k1 + s.subrange(j + 1, s.len() as int));
                assert forall|x: int, y: int| 0 <= x < y < k1.len() implies (#[trigger] k1[x]).id != (#[trigger] k1[y]).id by {
                    assert(k1[x] == k0[x] && k0[x] == l0[x]);
                    if y < k0.len() {
                        assert(k1[y] == k0[y]);
                    } else {
                        let t = choose|t: int| 0 <= t < j && s[t] == #[trigger] l0[x];
                        assert(s[t].id != s[j].id);
                    }
                }
                assert forall|k: int| 0 <= k < i + 1 implies exists|t: int| 0 <= t < j + 1 && s[t] == #[trigger] l0[k] by {
                    if k < i {
                        let t = choose|t: int| 0 <= t < j && s[t] == #[trigger] l0[k];
                        assert(s[t] == l0[k]);
                    } else {
                        assert(s[j] == l0[k]);
                    }
                }
                j = j + 1;
            }
            i = i + 1;
        } else {
            let _removed = list.remove(i);
            proof {
                assert(low.contains(s[j].id));
                assert(list@ == l0.remove(i as int));
                assert(list@.subrange(0, i as int) =~= k0);
                assert(checkpoints_map(k0) =~= checkpoints_map(s.subrange(0, j + 1)).remove_keys(low));
                assert(list@ =~= k0 + s.subrange(j + 1, s.len() as int));
                assert forall|k: int| 0 <= k < i implies exists|t: int| 0 <= t < j + 1 && s[t] == #[trigger] list@[k] by {
                    assert(list@[k] == l0[k]);
                    let t = choose|t: int| 0 <= t < j && s[t] == #[trigger] l0[k];
                    assert(s[t] == list@[k]);
                }
                j = j + 1;
            }
        }
    }
    proof {
        assert(s.subrange(0, j) =~= s);
        assert(list@.subrange(0, i as int) =~= list@);
    }
}

proof fn lemma_checkpoints_map_origin(s: Seq<Checkpoint>, x: u64)
    requires checkpoints_map(s).contains_key(x),
    ensures
        checkpoints_map(s)[x].id == x,
        exists|i: int| 0 <= i < s.len() && s[i] == #[trigger] checkpoints_map(s)[x],
    decreases s.len(),
{
    if s.last().id == x {
        assert(s[s.len() - 1] == s.last());
    } else {
        lemma_checkpoints_map_origin(s.drop_last(), x);
        let i = choose|i: int| 0 <= i < s.drop_last().len() && s.drop_last()[i] == #[trigger] checkpoints_map(s.drop_last())[x];
        assert(s[i] == s.drop_last()[i]);
    }
}

/// The hash is in the list.
pub open spec fn hash_in(hs: Seq<VHash>, h: Seq<u8>) -> bool {
    exists|k: int| 0 <= k < hs.len() && (#[trigger] hs[k]).0@ == h
}

/// One of the first `n` checkpoints of the list is below `before` and
/// belongs to the vertex `h`.
pub open spec fn dropped_upto(s: Seq<Checkpoint>, n: int, before: u64, h: Seq<u8>) -> bool {
    exists|t: int| 0 <= t < n && s[t].id < before && (#[trigger] s[t]).vertex_hash.0@ == h
}

/// Whether a hash is in the list.
fn hash_listed(hs: &Vec<VHash>, h: &VHash) -> (r: bool)
    ensures r == hash_in(hs@, h.0@),
{
    let mut k: usize = 0;
    while k < hs.len()
        invariant k <= hs@.len(), forall|t: int| 0 <= t < k ==> (#[trigger] hs@[t]).0@ != h.0@,
        decreases hs@.len() - k,
    {
        if hs[k] == *h {
            assert(hs@[k as int].0@ == h.0@);
            return true;
        }
        k = k + 1;
    }
    false
}

/// The checkpoints of the DAG's vertices.
pub struct CheckpointManager {
    checkpoints: Vec<Checkpoint>,
    vertex_to_checkpoint: Vec<(VHash, CheckpointId)>,
    next_id: CheckpointId,
    finalized_checkpoint: CheckpointId,
}

impl CheckpointManager {
    /// The checkpoints by id.
    pub closed spec fn checkpoints(&self) -> Map<u64, Checkpoint> {
        checkpoints_map(self.checkpoints@)
    }

    /// The checkpoint of each vertex, by vertex hash.
    pub closed spec fn vertices(&self) -> Map<Seq<u8>, u64> {
        vertex_map(self.vertex_to_checkpoint@)
    }

    /// The id the next checkpoint gets.
    pub closed spec fn next_id_view(&self) -> u64 {
        self.next_id
    }

    /// The finalized checkpoint.
    pub closed spec fn finalized_view(&self) -> u64 {
        self.finalized_checkpoint
    }

    /// Ids are distinct and below the next id, parents are older than their
    /// checkpoint, and vertices point at ids below the next one.
    pub closed spec fn wf(&self) -> bool {
        &&& distinct_ids(self.checkpoints@)
        &&& forall|i: int| 0 <= i < self.checkpoints@.len() ==> (#[trigger] self.checkpoints@[i]).id < self.next_id
        &&& forall|i: int, p: int| 0 <= i < self.checkpoints@.len() && 0 <= p < self.checkpoints@[i].parents@.len()
                ==> #[trigger] self.checkpoints@[i].parents@[p] < self.checkpoints@[i].id
        &&& forall|i: int| 0 <= i < self.vertex_to_checkpoint@.len() ==> (#[trigger] self.vertex_to_checkpoint@[i]).1 < self.next_id
    }

    /// No checkpoints; the first gets id 1, and 0 stands for finalized.
    pub fn new() -> (m: Self)
        ensures
            m.wf(),
            m.checkpoints() == Map::<u64, Checkpoint>::empty(),
            m.vertices() == Map::<Seq<u8>, u64>::empty(),
            m.next_id_view() == 1,
            m.finalized_view() == 0,
    {
        let m = CheckpointManager { checkpoints: Vec::new(), vertex_to_checkpoint: Vec::new(), next_id: 1, finalized_checkpoint: 0 };
        proof {
            assert(checkpoints_map(m.checkpoints@) =~= Map::<u64, Checkpoint>::empty());
            assert(vertex_map(m.vertex_to_checkpoint@) =~= Map::<Seq<u8>, u64>::empty());
        }
        m
    }

    /// The checkpoint of a vertex, if it has one.
    fn vertex_lookup(&self, h: &VHash) -> (r: Option<CheckpointId>)
        requires self.wf(),
        ensures
            r == (if self.vertices().contains_key(h.0@) { Some(self.vertices()[h.0@]) } else { None::<u64> }),
            r matches Some(x) ==> x < self.next_id_view(),
    {
        let ghost s = self.vertex_to_checkpoint@;
        let mut i: usize = self.vertex_to_checkpoint.len();
        assert(s.subrange(0, i as int) =~= s);
        while i > 0
            invariant
                s == self.vertex_to_checkpoint@,
                self.wf(),
                i <= s.len(),
                vertex_map(s).contains_key(h.0@) == vertex_map(s.subrange(0, i as int)).contains_key(h.0@),
                vertex_map(s).contains_key(h.0@) ==> vertex_map(s)[h.0@] == vertex_map(s.subrange(0, i as int))[h.0@],
            decreases i,
        {
            let ghost sub = s.subrange(0, i as int);
            assert(sub.last() == s[i - 1]);
            assert(sub.drop_last() =~= s.subrange(0, i - 1));
            if self.vertex_to_checkpoint[i - 1].0 == *h {
                assert(s[i - 1].0.0@ == h.0@);
                return Some(self.vertex_to_checkpoint[i - 1].1);
            }
            i = i - 1;
        }
        None
    }

    /// Records the changes of a vertex under the next id; its parents are the
    /// checkpoints of the parent vertices that have one.
    pub fn create_checkpoint(&mut self, vertex_hash: VHash, state_root: VHash, changes: Vec<StateChange>, parent_vertices: &[VHash]) -> (id: CheckpointId)
        requires
            old(self).wf(),
            old(self).next_id_view() < u64::MAX,
        ensures
            final(self).wf(),
            id == old(self).next_id_view(),
            final(self).next_id_view() == id + 1,
            final(self).finalized_view() == old(self).finalized_view(),
            final(self).checkpoints() == old(self).checkpoints().insert(id, final(self).checkpoints()[id]),
            final(self).checkpoints()[id].id == id,
            final(self).checkpoints()[id].vertex_hash == vertex_hash,
            final(self).checkpoints()[id].state_root == state_root,
            final(self).checkpoints()[id].changes == changes,
            final(self).checkpoints()[id].parents@ == parent_ids(old(self).vertices(), parent_vertices@),
            final(self).vertices() == old(self).vertices().insert(vertex_hash.0@, id),
    {
        let id = self.next_id;
        let mut parents: Vec<CheckpointId> = Vec::new();
        let mut i: usize = 0;
        assert(parent_vertices@.subrange(0, 0) =~= Seq::<VHash>::empty());
        while i < parent_vertices.len()
            invariant
                self == old(self),
                self.wf(),
                id == self.next_id,
                i <= parent_vertices@.len(),
                parents@ == parent_ids(self.vertices(), parent_vertices@.subrange(0, i as int)),
                forall|p: int| 0 <= p < parents@.len() ==> #[trigger] parents@[p] < id,
            decreases parent_vertices@.len() - i,
        {
            let found = self.vertex_lookup(&parent_vertices[i]);
            let ghost p0 = parents@;
            proof {
                let sub = parent_vertices@.subrange(0, i + 1);
                assert(sub.drop_last() =~= parent_vertices@.subrange(0, i as int));
                assert(sub.last() == parent_vertices@[i as int]);
            }
            match found {
                Some(x) => {
                    parents.push(x);
                    proof {
                        assert forall|p: int| 0 <= p < parents@.len() implies #[trigger] parents@[p] < id by {
                            if p < p0.len() { assert(parents@[p] == p0[p]); }
                        }
                    }
                },
                None => {},
            }
            i = i + 1;
        }
        assert(parent_vertices@.subrange(0, i as int) =~= parent_vertices@);
        let ghost c0 = self.checkpoints@;
        let ghost v0 = self.vertex_to_checkpoint@;
        let cp = Checkpoint { id, vertex_hash, state_root, changes, parents };
        self.checkpoints.push(cp);
        self.vertex_to_checkpoint.push((vertex_hash, id));
        self.next_id = id + 1;
        proof {
            assert(self.checkpoints@.drop_last() =~= c0);
            assert(self.vertex_to_checkpoint@.drop_last() =~= v0);
            assert(self.checkpoints@.last() == cp);
            assert(checkpoints_map(self.checkpoints@) == checkpoints_map(c0).insert(id, cp));
            assert forall|x: int, y: int| 0 <= x < y < self.checkpoints@.len() implies (#[trigger] self.checkpoints@[x]).id != (#[trigger] self.checkpoints@[y]).id by {
                assert(self.checkpoints@[x] == c0[x]);
                if y < c0.len() { assert(self.checkpoints@[y] == c0[y]); }
            }
            assert forall|x: int| 0 <= x < self.checkpoints@.len() implies (#[trigger] self.checkpoints@[x]).id < self.next_id by {
                if x < c0.len() { assert(self.checkpoints@[x] == c0[x]); }
            }
            assert forall|x: int, p: int| 0 <= x < self.checkpoints@.len() && 0 <= p < self.checkpoints@[x].parents@.len()
                implies #[trigger] self.checkpoints@[x].parents@[p] < self.checkpoints@[x].id by {
                if x < c0.len() { assert(self.checkpoints@[x] == c0[x]); }
            }
            assert forall|x: int| 0 <= x < self.vertex_to_checkpoint@.len() implies (#[trigger] self.vertex_to_checkpoint@[x]).1 < self.next_id by {
                if x < v0.len() { assert(self.vertex_to_checkpoint@[x] == v0[x]); }
            }
        }
        id
    }

    /// The checkpoint with this id.
    pub fn get_checkpoint(&self, id: CheckpointId) -> (r: Option<&Checkpoint>)
        ensures
            match r {
                Some(c) => self.checkpoints().contains_key(id) && *c == self.checkpoints()[id],
                None => !self.checkpoints().contains_key(id),
            },
    {
        let ghost s = self.checkpoints@;
        let mut i: usize = self.checkpoints.len();
        assert(s.subrange(0, i as int) =~= s);
        while i > 0
            invariant
                s == self.checkpoints@,
                i <= s.len(),
                checkpoints_map(s).contains_key(id) == checkpoints_map(s.subrange(0, i as int)).contains_key(id),
                checkpoints_map(s).contains_key(id) ==> checkpoints_map(s)[id] == checkpoints_map(s.subrange(0, i as int))[id],
            decreases i,
        {
            let ghost sub = s.subrange(0, i as int);
            assert(sub.last() == s[i - 1]);
            assert(sub.drop_last() =~= s.subrange(0, i - 1));
            if self.checkpoints[i - 1].id == id {
                return Some(&self.checkpoints[i - 1]);
            }
            i = i - 1;
        }
        None
    }

    /// The checkpoint of a vertex.
    pub fn get_checkpoint_for_vertex(&self, vertex_hash: &VHash) -> (r: Option<&Checkpoint>)
        requires self.wf(),
        ensures
            match r {
                Some(c) => self.vertices().contains_key(vertex_hash.0@)
                    && self.checkpoints().contains_key(self.vertices()[vertex_hash.0@])
                    && *c == self.checkpoints()[self.vertices()[vertex_hash.0@]],
                None => !self.vertices().contains_key(vertex_hash.0@)
                    || !self.checkpoints().contains_key(self.vertices()[vertex_hash.0@]),
            },
    {
        match self.vertex_lookup(vertex_hash) {
            Some(id) => self.get_checkpoint(id),
            None => None,
        }
    }

    /// The state root recorded at a checkpoint.
    pub fn get_state_root(&self, id: CheckpointId) -> (r: Option<VHash>)
        ensures
            r == (if self.checkpoints().contains_key(id) { Some(self.checkpoints()[id].state_root) } else { None::<VHash> }),
    {
        match self.get_checkpoint(id) {
            Some(c) => Some(c.state_root),
            None => None,
        }
    }

    /// Marks a checkpoint finalized and drops the older ones; fails, changing
    /// nothing, when there is no checkpoint with that id.
    pub fn finalize(&mut self, id: CheckpointId) -> (r: StateResult<()>)
        requires old(self).wf(),
        ensures
            final(self).wf(),
            r is Ok <==> old(self).checkpoints().contains_key(id),
            r is Ok ==> final(self).finalized_view() == id
                && final(self).checkpoints() == old(self).checkpoints().remove_keys(Set::new(|x: u64| x < id))
                && final(self).vertices() == old(self).vertices().remove_keys(pruned_vertices(old(self).checkpoints(), id))
                && final(self).next_id_view() == old(self).next_id_view(),
            r is Err ==> *final(self) == *old(self) && r matches Err(StateError::Checkpoint(_)),
    {
        if self.get_checkpoint(id).is_none() {
            return Err(StateError::Checkpoint("Checkpoint not found".to_owned()));
        }
        self.finalized_checkpoint = id;
        self.prune_before(id);
        Ok(())
    }

    /// The finalized checkpoint.
    pub fn finalized(&self) -> (r: CheckpointId)
        ensures r == self.finalized_view(),
    {
        self.finalized_checkpoint
    }

    /// Drops the checkpoints below `before` and the vertices that pointed at them.
    fn prune_before(&mut self, before: CheckpointId)
        requires old(self).wf(),
        ensures
            final(self).wf(),
            final(self).checkpoints() == old(self).checkpoints().remove_keys(Set::new(|x: u64| x < before)),
            final(self).vertices() == old(self).vertices().remove_keys(pruned_vertices(old(self).checkpoints(), before)),
            final(self).next_id_view() == old(self).next_id_view(),
            final(self).finalized_view() == old(self).finalized_view(),
    {
        let ghost s = self.checkpoints@;
        let ghost dropped = Set::new(|h: Seq<u8>| dropped_upto(s, s.len() as int, before, h));
        let mut hashes: Vec<VHash> = Vec::new();
        let mut i: usize = 0;
        while i < self.checkpoints.len()
            invariant
                s == self.checkpoints@,
                i <= s.len(),
                forall|h: Seq<u8>| #![trigger hash_in(hashes@, h)] #![trigger dropped_upto(s, i as int, before, h)]
                    hash_in(hashes@, h) <==> dropped_upto(s, i as int, before, h),
            decreases s.len() - i,
        {
            let ghost h0 = hashes@;
            if self.checkpoints[i].id < before {
                hashes.push(self.checkpoints[i].vertex_hash);
            }
            proof {
                assert forall|h: Seq<u8>| #![trigger hash_in(hashes@, h)] #![trigger dropped_upto(s, i + 1, before, h)]
                    hash_in(hashes@, h) <==> dropped_upto(s, i + 1, before, h) by {
                    if hash_in(hashes@, h) {
                        let k = choose|k: int| 0 <= k < hashes@.len() && (#[trigger] hashes@[k]).0@ == h;
                        if k < h0.len() {
                            assert(hashes@[k] == h0[k]);
                            assert(hash_in(h0, h));
                            assert(dropped_upto(s, i as int, before, h));
                            let t = choose|t: int| 0 <= t < i && s[t].id < before && (#[trigger] s[t]).vertex_hash.0@ == h;
                            assert(s[t].vertex_hash.0@ == h);
                        } else {
                            assert(s[i as int].vertex_hash.0@ == h);
                        }
                    }
                    if dropped_upto(s, i + 1, before, h) {
                        let t = choose|t: int| 0 <= t < i + 1 && s[t].id < before && (#[trigger] s[t]).vertex_hash.0@ == h;
                        if t < i {
                            assert(dropped_upto(s, i as int, before, h));
                            assert(hash_in(h0, h));
                            let k = choose|k: int| 0 <= k < h0.len() && (#[trigger] h0[k]).0@ == h;
                            assert(hashes@[k] == h0[k]);
                        } else {
                            assert(hashes@[h0.len() as int].0@ == h);
                        }
                    }
                }
            }
            i = i + 1;
        }
        retain_from(&mut self.checkpoints, before);
        proof {
            assert forall|x: int| 0 <= x < self.checkpoints@.len() implies (#[trigger] self.checkpoints@[x]).id < self.next_id by {
                let t = choose|t: int| 0 <= t < s.len() && s[t] == #[trigger] self.checkpoints@[x];
                assert(s[t].id < self.next_id);
            }
            assert forall|x: int, p: int| 0 <= x < self.checkpoints@.len() && 0 <= p < self.checkpoints@[x].parents@.len()
                implies #[trigger] self.checkpoints@[x].parents@[p] < self.checkpoints@[x].id by {
                let t = choose|t: int| 0 <= t < s.len() && s[t] == #[trigger] self.checkpoints@[x];
                assert(s[t].parents@[p] < s[t].id);
            }
        }
        let ghost v = self.vertex_to_checkpoint@;
        let mut kept: Vec<(VHash, CheckpointId)> = Vec::new();
        let mut j: usize = 0;
        assert(vertex_map(v.subrange(0, 0)) =~= Map::<Seq<u8>, u64>::empty());
        assert(vertex_map(kept@) =~= vertex_map(v.subrange(0, 0)).remove_keys(dropped));
        while j < self.vertex_to_checkpoint.len()
            invariant
                v == self.vertex_to_checkpoint@,
                j <= v.len(),
                dropped == Set::new(|h: Seq<u8>| dropped_upto(s, s.len() as int, before, h)),
                forall|h: Seq<u8>| #![trigger hash_in(hashes@, h)] hash_in(hashes@, h) <==> dropped_upto(s, s.len() as int, before, h),
                vertex_map(kept@) == vertex_map(v.subrange(0, j as int)).remove_keys(dropped),
                forall|x: int| 0 <= x < v.len() ==> (#[trigger] v[x]).1 < self.next_id,
                forall|x: int| 0 <= x < kept@.len() ==> (#[trigger] kept@[x]).1 < self.next_id,
            decreases v.len() - j,
        {
            let e = self.vertex_to_checkpoint[j];
            let ghost k0 = kept@;
            proof {
                assert(v.subrange(0, j + 1).drop_last() =~= v.subrange(0, j as int));
                assert(v.subrange(0, j + 1).last() == e);
            }
            if !hash_listed(&hashes, &e.0) {
                kept.push(e);
                proof {
                    assert(kept@.drop_last() =~= k0);
                    assert(!dropped.contains(e.0.0@));
                    assert forall|x: int| 0 <= x < kept@.len() implies (#[trigger] kept@[x]).1 < self.next_id by {
                        if x < k0.len() { assert(kept@[x] == k0[x]); } else { assert(v[j as int] == e); }
                    }
                }
            } else {
                proof { assert(dropped.contains(e.0.0@)); }
            }
            proof {
                assert(vertex_map(kept@) =~= vertex_map(v.subrange(0, j + 1)).remove_keys(dropped));
            }
            j = j + 1;
        }
        proof {
            assert(v.subrange(0, j as int) =~= v);
            assert(dropped =~= pruned_vertices(checkpoints_map(s), before)) by {
                assert forall|h: Seq<u8>| dropped.contains(h) implies #[trigger] pruned_vertices(checkpoints_map(s), before).contains(h) by {
                    let t = choose|t: int| 0 <= t < s.len() && s[t].id < before && (#[trigger] s[t]).vertex_hash.0@ == h;
                    assert(distinct_ids(s));
                    lemma_checkpoints_map_entry(s, t);
                    let x = s[t].id;
                    assert(checkpoints_map(s).contains_key(x) && x < before && checkpoints_map(s)[x].vertex_hash.0@ == h);
                }
                assert forall|h: Seq<u8>| #[trigger] pruned_vertices(checkpoints_map(s), before).contains(h) implies dropped.contains(h) by {
                    let x = choose|x: u64| checkpoints_map(s).contains_key(x) && x < before && (#[trigger] checkpoints_map(s)[x]).vertex_hash.0@ == h;
                    lemma_checkpoints_map_origin(s, x);
                    let t = choose|t: int| 0 <= t < s.len() && s[t] == #[trigger] checkpoints_map(s)[x];
                    assert(s[t].id < before && s[t].vertex_hash.0@ == h);
                    assert(dropped_upto(s, s.len() as int, before, h));
                }
            }
        }
        self.vertex_to_checkpoint = kept;
    }

    /// The checkpoints from `from` back to the finalized one (excluded),
    /// following first parents, oldest first.
    pub fn get_chain_to_finalized(&self, from: CheckpointId) -> (r: Vec<CheckpointId>)
        requires self.wf(),
        ensures r@ == chain_to(self.checkpoints(), self.finalized_view(), from),
    {
        let finalized = self.finalized_checkpoint;
        let ghost m = self.checkpoints();
        let mut pushed: Vec<CheckpointId> = Vec::new();
        let mut current = from;
        while current > finalized
            invariant_except_break
                self.wf(),
                m == self.checkpoints(),
                finalized == self.finalized_view(),
                chain_to(m, finalized, from) == chain_to(m, finalized, current) + pushed@.reverse(),
            ensures
                chain_to(m, finalized, from) == pushed@.reverse(),
            decreases current,
        {
            let ghost p0 = pushed@;
            pushed.push(current);
            proof { assert(pushed@.reverse() =~= seq![current] + p0.reverse()); }
            match self.get_checkpoint(current) {
                Some(cp) => {
                    let next = if cp.parents.len() > 0 { cp.parents[0] } else { 0 };
                    proof {
                        lemma_checkpoints_map_origin(self.checkpoints@, current);
                        let t = choose|t: int| 0 <= t < self.checkpoints@.len() && self.checkpoints@[t] == #[trigger] checkpoints_map(self.checkpoints@)[current];
                        if cp.parents@.len() > 0 {
                            assert(self.checkpoints@[t].parents@[0] < self.checkpoints@[t].id);
                        }
                        assert(next == first_parent(m[current]));
                        assert(next < current);
                        assert(chain_to(m, finalized, current) == chain_to(m, finalized, next).push(current));
                        assert(chain_to(m, finalized, next).push(current) + p0.reverse() =~= chain_to(m, finalized, next) + pushed@.reverse());
                    }
                    current = next;
                },
                None => {
                    proof {
                        assert(chain_to(m, finalized, current) == seq![current]);
                    }
                    break;
                },
            }
        }
        let mut out: Vec<CheckpointId> = Vec::new();
        let mut k: usize = pushed.len();
        while k > 0
            invariant
                k <= pushed@.len(),
                out@ == pushed@.subrange(k as int, pushed@.len() as int).reverse(),
            decreases k,
        {
            k = k - 1;
            out.push(pushed[k]);
            assert(out@ =~= pushed@.subrange(k as int, pushed@.len() as int).reverse());
        }
        assert(pushed@.subrange(0, pushed@.len() as int) =~= pushed@);
        out
    }
}

impl Default for CheckpointManager {
    fn default() -> (m: Self)
        ensures
            m.wf(),
            m.checkpoints() == Map::<u64, Checkpoint>::empty(),
            m.vertices() == Map::<Seq<u8>, u64>::empty(),
            m.next_id_view() == 1,
            m.finalized_view() == 0,
    {
        CheckpointManager::new()
    }
}

/// `w` is `v` with the account's code set: the code stored under its hash
/// and the account pointing at it.
pub open spec fn code_set(v: StoreView, w: StoreView, a: Seq<u8>, code: Seq<u8>) -> bool {
    &&& account_in(w.accounts, a).code_hash.0@ == keccak256_spec(code)
    &&& w.accounts == v.accounts.insert(a, AccountState { code_hash: account_in(w.accounts, a).code_hash, ..account_in(v.accounts, a) })
    &&& w.code == v.code.insert(keccak256_spec(code), code)
    &&& w.slots == v.slots
}

/// `w` is `v` with a storage slot set; zero removes it.
pub open spec fn slot_set(v: StoreView, w: StoreView, a: Seq<u8>, k: int, x: int) -> bool {
    &&& w.slots == (if x == 0 { v.slots.remove((a, k)) } else { v.slots.insert((a, k), x) })
    &&& w.accounts == v.accounts
    &&& w.code == v.code
}

/// `w` is `v` with one account field replaced.
pub open spec fn account_set(v: StoreView, w: StoreView, a: Seq<u8>, acct: AccountState) -> bool {
    &&& w.accounts == v.accounts.insert(a, acct)
    &&& w.code == v.code
    &&& w.slots == v.slots
}

/// `w` is `v` without the account and its storage slots.
pub open spec fn account_removed(v: StoreView, w: StoreView, a: Seq<u8>) -> bool {
    &&& w.accounts == v.accounts.remove(a)
    &&& w.slots == slots_without(v.slots, a, None)
    &&& w.code == v.code
}

/// The two views hold the same accounts, code and slots.
pub open spec fn same_view(v: StoreView, w: StoreView) -> bool {
    w.accounts == v.accounts && w.code == v.code && w.slots == v.slots
}

/// `w` is `v` after one change, as its new values say.
pub open spec fn change_applied(v: StoreView, w: StoreView, c: StateChange) -> bool {
    match c {
        StateChange::BalanceChange { address, new_value, .. } =>
            account_set(v, w, address.0@, AccountState { balance: new_value, ..account_in(v.accounts, address.0@) }),
        StateChange::NonceChange { address, new_value, .. } =>
            account_set(v, w, address.0@, AccountState { nonce: new_value, ..account_in(v.accounts, address.0@) }),
        StateChange::CodeChange { address, new_code, .. } => code_set(v, w, address.0@, new_code@),
        StateChange::StorageChange { address, key, new_value, .. } => slot_set(v, w, address.0@, key.value(), new_value.value()),
        StateChange::AccountCreated { .. } => same_view(v, w),
        StateChange::AccountDeleted { address, .. } => account_removed(v, w, address.0@),
    }
}

/// `w` is `v` with one change undone, as its old values say.
pub open spec fn change_reverted(v: StoreView, w: StoreView, c: StateChange) -> bool {
    match c {
        StateChange::BalanceChange { address, old_value, .. } =>
            account_set(v, w, address.0@, AccountState { balance: old_value, ..account_in(v.accounts, address.0@) }),
        StateChange::NonceChange { address, old_value, .. } =>
            account_set(v, w, address.0@, AccountState { nonce: old_value, ..account_in(v.accounts, address.0@) }),
        StateChange::CodeChange { address, old_code, .. } => code_set(v, w, address.0@, old_code@),
        StateChange::StorageChange { address, key, old_value, .. } => slot_set(v, w, address.0@, key.value(), old_value.value()),
        StateChange::AccountCreated { address } => account_removed(v, w, address.0@),
        StateChange::AccountDeleted { address, balance, nonce } =>
            account_set(v, w, address.0@, AccountState { balance, nonce, ..account_in(v.accounts, address.0@) }),
    }
}

/// `ms` is the run of states through which the changes are applied, in order.
pub open spec fn apply_trace(ms: Seq<StoreView>, cs: Seq<StateChange>) -> bool {
    &&& ms.len() == cs.len() + 1
    &&& forall|i: int| 0 <= i < cs.len() ==> change_applied(ms[i], ms[i + 1], #[trigger] cs[i])
}

/// `ms` is the run of states through which the changes are undone, the last
/// one first.
pub open spec fn revert_trace(ms: Seq<StoreView>, cs: Seq<StateChange>) -> bool {
    &&& ms.len() == cs.len() + 1
    &&& forall|i: int| 0 <= i < cs.len() ==> change_reverted(#[trigger] ms[i], ms[i + 1], cs[cs.len() - 1 - i])
}

/// `w` is `v` after the changes, in order.
pub open spec fn changes_applied(v: StoreView, w: StoreView, cs: Seq<StateChange>) -> bool {
    exists|ms: Seq<StoreView>| #[trigger] apply_trace(ms, cs) && same_view(v, ms[0]) && same_view(ms.last(), w)
}

/// `w` is `v` with the changes undone, the last one first.
pub open spec fn changes_reverted(v: StoreView, w: StoreView, cs: Seq<StateChange>) -> bool {
    exists|ms: Seq<StoreView>| #[trigger] revert_trace(ms, cs) && same_view(v, ms[0]) && same_view(ms.last(), w)
}

/// A change of a balance, a nonce or a storage slot.
pub open spec fn value_change(c: StateChange) -> bool {
    c is BalanceChange || c is NonceChange || c is StorageChange
}

/// The balance of `a` after the changes over `v0`: the last one written.
pub open spec fn balance_after(v0: StoreView, cs: Seq<StateChange>, a: Seq<u8>) -> U256
    decreases cs.len(),
{
    if cs.len() == 0 {
        account_in(v0.accounts, a).balance
    } else {
        match cs.last() {
            StateChange::BalanceChange { address, new_value, .. } =>
                if address.0@ == a { new_value } else { balance_after(v0, cs.drop_last(), a) },
            _ => balance_after(v0, cs.drop_last(), a),
        }
    }
}

/// The nonce of `a` after the changes over `v0`: the last one written.
pub open spec fn nonce_after(v0: StoreView, cs: Seq<StateChange>, a: Seq<u8>) -> u64
    decreases cs.len(),
{
    if cs.len() == 0 {
        account_in(v0.accounts, a).nonce
    } else {
        match cs.last() {
            StateChange::NonceChange { address, new_value, .. } =>
                if address.0@ == a { new_value } else { nonce_after(v0, cs.drop_last(), a) },
            _ => nonce_after(v0, cs.drop_last(), a),
        }
    }
}

/// The value of slot `k` of `a` after the changes over `v0`: the last one written.
pub open spec fn slot_after(v0: StoreView, cs: Seq<StateChange>, a: Seq<u8>, k: int) -> int
    decreases cs.len(),
{
    if cs.len() == 0 {
        slot_in(v0.slots, a, k)
    } else {
        match cs.last() {
            StateChange::StorageChange { address, key, new_value, .. } =>
                if address.0@ == a && key.value() == k { new_value.value() } else { slot_after(v0, cs.drop_last(), a, k) },
            _ => slot_after(v0, cs.drop_last(), a, k),
        }
    }
}

/// The old value a change records is the one the earlier changes left.
pub open spec fn old_value_matches(v0: StoreView, prev: Seq<StateChange>, c: StateChange) -> bool {
    match c {
        StateChange::BalanceChange { address, old_value, .. } => old_value == balance_after(v0, prev, address.0@),
        StateChange::NonceChange { address, old_value, .. } => old_value == nonce_after(v0, prev, address.0@),
        StateChange::StorageChange { address, key, old_value, .. } =>
            old_value.value() == slot_after(v0, prev, address.0@, key.value()),
        _ => true,
    }
}

/// Every change records as old value what the earlier ones left over `v0`.
pub open spec fn consistent(v0: StoreView, cs: Seq<StateChange>) -> bool {
    forall|i: int| 0 <= i < cs.len() ==> old_value_matches(v0, cs.take(i), #[trigger] cs[i])
}

/// The balances, nonces and slots of `v` are those the changes leave over `v0`.
pub open spec fn values_after(v: StoreView, v0: StoreView, cs: Seq<StateChange>) -> bool {
    &&& forall|a: Seq<u8>| (#[trigger] account_in(v.accounts, a)).balance == balance_after(v0, cs, a)
            && account_in(v.accounts, a).nonce == nonce_after(v0, cs, a)
    &&& forall|a: Seq<u8>, k: int| #[trigger] slot_in(v.slots, a, k) == slot_after(v0, cs, a, k)
}

proof fn lemma_step_values(m: StoreView, w: StoreView, v0: StoreView, prev: Seq<StateChange>, c: StateChange, x: U256, n: u64, y: int, apply: bool)
    requires
        value_change(c),
        values_after(m, v0, prev),
        apply ==> change_applied(m, w, c),
        !apply ==> change_reverted(m, w, c),
        c matches StateChange::BalanceChange { old_value, new_value, .. } ==> x == (if apply { new_value } else { old_value }),
        c matches StateChange::NonceChange { old_value, new_value, .. } ==> n == (if apply { new_value } else { old_value }),
        c matches StateChange::StorageChange { old_value, new_value, .. } ==> y == (if apply { new_value.value() } else { old_value.value() }),
    ensures
        forall|a: Seq<u8>|
            (#[trigger] account_in(w.accounts, a)).balance == (match c {
                StateChange::BalanceChange { address, .. } => if address.0@ == a { x } else { balance_after(v0, prev, a) },
                _ => balance_after(v0, prev, a),
            })
            && account_in(w.accounts, a).nonce == (match c {
                StateChange::NonceChange { address, .. } => if address.0@ == a { n } else { nonce_after(v0, prev, a) },
                _ => nonce_after(v0, prev, a),
            }),
        forall|a: Seq<u8>, k: int| #[trigger] slot_in(w.slots, a, k) == (match c {
            StateChange::StorageChange { address, key, .. } => if address.0@ == a && key.value() == k { y } else { slot_after(v0, prev, a, k) },
            _ => slot_after(v0, prev, a, k),
        }),
{
    assert forall|a: Seq<u8>|
        (#[trigger] account_in(w.accounts, a)).balance == (match c {
            StateChange::BalanceChange { address, .. } => if address.0@ == a { x } else { balance_after(v0, prev, a) },
            _ => balance_after(v0, prev, a),
        })
        && account_in(w.accounts, a).nonce == (match c {
            StateChange::NonceChange { address, .. } => if address.0@ == a { n } else { nonce_after(v0, prev, a) },
            _ => nonce_after(v0, prev, a),
        }) by {
        let am = account_in(m.accounts, a);
        assert(am.balance == balance_after(v0, prev, a) && am.nonce == nonce_after(v0, prev, a));
        match c {
            StateChange::BalanceChange { address, .. } => {
                if address.0@ == a {
                    assert(account_in(w.accounts, a) == AccountState { balance: x, ..am });
                } else {
                    assert(account_in(w.accounts, a) == am);
                }
            },
            StateChange::NonceChange { address, .. } => {
                if address.0@ == a {
                    assert(account_in(w.accounts, a) == AccountState { nonce: n, ..am });
                } else {
                    assert(account_in(w.accounts, a) == am);
                }
            },
            _ => {
                assert(account_in(w.accounts, a) == am);
            },
        }
    }
    assert forall|a: Seq<u8>, k: int| #[trigger] slot_in(w.slots, a, k) == (match c {
        StateChange::StorageChange { address, key, .. } => if address.0@ == a && key.value() == k { y } else { slot_after(v0, prev, a, k) },
        _ => slot_after(v0, prev, a, k),
    }) by {
        assert(slot_in(m.slots, a, k) == slot_after(v0, prev, a, k));
    }
}

/// The value a change writes when applied (`apply`) or undone, as the three
/// kinds of value.
pub open spec fn written(c: StateChange, apply: bool) -> (U256, u64, int) {
    match c {
        StateChange::BalanceChange { old_value, new_value, .. } => (if apply { new_value } else { old_value }, 0, 0),
        StateChange::NonceChange { old_value, new_value, .. } => (U256([0, 0, 0, 0]), if apply { new_value } else { old_value }, 0),
        StateChange::StorageChange { old_value, new_value, .. } =>
            (U256([0, 0, 0, 0]), 0, if apply { new_value.value() } else { old_value.value() }),
        _ => (U256([0, 0, 0, 0]), 0, 0),
    }
}

proof fn lemma_apply_values_upto(ms: Seq<StoreView>, cs: Seq<StateChange>, v0: StoreView, j: int)
    requires
        apply_trace(ms, cs),
        same_view(v0, ms[0]),
        forall|i: int| 0 <= i < cs.len() ==> value_change(#[trigger] cs[i]),
        0 <= j <= cs.len(),
    ensures values_after(ms[j], v0, cs.take(j)),
    decreases j,
{
    if j == 0 {
        assert(cs.take(0) =~= Seq::<StateChange>::empty());
    } else {
        lemma_apply_values_upto(ms, cs, v0, j - 1);
        let c = cs[j - 1];
        assert(change_applied(ms[j - 1], ms[j], c));
        let t = cs.take(j);
        assert(t.drop_last() =~= cs.take(j - 1));
        assert(t.last() == c);
        let wr = written(c, true);
        lemma_step_values(ms[j - 1], ms[j], v0, cs.take(j - 1), c, wr.0, wr.1, wr.2, true);
        assert forall|a: Seq<u8>| (#[trigger] account_in(ms[j].accounts, a)).balance == balance_after(v0, t, a)
            && account_in(ms[j].accounts, a).nonce == nonce_after(v0, t, a) by {}
        assert forall|a: Seq<u8>, k: int| #[trigger] slot_in(ms[j].slots, a, k) == slot_after(v0, t, a, k) by {}
    }
}

proof fn lemma_revert_values_upto(rs: Seq<StoreView>, cs: Seq<StateChange>, v0: StoreView, j: int)
    requires
        revert_trace(rs, cs),
        values_after(rs[0], v0, cs),
        consistent(v0, cs),
        forall|i: int| 0 <= i < cs.len() ==> value_change(#[trigger] cs[i]),
        0 <= j <= cs.len(),
    ensures values_after(rs[j], v0, cs.take(cs.len() - j)),
    decreases j,
{
    if j == 0 {
        assert(cs.take(cs.len() as int) =~= cs);
    } else {
        lemma_revert_values_upto(rs, cs, v0, j - 1);
        let n = cs.len() - j + 1;
        let c = cs[n - 1];
        assert(change_reverted(rs[j - 1], rs[j], cs[cs.len() - 1 - (j - 1)]));
        let t = cs.take(n);
        let p = cs.take(n - 1);
        assert(t.drop_last() =~= p);
        assert(t.last() == c);
        assert(old_value_matches(v0, p, c));
        let wr = written(c, false);
        lemma_step_values(rs[j - 1], rs[j], v0, t, c, wr.0, wr.1, wr.2, false);
        assert(cs.take(cs.len() - j) == p);
        assert forall|a: Seq<u8>| (#[trigger] account_in(rs[j].accounts, a)).balance == balance_after(v0, p, a)
            && account_in(rs[j].accounts, a).nonce == nonce_after(v0, p, a) by {
            assert(balance_after(v0, t, a) == match c {
                StateChange::BalanceChange { address, new_value, .. } => if address.0@ == a { new_value } else { balance_after(v0, p, a) },
                _ => balance_after(v0, p, a),
            });
            assert(nonce_after(v0, t, a) == match c {
                StateChange::NonceChange { address, new_value, .. } => if address.0@ == a { new_value } else { nonce_after(v0, p, a) },
                _ => nonce_after(v0, p, a),
            });
        }
        assert forall|a: Seq<u8>, k: int| #[trigger] slot_in(rs[j].slots, a, k) == slot_after(v0, p, a, k) by {
            assert(slot_after(v0, t, a, k) == match c {
                StateChange::StorageChange { address, key, new_value, .. } =>
                    if address.0@ == a && key.value() == k { new_value.value() } else { slot_after(v0, p, a, k) },
                _ => slot_after(v0, p, a, k),
            });
        }
    }
}

/// Applying changes of balances, nonces and slots leaves each of them at the
/// last value written for it, and the others as they were.
pub proof fn lemma_apply_sets_values(v0: StoreView, v1: StoreView, cs: Seq<StateChange>)
    requires
        forall|i: int| 0 <= i < cs.len() ==> value_change(#[trigger] cs[i]),
        changes_applied(v0, v1, cs),
    ensures values_after(v1, v0, cs),
{
    let ms = choose|ms: Seq<StoreView>| #[trigger] apply_trace(ms, cs) && same_view(v0, ms[0]) && same_view(ms.last(), v1);
    lemma_apply_values_upto(ms, cs, v0, cs.len() as int);
    assert(cs.take(cs.len() as int) =~= cs);
    assert(ms.last() == ms[cs.len() as int]);
}

/// Undoing changes right after applying them restores every balance, nonce
/// and storage slot, when the changes touch only those and each records as
/// old value the one the earlier changes left.
pub proof fn lemma_revert_restores_values(v0: StoreView, v1: StoreView, v2: StoreView, cs: Seq<StateChange>)
    requires
        forall|i: int| 0 <= i < cs.len() ==> value_change(#[trigger] cs[i]),
        consistent(v0, cs),
        changes_applied(v0, v1, cs),
        changes_reverted(v1, v2, cs),
    ensures
        forall|a: Seq<u8>| #[trigger] account_in(v2.accounts, a).balance == account_in(v0.accounts, a).balance,
        forall|a: Seq<u8>| #[trigger] account_in(v2.accounts, a).nonce == account_in(v0.accounts, a).nonce,
        forall|a: Seq<u8>, k: int| #[trigger] slot_in(v2.slots, a, k) == slot_in(v0.slots, a, k),
{
    lemma_apply_sets_values(v0, v1, cs);
    let rs = choose|rs: Seq<StoreView>| #[trigger] revert_trace(rs, cs) && same_view(v1, rs[0]) && same_view(rs.last(), v2);
    assert(values_after(rs[0], v0, cs)) by {
        assert forall|a: Seq<u8>| (#[trigger] account_in(rs[0].accounts, a)).balance == balance_after(v0, cs, a)
            && account_in(rs[0].accounts, a).nonce == nonce_after(v0, cs, a) by {
            assert(account_in(rs[0].accounts, a) == account_in(v1.accounts, a));
        }
        assert forall|a: Seq<u8>, k: int| #[trigger] slot_in(rs[0].slots, a, k) == slot_after(v0, cs, a, k) by {
            assert(slot_in(rs[0].slots, a, k) == slot_in(v1.slots, a, k));
        }
    }
    lemma_revert_values_upto(rs, cs, v0, cs.len() as int);
    assert(cs.take(0) =~= Seq::<StateChange>::empty());
    assert(rs.last() == rs[cs.len() as int]);
    assert forall|a: Seq<u8>| #[trigger] account_in(v2.accounts, a).balance == account_in(v0.accounts, a).balance by {
        assert(account_in(v2.accounts, a) == account_in(rs[cs.len() as int].accounts, a));
    }
    assert forall|a: Seq<u8>| #[trigger] account_in(v2.accounts, a).nonce == account_in(v0.accounts, a).nonce by {
        assert(account_in(v2.accounts, a) == account_in(rs[cs.len() as int].accounts, a));
    }
    assert forall|a: Seq<u8>, k: int| #[trigger] slot_in(v2.slots, a, k) == slot_in(v0.slots, a, k) by {
        assert(slot_in(v2.slots, a, k) == slot_in(rs[cs.len() as int].slots, a, k));
    }
}

} // verus!

verus! {

/// Applies the changes of a checkpoint to the state, in order; fails,
/// changing nothing, when there is no checkpoint with that id.
impl CheckpointManager {
    pub fn apply_checkpoint(&self, state: &mut StateDb, id: CheckpointId) -> (r: StateResult<()>)
        requires old(state).wf(),
        ensures
            final(state).wf(),
            r is Ok <==> self.checkpoints().contains_key(id),
            r is Ok ==> changes_applied(old(state).view(), final(state).view(), self.checkpoints()[id].changes@),
            r is Err ==> same_view(old(state).view(), final(state).view()) && r matches Err(StateError::Checkpoint(_)),
            final(state).root_view() == old(state).root_view(),
    {
        let cp = match self.get_checkpoint(id) {
            Some(c) => c,
            None => { return Err(StateError::Checkpoint("Checkpoint not found".to_owned())); },
        };
        let ghost v0 = state.view();
        let ghost cs = cp.changes@;
        let ghost mut tr: Seq<StoreView> = seq![v0];
        let mut i: usize = 0;
        while i < cp.changes.len()
            invariant
                cs == cp.changes@,
                i <= cs.len(),
                state.wf(),
                apply_trace(tr, cs.subrange(0, i as int)),
                tr[0] == v0,
                tr.last() == state.view(),
                state.root_view() == old(state).root_view(),
            decreases cs.len() - i,
        {
            let ghost before = state.view();
            match &cp.changes[i] {
                StateChange::BalanceChange { address, new_value, .. } => { state.set_balance(address, *new_value); },
                StateChange::NonceChange { address, new_value, .. } => { state.set_nonce(address, *new_value); },
                StateChange::CodeChange { address, new_code, .. } => {
                    state.set_code(address, vstd::slice::slice_to_vec(new_code.as_slice()));
                },
                StateChange::StorageChange { address, key, new_value, .. } => { state.set_storage(address, *key, *new_value); },
                StateChange::AccountCreated { .. } => {},
                StateChange::AccountDeleted { address, .. } => { state.delete_account(address); },
            }
            proof {
                assert(change_applied(before, state.view(), cs[i as int]));
                let t0 = tr;
                tr = tr.push(state.view());
                let sub = cs.subrange(0, i + 1);
                assert forall|k: int| 0 <= k < sub.len() implies change_applied(tr[k], tr[k + 1], #[trigger] sub[k]) by {
                    if k < i {
                        assert(sub[k] == cs.subrange(0, i as int)[k]);
                        assert(tr[k] == t0[k] && tr[k + 1] == t0[k + 1]);
                    } else {
                        assert(tr[k] == before);
                    }
                }
            }
            i = i + 1;
        }
        proof {
            assert(cs.subrange(0, i as int) =~= cs);
            assert(apply_trace(tr, cs) && same_view(v0, tr[0]) && same_view(tr.last(), state.view()));
        }
        Ok(())
    }

    /// Undoes the changes of a checkpoint, the last one first, writing their
    /// old values; fails, changing nothing, when there is no checkpoint with
    /// that id.
    pub fn revert_checkpoint(&self, state: &mut StateDb, id: CheckpointId) -> (r: StateResult<()>)
        requires old(state).wf(),
        ensures
            final(state).wf(),
            r is Ok <==> self.checkpoints().contains_key(id),
            r is Ok ==> changes_reverted(old(state).view(), final(state).view(), self.checkpoints()[id].changes@),
            r is Err ==> same_view(old(state).view(), final(state).view()) && r matches Err(StateError::Checkpoint(_)),
            final(state).root_view() == old(state).root_view(),
    {
        let cp = match self.get_checkpoint(id) {
            Some(c) => c,
            None => { return Err(StateError::Checkpoint("Checkpoint not found".to_owned())); },
        };
        let ghost v0 = state.view();
        let ghost cs = cp.changes@;
        let ghost mut tr: Seq<StoreView> = seq![v0];
        let mut i: usize = cp.changes.len();
        while i > 0
            invariant
                cs == cp.changes@,
                i <= cs.len(),
                state.wf(),
                revert_trace(tr, cs.subrange(i as int, cs.len() as int)),
                tr[0] == v0,
                tr.last() == state.view(),
                state.root_view() == old(state).root_view(),
            decreases i,
        {
            i = i - 1;
            let ghost before = state.view();
            match &cp.changes[i] {
                StateChange::BalanceChange { address, old_value, .. } => { state.set_balance(address, *old_value); },
                StateChange::NonceChange { address, old_value, .. } => { state.set_nonce(address, *old_value); },
                StateChange::CodeChange { address, old_code, .. } => {
                    state.set_code(address, vstd::slice::slice_to_vec(old_code.as_slice()));
                },
                StateChange::StorageChange { address, key, old_value, .. } => { state.set_storage(address, *key, *old_value); },
                StateChange::AccountCreated { address } => { state.delete_account(address); },
                StateChange::AccountDeleted { address, balance, nonce } => {
                    let ghost a0 = state.view().accounts;
                    state.set_balance(address, *balance);
                    state.set_nonce(address, *nonce);
                    proof {
                        assert(state.view().accounts =~= a0.insert(address.0@,
                            AccountState { balance: *balance, nonce: *nonce, ..account_in(a0, address.0@) }));
                    }
                },
            }
            proof {
                assert(change_reverted(before, state.view(), cs[i as int]));
                let t0 = tr;
                let s0 = cs.subrange(i + 1, cs.len() as int);
                tr = tr.push(state.view());
                let sub = cs.subrange(i as int, cs.len() as int);
                assert forall|k: int| 0 <= k < sub.len() implies change_reverted(#[trigger] tr[k], tr[k + 1], sub[sub.len() - 1 - k]) by {
                    if k < s0.len() {
                        assert(sub[sub.len() - 1 - k] == s0[s0.len() - 1 - k]);
                        assert(tr[k] == t0[k] && tr[k + 1] == t0[k + 1]);
                        assert(change_reverted(t0[k], t0[k + 1], s0[s0.len() - 1 - k]));
                    } else {
                        assert(tr[k] == before);
                        assert(sub[sub.len() - 1 - k] == cs[i as int]);
                    }
                }
            }
        }
        proof {
            assert(cs.subrange(0, cs.len() as int) =~= cs);
            assert(revert_trace(tr, cs) && same_view(v0, tr[0]) && same_view(tr.last(), state.view()));
        }
        Ok(())
    }
}

} // verus!
