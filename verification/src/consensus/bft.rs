//! The BFT finality rounds: a proposal, prepare votes until more than two
//! thirds of the active stake has prepared (the round locks on the vertex),
//! commit votes until more than two thirds has committed (the vertex is
//! final and the view advances), and view changes.
use vstd::prelude::*;
use crate::consensus::ConsensusError;
use crate::consensus::validator::{ValidatorSet, ValidatorView, ValidatorKeys, has_address, eligible_of, signature_over};
use crate::consensus::pos::{member_with, prefix_stake, address_debug};
use crate::evm::state::{le_bytes_u64, le_u64_bytes};
use crate::primitives::address::{Address, push_all};
use crate::primitives::hashing::{keccak256, keccak256_spec};
use crate::primitives::text::{u64_to_decimal, dec_digits, str_to_chars, chars_to_string};
use crate::primitives::crypto::be_value;

verus! {

type VHash = crate::primitives::types::Hash;

/// A proposal of a vertex for a view.
pub struct Proposal {
    pub proposer: Address,
    pub view: u64,
    pub epoch: u64,
    pub vertex_hash: VHash,
    /// The vertex's parents in the DAG.
    pub parents: Vec<VHash>,
    pub signature: Vec<u8>,
}

/// The hashes one after another.
pub open spec fn concat_hashes(hs: Seq<VHash>) -> Seq<u8>
    decreases hs.len(),
{
    if hs.len() == 0 { Seq::empty() } else { concat_hashes(hs.drop_last()) + hs.last().0@ }
}

/// The bytes a proposal's signing hash is taken of: view and epoch
/// (little-endian), the vertex hash, then the parents.
pub open spec fn proposal_preimage(view: u64, epoch: u64, vertex: Seq<u8>, parents: Seq<VHash>) -> Seq<u8> {
    le_bytes_u64(view) + le_bytes_u64(epoch) + vertex + concat_hashes(parents)
}

/// The bytes a vote's signing hash is taken of: a tag (1 for prepare, 2 for
/// commit), the view (little-endian) and the vertex hash.
pub open spec fn vote_preimage(tag: u8, view: u64, vertex: Seq<u8>) -> Seq<u8> {
    seq![tag] + le_bytes_u64(view) + vertex
}

fn vote_hash(tag: u8, view: u64, vertex: &VHash) -> (r: VHash)
    ensures r.0@ == keccak256_spec(vote_preimage(tag, view, vertex.0@)),
{
    let mut data: Vec<u8> = Vec::new();
    data.push(tag);
    push_all(&mut data, le_u64_bytes(view).as_slice());
    push_all(&mut data, vertex.0.as_slice());
    assert(data@ =~= vote_preimage(tag, view, vertex.0@));
    crate::primitives::types::Hash(keccak256(data.as_slice()))
}

impl Proposal {
    /// Keccak-256 of view, epoch, vertex hash and parents.
    pub fn signing_hash(&self) -> (r: VHash)
        ensures r.0@ == keccak256_spec(proposal_preimage(self.view, self.epoch, self.vertex_hash.0@, self.parents@)),
    {
        let mut data: Vec<u8> = Vec::new();
        push_all(&mut data, le_u64_bytes(self.view).as_slice());
        push_all(&mut data, le_u64_bytes(self.epoch).as_slice());
        push_all(&mut data, self.vertex_hash.0.as_slice());
        let ghost base = data@;
        let mut i: usize = 0;
        assert(self.parents@.take(0) =~= Seq::<VHash>::empty());
        while i < self.parents.len()
            invariant
                i <= self.parents@.len(),
                data@ == base + concat_hashes(self.parents@.take(i as int)),
            decreases self.parents@.len() - i,
        {
            assert(self.parents@.take(i + 1).drop_last() =~= self.parents@.take(i as int));
            push_all(&mut data, self.parents[i].0.as_slice());
            assert(data@ =~= base + concat_hashes(self.parents@.take(i + 1)));
            i = i + 1;
        }
        assert(self.parents@.take(i as int) =~= self.parents@);
        assert(data@ =~= proposal_preimage(self.view, self.epoch, self.vertex_hash.0@, self.parents@));
        crate::primitives::types::Hash(keccak256(data.as_slice()))
    }

    /// A copy of the proposal.
    pub fn duplicate(&self) -> (r: Self)
        ensures
            r.proposer == self.proposer && r.view == self.view && r.epoch == self.epoch && r.vertex_hash == self.vertex_hash,
            r.parents@ == self.parents@ && r.signature@ == self.signature@,
    {
        Proposal {
            proposer: self.proposer,
            view: self.view,
            epoch: self.epoch,
            vertex_hash: self.vertex_hash,
            parents: self.parents.clone(),
            signature: self.signature.clone(),
        }
    }
}

/// A prepare vote.
pub struct PrepareVote {
    pub voter: Address,
    pub view: u64,
    pub vertex_hash: VHash,
    pub signature: Vec<u8>,
}

impl PrepareVote {
    /// Keccak-256 of the prepare tag, the view and the vertex hash.
    pub fn signing_hash(&self) -> (r: VHash)
        ensures r.0@ == keccak256_spec(vote_preimage(1, self.view, self.vertex_hash.0@)),
    {
        vote_hash(1, self.view, &self.vertex_hash)
    }
}

/// A commit vote.
pub struct CommitVote {
    pub voter: Address,
    pub view: u64,
    pub vertex_hash: VHash,
    pub signature: Vec<u8>,
}

impl CommitVote {
    /// Keccak-256 of the commit tag, the view and the vertex hash.
    pub fn signing_hash(&self) -> (r: VHash)
        ensures r.0@ == keccak256_spec(vote_preimage(2, self.view, self.vertex_hash.0@)),
    {
        vote_hash(2, self.view, &self.vertex_hash)
    }

    /// A copy of the vote.
    pub fn duplicate(&self) -> (r: Self)
        ensures r.voter == self.voter && r.view == self.view && r.vertex_hash == self.vertex_hash && r.signature@ == self.signature@,
    {
        CommitVote { voter: self.voter, view: self.view, vertex_hash: self.vertex_hash, signature: self.signature.clone() }
    }
}

/// A request to move to a new view.
pub struct ViewChangeRequest {
    pub requester: Address,
    pub new_view: u64,
    /// The vertex the requester is locked on.
    pub last_prepared: Option<VHash>,
    pub signature: Vec<u8>,
}

/// The announcement of a new view by its leader.
pub struct NewViewMessage {
    pub leader: Address,
    pub view: u64,
    pub view_changes: Vec<ViewChangeRequest>,
    pub signature: Vec<u8>,
}

/// The messages of the protocol.
pub enum BftMessage {
    Proposal(Proposal),
    Prepare(PrepareVote),
    Commit(CommitVote),
    ViewChange(ViewChangeRequest),
    NewView(NewViewMessage),
}

/// The phase of a round.
#[derive(Clone, Copy, Debug, PartialEq, Eq, Structural)]
pub enum BftPhase {
    /// Waiting for a proposal.
    NewRound,
    /// Collecting prepare votes.
    Prepare,
    /// Collecting commit votes.
    Commit,
    /// The vertex is final.
    Finalized,
}

/// The state of the current round.
pub struct BftRoundState {
    pub view: u64,
    pub epoch: u64,
    pub phase: BftPhase,
    pub proposal: Option<Proposal>,
    /// Prepare votes, one per voter.
    pub prepare_votes: Vec<PrepareVote>,
    /// Commit votes, one per voter.
    pub commit_votes: Vec<CommitVote>,
    /// The vertex the round locked on once prepared.
    pub locked_vertex: Option<VHash>,
    pub locked_view: u64,
}

impl Default for BftRoundState {
    fn default() -> (r: Self)
        ensures
            r.view == 0 && r.epoch == 0 && r.phase == BftPhase::NewRound && r.proposal is None,
            r.prepare_votes@.len() == 0 && r.commit_votes@.len() == 0,
            r.locked_vertex is None && r.locked_view == 0,
    {
        BftRoundState {
            view: 0,
            epoch: 0,
            phase: BftPhase::NewRound,
            proposal: None,
            prepare_votes: Vec::new(),
            commit_votes: Vec::new(),
            locked_vertex: None,
            locked_view: 0,
        }
    }
}

/// Some prepare vote is by `a`.
pub open spec fn prepared_by(v: Seq<PrepareVote>, a: Seq<u8>) -> bool {
    exists|i: int| 0 <= i < v.len() && (#[trigger] v[i]).voter.0@ == a
}

/// Some commit vote is by `a`.
pub open spec fn committed_by(v: Seq<CommitVote>, a: Seq<u8>) -> bool {
    exists|i: int| 0 <= i < v.len() && (#[trigger] v[i]).voter.0@ == a
}

/// Each voter votes once in each phase.
pub open spec fn round_wf(s: BftRoundState) -> bool {
    &&& forall|i: int, j: int| 0 <= i < j < s.prepare_votes@.len() ==> (#[trigger] s.prepare_votes@[i]).voter.0@ != (#[trigger] s.prepare_votes@[j]).voter.0@
    &&& forall|i: int, j: int| 0 <= i < j < s.commit_votes@.len() ==> (#[trigger] s.commit_votes@[i]).voter.0@ != (#[trigger] s.commit_votes@[j]).voter.0@
}

/// The stake of the validator with address `a`; none for others.
pub open spec fn stake_of(m: Seq<ValidatorView>, a: Seq<u8>) -> int {
    if has_address(m, a) { member_with(m, a).stake as int } else { 0 }
}

/// The stake behind prepare votes.
pub open spec fn prepare_stake(v: Seq<PrepareVote>, m: Seq<ValidatorView>, h: Seq<u8>) -> int
    decreases v.len(),
{
    if v.len() == 0 {
        0
    } else if v.last().vertex_hash.0@ == h {
        prepare_stake(v.drop_last(), m, h) + stake_of(m, v.last().voter.0@)
    } else {
        prepare_stake(v.drop_last(), m, h)
    }
}

/// The stake behind the commit votes for vertex `h`.
pub open spec fn commit_stake_for(v: Seq<CommitVote>, m: Seq<ValidatorView>, h: Seq<u8>) -> int
    decreases v.len(),
{
    if v.len() == 0 {
        0
    } else if v.last().vertex_hash.0@ == h {
        commit_stake_for(v.drop_last(), m, h) + stake_of(m, v.last().voter.0@)
    } else {
        commit_stake_for(v.drop_last(), m, h)
    }
}

/// The stake behind commit votes.
pub open spec fn commit_stake(v: Seq<CommitVote>, m: Seq<ValidatorView>) -> int
    decreases v.len(),
{
    if v.len() == 0 { 0 } else { commit_stake(v.drop_last(), m) + stake_of(m, v.last().voter.0@) }
}

/// The stake behind view change requests, each request counted.
pub open spec fn request_stake(v: Seq<ViewChangeRequest>, m: Seq<ValidatorView>) -> int
    decreases v.len(),
{
    if v.len() == 0 { 0 } else { request_stake(v.drop_last(), m) + stake_of(m, v.last().requester.0@) }
}

/// More than two thirds of the active stake.
pub open spec fn supermajority(stake: int, active: int) -> bool {
    stake * 3 > active * 2
}

/// The commit votes for vertex `h`, in order.
pub open spec fn commits_for(v: Seq<CommitVote>, h: Seq<u8>) -> Seq<CommitVote>
    decreases v.len(),
{
    if v.len() == 0 {
        v
    } else if v.last().vertex_hash.0@ == h {
        commits_for(v.drop_last(), h).push(v.last())
    } else {
        commits_for(v.drop_last(), h)
    }
}

/// The view change requests for view `view`, in order.
pub open spec fn requests_for(vc: Seq<ViewChangeRequest>, view: u64) -> Seq<ViewChangeRequest>
    decreases vc.len(),
{
    if vc.len() == 0 {
        vc
    } else if vc.last().new_view == view {
        requests_for(vc.drop_last(), view).push(vc.last())
    } else {
        requests_for(vc.drop_last(), view)
    }
}

/// The result of a commit, without the vertex.
pub open spec fn unit_of(rc: Result<Option<VHash>, ConsensusError>) -> Result<(), ConsensusError> {
    match rc {
        Ok(_) => Ok(()),
        Err(e) => Err(e),
    }
}

/// `s1` is `s0` moved to view `view` in a fresh round.
pub open spec fn advanced(s0: BftRoundState, s1: BftRoundState, view: u64) -> bool {
    &&& s1.view == view && s1.phase == BftPhase::NewRound && s1.proposal is None
    &&& s1.prepare_votes@.len() == 0 && s1.commit_votes@.len() == 0
    &&& s1.epoch == s0.epoch && s1.locked_vertex == s0.locked_vertex && s1.locked_view == s0.locked_view
}

/// The keys, validator set and view change requests are the same.
pub open spec fn same_engine(a: BftConsensus, b: BftConsensus) -> bool {
    a.keys_spec() == b.keys_spec() && a.set_spec() == b.set_spec() && a.vc_spec() == b.vc_spec()
}

/// A proposal for `vh` would conflict with the vertex the round is locked
/// on.
pub open spec fn conflicts_with_lock(s: BftRoundState, vh: Seq<u8>, view: u64) -> bool {
    s.locked_vertex matches Some(l) && l.0@ != vh && view <= s.locked_view
}

/// The commit vote this validator casts for `vh` in `e`'s view.
pub open spec fn own_commit(e: BftConsensus, cv: CommitVote, vh: Seq<u8>) -> bool {
    &&& cv.voter == e.me() && cv.view == e.state_spec().view && cv.vertex_hash.0@ == vh
    &&& cv.signature@ == signature_over(e.keys_spec().scalar(), keccak256_spec(vote_preimage(2, e.state_spec().view, vh)))
}

/// The prepare vote this validator casts for `vh` in `e`'s view.
pub open spec fn own_prepare(e: BftConsensus, pv: PrepareVote, vh: Seq<u8>) -> bool {
    &&& pv.voter == e.me() && pv.view == e.state_spec().view && pv.vertex_hash.0@ == vh
    &&& pv.signature@ == signature_over(e.keys_spec().scalar(), keccak256_spec(vote_preimage(1, e.state_spec().view, vh)))
}

/// The effect of a commit vote on an engine.
pub open spec fn commit_step(pre: BftConsensus, vote: CommitVote, post: BftConsensus, r: Result<Option<VHash>, ConsensusError>) -> bool {
    let m = pre.set_spec().members();
    let s0 = pre.state_spec();
    let s1 = post.state_spec();
    if !has_address(m, vote.voter.0@) {
        (r matches Err(ConsensusError::UnknownValidator(_))) && post == pre
    } else if s0.phase != BftPhase::Commit {
        r == Ok::<Option<VHash>, ConsensusError>(None) && post == pre
    } else if committed_by(s0.commit_votes@, vote.voter.0@) {
        r == Err::<Option<VHash>, ConsensusError>(ConsensusError::DuplicateVote) && post == pre
    } else {
        let votes = s0.commit_votes@.push(vote);
        &&& same_engine(pre, post)
        &&& if supermajority(commit_stake_for(votes, m, vote.vertex_hash.0@), pre.set_spec().active_stake_spec() as int) {
            &&& r == Ok::<Option<VHash>, ConsensusError>(Some(vote.vertex_hash))
            &&& post.finalized_spec() == pre.finalized_spec().insert(vote.vertex_hash.0@)
            &&& advanced(s0, s1, (s0.view + 1) as u64)
        } else {
            &&& r == Ok::<Option<VHash>, ConsensusError>(None)
            &&& post.finalized_spec() == pre.finalized_spec()
            &&& s1.view == s0.view && s1.epoch == s0.epoch && s1.phase == s0.phase && s1.proposal == s0.proposal
            &&& s1.prepare_votes@ == s0.prepare_votes@ && s1.commit_votes@ == votes
            &&& s1.locked_vertex == s0.locked_vertex && s1.locked_view == s0.locked_view
        }
    }
}

/// The round locked on a prepared vertex: `mid` is `pre` with the prepare
/// vote added, the lock taken and the phase moved to commit.
pub open spec fn lock_step(pre: BftConsensus, vote: PrepareVote, mid: BftConsensus) -> bool {
    let s0 = pre.state_spec();
    let s1 = mid.state_spec();
    &&& same_engine(pre, mid) && mid.finalized_spec() == pre.finalized_spec()
    &&& s1.prepare_votes@ == s0.prepare_votes@.push(vote)
    &&& s1.locked_vertex == Some(vote.vertex_hash) && s1.locked_view == s0.view && s1.phase == BftPhase::Commit
    &&& s1.view == s0.view && s1.epoch == s0.epoch && s1.proposal == s0.proposal && s1.commit_votes@ == s0.commit_votes@
}

/// The effect of a prepare vote on an engine.
pub open spec fn prepare_step(pre: BftConsensus, vote: PrepareVote, post: BftConsensus, r: Result<(), ConsensusError>) -> bool {
    let m = pre.set_spec().members();
    let s0 = pre.state_spec();
    let s1 = post.state_spec();
    if !has_address(m, vote.voter.0@) {
        (r matches Err(ConsensusError::UnknownValidator(_))) && post == pre
    } else if s0.phase != BftPhase::Prepare {
        r == Ok::<(), ConsensusError>(()) && post == pre
    } else if prepared_by(s0.prepare_votes@, vote.voter.0@) {
        r == Err::<(), ConsensusError>(ConsensusError::DuplicateVote) && post == pre
    } else {
        let votes = s0.prepare_votes@.push(vote);
        if supermajority(prepare_stake(votes, m, vote.vertex_hash.0@), pre.set_spec().active_stake_spec() as int) {
            exists|mid: BftConsensus, cv: CommitVote, rc: Result<Option<VHash>, ConsensusError>|
                lock_step(pre, vote, mid) && own_commit(mid, cv, vote.vertex_hash.0@)
                && #[trigger] commit_step(mid, cv, post, rc) && r == unit_of(rc)
        } else {
            &&& r == Ok::<(), ConsensusError>(())
            &&& same_engine(pre, post) && post.finalized_spec() == pre.finalized_spec()
            &&& s1.prepare_votes@ == votes
            &&& s1.view == s0.view && s1.epoch == s0.epoch && s1.phase == s0.phase && s1.proposal == s0.proposal
            &&& s1.commit_votes@ == s0.commit_votes@ && s1.locked_vertex == s0.locked_vertex && s1.locked_view == s0.locked_view
        }
    }
}

/// A proposal for `vh` was accepted: the round holds it and collects
/// prepare votes.
pub open spec fn accepted(pre: BftConsensus, mid: BftConsensus, vh: VHash) -> bool {
    let s0 = pre.state_spec();
    let s1 = mid.state_spec();
    &&& same_engine(pre, mid) && mid.finalized_spec() == pre.finalized_spec()
    &&& s1.proposal matches Some(p) && p.vertex_hash == vh && p.view == s0.view
    &&& s1.phase == BftPhase::Prepare
    &&& s1.view == s0.view && s1.epoch == s0.epoch
    &&& s1.prepare_votes@ == s0.prepare_votes@ && s1.commit_votes@ == s0.commit_votes@
    &&& s1.locked_vertex == s0.locked_vertex && s1.locked_view == s0.locked_view
}

/// The effect of a view change request on an engine.
pub open spec fn view_change_step(pre: BftConsensus, req: ViewChangeRequest, post: BftConsensus, r: Result<(), ConsensusError>) -> bool {
    let m = pre.set_spec().members();
    if !has_address(m, req.requester.0@) {
        (r matches Err(ConsensusError::UnknownValidator(_))) && post == pre
    } else {
        let reqs = requests_for(pre.vc_spec().push(req), req.new_view);
        &&& r == Ok::<(), ConsensusError>(())
        &&& post.keys_spec() == pre.keys_spec() && post.set_spec() == pre.set_spec()
        &&& post.finalized_spec() == pre.finalized_spec()
        &&& post.vc_spec() == pre.vc_spec().push(req)
        &&& if supermajority(request_stake(reqs, m), pre.set_spec().active_stake_spec() as int) {
            advanced(pre.state_spec(), post.state_spec(), req.new_view)
        } else {
            post.state_spec() == pre.state_spec()
        }
    }
}

/// The stake-weighted walk: the first validator whose running stake total,
/// from `cum`, passes `target`.
pub open spec fn stake_walk(s: Seq<ValidatorView>, cum: int, target: int) -> Option<Seq<u8>>
    decreases s.len(),
{
    if s.len() == 0 {
        None
    } else if cum + s[0].stake > target {
        Some(s[0].address)
    } else {
        stake_walk(s.drop_first(), cum + s[0].stake, target)
    }
}

/// The BFT engine of one validator.
pub struct BftConsensus {
    keys: ValidatorKeys,
    validator_set: ValidatorSet,
    state: BftRoundState,
    /// Finalized vertices, each once.
    finalized: Vec<VHash>,
    /// View change requests, in arrival order.
    view_change_votes: Vec<ViewChangeRequest>,
}

impl BftConsensus {
    pub closed spec fn keys_spec(&self) -> ValidatorKeys { self.keys }
    pub closed spec fn set_spec(&self) -> ValidatorSet { self.validator_set }
    pub closed spec fn state_spec(&self) -> BftRoundState { self.state }
    pub closed spec fn vc_spec(&self) -> Seq<ViewChangeRequest> { self.view_change_votes@ }

    /// The finalized vertices.
    pub closed spec fn finalized_spec(&self) -> Set<Seq<u8>> {
        Set::new(|h: Seq<u8>| exists|i: int| 0 <= i < self.finalized@.len() && (#[trigger] self.finalized@[i]).0@ == h)
    }

    /// The set's addresses are unique and its active stake fits in 64 bits;
    /// each voter votes once per phase.
    pub open spec fn wf(&self) -> bool {
        &&& self.set_spec().wf()
        &&& self.set_spec().active_stake_spec() <= u64::MAX
        &&& round_wf(self.state_spec())
        &&& self.keys_spec().wf()
    }

    /// The active validators of the set's epoch.
    pub open spec fn active_spec(&self) -> Seq<ValidatorView> {
        eligible_of(self.set_spec().members(), self.set_spec().epoch)
    }

    /// This validator's address.
    pub open spec fn me(&self) -> Address {
        self.keys_spec().address_spec()
    }

    /// An engine in a fresh round.
    pub fn new(keys: ValidatorKeys, validator_set: ValidatorSet) -> (r: Self)
        requires
            keys.wf(),
            validator_set.wf(),
            validator_set.active_stake_spec() <= u64::MAX,
        ensures
            r.wf(),
            r.keys_spec() == keys,
            r.set_spec() == validator_set,
            r.state_spec().view == 0 && r.state_spec().epoch == 0 && r.state_spec().phase == BftPhase::NewRound,
            r.state_spec().proposal is None && r.state_spec().locked_vertex is None && r.state_spec().locked_view == 0,
            r.state_spec().prepare_votes@.len() == 0 && r.state_spec().commit_votes@.len() == 0,
            r.finalized_spec() == Set::<Seq<u8>>::empty(),
            r.vc_spec().len() == 0,
    {
        let r = BftConsensus {
            keys,
            validator_set,
            state: BftRoundState::default(),
            finalized: Vec::new(),
            view_change_votes: Vec::new(),
        };
        assert(r.finalized_spec() =~= Set::<Seq<u8>>::empty());
        r
    }

    /// Replaces the round state.
    pub fn set_state(&mut self, state: BftRoundState)
        requires old(self).wf(), round_wf(state),
        ensures
            final(self).wf(),
            final(self).state_spec() == state,
            final(self).keys_spec() == old(self).keys_spec(),
            final(self).set_spec() == old(self).set_spec(),
            final(self).finalized_spec() == old(self).finalized_spec(),
            final(self).vc_spec() == old(self).vc_spec(),
    {
        self.state = state;
    }

    /// The validator set.
    pub fn validator_set(&self) -> (r: &ValidatorSet)
        ensures *r == self.set_spec(),
    {
        &self.validator_set
    }

    /// The stake of the validator with address `a`, zero for others.
    fn stake_of_exec(&self, a: &Address) -> (r: u64)
        requires self.set_spec().wf(),
        ensures r == stake_of(self.set_spec().members(), a.0@),
    {
        match self.validator_set.position(a) {
            Some(i) => {
                proof {
                    let m = self.validator_set.members();
                    let k = choose|k: int| 0 <= k < m.len() && (#[trigger] m[k]).address == a.0@;
                    if k != i { if k < i { assert(m[k].address != m[i as int].address); } else { assert(m[i as int].address != m[k].address); } }
                }
                self.validator_set.validators[i].stake
            },
            None => 0,
        }
    }

    fn prepare_stake_exec(&self, h: &VHash) -> (r: u128)
        requires self.set_spec().wf(),
        ensures r == prepare_stake(self.state.prepare_votes@, self.set_spec().members(), h.0@),
    {
        let v = &self.state.prepare_votes;
        let mut sum: u128 = 0;
        let mut i: usize = 0;
        assert(v@.take(0) =~= Seq::<PrepareVote>::empty());
        while i < v.len()
            invariant
                self.set_spec().wf(),
                i <= v@.len(),
                sum == prepare_stake(v@.take(i as int), self.set_spec().members(), h.0@),
                sum <= i * 0xffff_ffff_ffff_ffffu128,
            decreases v@.len() - i,
        {
            assert(v@.take(i + 1).drop_last() =~= v@.take(i as int));
            if v[i].vertex_hash == *h {
                let s = self.stake_of_exec(&v[i].voter);
                sum = sum + s as u128;
            }
            i = i + 1;
        }
        assert(v@.take(i as int) =~= v@);
        sum
    }

    fn commit_stake_for_exec(&self, h: &VHash) -> (r: u128)
        requires self.set_spec().wf(),
        ensures r == commit_stake_for(self.state.commit_votes@, self.set_spec().members(), h.0@),
    {
        let v = &self.state.commit_votes;
        let mut sum: u128 = 0;
        let mut i: usize = 0;
        assert(v@.take(0) =~= Seq::<CommitVote>::empty());
        while i < v.len()
            invariant
                self.set_spec().wf(),
                i <= v@.len(),
                sum == commit_stake_for(v@.take(i as int), self.set_spec().members(), h.0@),
                sum <= i * 0xffff_ffff_ffff_ffffu128,
            decreases v@.len() - i,
        {
            assert(v@.take(i + 1).drop_last() =~= v@.take(i as int));
            if v[i].vertex_hash == *h {
                let s = self.stake_of_exec(&v[i].voter);
                sum = sum + s as u128;
            }
            i = i + 1;
        }
        assert(v@.take(i as int) =~= v@);
        sum
    }

    fn commit_stake_of(&self, v: &Vec<CommitVote>) -> (r: u128)
        requires self.set_spec().wf(),
        ensures r == commit_stake(v@, self.set_spec().members()),
    {
        let mut sum: u128 = 0;
        let mut i: usize = 0;
        assert(v@.take(0) =~= Seq::<CommitVote>::empty());
        while i < v.len()
            invariant
                self.set_spec().wf(),
                i <= v@.len(),
                sum == commit_stake(v@.take(i as int), self.set_spec().members()),
                sum <= i * 0xffff_ffff_ffff_ffffu128,
            decreases v@.len() - i,
        {
            assert(v@.take(i + 1).drop_last() =~= v@.take(i as int));
            let s = self.stake_of_exec(&v[i].voter);
            sum = sum + s as u128;
            i = i + 1;
        }
        assert(v@.take(i as int) =~= v@);
        sum
    }

    fn request_stake_for(&self, view: u64) -> (r: u128)
        requires self.set_spec().wf(),
        ensures r == request_stake(requests_for(self.view_change_votes@, view), self.set_spec().members()),
    {
        let v = &self.view_change_votes;
        let mut sum: u128 = 0;
        let mut i: usize = 0;
        let mut n: usize = 0;
        assert(v@.take(0) =~= Seq::<ViewChangeRequest>::empty());
        while i < v.len()
            invariant
                self.set_spec().wf(),
                i <= v@.len(),
                n <= i,
                requests_for(v@.take(i as int), view).len() == n,
                sum == request_stake(requests_for(v@.take(i as int), view), self.set_spec().members()),
                sum <= n * 0xffff_ffff_ffff_ffffu128,
            decreases v@.len() - i,
        {
            assert(v@.take(i + 1).drop_last() =~= v@.take(i as int));
            assert(v@.take(i + 1).last() == v@[i as int]);
            if v[i].new_view == view {
                let s = self.stake_of_exec(&v[i].requester);
                let ghost rq = requests_for(v@.take(i as int), view);
                assert(requests_for(v@.take(i + 1), view).drop_last() =~= rq);
                sum = sum + s as u128;
                n = n + 1;
            }
            i = i + 1;
        }
        assert(v@.take(i as int) =~= v@);
        sum
    }

    /// Whether `stake` is more than two thirds of the active stake.
    fn reaches_supermajority(&self, stake: u128) -> (r: bool)
        requires self.set_spec().active_stake_spec() <= u64::MAX, stake <= 0xffff_ffff_ffff_ffff_ffff_ffff_ffff_ffffu128,
        ensures r == supermajority(stake as int, self.set_spec().active_stake_spec() as int),
    {
        let active = self.validator_set.active_stake();
        if stake > 0x5555_5555_5555_5555_5555_5555_5555_5555u128 {
            true
        } else {
            stake * 3 > (active as u128) * 2
        }
    }

    /// Whether this validator leads the current view: the active
    /// validators take turns by view number.
    pub fn is_leader(&self) -> (r: bool)
        requires self.wf(),
        ensures
            r == (self.active_spec().len() > 0
                && self.active_spec()[(self.state_spec().view % (self.active_spec().len() as u64)) as int].address == self.me().0@),
    {
        let active = self.validator_set.active_validators();
        if active.len() == 0 {
            return false;
        }
        let idx = (self.state.view % (active.len() as u64)) as usize;
        active[idx].address == *self.keys.address()
    }

    /// The stake-weighted leader of the current view and epoch: the
    /// Keccak-256 hash of view and epoch, its first sixteen bytes read
    /// big-endian, picks a point of the active stake.
    pub fn weighted_leader(&self) -> (r: Option<Address>)
        requires self.wf(),
        ensures
            ({
                let total = prefix_stake(self.active_spec());
                let seed = keccak256_spec(le_bytes_u64(self.state_spec().view) + le_bytes_u64(self.state_spec().epoch));
                match r {
                    Some(a) => total > 0 && stake_walk(self.active_spec(), 0, be_value(seed.take(16)) as int % total) == Some(a.0@),
                    None => total == 0,
                }
            }),
    {
        let active = self.validator_set.active_validators();
        let ghost av = Seq::new(active@.len(), |i: int| active@[i]@);
        proof { crate::consensus::pos::lemma_prefix_eligible(self.validator_set.members(), self.validator_set.epoch); }
        let total: u128 = self.validator_set.active_stake() as u128;
        if total == 0 {
            return None;
        }
        let mut data: Vec<u8> = Vec::new();
        push_all(&mut data, le_u64_bytes(self.state.view).as_slice());
        push_all(&mut data, le_u64_bytes(self.state.epoch).as_slice());
        let seed = keccak256(data.as_slice());
        assert(data@ =~= le_bytes_u64(self.state.view) + le_bytes_u64(self.state.epoch));
        let mut rv: u128 = 0;
        let mut k: usize = 0;
        assert(seed@.take(0) =~= Seq::<u8>::empty());
        proof { lemma_pow256_sixteen(); }
        while k < 16
            invariant
                k <= 16,
                seed@.len() == 32,
                rv == be_value(seed@.take(k as int)),
                rv < crate::evm::state::pow256(k as nat),
                crate::evm::state::pow256(16) == 0x1_0000_0000_0000_0000_0000_0000_0000_0000,
            decreases 16 - k,
        {
            assert(seed@.take(k + 1).drop_last() =~= seed@.take(k as int));
            proof { crate::consensus::pos::lemma_pow256_mono((k + 1) as nat, 16); }
            rv = rv * 256 + seed[k] as u128;
            k = k + 1;
        }
        let target = rv % total;
        let n = active.len();
        let mut i: usize = 0;
        let mut cum: u128 = 0;
        assert(av.skip(0) =~= av);
        assert(av.take(0) =~= Seq::<ValidatorView>::empty());
        while i < n
            invariant
                n == active@.len() == av.len(),
                i <= n,
                av == Seq::new(active@.len(), |q: int| active@[q]@),
                av == self.active_spec(),
                prefix_stake(av) == total,
                target < total,
                target as int == be_value(seed@.take(16)) as int % (total as int),
                seed@ == keccak256_spec(le_bytes_u64(self.state_spec().view) + le_bytes_u64(self.state_spec().epoch)),
                cum == prefix_stake(av.take(i as int)),
                cum <= target,
                stake_walk(av, 0, target as int) == stake_walk(av.skip(i as int), cum as int, target as int),
            decreases n - i,
        {
            proof {
                crate::consensus::pos::lemma_prefix_take(av, i + 1);
                assert(av.take(i + 1).drop_last() =~= av.take(i as int));
                assert(av.skip(i as int)[0] == av[i as int]);
            }
            cum = cum + active[i].stake as u128;
            if cum > target {
                return Some(active[i].address);
            }
            assert(av.skip(i as int).drop_first() =~= av.skip(i + 1));
            i = i + 1;
        }
        proof {
            assert(av.take(i as int) =~= av);
        }
        None
    }

    /// The stake-weighted leader of the current view is `a`: a walk over the
    /// active stake to a point drawn from the view and epoch.
    pub open spec fn weighted_leader_is(&self, a: Seq<u8>) -> bool {
        let total = prefix_stake(self.active_spec());
        let seed = keccak256_spec(le_bytes_u64(self.state_spec().view) + le_bytes_u64(self.state_spec().epoch));
        total > 0 && stake_walk(self.active_spec(), 0, be_value(seed.take(16)) as int % total) == Some(a)
    }

    /// Whether `my_addr` is the stake-weighted leader.
    pub fn is_weighted_leader(&self, my_addr: &Address) -> (r: bool)
        requires self.wf(),
        ensures r == self.weighted_leader_is(my_addr.0@),
    {
        match self.weighted_leader() {
            Some(leader) => leader == *my_addr,
            None => false,
        }
    }

    /// Marks a vertex final.
    fn mark_finalized(&mut self, h: VHash)
        ensures
            final(self).finalized_spec() == old(self).finalized_spec().insert(h.0@),
            final(self).keys == old(self).keys,
            final(self).validator_set == old(self).validator_set,
            final(self).state == old(self).state,
            final(self).view_change_votes == old(self).view_change_votes,
    {
        let mut i: usize = 0;
        while i < self.finalized.len()
            invariant
                *self == *old(self),
                i <= self.finalized@.len(),
            decreases self.finalized@.len() - i,
        {
            if self.finalized[i] == h {
                assert(self.finalized_spec() =~= old(self).finalized_spec().insert(h.0@));
                return;
            }
            i = i + 1;
        }
        let ghost f0 = self.finalized@;
        self.finalized.push(h);
        proof {
            assert forall|x: Seq<u8>| self.finalized_spec().contains(x) == old(self).finalized_spec().insert(h.0@).contains(x) by {
                if old(self).finalized_spec().contains(x) {
                    let j = choose|j: int| 0 <= j < f0.len() && (#[trigger] f0[j]).0@ == x;
                    assert(self.finalized@[j] == f0[j]);
                }
                if x == h.0@ {
                    assert(self.finalized@[f0.len() as int] == h);
                }
                if self.finalized_spec().contains(x) {
                    let j = choose|j: int| 0 <= j < self.finalized@.len() && (#[trigger] self.finalized@[j]).0@ == x;
                    if j < f0.len() { assert(self.finalized@[j] == f0[j]); }
                }
            }
            assert(self.finalized_spec() =~= old(self).finalized_spec().insert(h.0@));
        }
    }

    /// Moves to the next view, in a fresh round.
    pub fn advance_view(&mut self)
        requires old(self).wf(), old(self).state_spec().view < u64::MAX,
        ensures
            final(self).wf(),
            advanced(old(self).state_spec(), final(self).state_spec(), (old(self).state_spec().view + 1) as u64),
            final(self).keys_spec() == old(self).keys_spec(),
            final(self).set_spec() == old(self).set_spec(),
            final(self).finalized_spec() == old(self).finalized_spec(),
            final(self).vc_spec() == old(self).vc_spec(),
    {
        self.state.view = self.state.view + 1;
        self.state.phase = BftPhase::NewRound;
        self.state.proposal = None;
        self.state.prepare_votes = Vec::new();
        self.state.commit_votes = Vec::new();
    }

    /// Handles a commit vote: once the commits carry more than two thirds of
    /// the active stake the vertex is final and the view advances.
    pub fn on_commit(&mut self, vote: CommitVote) -> (r: Result<Option<VHash>, ConsensusError>)
        requires
            old(self).wf(),
            old(self).state_spec().view < u64::MAX,
        ensures
            final(self).wf(),
            commit_step(*old(self), vote, *final(self), r),
    {
        if self.validator_set.position(&vote.voter).is_none() {
            return Err(ConsensusError::UnknownValidator(address_debug(&vote.voter)));
        }
        if self.state.phase != BftPhase::Commit {
            return Ok(None);
        }
        let mut i: usize = 0;
        while i < self.state.commit_votes.len()
            invariant
                *self == *old(self),
                old(self).wf(),
                has_address(old(self).set_spec().members(), vote.voter.0@),
                old(self).state_spec().phase == BftPhase::Commit,
                i <= self.state.commit_votes@.len(),
                forall|j: int| 0 <= j < i ==> (#[trigger] self.state.commit_votes@[j]).voter.0@ != vote.voter.0@,
            decreases self.state.commit_votes@.len() - i,
        {
            if self.state.commit_votes[i].voter == vote.voter {
                assert(committed_by(self.state.commit_votes@, vote.voter.0@));
                return Err(ConsensusError::DuplicateVote);
            }
            i = i + 1;
        }
        let vertex_hash = vote.vertex_hash;
        let ghost c0 = self.state.commit_votes@;
        self.state.commit_votes.push(vote);
        proof {
            assert forall|a: int, b: int| 0 <= a < b < self.state.commit_votes@.len() implies
                (#[trigger] self.state.commit_votes@[a]).voter.0@ != (#[trigger] self.state.commit_votes@[b]).voter.0@ by {
                if b == c0.len() { assert(self.state.commit_votes@[a] == c0[a]); } else { assert(self.state.commit_votes@[a] == c0[a] && self.state.commit_votes@[b] == c0[b]); }
            }
        }
        let stake = self.commit_stake_for_exec(&vertex_hash);
        if self.reaches_supermajority(stake) {
            self.state.phase = BftPhase::Finalized;
            self.mark_finalized(vertex_hash);
            self.advance_view();
            return Ok(Some(vertex_hash));
        }
        Ok(None)
    }

    /// Votes commit for a vertex in the current view.
    pub fn vote_commit(&mut self, vertex_hash: &VHash) -> (r: Result<(), ConsensusError>)
        requires
            old(self).wf(),
            old(self).state_spec().view < u64::MAX,
        ensures
            final(self).wf(),
            exists|cv: CommitVote, rc: Result<Option<VHash>, ConsensusError>|
                own_commit(*old(self), cv, vertex_hash.0@) && #[trigger] commit_step(*old(self), cv, *final(self), rc) && r == unit_of(rc),
    {
        let h = vote_hash(2, self.state.view, vertex_hash);
        let vote = CommitVote {
            voter: *self.keys.address(),
            view: self.state.view,
            vertex_hash: *vertex_hash,
            signature: self.keys.sign_hash(&h),
        };
        let ghost cv = vote;
        let rc = self.on_commit(vote);
        match rc {
            Ok(_) => Ok(()),
            Err(e) => Err(e),
        }
    }

    /// Handles a prepare vote: once the prepares carry more than two thirds
    /// of the active stake the round locks on the vertex, moves to commit,
    /// and this validator votes commit.
    pub fn on_prepare(&mut self, vote: PrepareVote) -> (r: Result<(), ConsensusError>)
        requires
            old(self).wf(),
            old(self).state_spec().view < u64::MAX,
        ensures
            final(self).wf(),
            prepare_step(*old(self), vote, *final(self), r),
    {
        if self.validator_set.position(&vote.voter).is_none() {
            return Err(ConsensusError::UnknownValidator(address_debug(&vote.voter)));
        }
        if self.state.phase != BftPhase::Prepare {
            return Ok(());
        }
        let mut i: usize = 0;
        while i < self.state.prepare_votes.len()
            invariant
                *self == *old(self),
                old(self).wf(),
                has_address(old(self).set_spec().members(), vote.voter.0@),
                old(self).state_spec().phase == BftPhase::Prepare,
                i <= self.state.prepare_votes@.len(),
                forall|j: int| 0 <= j < i ==> (#[trigger] self.state.prepare_votes@[j]).voter.0@ != vote.voter.0@,
            decreases self.state.prepare_votes@.len() - i,
        {
            if self.state.prepare_votes[i].voter == vote.voter {
                assert(prepared_by(self.state.prepare_votes@, vote.voter.0@));
                return Err(ConsensusError::DuplicateVote);
            }
            i = i + 1;
        }
        let vertex_hash = vote.vertex_hash;
        let ghost p0 = self.state.prepare_votes@;
        self.state.prepare_votes.push(vote);
        proof {
            assert forall|a: int, b: int| 0 <= a < b < self.state.prepare_votes@.len() implies
                (#[trigger] self.state.prepare_votes@[a]).voter.0@ != (#[trigger] self.state.prepare_votes@[b]).voter.0@ by {
                if b == p0.len() { assert(self.state.prepare_votes@[a] == p0[a]); } else { assert(self.state.prepare_votes@[a] == p0[a] && self.state.prepare_votes@[b] == p0[b]); }
            }
        }
        let stake = self.prepare_stake_exec(&vertex_hash);
        if self.reaches_supermajority(stake) {
            self.state.locked_vertex = Some(vertex_hash);
            self.state.locked_view = self.state.view;
            self.state.phase = BftPhase::Commit;
            let ghost mid = *self;
            let r = self.vote_commit(&vertex_hash);
            assert(lock_step(*old(self), vote, mid));
            return r;
        }
        Ok(())
    }

    /// Votes prepare for a vertex in the current view.
    pub fn vote_prepare(&mut self, vertex_hash: &VHash) -> (r: Result<(), ConsensusError>)
        requires
            old(self).wf(),
            old(self).state_spec().view < u64::MAX,
        ensures
            final(self).wf(),
            exists|pv: PrepareVote| own_prepare(*old(self), pv, vertex_hash.0@) && #[trigger] prepare_step(*old(self), pv, *final(self), r),
    {
        let h = vote_hash(1, self.state.view, vertex_hash);
        let vote = PrepareVote {
            voter: *self.keys.address(),
            view: self.state.view,
            vertex_hash: *vertex_hash,
            signature: self.keys.sign_hash(&h),
        };
        let ghost pv = vote;
        self.on_prepare(vote)
    }

    /// Proposes a vertex when this validator leads the view: the proposal
    /// is signed, the round moves to prepare, and this validator votes
    /// prepare for it.
    pub fn propose(&mut self, vertex_hash: VHash, parents: Vec<VHash>) -> (r: Result<Proposal, ConsensusError>)
        requires
            old(self).wf(),
            old(self).state_spec().view < u64::MAX,
        ensures
            final(self).wf(),
            !(old(self).active_spec().len() > 0
                && old(self).active_spec()[(old(self).state_spec().view % (old(self).active_spec().len() as u64)) as int].address == old(self).me().0@)
                ==> r == Err::<Proposal, ConsensusError>(ConsensusError::NotLeader) && *final(self) == *old(self),
            (old(self).active_spec().len() > 0
                && old(self).active_spec()[(old(self).state_spec().view % (old(self).active_spec().len() as u64)) as int].address == old(self).me().0@)
                ==> exists|mid: BftConsensus, pv: PrepareVote, rp: Result<(), ConsensusError>| {
                    &&& accepted(*old(self), mid, vertex_hash)
                    &&& own_prepare(mid, pv, vertex_hash.0@)
                    &&& #[trigger] prepare_step(mid, pv, *final(self), rp)
                    &&& match r {
                        Ok(p) => rp is Ok && p.proposer == old(self).me() && p.view == old(self).state_spec().view
                            && p.epoch == old(self).state_spec().epoch && p.vertex_hash == vertex_hash && p.parents@ == parents@
                            && p.signature@ == signature_over(old(self).keys_spec().scalar(),
                                keccak256_spec(proposal_preimage(p.view, p.epoch, vertex_hash.0@, parents@))),
                        Err(e) => rp == Err::<(), ConsensusError>(e),
                    }
                },
    {
        if !self.is_leader() {
            return Err(ConsensusError::NotLeader);
        }
        let mut proposal = Proposal {
            proposer: *self.keys.address(),
            view: self.state.view,
            epoch: self.state.epoch,
            vertex_hash,
            parents,
            signature: Vec::new(),
        };
        let h = proposal.signing_hash();
        proposal.signature = self.keys.sign_hash(&h);
        self.state.proposal = Some(proposal.duplicate());
        self.state.phase = BftPhase::Prepare;
        let ghost mid = *self;
        match self.vote_prepare(&vertex_hash) {
            Ok(()) => Ok(proposal),
            Err(e) => Err(e),
        }
    }

    /// Handles a proposal for the current view, unless it conflicts with
    /// the vertex the round is locked on; this validator then votes prepare
    /// for it.
    pub fn on_proposal(&mut self, proposal: Proposal) -> (r: Result<(), ConsensusError>)
        requires
            old(self).wf(),
            old(self).state_spec().view < u64::MAX,
        ensures
            final(self).wf(),
            proposal.view != old(self).state_spec().view ==> (r matches Err(ConsensusError::InvalidProposal(_))) && *final(self) == *old(self),
            proposal.view == old(self).state_spec().view && conflicts_with_lock(old(self).state_spec(), proposal.vertex_hash.0@, proposal.view)
                ==> (r matches Err(ConsensusError::InvalidProposal(_))) && *final(self) == *old(self),
            proposal.view == old(self).state_spec().view && !conflicts_with_lock(old(self).state_spec(), proposal.vertex_hash.0@, proposal.view)
                ==> exists|mid: BftConsensus, pv: PrepareVote| {
                    &&& accepted(*old(self), mid, proposal.vertex_hash)
                    &&& own_prepare(mid, pv, proposal.vertex_hash.0@)
                    &&& #[trigger] prepare_step(mid, pv, *final(self), r)
                },
    {
        if proposal.view != self.state.view {
            let mut msg = str_to_chars("View mismatch: expected ");
            let a = u64_to_decimal(self.state.view);
            let mut k: usize = 0;
            while k < a.len()
                decreases a.len() - k,
            {
                msg.push(a[k]);
                k = k + 1;
            }
            let sep = str_to_chars(", got ");
            let mut k2: usize = 0;
            while k2 < sep.len()
                decreases sep.len() - k2,
            {
                msg.push(sep[k2]);
                k2 = k2 + 1;
            }
            let b = u64_to_decimal(proposal.view);
            let mut k3: usize = 0;
            while k3 < b.len()
                decreases b.len() - k3,
            {
                msg.push(b[k3]);
                k3 = k3 + 1;
            }
            return Err(ConsensusError::InvalidProposal(chars_to_string(msg.as_slice())));
        }
        match self.state.locked_vertex {
            Some(locked) => {
                if !(proposal.vertex_hash == locked) && proposal.view <= self.state.locked_view {
                    return Err(ConsensusError::InvalidProposal("Proposal conflicts with locked vertex".to_owned()));
                }
            },
            None => {},
        }
        let vh = proposal.vertex_hash;
        self.state.proposal = Some(proposal);
        self.state.phase = BftPhase::Prepare;
        let ghost mid = *self;
        self.vote_prepare(&vh)
    }

    /// Asks for a view change, carrying the vertex the round is locked on.
    pub fn request_view_change(&mut self, new_view: u64) -> (r: Result<(), ConsensusError>)
        requires
            old(self).wf(),
        ensures
            final(self).wf(),
            exists|req: ViewChangeRequest| {
                &&& req.requester == old(self).me() && req.new_view == new_view
                &&& req.last_prepared == old(self).state_spec().locked_vertex
                &&& req.signature@ == signature_over(old(self).keys_spec().scalar(), keccak256_spec(le_bytes_u64(new_view)))
                &&& #[trigger] view_change_step(*old(self), req, *final(self), r)
            },
    {
        let request = ViewChangeRequest {
            requester: *self.keys.address(),
            new_view,
            last_prepared: self.state.locked_vertex,
            signature: self.keys.sign(le_u64_bytes(new_view).as_slice()),
        };
        self.on_view_change(request)
    }

    /// Handles a view change request: requests are collected per view, and
    /// once the requests for a view carry more than two thirds of the
    /// active stake the round moves to that view afresh.
    pub fn on_view_change(&mut self, request: ViewChangeRequest) -> (r: Result<(), ConsensusError>)
        requires
            old(self).wf(),
        ensures
            final(self).wf(),
            view_change_step(*old(self), request, *final(self), r),
    {
        if self.validator_set.position(&request.requester).is_none() {
            return Err(ConsensusError::UnknownValidator(address_debug(&request.requester)));
        }
        let nv = request.new_view;
        self.view_change_votes.push(request);
        let stake = self.request_stake_for(nv);
        if self.reaches_supermajority(stake) {
            self.state.view = nv;
            self.state.phase = BftPhase::NewRound;
            self.state.proposal = None;
            self.state.prepare_votes = Vec::new();
            self.state.commit_votes = Vec::new();
        }
        Ok(())
    }

    /// Whether a vertex is final.
    pub fn is_finalized(&self, hash: &VHash) -> (r: bool)
        ensures r == self.finalized_spec().contains(hash.0@),
    {
        let mut i: usize = 0;
        while i < self.finalized.len()
            invariant
                i <= self.finalized@.len(),
                forall|j: int| 0 <= j < i ==> (#[trigger] self.finalized@[j]).0@ != hash.0@,
            decreases self.finalized@.len() - i,
        {
            if self.finalized[i] == *hash {
                assert(self.finalized_spec().contains(hash.0@));
                return true;
            }
            i = i + 1;
        }
        false
    }

    pub fn current_view(&self) -> (r: u64)
        ensures r == self.state_spec().view,
    {
        self.state.view
    }

    pub fn current_phase(&self) -> (r: BftPhase)
        ensures r == self.state_spec().phase,
    {
        self.state.phase
    }

    /// The round's commit votes for `hash`, when they carry more than two
    /// thirds of the active stake.
    pub fn get_finality_certificate(&self, hash: &VHash) -> (r: Option<Vec<CommitVote>>)
        requires self.wf(),
        ensures
            ({
                let c = commits_for(self.state_spec().commit_votes@, hash.0@);
                match r {
                    Some(v) => supermajority(commit_stake(c, self.set_spec().members()), self.set_spec().active_stake_spec() as int)
                        && v@.len() == c.len()
                        && forall|i: int| 0 <= i < c.len() ==> (#[trigger] v@[i]).voter == c[i].voter && v@[i].view == c[i].view
                            && v@[i].vertex_hash == c[i].vertex_hash && v@[i].signature@ == c[i].signature@,
                    None => !supermajority(commit_stake(c, self.set_spec().members()), self.set_spec().active_stake_spec() as int),
                }
            }),
    {
        let votes = &self.state.commit_votes;
        let mut out: Vec<CommitVote> = Vec::new();
        let mut i: usize = 0;
        let ghost c = commits_for(votes@, hash.0@);
        assert(votes@.take(0) =~= Seq::<CommitVote>::empty());
        while i < votes.len()
            invariant
                i <= votes@.len(),
                out@.len() == commits_for(votes@.take(i as int), hash.0@).len(),
                forall|q: int| 0 <= q < out@.len() ==> (#[trigger] out@[q]).voter == commits_for(votes@.take(i as int), hash.0@)[q].voter
                    && out@[q].view == commits_for(votes@.take(i as int), hash.0@)[q].view
                    && out@[q].vertex_hash == commits_for(votes@.take(i as int), hash.0@)[q].vertex_hash
                    && out@[q].signature@ == commits_for(votes@.take(i as int), hash.0@)[q].signature@,
                out@.len() <= i,
            decreases votes@.len() - i,
        {
            assert(votes@.take(i + 1).drop_last() =~= votes@.take(i as int));
            if votes[i].vertex_hash == *hash {
                let d = votes[i].duplicate();
                out.push(d);
            }
            i = i + 1;
        }
        assert(votes@.take(i as int) =~= votes@);
        let stake = self.commit_stake_of(&out);
        proof {
            lemma_commit_stake_same_voters(out@, c, self.validator_set.members());
        }
        if self.reaches_supermajority(stake) {
            Some(out)
        } else {
            None
        }
    }
}

/// A commit vote never takes a vertex out of the finalized set.
pub proof fn lemma_commit_keeps_finality(pre: BftConsensus, vote: CommitVote, post: BftConsensus, r: Result<Option<VHash>, ConsensusError>)
    requires commit_step(pre, vote, post, r),
    ensures pre.finalized_spec().subset_of(post.finalized_spec()),
{
}

/// A prepare vote never takes a vertex out of the finalized set.
pub proof fn lemma_prepare_keeps_finality(pre: BftConsensus, vote: PrepareVote, post: BftConsensus, r: Result<(), ConsensusError>)
    requires prepare_step(pre, vote, post, r),
    ensures pre.finalized_spec().subset_of(post.finalized_spec()),
{
    let m = pre.set_spec().members();
    let s0 = pre.state_spec();
    if has_address(m, vote.voter.0@) && s0.phase == BftPhase::Prepare && !prepared_by(s0.prepare_votes@, vote.voter.0@)
        && supermajority(prepare_stake(s0.prepare_votes@.push(vote), m, vote.vertex_hash.0@), pre.set_spec().active_stake_spec() as int) {
        let (mid, cv, rc) = choose|mid: BftConsensus, cv: CommitVote, rc: Result<Option<VHash>, ConsensusError>|
            lock_step(pre, vote, mid) && own_commit(mid, cv, vote.vertex_hash.0@)
            && #[trigger] commit_step(mid, cv, post, rc) && r == unit_of(rc);
        lemma_commit_keeps_finality(mid, cv, post, rc);
    }
}

/// A view change never takes a vertex out of the finalized set.
pub proof fn lemma_view_change_keeps_finality(pre: BftConsensus, req: ViewChangeRequest, post: BftConsensus, r: Result<(), ConsensusError>)
    requires view_change_step(pre, req, post, r),
    ensures pre.finalized_spec().subset_of(post.finalized_spec()),
{
}

/// A vertex is finalized by a commit vote only for the voted vertex, and
/// only once the commits, this one included, carry more than two thirds of
/// the active stake; the view then advances by one.
pub proof fn lemma_finality_needs_supermajority(pre: BftConsensus, vote: CommitVote, post: BftConsensus, h: VHash)
    requires
        commit_step(pre, vote, post, Ok::<Option<VHash>, ConsensusError>(Some(h))),
        pre.state_spec().view < u64::MAX,
    ensures
        h == vote.vertex_hash,
        supermajority(commit_stake_for(pre.state_spec().commit_votes@.push(vote), pre.set_spec().members(), vote.vertex_hash.0@),
            pre.set_spec().active_stake_spec() as int),
        post.finalized_spec().contains(h.0@),
        post.state_spec().view == pre.state_spec().view + 1,
{
}

proof fn lemma_pow256_sixteen()
    ensures crate::evm::state::pow256(16) == 0x1_0000_0000_0000_0000_0000_0000_0000_0000,
{
    reveal_with_fuel(crate::evm::state::pow256, 17);
}

proof fn lemma_commit_stake_same_voters(a: Seq<CommitVote>, b: Seq<CommitVote>, m: Seq<ValidatorView>)
    requires
        a.len() == b.len(),
        forall|i: int| 0 <= i < a.len() ==> (#[trigger] a[i]).voter == b[i].voter,
    ensures commit_stake(a, m) == commit_stake(b, m),
    decreases a.len(),
{
    if a.len() > 0 {
        lemma_commit_stake_same_voters(a.drop_last(), b.drop_last(), m);
        assert(a.last().voter == b.last().voter);
    }
}

} // verus!
