//! BFT finality over the DAG: validators vote for a vertex; a target that
//! gathers more than two thirds of the stake becomes final, with a proof
//! made of the votes.
use vstd::prelude::*;
use crate::dag::graph::{Dag, DagView, has_hash, reaches, latest_height_spec};
use crate::primitives::address::Address;
use crate::primitives::crypto::{EcdsaSignature, PublicKey, SecretKey, blake3_hash, verify_signature, verify_signature_spec, ecdsa_sign_spec};
use crate::primitives::error::NexusError;
use crate::primitives::hashing::blake3_spec;
use crate::primitives::transaction::{be8, push_be8};
use crate::primitives::types::ValidatorId;

verus! {

type VHash = crate::primitives::types::Hash;

/// Settings of the finality gadget.
#[derive(Clone, Debug)]
pub struct FinalityConfig {
    pub min_validators: usize,
    pub vote_timeout_ms: u64,
    pub max_stall_rounds: u32,
    pub finality_check_interval: u64,
}

impl Default for FinalityConfig {
    fn default() -> (r: Self)
        ensures
            r.min_validators == 3 && r.vote_timeout_ms == 5000,
            r.max_stall_rounds == 10 && r.finality_check_interval == 10,
    {
        FinalityConfig { min_validators: 3, vote_timeout_ms: 5000, max_stall_rounds: 10, finality_check_interval: 10 }
    }
}

/// A validator that votes on finality.
#[derive(Clone, Copy, Debug)]
pub struct ValidatorInfo {
    pub id: ValidatorId,
    /// Uncompressed public key (x ‖ y).
    pub public_key: [u8; 64],
    pub stake: u128,
    pub address: Address,
}

/// The sum of the stakes of a list of validators.
pub open spec fn stake_sum(vs: Seq<ValidatorInfo>) -> int
    decreases vs.len(),
{
    if vs.len() == 0 { 0 } else { stake_sum(vs.drop_last()) + vs.last().stake }
}

/// The validator with this id that came last in `vs`.
pub open spec fn info_of(vs: Seq<ValidatorInfo>, id: Seq<u8>) -> Option<ValidatorInfo>
    decreases vs.len(),
{
    if vs.len() == 0 { None } else if vs.last().id.0@ == id { Some(vs.last()) } else { info_of(vs.drop_last(), id) }
}

/// More than two thirds of a positive total.
pub open spec fn supermajority(weight: int, total: int) -> bool {
    total > 0 && weight * 3 > total * 2
}

/// Two supermajorities of the same total share more than a third of it:
/// no two conflicting targets can both gather one unless more than a third
/// of the stake votes twice.
pub proof fn lemma_supermajorities_overlap(w1: int, w2: int, total: int)
    requires
        supermajority(w1, total),
        supermajority(w2, total),
    ensures
        (w1 + w2 - total) * 3 > total,
{
}

/// The validators of an epoch and their total stake.
#[derive(Clone, Debug)]
pub struct ValidatorSet {
    validators: Vec<ValidatorInfo>,
    total_weight: u128,
    epoch: u64,
}

impl ValidatorSet {
    /// Validator lookup by id.
    pub closed spec fn lookup(&self, id: Seq<u8>) -> Option<ValidatorInfo> {
        info_of(self.validators@, id)
    }

    pub closed spec fn total_spec(&self) -> u128 {
        self.total_weight
    }

    pub closed spec fn epoch_spec(&self) -> u64 {
        self.epoch
    }

    pub closed spec fn count(&self) -> nat {
        self.validators@.len()
    }

    /// One entry per id.
    pub closed spec fn wf(&self) -> bool {
        forall|i: int, j: int| 0 <= i < j < self.validators@.len() ==> (#[trigger] self.validators@[i]).id.0@ != (#[trigger] self.validators@[j]).id.0@
    }

    /// The set of the given validators (the last entry per id counts) with
    /// the total of all the stakes given.
    pub fn new(validators: Vec<ValidatorInfo>, epoch: u64) -> (s: Self)
        requires stake_sum(validators@) <= u128::MAX,
        ensures
            s.wf(),
            s.total_spec() == stake_sum(validators@),
            s.epoch_spec() == epoch,
            forall|id: Seq<u8>| #[trigger] s.lookup(id) == info_of(validators@, id),
    {
        let mut total: u128 = 0;
        let mut set: Vec<ValidatorInfo> = Vec::new();
        let mut i: usize = 0;
        assert(validators@.subrange(0, 0) =~= Seq::<ValidatorInfo>::empty());
        while i < validators.len()
            invariant
                i <= validators@.len(),
                stake_sum(validators@) <= u128::MAX,
                total == stake_sum(validators@.subrange(0, i as int)),
                forall|a: int, b: int| 0 <= a < b < set@.len() ==> (#[trigger] set@[a]).id.0@ != (#[trigger] set@[b]).id.0@,
                forall|id: Seq<u8>| #[trigger] info_of(set@, id) == info_of(validators@.subrange(0, i as int), id),
            decreases validators@.len() - i,
        {
            let v = validators[i];
            proof {
                let sub = validators@.subrange(0, i + 1);
                assert(sub.drop_last() =~= validators@.subrange(0, i as int));
                lemma_stake_sum_prefix(validators@, i + 1);
            }
            total = total + v.stake;
            let ghost before = set@;
            upsert_validator(&mut set, v);
            proof {
                let sub = validators@.subrange(0, i + 1);
                assert forall|id: Seq<u8>| #[trigger] info_of(set@, id) == info_of(sub, id) by {
                    assert(sub.last() == v);
                }
            }
            i = i + 1;
        }
        assert(validators@.subrange(0, i as int) =~= validators@);
        ValidatorSet { validators: set, total_weight: total, epoch }
    }

    /// More than two thirds of the total stake.
    pub fn has_supermajority(&self, weight: u128) -> (r: bool)
        ensures r == supermajority(weight as int, self.total_spec() as int),
    {
        let t = self.total_weight;
        if t == 0 {
            return false;
        }
        if weight >= t {
            return true;
        }
        let d: u128 = t - weight;
        if d > u128::MAX / 2 {
            return false;
        }
        weight > 2 * d
    }

    pub fn get_validator(&self, id: &ValidatorId) -> (r: Option<&ValidatorInfo>)
        ensures
            match r {
                Some(v) => self.lookup(id.0@) == Some(*v),
                None => self.lookup(id.0@) is None,
            },
    {
        let mut i: usize = self.validators.len();
        assert(self.validators@.subrange(0, i as int) =~= self.validators@);
        while i > 0
            invariant
                i <= self.validators@.len(),
                info_of(self.validators@, id.0@) == info_of(self.validators@.subrange(0, i as int), id.0@),
            decreases i,
        {
            let ghost sub = self.validators@.subrange(0, i as int);
            assert(sub.last() == self.validators@[i - 1]);
            if self.validators[i - 1].id == *id {
                return Some(&self.validators[i - 1]);
            }
            assert(sub.drop_last() =~= self.validators@.subrange(0, i - 1));
            i = i - 1;
        }
        None
    }

    /// The validators, in the order they were given (one per id).
    pub fn validators(&self) -> (r: &Vec<ValidatorInfo>)
        ensures r@.len() == self.count(),
    {
        &self.validators
    }

    pub fn len(&self) -> (r: usize)
        ensures r == self.count(),
    {
        self.validators.len()
    }

    pub fn is_empty(&self) -> (r: bool)
        ensures r == (self.count() == 0),
    {
        self.validators.len() == 0
    }
}

proof fn lemma_stake_sum_prefix(vs: Seq<ValidatorInfo>, k: int)
    requires 0 <= k <= vs.len(),
    ensures stake_sum(vs.subrange(0, k)) <= stake_sum(vs),
    decreases vs.len() - k,
{
    if k < vs.len() {
        lemma_stake_sum_prefix(vs, k + 1);
        assert(vs.subrange(0, k + 1).drop_last() =~= vs.subrange(0, k));
    } else {
        assert(vs.subrange(0, k) =~= vs);
    }
}

fn upsert_validator(set: &mut Vec<ValidatorInfo>, v: ValidatorInfo)
    requires forall|a: int, b: int| 0 <= a < b < old(set)@.len() ==> (#[trigger] old(set)@[a]).id.0@ != (#[trigger] old(set)@[b]).id.0@,
    ensures
        forall|a: int, b: int| 0 <= a < b < final(set)@.len() ==> (#[trigger] final(set)@[a]).id.0@ != (#[trigger] final(set)@[b]).id.0@,
        forall|id: Seq<u8>| #[trigger] info_of(final(set)@, id) == if id == v.id.0@ { Some(v) } else { info_of(old(set)@, id) },
{
    let ghost s0 = set@;
    let mut i: usize = 0;
    while i < set.len()
        invariant
            set@ == s0,
            s0 == old(set)@,
            i <= s0.len(),
            forall|a: int, b: int| 0 <= a < b < s0.len() ==> (#[trigger] s0[a]).id.0@ != (#[trigger] s0[b]).id.0@,
            forall|k: int| 0 <= k < i ==> (#[trigger] s0[k]).id.0@ != v.id.0@,
        decreases s0.len() - i,
    {
        if set[i].id == v.id {
            set.remove(i);
            proof {
                assert(set@ =~= s0.subrange(0, i as int) + s0.subrange(i + 1, s0.len() as int));
                assert forall|a: int, b: int| 0 <= a < b < set@.len() implies (#[trigger] set@[a]).id.0@ != (#[trigger] set@[b]).id.0@ by {
                    let oa = if a < i { a } else { a + 1 };
                    let ob = if b < i { b } else { b + 1 };
                    assert(set@[a] == s0[oa] && set@[b] == s0[ob]);
                }
                assert forall|id: Seq<u8>| id != v.id.0@ implies #[trigger] info_of(set@, id) == info_of(s0, id) by {
                    lemma_info_of_remove(s0, i as int, id);
                }
            }
            let ghost s1 = set@;
            set.push(v);
            proof {
                assert(set@.drop_last() =~= s1);
                assert forall|a: int, b: int| 0 <= a < b < set@.len() implies (#[trigger] set@[a]).id.0@ != (#[trigger] set@[b]).id.0@ by {
                    if b == s1.len() {
                        assert(set@[a] == s1[a]);
                        let oa = if a < i { a } else { a + 1 };
                        assert(s1[a] == s0[oa]);
                        assert(s0[i as int].id.0@ == v.id.0@);
                        if oa < i { assert(s0[oa].id.0@ != s0[i as int].id.0@); } else { assert(s0[i as int].id.0@ != s0[oa].id.0@); }
                    } else {
                        assert(set@[a] == s1[a] && set@[b] == s1[b]);
                    }
                }
                assert forall|id: Seq<u8>| #[trigger] info_of(set@, id) == if id == v.id.0@ { Some(v) } else { info_of(s0, id) } by {
                    if id != v.id.0@ {
                        assert(info_of(s1, id) == info_of(s0, id));
                    }
                }
            }
            return;
        }
        i = i + 1;
    }
    set.push(v);
    proof {
        assert(set@.drop_last() =~= s0);
        assert forall|a: int, b: int| 0 <= a < b < set@.len() implies (#[trigger] set@[a]).id.0@ != (#[trigger] set@[b]).id.0@ by {
            if b == s0.len() { assert(set@[a] == s0[a]); } else { assert(set@[a] == s0[a] && set@[b] == s0[b]); }
        }
    }
}

proof fn lemma_info_of_remove(s: Seq<ValidatorInfo>, i: int, id: Seq<u8>)
    requires 0 <= i < s.len(), s[i].id.0@ != id,
    ensures info_of(s.subrange(0, i) + s.subrange(i + 1, s.len() as int), id) == info_of(s, id),
    decreases s.len(),
{
    let r = s.subrange(0, i) + s.subrange(i + 1, s.len() as int);
    if i == s.len() - 1 {
        assert(r =~= s.drop_last());
    } else {
        assert(r.drop_last() =~= s.drop_last().subrange(0, i) + s.drop_last().subrange(i + 1, s.drop_last().len() as int));
        assert(r.last() == s.last());
        lemma_info_of_remove(s.drop_last(), i, id);
    }
}

/// The bytes a finality vote signs: round, target hash and height.
pub open spec fn vote_message(round: u64, target: Seq<u8>, height: u64) -> Seq<u8> {
    be8(round) + target + be8(height)
}

/// A validator's vote that a vertex is final.
#[derive(Clone, Copy, Debug)]
pub struct FinalityVote {
    pub round: u64,
    pub target_hash: VHash,
    pub target_height: u64,
    pub voter: ValidatorId,
    pub signature: EcdsaSignature,
}

impl FinalityVote {
    /// A vote signed with the voter's key over the BLAKE3 hash of
    /// (round, target, height).
    pub fn new(round: u64, target_hash: VHash, target_height: u64, voter: ValidatorId, secret_key: &SecretKey) -> (r: Result<Self, NexusError>)
        ensures
            match r {
                Ok(v) => v.round == round && v.target_hash == target_hash && v.target_height == target_height
                    && v.voter == voter
                    && verify_signature_spec(blake3_spec(vote_message(round, target_hash.0@, target_height)), v.signature,
                        crate::primitives::crypto::secp256k1_public_key(secret_key.scalar())) == Ok::<bool, ()>(true),
                Err(e) => ecdsa_sign_spec(secret_key.scalar(), blake3_spec(vote_message(round, target_hash.0@, target_height))) is None,
            },
    {
        let message = Self::signing_message(round, &target_hash, target_height);
        let message_hash = blake3_hash(message.as_slice());
        match secret_key.sign(&message_hash) {
            Ok(signature) => Ok(FinalityVote { round, target_hash, target_height, voter, signature }),
            Err(e) => Err(e),
        }
    }

    /// Round, target and height, big-endian.
    pub fn signing_message(round: u64, target: &VHash, height: u64) -> (r: Vec<u8>)
        ensures r@ == vote_message(round, target.0@, height),
    {
        let mut message: Vec<u8> = Vec::new();
        push_be8(&mut message, round);
        let ghost m1 = message@;
        let mut i: usize = 0;
        while i < 32
            invariant i <= 32, message@ == m1 + target.0@.subrange(0, i as int),
            decreases 32 - i,
        {
            message.push(target.0[i]);
            assert(message@ =~= m1 + target.0@.subrange(0, i + 1));
            i = i + 1;
        }
        assert(target.0@.subrange(0, 32) =~= target.0@);
        push_be8(&mut message, height);
        assert(message@ =~= vote_message(round, target.0@, height));
        message
    }

    /// Checks the vote's signature against a public key.
    pub fn verify(&self, public_key: &PublicKey) -> (r: Result<bool, NexusError>)
        ensures
            match verify_signature_spec(blake3_spec(vote_message(self.round, self.target_hash.0@, self.target_height)), self.signature, public_key.0@) {
                Ok(b) => r == Ok::<bool, NexusError>(b),
                Err(_) => r is Err,
            },
    {
        let message = Self::signing_message(self.round, &self.target_hash, self.target_height);
        let message_hash = blake3_hash(message.as_slice());
        verify_signature(&message_hash, &self.signature, public_key)
    }
}

/// The vote's signature checks out against its validator's key.
pub open spec fn vote_signed(v: FinalityVote, info: ValidatorInfo) -> bool {
    verify_signature_spec(blake3_spec(vote_message(v.round, v.target_hash.0@, v.target_height)), v.signature, info.public_key@)
        == Ok::<bool, ()>(true)
}

/// A proof of finality: the votes for a target and their weight.
#[derive(Clone, Debug)]
pub struct FinalityProof {
    pub round: u64,
    pub target_hash: VHash,
    pub target_height: u64,
    pub votes: Vec<FinalityVote>,
    pub total_weight: u128,
    pub epoch: u64,
}

/// Each of the first `k` votes is by a distinct, known validator, names the
/// proof's target and is correctly signed.
pub open spec fn votes_valid(votes: Seq<FinalityVote>, k: int, target: Seq<u8>, height: u64, vs: ValidatorSet) -> bool {
    forall|i: int| 0 <= i < k ==> {
        &&& (#[trigger] votes[i]).target_hash.0@ == target && votes[i].target_height == height
        &&& vs.lookup(votes[i].voter.0@) is Some
        &&& vote_signed(votes[i], vs.lookup(votes[i].voter.0@).unwrap())
        &&& forall|j: int| 0 <= j < i ==> votes[j].voter.0@ != votes[i].voter.0@
    }
}

/// The stake behind the first `k` votes.
pub open spec fn votes_weight(votes: Seq<FinalityVote>, k: int, vs: ValidatorSet) -> int
    decreases k,
{
    if k <= 0 {
        0
    } else {
        votes_weight(votes, k - 1, vs) + match vs.lookup(votes[k - 1].voter.0@) { Some(v) => v.stake as int, None => 0 }
    }
}

impl FinalityProof {
    /// Accepts the proof when it is for the set's epoch, its votes are by
    /// distinct known validators, name its target and are correctly signed,
    /// and their stake is a supermajority.
    pub fn verify(&self, validator_set: &ValidatorSet) -> (r: Result<bool, NexusError>)
        ensures
            r is Ok <==> (validator_set.epoch_spec() == self.epoch
                && votes_valid(self.votes@, self.votes@.len() as int, self.target_hash.0@, self.target_height, *validator_set)
                && supermajority(votes_weight(self.votes@, self.votes@.len() as int, *validator_set), validator_set.total_spec() as int)),
            r is Ok ==> r == Ok::<bool, NexusError>(true),
    {
        if validator_set.epoch != self.epoch {
            return Err(NexusError::Consensus("Epoch mismatch".to_owned()));
        }
        let mut verified: u128 = 0;
        let mut i: usize = 0;
        while i < self.votes.len()
            invariant
                i <= self.votes@.len(),
                votes_valid(self.votes@, i as int, self.target_hash.0@, self.target_height, *validator_set),
                verified == (if votes_weight(self.votes@, i as int, *validator_set) > u128::MAX { u128::MAX as int } else { votes_weight(self.votes@, i as int, *validator_set) }),
                votes_weight(self.votes@, i as int, *validator_set) >= 0,
            decreases self.votes@.len() - i,
        {
            let vote = self.votes[i];
            let mut j: usize = 0;
            while j < i
                invariant j <= i, i < self.votes@.len(), vote == self.votes@[i as int],
                    forall|k: int| 0 <= k < j ==> self.votes@[k].voter.0@ != vote.voter.0@,
                decreases i - j,
            {
                if self.votes[j].voter == vote.voter {
                    return Err(NexusError::Consensus("Duplicate voter".to_owned()));
                }
                j = j + 1;
            }
            if !(vote.target_hash == self.target_hash) || vote.target_height != self.target_height {
                return Err(NexusError::Consensus("Vote target mismatch".to_owned()));
            }
            let validator = match validator_set.get_validator(&vote.voter) {
                Some(v) => v,
                None => { return Err(NexusError::Consensus("Unknown validator".to_owned())); },
            };
            let public_key = PublicKey(validator.public_key);
            match vote.verify(&public_key) {
                Err(e) => { return Err(e); },
                Ok(false) => { return Err(NexusError::Consensus("Invalid vote signature".to_owned())); },
                Ok(true) => {},
            }
            verified = verified.saturating_add(validator.stake);
            proof {
                assert forall|k: int| 0 <= k < i + 1 implies {
                    &&& (#[trigger] self.votes@[k]).target_hash.0@ == self.target_hash.0@ && self.votes@[k].target_height == self.target_height
                    &&& validator_set.lookup(self.votes@[k].voter.0@) is Some
                    &&& vote_signed(self.votes@[k], validator_set.lookup(self.votes@[k].voter.0@).unwrap())
                    &&& forall|j2: int| 0 <= j2 < k ==> self.votes@[j2].voter.0@ != self.votes@[k].voter.0@
                } by {
                    if k == i {
                        assert(public_key.0@ == validator.public_key@);
                    }
                }
            }
            i = i + 1;
        }
        if !validator_set.has_supermajority(verified) {
            proof { lemma_supermajority_saturated(votes_weight(self.votes@, i as int, *validator_set), validator_set.total_spec() as int); }
            return Err(NexusError::Consensus("Insufficient vote weight".to_owned()));
        }
        proof { lemma_supermajority_saturated(votes_weight(self.votes@, i as int, *validator_set), validator_set.total_spec() as int); }
        Ok(true)
    }
}

proof fn lemma_supermajority_saturated(w: int, t: int)
    requires w >= 0, 0 <= t <= u128::MAX,
    ensures supermajority(if w > u128::MAX { u128::MAX as int } else { w }, t) == supermajority(w, t),
{
}


/// The state of finality tracking.
#[derive(Clone, Debug)]
pub struct FinalityState {
    pub round: u64,
    pub finalized_height: u64,
    pub finalized_hash: VHash,
    /// The current votes, one per voter.
    pub votes: Vec<FinalityVote>,
    pub best_candidate: Option<(VHash, u64)>,
}

/// Every vote is by a known validator, correctly signed, one per voter.
pub open spec fn votes_sound(votes: Seq<FinalityVote>, vs: ValidatorSet) -> bool {
    &&& forall|i: int| 0 <= i < votes.len() ==> vs.lookup((#[trigger] votes[i]).voter.0@) is Some
            && vote_signed(votes[i], vs.lookup(votes[i].voter.0@).unwrap())
    &&& forall|i: int, j: int| 0 <= i < j < votes.len() ==> (#[trigger] votes[i]).voter.0@ != (#[trigger] votes[j]).voter.0@
}

/// The votes for a target, in order.
pub open spec fn votes_for(votes: Seq<FinalityVote>, h: Seq<u8>, ht: u64) -> Seq<FinalityVote>
    decreases votes.len(),
{
    if votes.len() == 0 {
        Seq::empty()
    } else {
        let r = votes_for(votes.drop_last(), h, ht);
        if votes.last().target_hash.0@ == h && votes.last().target_height == ht { r.push(votes.last()) } else { r }
    }
}

/// The target of vote `k` has a supermajority and lies above the finalized
/// height.
pub open spec fn finalizable(votes: Seq<FinalityVote>, k: int, vs: ValidatorSet, finalized: u64) -> bool {
    let t = votes_for(votes, votes[k].target_hash.0@, votes[k].target_height);
    &&& supermajority(votes_weight(t, t.len() as int, vs), vs.total_spec() as int)
    &&& votes[k].target_height > finalized
}

/// The finality gadget.
pub struct FinalityGadget {
    config: FinalityConfig,
    state: FinalityState,
    validator_set: ValidatorSet,
    proofs: Vec<FinalityProof>,
}

proof fn lemma_votes_for_props(votes: Seq<FinalityVote>, h: Seq<u8>, ht: u64, vs: ValidatorSet)
    requires votes_sound(votes, vs),
    ensures
        votes_sound(votes_for(votes, h, ht), vs),
        forall|i: int| 0 <= i < votes_for(votes, h, ht).len() ==>
            (#[trigger] votes_for(votes, h, ht)[i]).target_hash.0@ == h && votes_for(votes, h, ht)[i].target_height == ht,
        forall|i: int| 0 <= i < votes_for(votes, h, ht).len() ==> votes.contains(#[trigger] votes_for(votes, h, ht)[i]),
    decreases votes.len(),
{
    if votes.len() > 0 {
        let dl = votes.drop_last();
        assert forall|i: int| 0 <= i < dl.len() implies vs.lookup((#[trigger] dl[i]).voter.0@) is Some
            && vote_signed(dl[i], vs.lookup(dl[i].voter.0@).unwrap()) by {
            assert(dl[i] == votes[i]);
        }
        assert forall|i: int, j: int| 0 <= i < j < dl.len() implies (#[trigger] dl[i]).voter.0@ != (#[trigger] dl[j]).voter.0@ by {
            assert(dl[i] == votes[i] && dl[j] == votes[j]);
        }
        lemma_votes_for_props(dl, h, ht, vs);
        let r = votes_for(dl, h, ht);
        let t = votes_for(votes, h, ht);
        let last = votes.last();
        assert(votes[votes.len() - 1] == last);
        assert forall|i: int| 0 <= i < t.len() implies votes.contains(#[trigger] t[i]) by {
            if i < r.len() {
                assert(t[i] == r[i]);
                let w = choose|w: int| 0 <= w < dl.len() && dl[w] == r[i];
                assert(votes[w] == dl[w]);
            }
        }
        if last.target_hash.0@ == h && last.target_height == ht {
            assert forall|i: int, j: int| 0 <= i < j < t.len() implies (#[trigger] t[i]).voter.0@ != (#[trigger] t[j]).voter.0@ by {
                if j == r.len() {
                    assert(t[i] == r[i]);
                    let w = choose|w: int| 0 <= w < dl.len() && dl[w] == r[i];
                    assert(votes[w] == dl[w]);
                    assert(votes[w].voter.0@ != votes[votes.len() - 1].voter.0@);
                } else {
                    assert(t[i] == r[i] && t[j] == r[j]);
                }
            }
            assert forall|i: int| 0 <= i < t.len() implies vs.lookup((#[trigger] t[i]).voter.0@) is Some
                && vote_signed(t[i], vs.lookup(t[i].voter.0@).unwrap()) by {
                if i < r.len() { assert(t[i] == r[i]); }
            }
        }
    }
}

proof fn lemma_sound_proof_valid(t: Seq<FinalityVote>, h: Seq<u8>, ht: u64, vs: ValidatorSet)
    requires
        votes_sound(t, vs),
        forall|i: int| 0 <= i < t.len() ==> (#[trigger] t[i]).target_hash.0@ == h && t[i].target_height == ht,
    ensures votes_valid(t, t.len() as int, h, ht, vs),
{
    assert forall|i: int| 0 <= i < t.len() implies {
        &&& (#[trigger] t[i]).target_hash.0@ == h && t[i].target_height == ht
        &&& vs.lookup(t[i].voter.0@) is Some
        &&& vote_signed(t[i], vs.lookup(t[i].voter.0@).unwrap())
        &&& forall|j: int| 0 <= j < i ==> t[j].voter.0@ != t[i].voter.0@
    } by {
        assert forall|j: int| 0 <= j < i implies t[j].voter.0@ != t[i].voter.0@ by {
            assert(t[j].voter.0@ != t[i].voter.0@);
        }
    }
}

/// Every tip of the DAG descends from (or is) the vertex `x`.
pub open spec fn common_target(d: DagView, x: Seq<u8>) -> bool {
    forall|t: int| 0 <= t < d.tips.len() ==> reaches(d.vertices, (#[trigger] d.tips[t]).0@, x)
}

/// `h` at height `ht` is a vertex above the finalized height, no higher than
/// the latest tip, that every tip descends from, and no vertex higher up to
/// the latest tip is one.
pub open spec fn is_candidate(d: DagView, finalized: u64, h: Seq<u8>, ht: u64) -> bool {
    &&& finalized < ht <= latest_height_spec(d.vertices, d.tips)
    &&& exists|i: int| 0 <= i < d.vertices.len() && (#[trigger] d.vertices[i]).height == ht && d.vertices[i].hash.0@ == h
    &&& common_target(d, h)
    &&& forall|i: int| 0 <= i < d.vertices.len() && ht < (#[trigger] d.vertices[i]).height <= latest_height_spec(d.vertices, d.tips)
            ==> !common_target(d, d.vertices[i].hash.0@)
}

/// There are no tips, or no vertex above the finalized height up to the
/// latest tip is one every tip descends from.
pub open spec fn no_candidate(d: DagView, finalized: u64) -> bool {
    d.tips.len() == 0
        || forall|i: int| 0 <= i < d.vertices.len() && finalized < (#[trigger] d.vertices[i]).height <= latest_height_spec(d.vertices, d.tips)
            ==> !common_target(d, d.vertices[i].hash.0@)
}

/// `after` is `before` with the vote stored: in place of the vote of the
/// same voter, or appended when that voter has none.
pub open spec fn vote_stored(before: Seq<FinalityVote>, after: Seq<FinalityVote>, v: FinalityVote) -> bool {
    ||| exists|k: int| 0 <= k < before.len() && (#[trigger] before[k]).voter.0@ == v.voter.0@ && after == before.update(k, v)
    ||| (forall|k: int| 0 <= k < before.len() ==> (#[trigger] before[k]).voter.0@ != v.voter.0@) && after == before.push(v)
}

/// The proofs whose height lies in `from..=to`, in order.
pub open spec fn proofs_between(ps: Seq<FinalityProof>, from: u64, to: u64) -> Seq<FinalityProof>
    decreases ps.len(),
{
    if ps.len() == 0 {
        Seq::empty()
    } else if from <= ps.last().target_height <= to {
        proofs_between(ps.drop_last(), from, to).push(ps.last())
    } else {
        proofs_between(ps.drop_last(), from, to)
    }
}

impl FinalityGadget {
    pub closed spec fn state_view(&self) -> FinalityState {
        self.state
    }

    pub closed spec fn set_view(&self) -> ValidatorSet {
        self.validator_set
    }

    pub closed spec fn proofs_view(&self) -> Seq<FinalityProof> {
        self.proofs@
    }

    /// Stored votes are sound for the current validator set.
    pub closed spec fn wf(&self) -> bool {
        &&& self.validator_set.wf()
        &&& votes_sound(self.state.votes@, self.validator_set)
    }

    /// A gadget at round 0 with nothing finalized.
    pub fn new(config: FinalityConfig, initial_validators: Vec<ValidatorInfo>) -> (g: Self)
        requires stake_sum(initial_validators@) <= u128::MAX,
        ensures
            g.wf(),
            g.state_view().round == 0 && g.state_view().finalized_height == 0,
            g.state_view().finalized_hash.0@ == Seq::new(32, |i: int| 0u8),
            g.state_view().votes@.len() == 0 && g.proofs_view().len() == 0,
            g.set_view().epoch_spec() == 0 && g.set_view().total_spec() == stake_sum(initial_validators@),
    {
        let validator_set = ValidatorSet::new(initial_validators, 0);
        FinalityGadget {
            config,
            state: FinalityState {
                round: 0,
                finalized_height: 0,
                finalized_hash: crate::primitives::types::Hash::zero(),
                votes: Vec::new(),
                best_candidate: None,
            },
            validator_set,
            proofs: Vec::new(),
        }
    }

    /// Takes a vote for the current or a later round from a known
    /// validator with a valid signature (replacing that validator's earlier
    /// vote), then finalizes if a target has a supermajority.
    pub fn add_vote(&mut self, vote: FinalityVote) -> (r: Result<Option<FinalityProof>, NexusError>)
        requires old(self).wf(),
        ensures
            final(self).wf(),
            vote.round < old(self).state_view().round ==> r is Err && final(self).state_view() == old(self).state_view(),
            vote.round >= old(self).state_view().round && old(self).set_view().lookup(vote.voter.0@) is None ==> r is Err,
            vote.round >= old(self).state_view().round && old(self).set_view().lookup(vote.voter.0@) is Some
                && !vote_signed(vote, old(self).set_view().lookup(vote.voter.0@).unwrap()) ==> r is Err,
            r is Ok ==> vote.round >= old(self).state_view().round && old(self).set_view().lookup(vote.voter.0@) is Some
                && vote_signed(vote, old(self).set_view().lookup(vote.voter.0@).unwrap()),
            final(self).state_view().finalized_height >= old(self).state_view().finalized_height,
            r is Ok <==> vote.round >= old(self).state_view().round && old(self).set_view().lookup(vote.voter.0@) is Some
                && vote_signed(vote, old(self).set_view().lookup(vote.voter.0@).unwrap()),
            r is Err ==> final(self).state_view() == old(self).state_view(),
            r is Ok ==> exists|stored: Seq<FinalityVote>| #[trigger] vote_stored(old(self).state_view().votes@, stored, vote)
                && ((r matches Ok(Some(_))) <==> exists|k: int| 0 <= k < stored.len()
                    && finalizable(stored, k, old(self).set_view(), old(self).state_view().finalized_height))
                && (r matches Ok(None) ==> final(self).state_view().votes@ == stored
                    && final(self).state_view().round == old(self).state_view().round
                    && final(self).state_view().finalized_height == old(self).state_view().finalized_height)
                && (r matches Ok(Some(p)) ==> p.votes@ == votes_for(stored, p.target_hash.0@, p.target_height)
                    && final(self).state_view().votes@.len() == 0
                    && final(self).state_view().finalized_hash == p.target_hash),
            r matches Ok(Some(p)) ==> p.target_height > old(self).state_view().finalized_height
                && final(self).state_view().finalized_height == p.target_height
                && (p.verify_spec(final(self).set_view())),
            final(self).set_view() == old(self).set_view(),
    {
        if vote.round < self.state.round {
            return Err(NexusError::Consensus("Vote for past round".to_owned()));
        }
        let validator = match self.validator_set.get_validator(&vote.voter) {
            Some(v) => *v,
            None => { return Err(NexusError::Consensus("Unknown validator".to_owned())); },
        };
        let public_key = PublicKey(validator.public_key);
        match vote.verify(&public_key) {
            Err(e) => { return Err(e); },
            Ok(false) => { return Err(NexusError::Consensus("Invalid vote signature".to_owned())); },
            Ok(true) => {},
        }
        self.store_vote(vote);
        let ghost stored = self.state.votes@;
        let r = self.try_finalize();
        proof {
            assert(vote_stored(old(self).state_view().votes@, stored, vote));
        }
        r
    }

    fn store_vote(&mut self, vote: FinalityVote)
        requires
            old(self).wf(),
            old(self).validator_set.lookup(vote.voter.0@) is Some,
            vote_signed(vote, old(self).validator_set.lookup(vote.voter.0@).unwrap()),
        ensures
            final(self).wf(),
            final(self).validator_set == old(self).validator_set,
            final(self).proofs@ == old(self).proofs@,
            final(self).state.round == old(self).state.round,
            final(self).state.finalized_height == old(self).state.finalized_height,
            final(self).state.finalized_hash == old(self).state.finalized_hash,
            final(self).state.best_candidate == old(self).state.best_candidate,
            vote_stored(old(self).state.votes@, final(self).state.votes@, vote),
    {
        let ghost vs0 = self.state.votes@;
        let mut i: usize = 0;
        while i < self.state.votes.len()
            invariant
                self.wf(),
                self.state.votes@ == vs0,
                vs0 == old(self).state.votes@,
                self.validator_set == old(self).validator_set,
                self.proofs@ == old(self).proofs@,
                self.state.round == old(self).state.round,
                self.state.finalized_height == old(self).state.finalized_height,
                self.state.finalized_hash == old(self).state.finalized_hash,
                self.state.best_candidate == old(self).state.best_candidate,
                self.validator_set.lookup(vote.voter.0@) is Some,
                vote_signed(vote, self.validator_set.lookup(vote.voter.0@).unwrap()),
                i <= vs0.len(),
                forall|k: int| 0 <= k < i ==> (#[trigger] vs0[k]).voter.0@ != vote.voter.0@,
            decreases vs0.len() - i,
        {
            if self.state.votes[i].voter == vote.voter {
                self.state.votes.set(i, vote);
                proof {
                    assert(vs0[i as int].voter.0@ == vote.voter.0@);
                    assert(vote_stored(vs0, self.state.votes@, vote));
                    let v2 = self.state.votes@;
                    assert forall|a: int, b: int| 0 <= a < b < v2.len() implies (#[trigger] v2[a]).voter.0@ != (#[trigger] v2[b]).voter.0@ by {
                        assert(vs0[a].voter.0@ != vs0[b].voter.0@);
                    }
                }
                return;
            }
            i = i + 1;
        }
        self.state.votes.push(vote);
        proof {
            let v2 = self.state.votes@;
            assert(vote_stored(vs0, v2, vote));
            assert forall|a: int, b: int| 0 <= a < b < v2.len() implies (#[trigger] v2[a]).voter.0@ != (#[trigger] v2[b]).voter.0@ by {
                if b == vs0.len() { assert(v2[a] == vs0[a]); } else { assert(v2[a] == vs0[a] && v2[b] == vs0[b]); }
            }
            assert forall|k: int| 0 <= k < v2.len() implies self.validator_set.lookup((#[trigger] v2[k]).voter.0@) is Some
                && vote_signed(v2[k], self.validator_set.lookup(v2[k].voter.0@).unwrap()) by {
                if k < vs0.len() { assert(v2[k] == vs0[k]); }
            }
        }
    }

    /// Finalizes the first voted target that has a supermajority above the
    /// finalized height: a proof of its votes is made and stored, the round
    /// advances and the votes are cleared.
    fn try_finalize(&mut self) -> (r: Result<Option<FinalityProof>, NexusError>)
        requires old(self).wf(),
        ensures
            final(self).wf(),
            r is Ok,
            final(self).validator_set == old(self).validator_set,
            (r matches Ok(Some(_))) <==> exists|k: int| 0 <= k < old(self).state.votes@.len()
                && finalizable(old(self).state.votes@, k, old(self).validator_set, old(self).state.finalized_height),
            r matches Ok(None) ==> final(self).state == old(self).state && final(self).proofs@ == old(self).proofs@,
            r matches Ok(Some(p)) ==> {
                &&& exists|k: int| 0 <= k < old(self).state.votes@.len()
                        && finalizable(old(self).state.votes@, k, old(self).validator_set, old(self).state.finalized_height)
                        && (#[trigger] old(self).state.votes@[k]).target_hash == p.target_hash
                        && old(self).state.votes@[k].target_height == p.target_height
                &&& p.votes@ == votes_for(old(self).state.votes@, p.target_hash.0@, p.target_height)
                &&& p.round == old(self).state.round && p.epoch == old(self).validator_set.epoch_spec()
                &&& final(self).state.finalized_height == p.target_height
                &&& final(self).state.finalized_hash == p.target_hash
                &&& final(self).state.round == old(self).state.round + 1 || old(self).state.round == u64::MAX
                &&& final(self).state.votes@.len() == 0
                &&& p.target_height > old(self).state.finalized_height
                &&& p.verify_spec(old(self).validator_set)
            },
            final(self).state.finalized_height >= old(self).state.finalized_height,
    {
        let n = self.state.votes.len();
        let mut k: usize = 0;
        while k < n
            invariant
                self.wf(),
                self.state == old(self).state,
                self.validator_set == old(self).validator_set,
                self.proofs@ == old(self).proofs@,
                n == self.state.votes@.len(),
                k <= n,
                forall|j: int| 0 <= j < k ==> !finalizable(self.state.votes@, j, self.validator_set, self.state.finalized_height),
            decreases n - k,
        {
            let target = self.state.votes[k].target_hash;
            let height = self.state.votes[k].target_height;
            let ghost votes = self.state.votes@;
            let mut group: Vec<FinalityVote> = Vec::new();
            let mut weight: u128 = 0;
            let mut j: usize = 0;
            assert(votes.subrange(0, 0) =~= Seq::<FinalityVote>::empty());
            while j < n
                invariant
                    j <= n,
                    n == votes.len(),
                    votes == self.state.votes@,
                    group@ == votes_for(votes.subrange(0, j as int), target.0@, height),
                    votes_weight(group@, group@.len() as int, self.validator_set) >= 0,
                    weight == (if votes_weight(group@, group@.len() as int, self.validator_set) > u128::MAX { u128::MAX as int }
                        else { votes_weight(group@, group@.len() as int, self.validator_set) }),
                decreases n - j,
            {
                let v = self.state.votes[j];
                proof { assert(votes.subrange(0, j + 1).drop_last() =~= votes.subrange(0, j as int)); }
                if v.target_hash == target && v.target_height == height {
                    let ghost g0 = group@;
                    group.push(v);
                    proof {
                        assert(group@.subrange(0, g0.len() as int) =~= g0);
                        lemma_votes_weight_prefix(group@, g0.len() as int, self.validator_set);
                    }
                    match self.validator_set.get_validator(&v.voter) {
                        Some(info) => { weight = weight.saturating_add(info.stake); },
                        None => {},
                    }
                }
                j = j + 1;
            }
            proof {
                assert(votes.subrange(0, n as int) =~= votes);
                lemma_supermajority_saturated(votes_weight(group@, group@.len() as int, self.validator_set), self.validator_set.total_spec() as int);
            }
            if self.validator_set.has_supermajority(weight) && height > self.state.finalized_height {
                let proof_value = FinalityProof {
                    round: self.state.round,
                    target_hash: target,
                    target_height: height,
                    votes: group,
                    total_weight: weight,
                    epoch: self.validator_set.epoch,
                };
                proof {
                    lemma_votes_for_props(votes, target.0@, height, self.validator_set);
                    lemma_sound_proof_valid(proof_value.votes@, target.0@, height, self.validator_set);
                    assert(votes[k as int].target_hash == target && votes[k as int].target_height == height);
                    assert(finalizable(votes, k as int, self.validator_set, self.state.finalized_height));
                }
                let stored = FinalityProof {
                    round: proof_value.round,
                    target_hash: proof_value.target_hash,
                    target_height: proof_value.target_height,
                    votes: copy_votes(&proof_value.votes),
                    total_weight: proof_value.total_weight,
                    epoch: proof_value.epoch,
                };
                self.state.finalized_height = height;
                self.state.finalized_hash = target;
                if self.state.round < u64::MAX {
                    self.state.round = self.state.round + 1;
                }
                self.state.votes = Vec::new();
                self.proofs.push(stored);
                return Ok(Some(proof_value));
            }
            k = k + 1;
        }
        Ok(None)
    }

    /// The finalized height and hash.
    pub fn finalized_state(&self) -> (r: (u64, VHash))
        ensures r.0 == self.state_view().finalized_height && r.1 == self.state_view().finalized_hash,
    {
        (self.state.finalized_height, self.state.finalized_hash)
    }

    /// The highest vertex above the finalized height that every tip
    /// descends from (or is), searching from the latest height down.
    pub fn find_best_candidate(&self, dag: &Dag) -> (r: Option<(VHash, u64)>)
        requires dag.wf(),
        ensures
            match r {
                Some((h, ht)) => ht > self.state_view().finalized_height
                    && has_hash(dag@.vertices, h.0@)
                    && (forall|t: int| 0 <= t < dag@.tips.len() ==> reaches(dag@.vertices, (#[trigger] dag@.tips[t]).0@, h.0@))
                    && is_candidate(dag@, self.state_view().finalized_height, h.0@, ht),
                None => no_candidate(dag@, self.state_view().finalized_height),
            },
    {
        let current = dag.latest_height();
        let tips = dag.get_tips();
        if tips.len() == 0 {
            return None;
        }
        let lowest = self.state.finalized_height;
        if current <= lowest {
            return None;
        }
        let mut height: u64 = current;
        while height > lowest
            invariant
                dag.wf(),
                tips@ == dag@.tips,
                lowest == self.state_view().finalized_height,
                current == latest_height_spec(dag@.vertices, dag@.tips),
                lowest <= height <= current,
                forall|i: int| 0 <= i < dag@.vertices.len() && height < (#[trigger] dag@.vertices[i]).height <= current
                    ==> !common_target(dag@, dag@.vertices[i].hash.0@),
            decreases height,
        {
            let at = dag.get_vertices_at_height(height);
            let mut a: usize = 0;
            while a < at.len()
                invariant
                    dag.wf(),
                    tips@ == dag@.tips,
                    lowest == self.state_view().finalized_height,
                    current == latest_height_spec(dag@.vertices, dag@.tips),
                    lowest < height <= current,
                    forall|i: int| 0 <= i < dag@.vertices.len() && height < (#[trigger] dag@.vertices[i]).height <= current
                        ==> !common_target(dag@, dag@.vertices[i].hash.0@),
                    forall|x: Seq<u8>| crate::dag::graph::in_prefix(at@, at@.len() as int, x) <==>
                        exists|i: int| 0 <= i < dag@.vertices.len() && (#[trigger] dag@.vertices[i]).height == height && dag@.vertices[i].hash.0@ == x,
                    a <= at@.len(),
                    forall|q: int| 0 <= q < a ==> !common_target(dag@, (#[trigger] at@[q]).0@),
                decreases at@.len() - a,
            {
                let vh = at[a];
                proof {
                    assert(crate::dag::graph::in_prefix(at@, at@.len() as int, vh.0@)) by {
                        assert(at@[a as int].0@ == vh.0@);
                    }
                }
                let mut all = true;
                let mut t: usize = 0;
                while t < tips.len()
                    invariant
                        dag.wf(),
                        tips@ == dag@.tips,
                        t <= tips@.len(),
                        all ==> forall|q: int| 0 <= q < t ==> reaches(dag@.vertices, (#[trigger] tips@[q]).0@, vh.0@),
                        !all ==> !common_target(dag@, vh.0@),
                    decreases tips@.len() - t,
                {
                    let tip = tips[t];
                    let anc = dag.is_ancestor(&vh, &tip);
                    if !anc {
                        proof {
                            if tip == vh {
                                let p0 = seq![vh.0@];
                                assert(crate::dag::graph::is_path(dag@.vertices, p0));
                                assert(p0[0] == tip.0@ && p0.last() == vh.0@);
                            }
                            assert(!reaches(dag@.vertices, dag@.tips[t as int].0@, vh.0@));
                        }
                        all = false;
                    }
                    t = t + 1;
                }
                if all {
                    proof {
                        let i = choose|i: int| 0 <= i < dag@.vertices.len() && (#[trigger] dag@.vertices[i]).height == height && dag@.vertices[i].hash.0@ == vh.0@;
                        assert(has_hash(dag@.vertices, vh.0@));
                        assert(common_target(dag@, vh.0@));
                    }
                    return Some((vh, height));
                }
                a = a + 1;
            }
            proof {
                assert forall|i: int| 0 <= i < dag@.vertices.len() && height - 1 < (#[trigger] dag@.vertices[i]).height <= current
                    implies !common_target(dag@, dag@.vertices[i].hash.0@) by {
                    if dag@.vertices[i].height == height {
                        let x = dag@.vertices[i].hash.0@;
                        assert(crate::dag::graph::in_prefix(at@, at@.len() as int, x));
                        let q = choose|q: int| 0 <= q < at@.len() && (#[trigger] at@[q]).0@ == x;
                        assert(!common_target(dag@, at@[q].0@));
                    }
                }
            }
            height = height - 1;
        }
        None
    }

    /// A vote for the best candidate in the current round, if there is one.
    pub fn create_vote(&self, dag: &Dag, voter_id: ValidatorId, secret_key: &SecretKey) -> (r: Result<Option<FinalityVote>, NexusError>)
        requires dag.wf(),
        ensures
            r matches Ok(Some(v)) ==> v.round == self.state_view().round && v.voter == voter_id
                && v.target_height > self.state_view().finalized_height
                && is_candidate(dag@, self.state_view().finalized_height, v.target_hash.0@, v.target_height)
                && verify_signature_spec(blake3_spec(vote_message(v.round, v.target_hash.0@, v.target_height)), v.signature,
                    crate::primitives::crypto::secp256k1_public_key(secret_key.scalar())) == Ok::<bool, ()>(true),
            r matches Ok(None) ==> no_candidate(dag@, self.state_view().finalized_height),
            r is Err ==> exists|h: VHash, ht: u64| is_candidate(dag@, self.state_view().finalized_height, h.0@, ht)
                && #[trigger] ecdsa_sign_spec(secret_key.scalar(), blake3_spec(vote_message(self.state_view().round, h.0@, ht))) is None,
    {
        match self.find_best_candidate(dag) {
            Some((hash, height)) => {
                match FinalityVote::new(self.state.round, hash, height, voter_id, secret_key) {
                    Ok(v) => Ok(Some(v)),
                    Err(e) => Err(e),
                }
            },
            None => Ok(None),
        }
    }

    /// Replaces the validator set for a new epoch and clears the votes.
    pub fn update_validator_set(&mut self, validators: Vec<ValidatorInfo>, epoch: u64)
        requires old(self).wf(), stake_sum(validators@) <= u128::MAX,
        ensures
            final(self).wf(),
            final(self).set_view().epoch_spec() == epoch,
            final(self).set_view().total_spec() == stake_sum(validators@),
            final(self).state_view().votes@.len() == 0,
            final(self).state_view().finalized_height == old(self).state_view().finalized_height,
            final(self).state_view().round == old(self).state_view().round,
    {
        self.validator_set = ValidatorSet::new(validators, epoch);
        self.state.votes = Vec::new();
    }

    /// The stored proofs whose height lies in `from_height..=to_height`.
    pub fn get_proofs(&self, from_height: u64, to_height: u64) -> (r: Vec<&FinalityProof>)
        ensures
            r@.map_values(|p: &FinalityProof| *p) == proofs_between(self.proofs_view(), from_height, to_height),
            forall|i: int| 0 <= i < r@.len() ==> from_height <= (#[trigger] r@[i]).target_height <= to_height
                && self.proofs_view().contains(*r@[i]),
    {
        let mut out: Vec<&FinalityProof> = Vec::new();
        let mut i: usize = 0;
        assert(self.proofs@.take(0) =~= Seq::<FinalityProof>::empty());
        assert(out@.map_values(|p: &FinalityProof| *p) =~= Seq::<FinalityProof>::empty());
        while i < self.proofs.len()
            invariant
                i <= self.proofs@.len(),
                out@.map_values(|p: &FinalityProof| *p) == proofs_between(self.proofs@.take(i as int), from_height, to_height),
                forall|k: int| 0 <= k < out@.len() ==> from_height <= (#[trigger] out@[k]).target_height <= to_height
                    && self.proofs@.contains(*out@[k]),
            decreases self.proofs@.len() - i,
        {
            let p = &self.proofs[i];
            proof {
                assert(self.proofs@.take(i + 1).drop_last() =~= self.proofs@.take(i as int));
                assert(self.proofs@.take(i + 1).last() == *p);
            }
            if p.target_height >= from_height && p.target_height <= to_height {
                let ghost o = out@;
                out.push(p);
                proof {
                    assert(self.proofs@[i as int] == *p);
                    assert(out@.map_values(|p: &FinalityProof| *p) =~= o.map_values(|p: &FinalityProof| *p).push(*p));
                }
            }
            i = i + 1;
        }
        assert(self.proofs@.take(i as int) =~= self.proofs@);
        out
    }

    /// Applies a proof received from a peer: it must verify and name a
    /// vertex in the DAG; a higher height becomes the finalized one, in the
    /// gadget and in the DAG.
    pub fn apply_proof(&mut self, proof: FinalityProof, dag: &mut Dag) -> (r: Result<(), NexusError>)
        requires old(self).wf(), old(dag).wf(),
        ensures
            final(self).wf(),
            final(dag).wf(),
            r is Ok <==> proof.verify_spec(old(self).set_view()) && has_hash(old(dag)@.vertices, proof.target_hash.0@),
            r is Ok && proof.target_height > old(self).state_view().finalized_height ==>
                final(self).state_view().finalized_height == proof.target_height
                && final(self).state_view().finalized_hash == proof.target_hash,
            final(self).state_view().finalized_height >= old(self).state_view().finalized_height,
            final(dag)@.finalized_height >= old(dag)@.finalized_height,
    {
        match proof.verify(&self.validator_set) {
            Err(e) => { return Err(e); },
            Ok(_) => {},
        }
        if dag.get_vertex(&proof.target_hash).is_none() {
            return Err(NexusError::Consensus("Proof target not found in DAG".to_owned()));
        }
        if proof.target_height > self.state.finalized_height {
            self.state.finalized_height = proof.target_height;
            self.state.finalized_hash = proof.target_hash;
            dag.set_finalized_height(proof.target_height);
            self.proofs.push(proof);
        }
        Ok(())
    }
}

fn copy_votes(v: &Vec<FinalityVote>) -> (r: Vec<FinalityVote>)
    ensures r@ == v@,
{
    let mut out: Vec<FinalityVote> = Vec::new();
    let mut i: usize = 0;
    while i < v.len()
        invariant i <= v@.len(), out@ == v@.subrange(0, i as int),
        decreases v@.len() - i,
    {
        out.push(v[i]);
        assert(out@ =~= v@.subrange(0, i + 1));
        i = i + 1;
    }
    assert(v@.subrange(0, i as int) =~= v@);
    out
}

proof fn lemma_votes_weight_prefix(votes: Seq<FinalityVote>, k: int, vs: ValidatorSet)
    requires 0 <= k <= votes.len(), votes_weight(votes.subrange(0, k), k, vs) >= 0,
    ensures votes_weight(votes, k, vs) == votes_weight(votes.subrange(0, k), k, vs), votes_weight(votes, votes.len() as int, vs) >= 0,
    decreases votes.len(),
{
    lemma_votes_weight_same(votes, votes.subrange(0, k), k, vs);
    lemma_votes_weight_nonneg(votes, votes.len() as int, vs);
}

proof fn lemma_votes_weight_same(a: Seq<FinalityVote>, b: Seq<FinalityVote>, k: int, vs: ValidatorSet)
    requires 0 <= k <= a.len(), k <= b.len(), forall|i: int| 0 <= i < k ==> a[i] == b[i],
    ensures votes_weight(a, k, vs) == votes_weight(b, k, vs),
    decreases k,
{
    if k > 0 { lemma_votes_weight_same(a, b, k - 1, vs); }
}

proof fn lemma_votes_weight_nonneg(a: Seq<FinalityVote>, k: int, vs: ValidatorSet)
    ensures votes_weight(a, k, vs) >= 0,
    decreases k,
{
    if k > 0 { lemma_votes_weight_nonneg(a, k - 1, vs); }
}

impl FinalityProof {
    /// What `verify` accepts, against a validator set.
    pub open spec fn verify_spec(&self, vs: ValidatorSet) -> bool {
        &&& vs.epoch_spec() == self.epoch
        &&& votes_valid(self.votes@, self.votes@.len() as int, self.target_hash.0@, self.target_height, vs)
        &&& supermajority(votes_weight(self.votes@, self.votes@.len() as int, vs), vs.total_spec() as int)
    }
}

} // verus!
