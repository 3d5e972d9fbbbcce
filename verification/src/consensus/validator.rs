//! Validators, the stake-weighted validator set of an epoch, and the
//! registry that applies queued changes at epoch boundaries.
use vstd::prelude::*;
use crate::consensus::ConsensusError;
use crate::primitives::address::{Address, digest_tail};
use crate::primitives::crypto::{SecretKey, PublicKey, scalar_in_range, secp256k1_public_key, ecdsa_sign_spec};
use crate::primitives::hashing::{keccak256, keccak256_spec, sha256_digest, sha256_spec};

verus! {

type VHash = crate::primitives::types::Hash;

/// A validator and its standing.
pub struct Validator {
    pub address: Address,
    /// Compressed public key (33 bytes).
    pub pubkey: Vec<u8>,
    /// Total stake.
    pub stake: u64,
    /// Commission in basis points (100 = 1%).
    pub commission: u16,
    pub active: bool,
    /// Jailed until this epoch (0 = not jailed).
    pub jailed_until: u64,
    pub slash_count: u32,
    /// Uptime in basis points.
    pub uptime: u16,
    pub last_active_epoch: u64,
}

/// The abstract content of a validator.
pub struct ValidatorView {
    pub address: Seq<u8>,
    pub pubkey: Seq<u8>,
    pub stake: u64,
    pub commission: u16,
    pub active: bool,
    pub jailed_until: u64,
    pub slash_count: u32,
    pub uptime: u16,
    pub last_active_epoch: u64,
}

impl View for Validator {
    type V = ValidatorView;

    open spec fn view(&self) -> ValidatorView {
        ValidatorView {
            address: self.address.0@,
            pubkey: self.pubkey@,
            stake: self.stake,
            commission: self.commission,
            active: self.active,
            jailed_until: self.jailed_until,
            slash_count: self.slash_count,
            uptime: self.uptime,
            last_active_epoch: self.last_active_epoch,
        }
    }
}

/// A validator may take part in an epoch: active, not jailed, with stake.
pub open spec fn eligible(v: ValidatorView, epoch: u64) -> bool {
    v.active && v.jailed_until <= epoch && v.stake > 0
}

impl Validator {
    /// A new active validator with 5% commission and full uptime.
    pub fn new(address: Address, pubkey: Vec<u8>, stake: u64) -> (r: Self)
        ensures
            r@ == (ValidatorView {
                address: address.0@,
                pubkey: pubkey@,
                stake,
                commission: 500,
                active: true,
                jailed_until: 0,
                slash_count: 0,
                uptime: 10000,
                last_active_epoch: 0,
            }),
    {
        Validator {
            address,
            pubkey,
            stake,
            commission: 500,
            active: true,
            jailed_until: 0,
            slash_count: 0,
            uptime: 10000,
            last_active_epoch: 0,
        }
    }

    /// Whether the validator may take part in `current_epoch`.
    pub fn is_eligible(&self, current_epoch: u64) -> (r: bool)
        ensures r == eligible(self@, current_epoch),
    {
        self.active && self.jailed_until <= current_epoch && self.stake > 0
    }

    /// Voting power, equal to stake.
    pub fn voting_power(&self) -> (r: u64)
        ensures r == self.stake,
    {
        self.stake
    }

    /// A copy of this validator.
    pub fn duplicate(&self) -> (r: Self)
        ensures r@ == self@,
    {
        Validator {
            address: self.address,
            pubkey: vstd::slice::slice_to_vec(self.pubkey.as_slice()),
            stake: self.stake,
            commission: self.commission,
            active: self.active,
            jailed_until: self.jailed_until,
            slash_count: self.slash_count,
            uptime: self.uptime,
            last_active_epoch: self.last_active_epoch,
        }
    }
}

/// The views of a list of validators.
pub open spec fn views(s: Seq<Validator>) -> Seq<ValidatorView> {
    Seq::new(s.len(), |i: int| s[i]@)
}

/// No address occurs twice.
pub open spec fn addresses_unique(s: Seq<ValidatorView>) -> bool {
    forall|i: int, j: int| 0 <= i < j < s.len() ==> (#[trigger] s[i]).address != (#[trigger] s[j]).address
}

/// The stake of the validators eligible in `epoch`.
pub open spec fn eligible_stake(s: Seq<ValidatorView>, epoch: u64) -> nat
    decreases s.len(),
{
    if s.len() == 0 {
        0
    } else {
        eligible_stake(s.drop_last(), epoch) + if eligible(s.last(), epoch) { s.last().stake as nat } else { 0nat }
    }
}

/// The validators eligible in `epoch`, in order.
pub open spec fn eligible_of(s: Seq<ValidatorView>, epoch: u64) -> Seq<ValidatorView>
    decreases s.len(),
{
    if s.len() == 0 {
        Seq::empty()
    } else if eligible(s.last(), epoch) {
        eligible_of(s.drop_last(), epoch).push(s.last())
    } else {
        eligible_of(s.drop_last(), epoch)
    }
}

/// The validators taking part in an epoch are exactly the members that
/// are eligible in it.
pub proof fn lemma_eligible_of_members(s: Seq<ValidatorView>, epoch: u64)
    ensures
        forall|k: int| 0 <= k < eligible_of(s, epoch).len() ==>
            eligible(#[trigger] eligible_of(s, epoch)[k], epoch) && s.contains(eligible_of(s, epoch)[k]),
        forall|i: int| 0 <= i < s.len() && eligible(#[trigger] s[i], epoch) ==> eligible_of(s, epoch).contains(s[i]),
    decreases s.len(),
{
    if s.len() > 0 {
        let p = s.drop_last();
        lemma_eligible_of_members(p, epoch);
        let e = eligible_of(s, epoch);
        let ep = eligible_of(p, epoch);
        assert forall|k: int| 0 <= k < e.len() implies eligible(#[trigger] e[k], epoch) && s.contains(e[k]) by {
            if k < ep.len() {
                assert(e[k] == ep[k]);
                let j = choose|j: int| 0 <= j < p.len() && p[j] == ep[k];
                assert(s[j] == p[j]);
            } else {
                assert(e[k] == s.last());
                assert(s[s.len() - 1] == e[k]);
            }
        }
        assert forall|i: int| 0 <= i < s.len() && eligible(#[trigger] s[i], epoch) implies e.contains(s[i]) by {
            if i < s.len() - 1 {
                assert(p[i] == s[i]);
                let j = choose|j: int| 0 <= j < ep.len() && ep[j] == p[i];
                assert(e[j] == ep[j]);
            } else {
                assert(e[e.len() - 1] == s[i]);
            }
        }
    }
}

/// Some validator of the list has address `a`.
pub open spec fn has_address(s: Seq<ValidatorView>, a: Seq<u8>) -> bool {
    exists|i: int| 0 <= i < s.len() && (#[trigger] s[i]).address == a
}

/// The list with `v` in place of the validator of the same address, or with
/// `v` added at the end.
pub open spec fn upsert(s: Seq<ValidatorView>, v: ValidatorView) -> Seq<ValidatorView> {
    if has_address(s, v.address) {
        let i = choose|i: int| 0 <= i < s.len() && (#[trigger] s[i]).address == v.address;
        s.update(i, v)
    } else {
        s.push(v)
    }
}

/// The stake of the member with address `a`, 0 when there is none.
pub open spec fn member_stake(s: Seq<ValidatorView>, a: Seq<u8>) -> int {
    if has_address(s, a) { s[choose|i: int| 0 <= i < s.len() && (#[trigger] s[i]).address == a].stake as int } else { 0 }
}

/// The total stake after `v` joins: the stake of the member it replaces
/// comes out, its own goes in.
pub open spec fn joined_total(s: Seq<ValidatorView>, total: int, v: ValidatorView) -> int {
    let out = member_stake(s, v.address);
    (if total >= out { total - out } else { 0 }) + v.stake
}

/// The sum of the members' stakes.
pub open spec fn members_stake(s: Seq<ValidatorView>) -> int
    decreases s.len(),
{
    if s.len() == 0 { 0 } else { members_stake(s.drop_last()) + s.last().stake }
}

proof fn lemma_members_stake_update(s: Seq<ValidatorView>, i: int, v: ValidatorView)
    requires 0 <= i < s.len(),
    ensures members_stake(s.update(i, v)) == members_stake(s) - s[i].stake + v.stake,
    decreases s.len(),
{
    let u = s.update(i, v);
    if i == s.len() - 1 {
        assert(u.drop_last() =~= s.drop_last());
    } else {
        assert(u.drop_last() =~= s.drop_last().update(i, v));
        lemma_members_stake_update(s.drop_last(), i, v);
    }
}

proof fn lemma_members_stake_nonneg(s: Seq<ValidatorView>)
    ensures members_stake(s) >= 0,
    decreases s.len(),
{
    if s.len() > 0 { lemma_members_stake_nonneg(s.drop_last()); }
}

proof fn lemma_members_stake_bound(s: Seq<ValidatorView>, i: int)
    requires 0 <= i < s.len(),
    ensures s[i].stake <= members_stake(s),
    decreases s.len(),
{
    lemma_members_stake_nonneg(s.drop_last());
    if i < s.len() - 1 {
        lemma_members_stake_bound(s.drop_last(), i);
        assert(s.drop_last()[i] == s[i]);
    }
}

/// Adding a validator keeps the total stake the sum of the members' stakes:
/// a replaced member's stake comes out, the new stake goes in.
pub proof fn lemma_join_keeps_stake_sum(s: Seq<ValidatorView>, total: int, v: ValidatorView)
    requires addresses_unique(s), total == members_stake(s),
    ensures joined_total(s, total, v) == members_stake(upsert(s, v)),
{
    lemma_members_stake_nonneg(s);
    if has_address(s, v.address) {
        let i = choose|i: int| 0 <= i < s.len() && (#[trigger] s[i]).address == v.address;
        lemma_members_stake_update(s, i, v);
        lemma_members_stake_bound(s, i);
        assert(member_stake(s, v.address) == s[i].stake);
        assert(upsert(s, v) == s.update(i, v));
        assert(total >= s[i].stake);
        assert(joined_total(s, total, v) == total - s[i].stake + v.stake);
        assert(members_stake(upsert(s, v)) == members_stake(s) - s[i].stake + v.stake);
    } else {
        assert(s.push(v).drop_last() =~= s);
        assert(member_stake(s, v.address) == 0);
        assert(upsert(s, v) == s.push(v));
        assert(members_stake(s.push(v)) == members_stake(s) + v.stake);
    }
}

/// The validator set of an epoch.
pub struct ValidatorSet {
    pub epoch: u64,
    /// The validators, each address once.
    pub validators: Vec<Validator>,
    /// Stake added by joins less stake removed.
    pub total_stake: u64,
    /// Least stake accepted.
    pub min_stake: u64,
    pub max_validators: usize,
}

impl ValidatorSet {
    /// The validators as abstract values.
    pub open spec fn members(&self) -> Seq<ValidatorView> {
        views(self.validators@)
    }

    /// Addresses are unique.
    pub open spec fn wf(&self) -> bool {
        addresses_unique(self.members())
    }

    /// An empty set: minimum stake 10,000,000,000, at most 100 validators.
    pub fn new(epoch: u64) -> (r: Self)
        ensures
            r.wf(),
            r.epoch == epoch,
            r.members() == Seq::<ValidatorView>::empty(),
            r.total_stake == 0,
            r.min_stake == 10_000_000_000,
            r.max_validators == 100,
    {
        let r = ValidatorSet {
            epoch,
            validators: Vec::new(),
            total_stake: 0,
            min_stake: 10_000_000_000,
            max_validators: 100,
        };
        assert(r.members() =~= Seq::<ValidatorView>::empty());
        r
    }

    /// The index of the validator with address `a`, if any.
    fn find(&self, a: &Address) -> (r: Option<usize>)
        requires self.wf(),
        ensures
            match r {
                Some(i) => i < self.members().len() && self.members()[i as int].address == a.0@,
                None => !has_address(self.members(), a.0@),
            },
    {
        let mut i: usize = 0;
        while i < self.validators.len()
            invariant
                i <= self.validators@.len(),
                forall|j: int| 0 <= j < i ==> (#[trigger] self.members()[j]).address != a.0@,
            decreases self.validators@.len() - i,
        {
            if self.validators[i].address == *a {
                return Some(i);
            }
            i = i + 1;
        }
        None
    }

    /// Adds (or replaces) a validator with at least the minimum stake.
    pub fn add_validator(&mut self, validator: Validator) -> (r: Result<(), ConsensusError>)
        requires
            old(self).wf(),
            validator.stake >= old(self).min_stake ==> old(self).total_stake + validator.stake <= u64::MAX,
        ensures
            final(self).wf(),
            final(self).epoch == old(self).epoch,
            final(self).min_stake == old(self).min_stake,
            final(self).max_validators == old(self).max_validators,
            validator.stake < old(self).min_stake ==> r == Err::<(), ConsensusError>(
                ConsensusError::InsufficientStake { required: old(self).min_stake, available: validator.stake },
            ) && final(self).members() == old(self).members() && final(self).total_stake == old(self).total_stake,
            validator.stake >= old(self).min_stake ==> r is Ok
                && final(self).total_stake == joined_total(old(self).members(), old(self).total_stake as int, validator@)
                && final(self).members() == upsert(old(self).members(), validator@),
            old(self).total_stake == members_stake(old(self).members()) ==> final(self).total_stake == members_stake(final(self).members()),
    {
        if validator.stake < self.min_stake {
            return Err(ConsensusError::InsufficientStake { required: self.min_stake, available: validator.stake });
        }
        let ghost s = self.members();
        let ghost v = validator@;
        let ghost t0 = self.total_stake as int;
        match self.find(&validator.address) {
            Some(i) => {
                let old_stake = self.validators[i].stake;
                let base: u64 = if self.total_stake >= old_stake { self.total_stake - old_stake } else { 0 };
                self.total_stake = base + validator.stake;
                proof {
                    let k = choose|k: int| 0 <= k < s.len() && (#[trigger] s[k]).address == v.address;
                    if k != i as int {
                        if k < i { assert(s[k].address != s[i as int].address); } else { assert(s[i as int].address != s[k].address); }
                    }
                    assert(member_stake(s, v.address) == old_stake);
                }
                self.validators.set(i, validator);
                proof {
                    let k = choose|k: int| 0 <= k < s.len() && (#[trigger] s[k]).address == v.address;
                    if k != i {
                        assert(s[k].address != s[i as int].address);
                    }
                    assert(self.members() =~= s.update(i as int, v));
                    assert forall|a: int, b: int| 0 <= a < b < self.members().len() implies
                        (#[trigger] self.members()[a]).address != (#[trigger] self.members()[b]).address by {
                        assert(s[a].address != s[b].address);
                    }
                }
            },
            None => {
                self.total_stake = self.total_stake + validator.stake;
                self.validators.push(validator);
                proof {
                    assert(self.members() =~= s.push(v));
                    assert forall|a: int, b: int| 0 <= a < b < self.members().len() implies
                        (#[trigger] self.members()[a]).address != (#[trigger] self.members()[b]).address by {
                        if b == s.len() {
                            assert(s[a].address != v.address);
                        }
                    }
                }
            },
        }
        proof {
            if t0 == members_stake(s) {
                lemma_join_keeps_stake_sum(s, t0, v);
            }
        }
        Ok(())
    }

    /// Removes the validator with the given address, returning it.
    pub fn remove_validator(&mut self, address: &Address) -> (r: Option<Validator>)
        requires
            old(self).wf(),
            forall|i: int| 0 <= i < old(self).members().len() && (#[trigger] old(self).members()[i]).address == address.0@
                ==> old(self).members()[i].stake <= old(self).total_stake,
        ensures
            final(self).wf(),
            final(self).epoch == old(self).epoch,
            final(self).min_stake == old(self).min_stake,
            final(self).max_validators == old(self).max_validators,
            r is Some <==> has_address(old(self).members(), address.0@),
            r is None ==> final(self).members() == old(self).members() && final(self).total_stake == old(self).total_stake,
            r matches Some(v) ==> v.address.0@ == address.0@
                && exists|i: int| 0 <= i < old(self).members().len()
                    && old(self).members()[i] == v@
                    && final(self).members() == old(self).members().remove(i)
                    && final(self).total_stake == old(self).total_stake - v.stake,
    {
        let ghost s = self.members();
        match self.find(address) {
            Some(i) => {
                let v = self.validators.remove(i);
                assert(s[i as int] == v@);
                self.total_stake = self.total_stake - v.stake;
                proof {
                    assert(self.members() =~= s.remove(i as int));
                    assert forall|a: int, b: int| 0 <= a < b < self.members().len() implies
                        (#[trigger] self.members()[a]).address != (#[trigger] self.members()[b]).address by {
                        if a >= i {
                            assert(s[a + 1].address != s[b + 1].address);
                        } else if b >= i {
                            assert(s[a].address != s[b + 1].address);
                        } else {
                            assert(s[a].address != s[b].address);
                        }
                    }
                }
                Some(v)
            },
            None => None,
        }
    }

    /// The position of the validator with the given address.
    pub fn position(&self, address: &Address) -> (r: Option<usize>)
        requires self.wf(),
        ensures
            match r {
                Some(i) => i < self.members().len() && self.members()[i as int].address == address.0@,
                None => !has_address(self.members(), address.0@),
            },
    {
        self.find(address)
    }

    /// Sets the stake of the validator at position `i`.
    pub fn set_stake(&mut self, i: usize, stake: u64)
        requires old(self).wf(), i < old(self).members().len(),
        ensures
            final(self).wf(),
            final(self).members() == old(self).members().update(i as int, ValidatorView { stake, ..old(self).members()[i as int] }),
            final(self).epoch == old(self).epoch && final(self).total_stake == old(self).total_stake,
            final(self).min_stake == old(self).min_stake && final(self).max_validators == old(self).max_validators,
    {
        let ghost s = self.members();
        let mut v = self.validators.remove(i);
        v.stake = stake;
        self.validators.insert(i, v);
        proof {
            assert(self.members() =~= s.update(i as int, ValidatorView { stake, ..s[i as int] }));
            assert forall|a: int, b: int| 0 <= a < b < self.members().len() implies
                (#[trigger] self.members()[a]).address != (#[trigger] self.members()[b]).address by {
                assert(s[a].address == self.members()[a].address && s[b].address == self.members()[b].address);
            }
        }
    }

    /// Replaces the validator at position `i` by one of the same address.
    pub fn set_entry(&mut self, i: usize, v: Validator)
        requires old(self).wf(), i < old(self).members().len(), v.address.0@ == old(self).members()[i as int].address,
        ensures
            final(self).wf(),
            final(self).members() == old(self).members().update(i as int, v@),
            final(self).epoch == old(self).epoch && final(self).total_stake == old(self).total_stake,
            final(self).min_stake == old(self).min_stake && final(self).max_validators == old(self).max_validators,
    {
        let ghost s = self.members();
        let ghost vv = v@;
        self.validators.set(i, v);
        proof {
            assert(self.members() =~= s.update(i as int, vv));
            assert forall|a: int, b: int| 0 <= a < b < self.members().len() implies
                (#[trigger] self.members()[a]).address != (#[trigger] self.members()[b]).address by {
                assert(s[a].address == self.members()[a].address && s[b].address == self.members()[b].address);
            }
        }
    }

    /// The validator with the given address.
    pub fn get(&self, address: &Address) -> (r: Option<&Validator>)
        requires self.wf(),
        ensures
            r is Some <==> has_address(self.members(), address.0@),
            r matches Some(v) ==> v.address.0@ == address.0@ && exists|i: int|
                0 <= i < self.members().len() && self.members()[i] == v@,
    {
        match self.find(address) {
            Some(i) => Some(&self.validators[i]),
            None => None,
        }
    }

    /// Every member, in the set's order.
    pub fn iter(&self) -> (r: Vec<&Validator>)
        ensures Seq::new(r@.len(), |i: int| r@[i]@) == self.members(),
    {
        let mut out: Vec<&Validator> = Vec::new();
        let mut i: usize = 0;
        while i < self.validators.len()
            invariant
                i <= self.validators@.len(),
                Seq::new(out@.len(), |k: int| out@[k]@) == self.members().take(i as int),
            decreases self.validators@.len() - i,
        {
            let ghost before = out@;
            let v = &self.validators[i];
            out.push(v);
            assert(self.members()[i as int] == v@);
            assert(self.members().take(i + 1) =~= self.members().take(i as int).push(v@));
            assert(Seq::new(out@.len(), |k: int| out@[k]@) =~= Seq::new(before.len(), |k: int| before[k]@).push(v@));
            assert(Seq::new(out@.len(), |k: int| out@[k]@) =~= self.members().take(i + 1));
            i = i + 1;
        }
        assert(self.members().take(self.validators@.len() as int) =~= self.members());
        out
    }

    /// The validators eligible in this set's epoch.
    pub fn active_validators(&self) -> (r: Vec<&Validator>)
        ensures Seq::new(r@.len(), |i: int| r@[i]@) == eligible_of(self.members(), self.epoch),
    {
        let mut out: Vec<&Validator> = Vec::new();
        let mut i: usize = 0;
        while i < self.validators.len()
            invariant
                i <= self.validators@.len(),
                Seq::new(out@.len(), |k: int| out@[k]@) == eligible_of(self.members().take(i as int), self.epoch),
            decreases self.validators@.len() - i,
        {
            assert(self.members().take(i + 1).drop_last() =~= self.members().take(i as int));
            let v = &self.validators[i];
            if v.is_eligible(self.epoch) {
                out.push(v);
            }
            assert(Seq::new(out@.len(), |k: int| out@[k]@) =~= eligible_of(self.members().take(i + 1), self.epoch));
            i = i + 1;
        }
        assert(self.members().take(self.validators@.len() as int) =~= self.members());
        out
    }

    /// The stake of the validators eligible in this set's epoch.
    pub open spec fn active_stake_spec(&self) -> nat {
        eligible_stake(self.members(), self.epoch)
    }

    /// Total stake of the eligible validators.
    pub fn active_stake(&self) -> (r: u64)
        requires self.active_stake_spec() <= u64::MAX,
        ensures r == self.active_stake_spec(),
    {
        let mut sum: u64 = 0;
        let mut i: usize = 0;
        while i < self.validators.len()
            invariant
                i <= self.validators@.len(),
                eligible_stake(self.members(), self.epoch) <= u64::MAX,
                sum == eligible_stake(self.members().take(i as int), self.epoch),
            decreases self.validators@.len() - i,
        {
            assert(self.members().take(i + 1).drop_last() =~= self.members().take(i as int));
            proof {
                lemma_eligible_stake_prefix(self.members(), self.epoch, i + 1);
            }
            let v = &self.validators[i];
            if v.is_eligible(self.epoch) {
                sum = sum + v.stake;
            }
            i = i + 1;
        }
        assert(self.members().take(self.validators@.len() as int) =~= self.members());
        sum
    }

    /// Whether `stake` is more than two thirds of the active stake.
    pub fn has_supermajority(&self, stake: u64) -> (r: bool)
        requires
            self.active_stake_spec() * 2 <= u64::MAX,
            stake * 3 <= u64::MAX,
        ensures r == (stake * 3 > self.active_stake_spec() * 2),
    {
        stake * 3 > self.active_stake() * 2
    }

    /// Whether `stake` is more than one third of the active stake.
    pub fn has_quorum(&self, stake: u64) -> (r: bool)
        requires
            self.active_stake_spec() <= u64::MAX,
            stake * 3 <= u64::MAX,
        ensures r == (stake * 3 > self.active_stake_spec()),
    {
        stake * 3 > self.active_stake()
    }

    pub fn len(&self) -> (r: usize)
        ensures r == self.members().len(),
    {
        self.validators.len()
    }

    pub fn is_empty(&self) -> (r: bool)
        ensures r == (self.members().len() == 0),
    {
        self.validators.len() == 0
    }

    /// A copy of this set.
    pub fn duplicate(&self) -> (r: Self)
        ensures
            r.members() == self.members(),
            r.epoch == self.epoch,
            r.total_stake == self.total_stake,
            r.min_stake == self.min_stake,
            r.max_validators == self.max_validators,
    {
        let mut vs: Vec<Validator> = Vec::new();
        let mut i: usize = 0;
        while i < self.validators.len()
            invariant
                i <= self.validators@.len(),
                views(vs@) == self.members().take(i as int),
            decreases self.validators@.len() - i,
        {
            let d = self.validators[i].duplicate();
            assert(d@ == self.members()[i as int]);
            let ghost before = vs@;
            vs.push(d);
            assert(views(vs@) =~= views(before).push(d@));
            assert(self.members().take(i + 1) =~= self.members().take(i as int).push(self.members()[i as int]));
            assert(views(vs@) =~= self.members().take(i + 1));
            i = i + 1;
        }
        assert(self.members().take(self.validators@.len() as int) =~= self.members());
        ValidatorSet {
            epoch: self.epoch,
            validators: vs,
            total_stake: self.total_stake,
            min_stake: self.min_stake,
            max_validators: self.max_validators,
        }
    }
}

proof fn lemma_eligible_stake_prefix(s: Seq<ValidatorView>, epoch: u64, i: int)
    requires 0 <= i <= s.len(),
    ensures eligible_stake(s.take(i), epoch) <= eligible_stake(s, epoch),
    decreases s.len() - i,
{
    if i < s.len() {
        lemma_eligible_stake_prefix(s, epoch, i + 1);
        assert(s.take(i + 1).drop_last() =~= s.take(i));
    } else {
        assert(s.take(i) =~= s);
    }
}


/// The address of a secret key: the last twenty bytes of the Keccak-256
/// hash of its public key.
pub open spec fn key_address(scalar: Seq<u8>) -> Seq<u8> {
    digest_tail(keccak256_spec(secp256k1_public_key(scalar)))
}

/// The compressed form of a public key x ‖ y: 2 or 3 by the parity of y,
/// then x.
pub open spec fn compressed_point(point: Seq<u8>) -> Seq<u8> {
    seq![(2 + point[63] % 2) as u8] + point.subrange(0, 32)
}

/// An ECDSA signature over the SHA-256 digest of `message`, as r ‖ s; empty
/// when no signature is made.
pub open spec fn signature_over(scalar: Seq<u8>, message: Seq<u8>) -> Seq<u8> {
    match ecdsa_sign_spec(scalar, sha256_spec(message)) {
        Some((r, s, _)) => r + s,
        None => Seq::empty(),
    }
}

/// A validator's signing key and the address derived from it.
pub struct ValidatorKeys {
    secret: SecretKey,
    address: Address,
}

impl ValidatorKeys {
    /// The scalar of the key.
    pub closed spec fn scalar(&self) -> Seq<u8> {
        self.secret.scalar()
    }

    /// The address of the key.
    pub closed spec fn address_spec(&self) -> Address {
        self.address
    }

    /// The address belongs to the key.
    pub closed spec fn wf(&self) -> bool {
        self.address.0@ == key_address(self.secret.scalar())
    }

    fn derive_address(secret: &SecretKey) -> (r: Address)
        ensures r.0@ == key_address(secret.scalar()),
    {
        match PublicKey::from_secret(secret) {
            Ok(k) => k.to_address(),
            Err(_) => { proof { assert(false); } Address([0u8; 20]) },
        }
    }

    /// Fresh random keys.
    pub fn generate() -> (r: Self)
        ensures r.wf(), scalar_in_range(r.scalar()),
    {
        let secret = SecretKey::generate();
        let address = Self::derive_address(&secret);
        ValidatorKeys { secret, address }
    }

    /// The keys with the given 32-byte scalar, if it is a valid secret key.
    pub fn from_bytes(bytes: &[u8]) -> (r: Result<Self, ConsensusError>)
        requires bytes@.len() == 32,
        ensures
            r is Ok <==> scalar_in_range(bytes@),
            r matches Ok(k) ==> k.wf() && k.scalar() == bytes@,
            r matches Err(e) ==> e is InvalidSignature,
    {
        let mut b = [0u8; 32];
        let mut i: usize = 0;
        while i < 32
            invariant i <= 32, bytes@.len() == 32, forall|j: int| 0 <= j < i ==> b@[j] == bytes@[j],
            decreases 32 - i,
        {
            b[i] = bytes[i];
            i = i + 1;
        }
        assert(b@ =~= bytes@);
        match SecretKey::from_bytes(&b) {
            Ok(secret) => {
                let address = Self::derive_address(&secret);
                Ok(ValidatorKeys { secret, address })
            },
            Err(_) => Err(ConsensusError::InvalidSignature),
        }
    }

    pub fn address(&self) -> (r: &Address)
        ensures *r == self.address_spec(),
    {
        &self.address
    }

    /// The compressed public key, 33 bytes.
    pub fn public_key(&self) -> (r: Vec<u8>)
        ensures r@ == compressed_point(secp256k1_public_key(self.scalar())),
    {
        let k = match PublicKey::from_secret(&self.secret) {
            Ok(k) => k,
            Err(_) => { proof { assert(false); } PublicKey([0u8; 64]) },
        };
        let mut out: Vec<u8> = Vec::new();
        out.push(2 + k.0[63] % 2);
        let mut i: usize = 0;
        while i < 32
            invariant i <= 32, out@ == seq![(2 + k.0@[63] % 2) as u8] + k.0@.subrange(0, i as int),
            decreases 32 - i,
        {
            out.push(k.0[i]);
            assert(out@ =~= seq![(2 + k.0@[63] % 2) as u8] + k.0@.subrange(0, i + 1));
            i = i + 1;
        }
        out
    }

    /// Signs `message` (its SHA-256 digest), r ‖ s.
    fn sign_bytes(&self, message: &[u8]) -> (r: Vec<u8>)
        ensures r@ == signature_over(self.scalar(), message@),
    {
        let digest = sha256_digest(message);
        match self.secret.sign(&crate::primitives::types::Hash(digest)) {
            Ok(sig) => {
                let mut out: Vec<u8> = Vec::new();
                crate::primitives::address::push_all(&mut out, sig.r.as_slice());
                crate::primitives::address::push_all(&mut out, sig.s.as_slice());
                assert(out@ =~= sig.r@ + sig.s@);
                out
            },
            Err(_) => Vec::new(),
        }
    }

    /// Signs the Keccak-256 hash of a message.
    pub fn sign(&self, message: &[u8]) -> (r: Vec<u8>)
        ensures r@ == signature_over(self.scalar(), keccak256_spec(message@)),
    {
        let h = keccak256(message);
        self.sign_bytes(h.as_slice())
    }

    /// Signs a hash.
    pub fn sign_hash(&self, hash: &VHash) -> (r: Vec<u8>)
        ensures r@ == signature_over(self.scalar(), hash.0@),
    {
        self.sign_bytes(hash.0.as_slice())
    }
}


/// The index of the validator with address `a`.
pub open spec fn index_of(m: Seq<ValidatorView>, a: Seq<u8>) -> int {
    choose|i: int| 0 <= i < m.len() && (#[trigger] m[i]).address == a
}

/// Two sets with the same validators, epoch, stake and limits.
pub open spec fn same_set(a: ValidatorSet, b: ValidatorSet) -> bool {
    a.members() == b.members() && a.epoch == b.epoch && a.total_stake == b.total_stake
        && a.min_stake == b.min_stake && a.max_validators == b.max_validators
}

/// A change to the validator set, applied at the next epoch boundary.
pub enum ValidatorChange {
    Join(Validator),
    Leave(Address),
    StakeIncrease { address: Address, amount: u64 },
    StakeDecrease { address: Address, amount: u64 },
    UpdateCommission { address: Address, commission: u16 },
}

/// The validators and total stake after one change, or none when a joining
/// validator has too little stake.
pub open spec fn change_step(m: Seq<ValidatorView>, total: int, min: u64, c: ValidatorChange) -> Option<(Seq<ValidatorView>, int)> {
    match c {
        ValidatorChange::Join(v) => if v.stake < min { None } else { Some((upsert(m, v@), joined_total(m, total, v@))) },
        ValidatorChange::Leave(a) => if has_address(m, a.0@) {
            let i = index_of(m, a.0@);
            Some((m.remove(i), total - m[i].stake))
        } else {
            Some((m, total))
        },
        ValidatorChange::StakeIncrease { address, amount } => if has_address(m, address.0@) {
            let i = index_of(m, address.0@);
            Some((m.update(i, ValidatorView { stake: (m[i].stake + amount) as u64, ..m[i] }), total + amount))
        } else {
            Some((m, total))
        },
        ValidatorChange::StakeDecrease { address, amount } => if has_address(m, address.0@) {
            let i = index_of(m, address.0@);
            Some((m.update(i, ValidatorView { stake: if m[i].stake >= amount { (m[i].stake - amount) as u64 } else { 0 }, ..m[i] }),
                if total >= amount { total - amount } else { 0 }))
        } else {
            Some((m, total))
        },
        ValidatorChange::UpdateCommission { address, commission } => if has_address(m, address.0@) {
            let i = index_of(m, address.0@);
            Some((m.update(i, ValidatorView { commission: if commission <= 10000 { commission } else { 10000 }, ..m[i] }), total))
        } else {
            Some((m, total))
        },
    }
}

/// The change keeps every counter in range.
pub open spec fn change_fits(m: Seq<ValidatorView>, total: int, min: u64, c: ValidatorChange) -> bool {
    match c {
        ValidatorChange::Join(v) => v.stake >= min ==> total + v.stake <= u64::MAX,
        ValidatorChange::Leave(a) => has_address(m, a.0@) ==> m[index_of(m, a.0@)].stake <= total,
        ValidatorChange::StakeIncrease { address, amount } => has_address(m, address.0@) ==>
            m[index_of(m, address.0@)].stake + amount <= u64::MAX && total + amount <= u64::MAX,
        _ => true,
    }
}

/// The validators and total stake after applying changes in order, and
/// whether all applied; the first refused change stops the rest.
pub open spec fn run_changes(m: Seq<ValidatorView>, total: int, min: u64, cs: Seq<ValidatorChange>) -> (Seq<ValidatorView>, int, bool)
    decreases cs.len(),
{
    if cs.len() == 0 {
        (m, total, true)
    } else {
        match change_step(m, total, min, cs[0]) {
            None => (m, total, false),
            Some((m2, t2)) => run_changes(m2, t2, min, cs.drop_first()),
        }
    }
}

/// Every change applied keeps its counters in range.
pub open spec fn changes_fit(m: Seq<ValidatorView>, total: int, min: u64, cs: Seq<ValidatorChange>) -> bool
    decreases cs.len(),
{
    cs.len() == 0 || (change_fits(m, total, min, cs[0]) && match change_step(m, total, min, cs[0]) {
        None => true,
        Some((m2, t2)) => changes_fit(m2, t2, min, cs.drop_first()),
    })
}

/// The set of the epoch the history holds last for `epoch`.
pub open spec fn history_at(h: Seq<(u64, ValidatorSet)>, epoch: u64) -> Option<ValidatorSet>
    decreases h.len(),
{
    if h.len() == 0 {
        None
    } else if h.last().0 == epoch {
        Some(h.last().1)
    } else {
        history_at(h.drop_last(), epoch)
    }
}

/// The validator set, the changes queued for the next epoch, and the sets
/// of past epochs.
pub struct ValidatorRegistry {
    current_set: ValidatorSet,
    pending_changes: Vec<ValidatorChange>,
    historical_sets: Vec<(u64, ValidatorSet)>,
}

impl ValidatorRegistry {
    pub closed spec fn set_spec(&self) -> ValidatorSet { self.current_set }
    pub closed spec fn pending_spec(&self) -> Seq<ValidatorChange> { self.pending_changes@ }
    pub closed spec fn history_spec(&self) -> Seq<(u64, ValidatorSet)> { self.historical_sets@ }

    pub open spec fn wf(&self) -> bool {
        self.set_spec().wf()
    }

    /// An empty registry at epoch 0.
    pub fn new() -> (r: Self)
        ensures
            r.wf(),
            r.set_spec().members().len() == 0 && r.set_spec().epoch == 0 && r.set_spec().total_stake == 0,
            r.set_spec().min_stake == 10_000_000_000 && r.set_spec().max_validators == 100,
            r.pending_spec().len() == 0 && r.history_spec().len() == 0,
    {
        ValidatorRegistry { current_set: ValidatorSet::new(0), pending_changes: Vec::new(), historical_sets: Vec::new() }
    }

    /// A copy of the current set.
    pub fn current_set(&self) -> (r: ValidatorSet)
        ensures same_set(r, self.set_spec()),
    {
        self.current_set.duplicate()
    }

    /// Queues a change for the next epoch.
    pub fn queue_change(&mut self, change: ValidatorChange)
        ensures
            final(self).pending_spec() == old(self).pending_spec().push(change),
            final(self).set_spec() == old(self).set_spec(),
            final(self).history_spec() == old(self).history_spec(),
    {
        self.pending_changes.push(change);
    }

    fn apply(&mut self, c: ValidatorChange) -> (r: Result<(), ConsensusError>)
        requires
            old(self).wf(),
            change_fits(old(self).current_set.members(), old(self).current_set.total_stake as int, old(self).current_set.min_stake, c),
        ensures
            final(self).wf(),
            final(self).current_set.epoch == old(self).current_set.epoch,
            final(self).current_set.min_stake == old(self).current_set.min_stake,
            final(self).current_set.max_validators == old(self).current_set.max_validators,
            final(self).pending_changes@ == old(self).pending_changes@,
            final(self).historical_sets@ == old(self).historical_sets@,
            match change_step(old(self).current_set.members(), old(self).current_set.total_stake as int, old(self).current_set.min_stake, c) {
                None => (r matches Err(ConsensusError::InsufficientStake { .. })) && final(self).current_set.members() == old(self).current_set.members()
                    && final(self).current_set.total_stake == old(self).current_set.total_stake,
                Some((m2, t2)) => r is Ok && final(self).current_set.members() == m2 && final(self).current_set.total_stake == t2,
            },
    {
        let ghost m = self.current_set.members();
        match c {
            ValidatorChange::Join(v) => self.current_set.add_validator(v),
            ValidatorChange::Leave(a) => {
                let ghost t0 = self.current_set.total_stake;
                let removed = self.current_set.remove_validator(&a);
                proof {
                    if has_address(m, a.0@) {
                        let i = index_of(m, a.0@);
                        let w = choose|w: int| 0 <= w < m.len() && m[w] == removed->0@
                            && self.current_set.members() == m.remove(w) && self.current_set.total_stake == t0 - removed->0.stake;
                        if w != i { if w < i { assert(m[w].address != m[i].address); } else { assert(m[i].address != m[w].address); } }
                    }
                }
                Ok(())
            },
            ValidatorChange::StakeIncrease { address, amount } => {
                match self.current_set.position(&address) {
                    Some(i) => {
                        proof { lemma_index_of_unique(m, address.0@, i as int); }
                        let st = self.current_set.validators[i].stake;
                        self.current_set.set_stake(i, st + amount);
                        self.current_set.total_stake = self.current_set.total_stake + amount;
                    },
                    None => {},
                }
                Ok(())
            },
            ValidatorChange::StakeDecrease { address, amount } => {
                match self.current_set.position(&address) {
                    Some(i) => {
                        proof { lemma_index_of_unique(m, address.0@, i as int); }
                        let st = self.current_set.validators[i].stake;
                        self.current_set.set_stake(i, st.saturating_sub(amount));
                        self.current_set.total_stake = self.current_set.total_stake.saturating_sub(amount);
                    },
                    None => {},
                }
                Ok(())
            },
            ValidatorChange::UpdateCommission { address, commission } => {
                match self.current_set.position(&address) {
                    Some(i) => {
                        proof { lemma_index_of_unique(m, address.0@, i as int); }
                        let mut v = self.current_set.validators[i].duplicate();
                        v.commission = if commission <= 10000 { commission } else { 10000 };
                        self.current_set.set_entry(i, v);
                    },
                    None => {},
                }
                Ok(())
            },
        }
    }

    /// Applies the queued changes in order and advances the epoch; the set
    /// as it was is kept in the history. A joining validator with too
    /// little stake stops the changes after it, and the epoch stays.
    pub fn advance_epoch(&mut self) -> (r: Result<u64, ConsensusError>)
        requires
            old(self).wf(),
            changes_fit(old(self).set_spec().members(), old(self).set_spec().total_stake as int, old(self).set_spec().min_stake, old(self).pending_spec()),
            old(self).set_spec().epoch < u64::MAX,
        ensures
            final(self).wf(),
            final(self).pending_spec().len() == 0,
            final(self).history_spec().len() == old(self).history_spec().len() + 1,
            final(self).history_spec().drop_last() == old(self).history_spec(),
            final(self).history_spec().last().0 == old(self).set_spec().epoch,
            same_set(final(self).history_spec().last().1, old(self).set_spec()),
            ({
                let (m2, t2, ok) = run_changes(old(self).set_spec().members(), old(self).set_spec().total_stake as int,
                    old(self).set_spec().min_stake, old(self).pending_spec());
                &&& final(self).set_spec().members() == m2
                &&& final(self).set_spec().total_stake == t2
                &&& final(self).set_spec().min_stake == old(self).set_spec().min_stake
                &&& final(self).set_spec().max_validators == old(self).set_spec().max_validators
                &&& ok ==> r == Ok::<u64, ConsensusError>((old(self).set_spec().epoch + 1) as u64)
                    && final(self).set_spec().epoch == old(self).set_spec().epoch + 1
                &&& !ok ==> (r matches Err(ConsensusError::InsufficientStake { .. })) && final(self).set_spec().epoch == old(self).set_spec().epoch
            }),
    {
        let mut changes: Vec<ValidatorChange> = Vec::new();
        std::mem::swap(&mut changes, &mut self.pending_changes);
        let snapshot = self.current_set.duplicate();
        let e = self.current_set.epoch;
        self.historical_sets.push((e, snapshot));
        let ghost m0 = self.current_set.members();
        let ghost t0 = self.current_set.total_stake as int;
        let ghost min = self.current_set.min_stake;
        let ghost all = changes@;
        let ghost h1 = self.historical_sets@;
        let count = changes.len();
        assert(h1.drop_last() =~= old(self).historical_sets@);
        let mut i: usize = 0;
        assert(all.skip(0) =~= all);
        while changes.len() > 0
            invariant
                self.wf(),
                i <= all.len(),
                changes@ == all.skip(i as int),
                i + changes@.len() == all.len(),
                all.len() == count,
                e == old(self).current_set.epoch,
                all == old(self).pending_changes@,
                m0 == old(self).current_set.members(),
                t0 == old(self).current_set.total_stake as int,
                min == old(self).current_set.min_stake,
                self.pending_changes@.len() == 0,
                self.historical_sets@ == h1,
                h1.len() == old(self).historical_sets@.len() + 1,
                h1.drop_last() == old(self).historical_sets@,
                h1.last().0 == old(self).current_set.epoch,
                same_set(h1.last().1, old(self).current_set),
                self.current_set.epoch == e,
                self.current_set.min_stake == min,
                self.current_set.max_validators == old(self).current_set.max_validators,
                changes_fit(self.current_set.members(), self.current_set.total_stake as int, min, all.skip(i as int)),
                run_changes(m0, t0, min, all) == run_changes(self.current_set.members(), self.current_set.total_stake as int, min, all.skip(i as int)),
            decreases changes@.len(),
        {
            let c = changes.remove(0);
            proof { assert(all.skip(i as int)[0] == c); }
            let ghost before = self.current_set.members();
            let ghost tb = self.current_set.total_stake as int;
            match self.apply(c) {
                Ok(()) => {},
                Err(e) => {
                    proof {
                        assert(change_step(before, tb, min, c) is None);
                        assert(all.skip(i as int).len() > 0);
                        assert(run_changes(before, tb, min, all.skip(i as int)) == (before, tb, false));
                    }
                    return Err(e);
                },
            }
            proof {
                assert(all.skip(i as int).drop_first() =~= all.skip(i + 1));
            }
            i = i + 1;
        }
        proof {
            assert(all.skip(i as int).len() == 0);
        }
        self.current_set.epoch = self.current_set.epoch + 1;
        Ok(self.current_set.epoch)
    }

    /// Slashes a validator by `percentage` basis points of its stake and
    /// jails it for `jail_epochs`; returns the amount slashed.
    pub fn slash(&mut self, address: &Address, percentage: u64, jail_epochs: u64) -> (r: Result<u64, ConsensusError>)
        requires
            old(self).wf(),
            has_address(old(self).set_spec().members(), address.0@) ==> ({
                let v = old(self).set_spec().members()[index_of(old(self).set_spec().members(), address.0@)];
                &&& v.stake * percentage <= u64::MAX
                &&& v.stake * percentage / 10000 <= v.stake
                &&& v.stake * percentage / 10000 <= old(self).set_spec().total_stake
                &&& v.slash_count < u32::MAX
                &&& old(self).set_spec().epoch + jail_epochs <= u64::MAX
            }),
        ensures
            final(self).wf(),
            final(self).pending_spec() == old(self).pending_spec(),
            final(self).history_spec() == old(self).history_spec(),
            !has_address(old(self).set_spec().members(), address.0@) ==> (r matches Err(ConsensusError::UnknownValidator(_)))
                && final(self).set_spec() == old(self).set_spec(),
            has_address(old(self).set_spec().members(), address.0@) ==> ({
                let m = old(self).set_spec().members();
                let i = index_of(m, address.0@);
                let cut = m[i].stake * percentage / 10000;
                &&& r == Ok::<u64, ConsensusError>(cut as u64)
                &&& final(self).set_spec().members() == m.update(i, ValidatorView {
                        stake: (m[i].stake - cut) as u64,
                        slash_count: (m[i].slash_count + 1) as u32,
                        jailed_until: (old(self).set_spec().epoch + jail_epochs) as u64,
                        ..m[i] })
                &&& final(self).set_spec().total_stake == old(self).set_spec().total_stake - cut
                &&& final(self).set_spec().epoch == old(self).set_spec().epoch
            }),
    {
        let ghost m = self.current_set.members();
        match self.current_set.position(address) {
            None => Err(ConsensusError::UnknownValidator(crate::consensus::pos::address_debug(address))),
            Some(i) => {
                proof { lemma_index_of_unique(m, address.0@, i as int); }
                let mut v = self.current_set.validators[i].duplicate();
                let cut = v.stake * percentage / 10000;
                v.stake = v.stake - cut;
                v.slash_count = v.slash_count + 1;
                v.jailed_until = self.current_set.epoch + jail_epochs;
                self.current_set.set_entry(i, v);
                self.current_set.total_stake = self.current_set.total_stake - cut;
                Ok(cut)
            },
        }
    }

    /// A copy of the set the history holds for `epoch`.
    pub fn get_historical_set(&self, epoch: u64) -> (r: Option<ValidatorSet>)
        ensures
            match history_at(self.history_spec(), epoch) {
                Some(s) => r matches Some(c) && same_set(c, s),
                None => r is None,
            },
    {
        let mut i: usize = self.historical_sets.len();
        assert(self.historical_sets@.take(i as int) =~= self.historical_sets@);
        while i > 0
            invariant
                i <= self.historical_sets@.len(),
                history_at(self.historical_sets@, epoch) == history_at(self.historical_sets@.take(i as int), epoch),
            decreases i,
        {
            assert(self.historical_sets@.take(i as int).drop_last() =~= self.historical_sets@.take(i - 1));
            if self.historical_sets[i - 1].0 == epoch {
                return Some(self.historical_sets[i - 1].1.duplicate());
            }
            i = i - 1;
        }
        None
    }
}

impl Default for ValidatorRegistry {
    fn default() -> (r: Self)
        ensures r.wf(), r.set_spec().members().len() == 0 && r.set_spec().epoch == 0,
    {
        ValidatorRegistry::new()
    }
}

/// Replacing or adding a validator keeps every address that was there.
pub proof fn lemma_upsert_keeps(m: Seq<ValidatorView>, w: int, v: ValidatorView)
    requires 0 <= w < m.len(),
    ensures has_address(upsert(m, v), m[w].address),
{
    let m1 = upsert(m, v);
    if has_address(m, v.address) {
        let i = choose|i: int| 0 <= i < m.len() && (#[trigger] m[i]).address == v.address;
        if i == w { assert(m1[w].address == m[w].address); } else { assert(m1[w] == m[w]); }
    } else {
        assert(m1[w] == m[w]);
    }
}

/// After a validator is replaced or added, its address is present.
pub proof fn lemma_upsert_has(m: Seq<ValidatorView>, v: ValidatorView)
    ensures has_address(upsert(m, v), v.address),
{
    let m1 = upsert(m, v);
    if has_address(m, v.address) {
        let i = choose|i: int| 0 <= i < m.len() && (#[trigger] m[i]).address == v.address;
        assert(m1[i] == v);
    } else {
        assert(m1[m.len() as int] == v);
    }
}

/// A Leave of a member takes it out of the set: afterwards no validator has
/// its address, one validator fewer remains, every other member stays, and
/// the total stake drops by the leaving member's stake.
pub proof fn lemma_leave_removes(m: Seq<ValidatorView>, total: int, min: u64, a: Address)
    requires
        addresses_unique(m),
        has_address(m, a.0@),
    ensures
        change_step(m, total, min, ValidatorChange::Leave(a)) is Some,
        ({
            let (m2, t2) = change_step(m, total, min, ValidatorChange::Leave(a))->0;
            &&& !has_address(m2, a.0@)
            &&& m2.len() == m.len() - 1
            &&& t2 == total - member_stake(m, a.0@)
            &&& forall|j: int| 0 <= j < m.len() && (#[trigger] m[j]).address != a.0@ ==> has_address(m2, m[j].address)
        }),
{
    let i = index_of(m, a.0@);
    let m2 = m.remove(i);
    assert forall|k: int| 0 <= k < m2.len() implies (#[trigger] m2[k]).address != a.0@ by {
        if k < i {
            assert(m2[k] == m[k]);
            assert(m[k].address != m[i].address);
        } else {
            assert(m2[k] == m[k + 1]);
            assert(m[i].address != m[k + 1].address);
        }
    }
    assert forall|j: int| 0 <= j < m.len() && (#[trigger] m[j]).address != a.0@ implies has_address(m2, m[j].address) by {
        if j < i {
            assert(m2[j] == m[j]);
        } else {
            assert(j != i);
            assert(m2[j - 1] == m[j]);
        }
    }
}

/// At an epoch boundary whose one queued change is a Leave of a member, the
/// changes all apply, the member is gone and the total stake drops by its
/// stake.
pub proof fn lemma_leave_epoch(m: Seq<ValidatorView>, total: int, min: u64, a: Address)
    requires
        addresses_unique(m),
        has_address(m, a.0@),
    ensures
        ({
            let (m2, t2, ok) = run_changes(m, total, min, seq![ValidatorChange::Leave(a)]);
            &&& ok
            &&& !has_address(m2, a.0@)
            &&& m2.len() == m.len() - 1
            &&& t2 == total - member_stake(m, a.0@)
        }),
{
    let cs = seq![ValidatorChange::Leave(a)];
    lemma_leave_removes(m, total, min, a);
    let (m2, t2) = change_step(m, total, min, cs[0])->0;
    assert(cs.drop_first().len() == 0);
    assert(run_changes(m, total, min, cs) == run_changes(m2, t2, min, cs.drop_first()));
}

proof fn lemma_members_stake_remove(s: Seq<ValidatorView>, i: int)
    requires 0 <= i < s.len(),
    ensures members_stake(s.remove(i)) == members_stake(s) - s[i].stake,
    decreases s.len(),
{
    let r = s.remove(i);
    if i == s.len() - 1 {
        assert(r =~= s.drop_last());
    } else {
        assert(r.drop_last() =~= s.drop_last().remove(i));
        assert(r.last() == s.last());
        lemma_members_stake_remove(s.drop_last(), i);
    }
}

/// Every change that fits keeps the total stake equal to the sum of the
/// members' stakes: a join or a stake increase adds what it brings, a leave
/// takes the member's stake out, a decrease (within the member's stake)
/// takes the amount out, and a commission change moves no stake.
pub proof fn lemma_change_keeps_stake_sum(m: Seq<ValidatorView>, total: int, min: u64, c: ValidatorChange)
    requires
        addresses_unique(m),
        total == members_stake(m),
        change_fits(m, total, min, c),
        c matches ValidatorChange::StakeDecrease { address, amount } ==> (has_address(m, address.0@) ==> amount <= member_stake(m, address.0@)),
    ensures
        change_step(m, total, min, c) matches Some((m2, t2)) ==> t2 == members_stake(m2),
{
    lemma_members_stake_nonneg(m);
    match c {
        ValidatorChange::Join(v) => {
            lemma_join_keeps_stake_sum(m, total, v@);
        },
        ValidatorChange::Leave(a) => {
            if has_address(m, a.0@) {
                lemma_members_stake_remove(m, index_of(m, a.0@));
            }
        },
        ValidatorChange::StakeIncrease { address, amount } => {
            if has_address(m, address.0@) {
                let i = index_of(m, address.0@);
                lemma_members_stake_update(m, i, ValidatorView { stake: (m[i].stake + amount) as u64, ..m[i] });
            }
        },
        ValidatorChange::StakeDecrease { address, amount } => {
            if has_address(m, address.0@) {
                let i = index_of(m, address.0@);
                lemma_members_stake_bound(m, i);
                lemma_members_stake_update(m, i, ValidatorView { stake: if m[i].stake >= amount { (m[i].stake - amount) as u64 } else { 0 }, ..m[i] });
            }
        },
        ValidatorChange::UpdateCommission { address, commission } => {
            if has_address(m, address.0@) {
                let i = index_of(m, address.0@);
                lemma_members_stake_update(m, i, ValidatorView { commission: if commission <= 10000 { commission } else { 10000 }, ..m[i] });
            }
        },
    }
}

proof fn lemma_index_of_unique(m: Seq<ValidatorView>, a: Seq<u8>, i: int)
    requires addresses_unique(m), 0 <= i < m.len(), m[i].address == a,
    ensures has_address(m, a), index_of(m, a) == i,
{
    let k = index_of(m, a);
    if k != i { if k < i { assert(m[k].address != m[i].address); } else { assert(m[i].address != m[k].address); } }
}

} // verus!
