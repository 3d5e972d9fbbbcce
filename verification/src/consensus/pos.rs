//! Proof of stake: validator registration, delegation and unbonding,
//! epochs with reward distribution, and stake-weighted leader selection.
use vstd::prelude::*;
use crate::consensus::ConsensusError;
use crate::consensus::validator::{Validator, ValidatorSet, ValidatorView, has_address, upsert, eligible_of, joined_total};
use crate::primitives::address::Address;
use crate::primitives::hashing::{keccak256, keccak256_spec};
use crate::primitives::text::{hex_encode, hex_lower, str_to_chars, chars_to_string, push_chars};
use crate::primitives::types::U256;

verus! {

/// Settings of staking.
#[derive(Clone, Copy, Debug)]
pub struct StakingConfig {
    pub min_validator_stake: u64,
    pub min_delegation: u64,
    /// Epochs before unbonded stake is released.
    pub unbonding_period: u64,
    /// Highest commission, in basis points.
    pub max_commission: u16,
    pub max_commission_change: u16,
    pub slots_per_epoch: u64,
    /// Epoch length in seconds.
    pub epoch_duration: u64,
    pub double_sign_slash: u64,
    pub downtime_slash: u64,
    pub jail_duration: u64,
}

/// The default staking parameters.
pub open spec fn default_staking(r: StakingConfig) -> bool {
    &&& r.min_validator_stake == 10_000_000_000 && r.min_delegation == 1_000_000
    &&& r.unbonding_period == 14 && r.max_commission == 5000 && r.max_commission_change == 100
    &&& r.slots_per_epoch == 32 && r.epoch_duration == 86400
    &&& r.double_sign_slash == 500 && r.downtime_slash == 100 && r.jail_duration == 7
}

impl Default for StakingConfig {
    fn default() -> (r: Self)
        ensures default_staking(r),
    {
        StakingConfig {
            min_validator_stake: 10_000_000_000,
            min_delegation: 1_000_000,
            unbonding_period: 14,
            max_commission: 5000,
            max_commission_change: 100,
            slots_per_epoch: 32,
            epoch_duration: 86400,
            double_sign_slash: 500,
            downtime_slash: 100,
            jail_duration: 7,
        }
    }
}

/// A delegation of stake to a validator.
#[derive(Clone, Copy, Debug)]
pub struct Delegation {
    pub delegator: Address,
    pub validator: Address,
    pub amount: u64,
    /// Shares of the validator's pool.
    pub shares: u64,
    pub last_claim_epoch: u64,
}

/// Stake waiting to be released.
#[derive(Clone, Copy, Debug)]
pub struct UnbondingEntry {
    pub delegator: Address,
    pub validator: Address,
    pub amount: u64,
    pub completion_epoch: u64,
}

/// The rewards of a validator's pool.
#[derive(Clone, Copy, Debug)]
pub struct RewardPool {
    pub total_rewards: u64,
    /// Rewards per share, scaled by 10^18.
    pub reward_per_share: U256,
    pub epoch: u64,
}

impl Default for RewardPool {
    fn default() -> (r: Self)
        ensures r.total_rewards == 0 && r.reward_per_share.value() == 0 && r.epoch == 0,
    {
        RewardPool { total_rewards: 0, reward_per_share: U256::zero(), epoch: 0 }
    }
}

/// The shares delegated to a validator.
pub open spec fn shares_to(dels: Seq<Delegation>, v: Seq<u8>) -> int
    decreases dels.len(),
{
    if dels.len() == 0 {
        0
    } else {
        shares_to(dels.drop_last(), v) + if dels.last().validator.0@ == v { dels.last().shares as int } else { 0 }
    }
}

/// The shares issued for a delegation: one million per unit into an empty
/// pool, else in proportion to the pool's shares and stake.
pub open spec fn shares_issued(amount: u64, total_shares: int, stake: u64) -> u64 {
    if stake == 0 || total_shares == 0 {
        if amount * 1_000_000 > u64::MAX { u64::MAX } else { (amount * 1_000_000) as u64 }
    } else {
        ((amount * total_shares / stake as int) % 0x1_0000_0000_0000_0000) as u64
    }
}

/// The first delegation of a delegator to a validator.
pub open spec fn first_delegation(dels: Seq<Delegation>, d: Seq<u8>, v: Seq<u8>) -> Option<int> {
    if exists|i: int| 0 <= i < dels.len() && (#[trigger] dels[i]).delegator.0@ == d && dels[i].validator.0@ == v {
        Some(choose|i: int| 0 <= i < dels.len() && (#[trigger] dels[i]).delegator.0@ == d && dels[i].validator.0@ == v
            && forall|j: int| 0 <= j < i ==> !(dels[j].delegator.0@ == d && dels[j].validator.0@ == v))
    } else {
        None
    }
}

/// The delegations without those of delegator `d` to validator `v`.
pub open spec fn drop_pair(ds: Seq<Delegation>, d: Seq<u8>, v: Seq<u8>) -> Seq<Delegation>
    decreases ds.len(),
{
    if ds.len() == 0 {
        ds
    } else if ds.last().delegator.0@ == d && ds.last().validator.0@ == v {
        drop_pair(ds.drop_last(), d, v)
    } else {
        drop_pair(ds.drop_last(), d, v).push(ds.last())
    }
}

/// The delegations after withdrawing `amount` from the one at `i`: it is
/// reduced, or, brought to zero, removed with the delegator's other
/// delegations to the same validator.
pub open spec fn after_withdrawal(ds: Seq<Delegation>, i: int, amount: u64) -> Seq<Delegation> {
    let del = ds[i];
    if del.amount == amount {
        drop_pair(ds, del.delegator.0@, del.validator.0@)
    } else {
        ds.update(i, Delegation {
            amount: (del.amount - amount) as u64,
            shares: if del.shares >= amount { (del.shares - amount) as u64 } else { 0 },
            ..del
        })
    }
}

/// The validator of the list with address `a`.
pub open spec fn member_with(s: Seq<ValidatorView>, a: Seq<u8>) -> ValidatorView {
    s[choose|i: int| 0 <= i < s.len() && (#[trigger] s[i]).address == a]
}

/// The pool's validator is in the list and takes part in `epoch`.
pub open spec fn earns(m: Seq<ValidatorView>, a: Seq<u8>, epoch: u64) -> bool {
    has_address(m, a) && crate::consensus::validator::eligible(member_with(m, a), epoch)
}

/// A validator's part of `rewards`, in proportion to its stake, kept to
/// 64 bits.
pub open spec fn validator_reward(rewards: u64, stake: u64, total: int) -> int {
    (rewards * stake / total) % 0x1_0000_0000_0000_0000
}

/// A validator's reward less its commission: what its delegators share.
pub open spec fn delegator_reward(rewards: u64, v: ValidatorView, total: int) -> int {
    let vr = validator_reward(rewards, v.stake, total);
    vr - vr * v.commission / 10000
}

/// The growth of the pool's rewards per share, scaled by 10^18.
pub open spec fn per_share_delta(rewards: u64, v: ValidatorView, total: int) -> int {
    delegator_reward(rewards, v, total) * 1_000_000_000_000_000_000 / (v.stake as int)
}

/// No pool's counters overflow when an epoch's rewards are credited.
pub open spec fn rewards_fit(pools: Seq<(Address, RewardPool)>, m: Seq<ValidatorView>, epoch: u64, rewards: u64, total: int) -> bool {
    forall|p: int| 0 <= p < pools.len() && earns(m, (#[trigger] pools[p]).0.0@, epoch) ==> {
        let v = member_with(m, pools[p].0.0@);
        &&& pools[p].1.total_rewards + delegator_reward(rewards, v, total) <= u64::MAX
        &&& pools[p].1.reward_per_share.value() + per_share_delta(rewards, v, total) < crate::primitives::types::u256_modulus()
    }
}

/// The pool `n` is `o` after crediting an epoch's rewards: the pool of a
/// validator taking part receives its delegators' reward, and the others
/// are unchanged.
pub open spec fn pool_credited(o: (Address, RewardPool), n: (Address, RewardPool), m: Seq<ValidatorView>,
    vepoch: u64, rewards: u64, total: int, epoch: u64) -> bool {
    &&& n.0 == o.0
    &&& if total > 0 && earns(m, o.0.0@, vepoch) {
        let v = member_with(m, o.0.0@);
        &&& n.1.total_rewards == o.1.total_rewards + delegator_reward(rewards, v, total)
        &&& n.1.reward_per_share.value() == o.1.reward_per_share.value() + per_share_delta(rewards, v, total)
        &&& n.1.epoch == epoch
    } else {
        n.1 == o.1
    }
}

/// The pool of validator `a`.
pub open spec fn pool_lookup(pools: Seq<(Address, RewardPool)>, a: Seq<u8>) -> Option<RewardPool>
    decreases pools.len(),
{
    if pools.len() == 0 {
        None
    } else if pools.last().0.0@ == a {
        Some(pools.last().1)
    } else {
        pool_lookup(pools.drop_last(), a)
    }
}

proof fn lemma_pool_lookup_set(s: Seq<(Address, RewardPool)>, k: int, a: Address, p: RewardPool, x: Seq<u8>)
    requires
        0 <= k < s.len(),
        s[k].0.0@ == a.0@,
        forall|j: int| k < j < s.len() ==> (#[trigger] s[j]).0.0@ != a.0@,
    ensures pool_lookup(s.update(k, (a, p)), x) == if x == a.0@ { Some(p) } else { pool_lookup(s, x) },
    decreases s.len(),
{
    let u = s.update(k, (a, p));
    if k == s.len() - 1 {
        assert(u.drop_last() =~= s.drop_last());
    } else {
        assert(u.drop_last() =~= s.drop_last().update(k, (a, p)));
        assert(u.last() == s.last());
        assert(s[s.len() - 1] == s.last());
        assert forall|j: int| k < j < s.drop_last().len() implies (#[trigger] s.drop_last()[j]).0.0@ != a.0@ by {
            assert(s.drop_last()[j] == s[j]);
        }
        lemma_pool_lookup_set(s.drop_last(), k, a, p, x);
    }
}

/// The delegations of delegator `a`, in order.
pub open spec fn delegations_of(s: Seq<Delegation>, a: Seq<u8>) -> Seq<Delegation>
    decreases s.len(),
{
    if s.len() == 0 {
        Seq::empty()
    } else if s.last().delegator.0@ == a {
        delegations_of(s.drop_last(), a).push(s.last())
    } else {
        delegations_of(s.drop_last(), a)
    }
}

/// The unbonding entries of delegator `a`, in order.
pub open spec fn unbonding_of(s: Seq<UnbondingEntry>, a: Seq<u8>) -> Seq<UnbondingEntry>
    decreases s.len(),
{
    if s.len() == 0 {
        Seq::empty()
    } else if s.last().delegator.0@ == a {
        unbonding_of(s.drop_last(), a).push(s.last())
    } else {
        unbonding_of(s.drop_last(), a)
    }
}

/// A delegation of `a` whose validator has a pool.
pub open spec fn claims(d: Delegation, pools: Seq<(Address, RewardPool)>, a: Seq<u8>) -> bool {
    d.delegator.0@ == a && pool_lookup(pools, d.validator.0@) is Some
}

/// The rewards owed on a delegation: its shares times the pool's rewards
/// per share, scaled back by 10^18.
pub open spec fn pending_reward(d: Delegation, p: RewardPool) -> int {
    p.reward_per_share.value() * d.shares / 1_000_000_000_000_000_000
}

/// The rewards owed to `a` over all its delegations.
pub open spec fn claim_total(ds: Seq<Delegation>, pools: Seq<(Address, RewardPool)>, a: Seq<u8>) -> int
    decreases ds.len(),
{
    if ds.len() == 0 {
        0
    } else {
        claim_total(ds.drop_last(), pools, a) + if claims(ds.last(), pools, a) {
            pending_reward(ds.last(), pool_lookup(pools, ds.last().validator.0@)->0)
        } else {
            0
        }
    }
}

/// Claiming does not overflow: each product fits in 256 bits, each reward
/// and the sum in 64 bits.
pub open spec fn claim_fits(ds: Seq<Delegation>, pools: Seq<(Address, RewardPool)>, a: Seq<u8>) -> bool {
    &&& forall|k: int| 0 <= k < ds.len() && claims(#[trigger] ds[k], pools, a) ==> {
        let p = pool_lookup(pools, ds[k].validator.0@)->0;
        &&& p.reward_per_share.value() * ds[k].shares < crate::primitives::types::u256_modulus()
        &&& pending_reward(ds[k], p) <= u64::MAX
    }
    &&& claim_total(ds, pools, a) <= u64::MAX
}

/// The delegations after a claim by `a`: those that earned record the
/// epoch of the claim.
pub open spec fn claimed(ds: Seq<Delegation>, pools: Seq<(Address, RewardPool)>, a: Seq<u8>, epoch: u64) -> Seq<Delegation> {
    Seq::new(ds.len(), |k: int| if claims(ds[k], pools, a) { Delegation { last_claim_epoch: epoch, ..ds[k] } } else { ds[k] })
}

/// The proof-of-stake state.
pub struct ProofOfStake {
    config: StakingConfig,
    current_epoch: u64,
    validators: ValidatorSet,
    delegations: Vec<Delegation>,
    unbonding: Vec<UnbondingEntry>,
    reward_pools: Vec<(Address, RewardPool)>,
    /// Every address that has delegated, each once.
    delegators: Vec<Address>,
}

pub(crate) fn address_debug(a: &Address) -> (s: String)
    ensures s@ == "0x"@ + hex_lower(a.0@),
{
    let h = hex_encode(a.0.as_slice());
    let mut v = str_to_chars("0x");
    let hc = str_to_chars(h.as_str());
    push_chars(&mut v, hc.as_slice());
    chars_to_string(v.as_slice())
}

/// The stake-weighted walk over `s`, starting from the running total
/// `cum`: the first validator whose running total passes `target`, else the
/// last one.
pub open spec fn leader_walk(s: Seq<ValidatorView>, cum: int, target: int) -> Option<Seq<u8>>
    decreases s.len(),
{
    if s.len() == 0 {
        None
    } else if cum + s[0].stake > target || s.len() == 1 {
        Some(s[0].address)
    } else {
        leader_walk(s.drop_first(), cum + s[0].stake, target)
    }
}

/// The stake of a list of validators.
pub open spec fn prefix_stake(s: Seq<ValidatorView>) -> int
    decreases s.len(),
{
    if s.len() == 0 { 0 } else { prefix_stake(s.drop_last()) + s.last().stake }
}

/// The bytes hashed to seed leader selection: epoch, slot, randomness.
pub open spec fn leader_seed(epoch: u64, slot: u64, randomness: Seq<u8>) -> Seq<u8> {
    crate::evm::state::le_bytes_u64(epoch) + crate::evm::state::le_bytes_u64(slot) + randomness
}

/// The little-endian value of the first eight bytes.
pub open spec fn le64_value(b: Seq<u8>) -> int
    decreases 8int,
{
    le64_from(b, 0)
}

pub open spec fn le64_from(b: Seq<u8>, k: int) -> int
    decreases 8 - k,
{
    if k >= 8 || k < 0 { 0 } else { b[k] as int + 256 * le64_from(b, k + 1) }
}

impl ProofOfStake {
    pub closed spec fn epoch_spec(&self) -> u64 { self.current_epoch }
    pub closed spec fn config_spec(&self) -> StakingConfig { self.config }
    pub closed spec fn set_spec(&self) -> ValidatorSet { self.validators }
    pub closed spec fn delegations_spec(&self) -> Seq<Delegation> { self.delegations@ }
    pub closed spec fn unbonding_spec(&self) -> Seq<UnbondingEntry> { self.unbonding@ }
    pub closed spec fn pools_spec(&self) -> Seq<(Address, RewardPool)> { self.reward_pools@ }
    pub closed spec fn delegators_spec(&self) -> Seq<Address> { self.delegators@ }

    /// The address has delegated at some time.
    pub open spec fn has_delegated(&self, a: Seq<u8>) -> bool {
        exists|i: int| 0 <= i < self.delegators_spec().len() && (#[trigger] self.delegators_spec()[i]).0@ == a
    }

    /// The validator set is consistent and every commission is at most
    /// 100%.
    pub closed spec fn wf(&self) -> bool {
        &&& self.validators.wf()
        &&& forall|i: int| 0 <= i < self.validators.members().len() ==> #[trigger] self.validators.members()[i].commission <= 10000
    }

    pub fn new(config: StakingConfig) -> (p: Self)
        ensures
            p.wf(), p.epoch_spec() == 0, p.config_spec() == config,
            p.set_spec().members().len() == 0, p.set_spec().total_stake == 0,
            p.set_spec().min_stake == 10_000_000_000 && p.set_spec().max_validators == 100 && p.set_spec().epoch == 0,
            p.delegations_spec().len() == 0 && p.unbonding_spec().len() == 0,
    {
        ProofOfStake {
            config,
            current_epoch: 0,
            validators: ValidatorSet::new(0),
            delegations: Vec::new(),
            unbonding: Vec::new(),
            reward_pools: Vec::new(),
            delegators: Vec::new(),
        }
    }

    pub fn epoch(&self) -> (r: u64)
        ensures r == self.epoch_spec(),
    {
        self.current_epoch
    }

    /// Registers a validator with at least the minimum stake and at most the
    /// maximum commission, and gives it an empty reward pool.
    pub fn register_validator(&mut self, address: Address, pubkey: Vec<u8>, stake: u64, commission: u16) -> (r: Result<(), ConsensusError>)
        requires
            old(self).wf(),
            commission <= old(self).config_spec().max_commission ==> commission <= 10000,
            old(self).set_spec().total_stake + stake <= u64::MAX,
        ensures
            final(self).wf(),
            stake < old(self).config_spec().min_validator_stake ==> r == Err::<(), ConsensusError>(ConsensusError::InsufficientStake {
                required: old(self).config_spec().min_validator_stake, available: stake }) && final(self).set_spec() == old(self).set_spec(),
            stake >= old(self).config_spec().min_validator_stake && commission > old(self).config_spec().max_commission
                ==> (r matches Err(ConsensusError::InvalidProposal(_))) && final(self).set_spec() == old(self).set_spec(),
            stake >= old(self).config_spec().min_validator_stake && commission <= old(self).config_spec().max_commission
                && stake >= old(self).set_spec().min_stake ==> r is Ok,
            r is Ok ==> final(self).set_spec().total_stake == joined_total(old(self).set_spec().members(), old(self).set_spec().total_stake as int, ValidatorView {
                    address: address.0@, pubkey: pubkey@, stake, commission, active: true, jailed_until: 0,
                    slash_count: 0, uptime: 10000, last_active_epoch: 0 }),
            r is Ok ==> final(self).set_spec().members() == upsert(old(self).set_spec().members(), ValidatorView {
                    address: address.0@, pubkey: pubkey@, stake, commission, active: true, jailed_until: 0,
                    slash_count: 0, uptime: 10000, last_active_epoch: 0 }),
            final(self).delegations_spec() == old(self).delegations_spec(),
            final(self).epoch_spec() == old(self).epoch_spec(),
            final(self).config_spec() == old(self).config_spec(),
            final(self).delegators_spec() == old(self).delegators_spec(),
            final(self).unbonding_spec() == old(self).unbonding_spec(),
            final(self).set_spec().min_stake == old(self).set_spec().min_stake,
    {
        if stake < self.config.min_validator_stake {
            return Err(ConsensusError::InsufficientStake { required: self.config.min_validator_stake, available: stake });
        }
        if commission > self.config.max_commission {
            return Err(ConsensusError::InvalidProposal("Commission exceeds maximum".to_owned()));
        }
        let mut validator = Validator::new(address, pubkey, stake);
        validator.commission = commission;
        let ghost before = self.validators.members();
        match self.validators.add_validator(validator) {
            Err(e) => { return Err(e); },
            Ok(()) => {},
        }
        proof {
            let m = self.validators.members();
            assert forall|i: int| 0 <= i < m.len() implies #[trigger] m[i].commission <= 10000 by {
                if has_address(before, address.0@) {
                    let k = choose|k: int| 0 <= k < before.len() && (#[trigger] before[k]).address == address.0@;
                    if i != k { assert(m[i] == before[i]); }
                } else {
                    if i < before.len() { assert(m[i] == before[i]); }
                }
            }
        }
        self.set_pool(address, RewardPool::default());
        Ok(())
    }

    fn set_pool(&mut self, address: Address, pool: RewardPool)
        ensures
            forall|x: Seq<u8>| #[trigger] pool_lookup(final(self).reward_pools@, x)
                == if x == address.0@ { Some(pool) } else { pool_lookup(old(self).reward_pools@, x) },
            final(self).validators == old(self).validators,
            final(self).delegations@ == old(self).delegations@,
            final(self).unbonding@ == old(self).unbonding@,
            final(self).current_epoch == old(self).current_epoch,
            final(self).config == old(self).config,
            final(self).delegators@ == old(self).delegators@,
    {
        let ghost s0 = self.reward_pools@;
        let mut i: usize = self.reward_pools.len();
        while i > 0
            invariant
                i <= s0.len(),
                self.reward_pools@ == s0,
                s0 == old(self).reward_pools@,
                forall|j: int| i <= j < s0.len() ==> (#[trigger] s0[j]).0.0@ != address.0@,
                self.validators == old(self).validators,
                self.delegations@ == old(self).delegations@,
                self.unbonding@ == old(self).unbonding@,
                self.current_epoch == old(self).current_epoch,
                self.config == old(self).config,
                self.delegators@ == old(self).delegators@,
            decreases i,
        {
            if self.reward_pools[i - 1].0 == address {
                let k: usize = i - 1;
                self.reward_pools.set(k, (address, pool));
                proof {
                    assert forall|x: Seq<u8>| #[trigger] pool_lookup(self.reward_pools@, x)
                        == if x == address.0@ { Some(pool) } else { pool_lookup(s0, x) } by {
                        lemma_pool_lookup_set(s0, k as int, address, pool, x);
                    }
                }
                return;
            }
            i = i - 1;
        }
        self.reward_pools.push((address, pool));
        proof { assert(self.reward_pools@.drop_last() =~= s0); }
    }

    fn total_shares(&self, validator: &Address) -> (r: u128)
        requires shares_to(self.delegations@, validator.0@) <= u64::MAX,
        ensures r == shares_to(self.delegations@, validator.0@),
    {
        let mut sum: u128 = 0;
        let mut i: usize = 0;
        assert(self.delegations@.subrange(0, 0) =~= Seq::<Delegation>::empty());
        while i < self.delegations.len()
            invariant
                i <= self.delegations@.len(),
                sum == shares_to(self.delegations@.subrange(0, i as int), validator.0@),
                sum <= i * 0xffff_ffff_ffff_ffffu128,
            decreases self.delegations@.len() - i,
        {
            assert(self.delegations@.subrange(0, i + 1).drop_last() =~= self.delegations@.subrange(0, i as int));
            if self.delegations[i].validator == *validator {
                sum = sum + self.delegations[i].shares as u128;
            }
            i = i + 1;
        }
        assert(self.delegations@.subrange(0, i as int) =~= self.delegations@);
        sum
    }

    /// Records that `a` has delegated.
    fn note_delegator(&mut self, a: Address)
        ensures
            forall|x: Seq<u8>| final(self).has_delegated(x) == (old(self).has_delegated(x) || x == a.0@),
            final(self).validators == old(self).validators,
            final(self).delegations@ == old(self).delegations@,
            final(self).unbonding@ == old(self).unbonding@,
            final(self).reward_pools@ == old(self).reward_pools@,
            final(self).current_epoch == old(self).current_epoch,
            final(self).config == old(self).config,
    {
        let mut q: usize = 0;
        while q < self.delegators.len()
            invariant
                *self == *old(self),
                q <= self.delegators@.len(),
                forall|j: int| 0 <= j < q ==> (#[trigger] self.delegators@[j]).0@ != a.0@,
            decreases self.delegators@.len() - q,
        {
            if self.delegators[q] == a {
                assert(self.delegators_spec()[q as int].0@ == a.0@);
                return;
            }
            q = q + 1;
        }
        let ghost d0 = self.delegators@;
        self.delegators.push(a);
        proof {
            assert forall|x: Seq<u8>| self.has_delegated(x) == (old(self).has_delegated(x) || x == a.0@) by {
                if old(self).has_delegated(x) {
                    let j = choose|j: int| 0 <= j < old(self).delegators_spec().len() && (#[trigger] old(self).delegators_spec()[j]).0@ == x;
                    assert(self.delegators_spec()[j] == d0[j]);
                }
                if x == a.0@ {
                    assert(self.delegators_spec()[d0.len() as int] == a);
                }
                if self.has_delegated(x) {
                    let j = choose|j: int| 0 <= j < self.delegators_spec().len() && (#[trigger] self.delegators_spec()[j]).0@ == x;
                    if j < d0.len() { assert(old(self).delegators_spec()[j] == d0[j]); }
                }
            }
        }
    }

    /// Delegates stake to a validator: the delegation records the shares
    /// issued for it, and the validator's and the set's stake grow.
    pub fn delegate(&mut self, delegator: Address, validator: Address, amount: u64) -> (r: Result<(), ConsensusError>)
        requires
            old(self).wf(),
            shares_to(old(self).delegations_spec(), validator.0@) <= u64::MAX,
            old(self).set_spec().total_stake + amount <= u64::MAX,
            forall|i: int| 0 <= i < old(self).set_spec().members().len() ==> #[trigger] old(self).set_spec().members()[i].stake + amount <= u64::MAX,
        ensures
            final(self).wf(),
            amount < old(self).config_spec().min_delegation ==> r == Err::<(), ConsensusError>(ConsensusError::InsufficientStake {
                required: old(self).config_spec().min_delegation, available: amount }) && final(self).delegations_spec() == old(self).delegations_spec(),
            amount >= old(self).config_spec().min_delegation && !has_address(old(self).set_spec().members(), validator.0@)
                ==> (r matches Err(ConsensusError::UnknownValidator(_))) && final(self).delegations_spec() == old(self).delegations_spec(),
            r is Ok <==> amount >= old(self).config_spec().min_delegation && has_address(old(self).set_spec().members(), validator.0@),
            r is Ok ==> ({
                let i = choose|i: int| 0 <= i < old(self).set_spec().members().len() && (#[trigger] old(self).set_spec().members()[i]).address == validator.0@;
                let v = old(self).set_spec().members()[i];
                &&& final(self).delegations_spec() == old(self).delegations_spec().push(Delegation {
                        delegator, validator, amount,
                        shares: shares_issued(amount, shares_to(old(self).delegations_spec(), validator.0@), v.stake),
                        last_claim_epoch: old(self).epoch_spec() })
                &&& final(self).set_spec().members() == old(self).set_spec().members().update(i, ValidatorView { stake: (v.stake + amount) as u64, ..v })
                &&& final(self).set_spec().total_stake == old(self).set_spec().total_stake + amount
            }),
            final(self).epoch_spec() == old(self).epoch_spec(),
            final(self).config_spec() == old(self).config_spec(),
            r is Ok ==> forall|a: Seq<u8>| final(self).has_delegated(a) == (old(self).has_delegated(a) || a == delegator.0@),
            r is Err ==> final(self).delegators_spec() == old(self).delegators_spec(),
            final(self).pools_spec() == old(self).pools_spec(),
            final(self).unbonding_spec() == old(self).unbonding_spec(),
    {
        if amount < self.config.min_delegation {
            return Err(ConsensusError::InsufficientStake { required: self.config.min_delegation, available: amount });
        }
        let total_shares = self.total_shares(&validator);
        let idx = match self.validators.position(&validator) {
            Some(i) => i,
            None => { return Err(ConsensusError::UnknownValidator(address_debug(&validator))); },
        };
        proof {
            let m = self.validators.members();
            let k = choose|k: int| 0 <= k < m.len() && (#[trigger] m[k]).address == validator.0@;
            if k != idx { if k < idx { assert(m[k].address != m[idx as int].address); } else { assert(m[idx as int].address != m[k].address); } }
        }
        let stake = self.validators.validators[idx].stake;
        let shares: u64 = if stake == 0 || total_shares == 0 {
            if amount <= u64::MAX / 1_000_000 { amount * 1_000_000 } else { u64::MAX }
        } else {
            proof {
                assert((amount as int) * (total_shares as int) <= 0xffff_ffff_ffff_ffff * 0xffff_ffff_ffff_ffff) by (nonlinear_arith)
                    requires amount <= 0xffff_ffff_ffff_ffffu64, total_shares <= 0xffff_ffff_ffff_ffffu128;
            }
            let q: u128 = (amount as u128) * total_shares / (stake as u128);
            (q % 0x1_0000_0000_0000_0000) as u64
        };
        let ghost m0 = self.validators.members();
        self.validators.set_stake(idx, stake + amount);
        self.validators.total_stake = self.validators.total_stake + amount;
        proof {
            let m = self.validators.members();
            assert forall|i: int| 0 <= i < m.len() implies #[trigger] m[i].commission <= 10000 by {
                assert(m[i].commission == m0[i].commission);
            }
        }
        let epoch = self.current_epoch;
        self.delegations.push(Delegation { delegator, validator, amount, shares, last_claim_epoch: epoch });
        let ghost mid = *self;
        assert(forall|x: Seq<u8>| mid.has_delegated(x) == old(self).has_delegated(x)) by {
            assert(mid.delegators_spec() == old(self).delegators_spec());
        }
        self.note_delegator(delegator);
        Ok(())
    }

    /// Withdraws stake from a delegation into the unbonding queue; a
    /// delegation brought to zero is removed with the delegator's other
    /// delegations to that validator.
    pub fn undelegate(&mut self, delegator: &Address, validator: &Address, amount: u64) -> (r: Result<(), ConsensusError>)
        requires
            old(self).wf(),
            old(self).epoch_spec() + old(self).config_spec().unbonding_period <= u64::MAX,
        ensures
            final(self).wf(),
            first_delegation(old(self).delegations_spec(), delegator.0@, validator.0@) is None
                ==> (r matches Err(ConsensusError::InvalidProposal(_))) && final(self).delegations_spec() == old(self).delegations_spec(),
            (first_delegation(old(self).delegations_spec(), delegator.0@, validator.0@) matches Some(i)
                && old(self).delegations_spec()[i].amount < amount) ==> r == Err::<(), ConsensusError>(ConsensusError::InsufficientStake {
                    required: amount, available: old(self).delegations_spec()[first_delegation(old(self).delegations_spec(), delegator.0@, validator.0@)->0].amount })
                    && final(self).delegations_spec() == old(self).delegations_spec(),
            r is Ok ==> final(self).unbonding_spec() == old(self).unbonding_spec().push(UnbondingEntry {
                delegator: *delegator, validator: *validator, amount,
                completion_epoch: (old(self).epoch_spec() + old(self).config_spec().unbonding_period) as u64 }),
            r is Ok ==> (first_delegation(old(self).delegations_spec(), delegator.0@, validator.0@) matches Some(i)
                && old(self).delegations_spec()[i].amount >= amount
                && final(self).delegations_spec() == after_withdrawal(old(self).delegations_spec(), i, amount)),
            (first_delegation(old(self).delegations_spec(), delegator.0@, validator.0@) matches Some(i)
                && old(self).delegations_spec()[i].amount >= amount) ==> r is Ok,
            r is Ok ==> ({
                let m = old(self).set_spec().members();
                if has_address(m, validator.0@) {
                    let q = choose|q: int| 0 <= q < m.len() && (#[trigger] m[q]).address == validator.0@;
                    &&& final(self).set_spec().members() == m.update(q, ValidatorView {
                            stake: if m[q].stake >= amount { (m[q].stake - amount) as u64 } else { 0 }, ..m[q] })
                    &&& final(self).set_spec().total_stake == if old(self).set_spec().total_stake >= amount {
                            (old(self).set_spec().total_stake - amount) as u64 } else { 0 }
                } else {
                    final(self).set_spec() == old(self).set_spec()
                }
            }),
            r is Err ==> final(self).set_spec() == old(self).set_spec() && final(self).unbonding_spec() == old(self).unbonding_spec(),
            final(self).epoch_spec() == old(self).epoch_spec(),
            final(self).config_spec() == old(self).config_spec(),
            final(self).delegators_spec() == old(self).delegators_spec(),
            final(self).pools_spec() == old(self).pools_spec(),
    {
        let ghost ds = self.delegations@;
        let mut i: usize = 0;
        while i < self.delegations.len()
            invariant
                i <= ds.len(),
                ds == self.delegations@,
                forall|j: int| 0 <= j < i ==> !((#[trigger] ds[j]).delegator.0@ == delegator.0@ && ds[j].validator.0@ == validator.0@),
            ensures
                i <= ds.len(),
                i < ds.len() ==> ds[i as int].delegator.0@ == delegator.0@ && ds[i as int].validator.0@ == validator.0@,
                forall|j: int| 0 <= j < i ==> !((#[trigger] ds[j]).delegator.0@ == delegator.0@ && ds[j].validator.0@ == validator.0@),
            decreases ds.len() - i,
        {
            if self.delegations[i].delegator == *delegator && self.delegations[i].validator == *validator {
                break;
            }
            i = i + 1;
        }
        if i == self.delegations.len() {
            return Err(ConsensusError::InvalidProposal("No delegation to validator".to_owned()));
        }
        proof {
            let f = first_delegation(ds, delegator.0@, validator.0@);
            assert(ds[i as int].delegator.0@ == delegator.0@ && ds[i as int].validator.0@ == validator.0@);
            let k = f->0;
            if k != i {
                if k < i { assert(!(ds[k].delegator.0@ == delegator.0@ && ds[k].validator.0@ == validator.0@)); }
            }
            assert(f == Some(i as int));
        }
        let mut del = self.delegations[i];
        if del.amount < amount {
            return Err(ConsensusError::InsufficientStake { required: amount, available: del.amount });
        }
        del.amount = del.amount - amount;
        del.shares = del.shares.saturating_sub(amount);
        self.delegations.set(i, del);
        if del.amount == 0 {
            let ghost ds1 = self.delegations@;
            let mut kept: Vec<Delegation> = Vec::new();
            let mut j: usize = 0;
            assert(ds1.take(0) =~= Seq::<Delegation>::empty());
            while j < self.delegations.len()
                invariant
                    j <= ds1.len(),
                    self.delegations@ == ds1,
                    kept@ == drop_pair(ds1.take(j as int), delegator.0@, validator.0@),
                decreases ds1.len() - j,
            {
                let d = self.delegations[j];
                assert(ds1.take(j + 1).drop_last() =~= ds1.take(j as int));
                if !(d.delegator == *delegator && d.validator == *validator) {
                    kept.push(d);
                }
                j = j + 1;
            }
            assert(ds1.take(j as int) =~= ds1);
            proof { lemma_drop_pair_update(ds, i as int, del); }
            self.delegations = kept;
        }
        let ghost m0 = self.validators.members();
        match self.validators.position(validator) {
            Some(vi) => {
                proof {
                    let q = choose|q: int| 0 <= q < m0.len() && (#[trigger] m0[q]).address == validator.0@;
                    if q != vi { if q < vi { assert(m0[q].address != m0[vi as int].address); } else { assert(m0[vi as int].address != m0[q].address); } }
                }
                let st = self.validators.validators[vi].stake;
                let ghost m0 = self.validators.members();
                self.validators.set_stake(vi, st.saturating_sub(amount));
                self.validators.total_stake = self.validators.total_stake.saturating_sub(amount);
                proof {
                    let m = self.validators.members();
                    assert forall|q: int| 0 <= q < m.len() implies #[trigger] m[q].commission <= 10000 by {
                        assert(m[q].commission == m0[q].commission);
                    }
                }
            },
            None => {},
        }
        let completion = self.current_epoch + self.config.unbonding_period;
        self.unbonding.push(UnbondingEntry { delegator: *delegator, validator: *validator, amount, completion_epoch: completion });
        Ok(())
    }

    /// Drops the unbonding entries completed by `epoch`.
    fn process_unbonding(&mut self, epoch: u64)
        ensures
            forall|i: int| 0 <= i < final(self).unbonding@.len() ==> (#[trigger] final(self).unbonding@[i]).completion_epoch > epoch
                && old(self).unbonding@.contains(final(self).unbonding@[i]),
            forall|i: int| 0 <= i < old(self).unbonding@.len() && (#[trigger] old(self).unbonding@[i]).completion_epoch > epoch
                ==> final(self).unbonding@.contains(old(self).unbonding@[i]),
            final(self).validators == old(self).validators,
            final(self).delegations@ == old(self).delegations@,
            final(self).reward_pools@ == old(self).reward_pools@,
            final(self).delegators@ == old(self).delegators@,
            final(self).current_epoch == old(self).current_epoch,
            final(self).config == old(self).config,
    {
        let ghost u0 = self.unbonding@;
        let mut kept: Vec<UnbondingEntry> = Vec::new();
        let mut i: usize = 0;
        while i < self.unbonding.len()
            invariant
                i <= u0.len(),
                u0 == self.unbonding@,
                forall|k: int| 0 <= k < kept@.len() ==> (#[trigger] kept@[k]).completion_epoch > epoch && u0.contains(kept@[k]),
                forall|k: int| 0 <= k < i && (#[trigger] u0[k]).completion_epoch > epoch ==> kept@.contains(u0[k]),
            decreases u0.len() - i,
        {
            let e = self.unbonding[i];
            let ghost k0 = kept@;
            if e.completion_epoch > epoch {
                kept.push(e);
            }
            proof {
                assert forall|k: int| 0 <= k < kept@.len() implies (#[trigger] kept@[k]).completion_epoch > epoch && u0.contains(kept@[k]) by {
                    if k < k0.len() { assert(kept@[k] == k0[k]); } else { assert(u0[i as int] == kept@[k]); }
                }
                assert forall|k: int| 0 <= k < i + 1 && (#[trigger] u0[k]).completion_epoch > epoch implies kept@.contains(u0[k]) by {
                    if k < i {
                        let w = choose|w: int| 0 <= w < k0.len() && k0[w] == u0[k];
                        assert(kept@[w] == k0[w]);
                    } else {
                        assert(kept@[k0.len() as int] == u0[k]);
                    }
                }
            }
            i = i + 1;
        }
        self.unbonding = kept;
    }

    /// Credits an epoch's rewards to the pools of the validators taking
    /// part, in proportion to stake and less commission.
    fn distribute_rewards(&mut self, total_rewards: u64)
        requires
            old(self).wf(),
            old(self).validators.active_stake_spec() <= u64::MAX,
            rewards_fit(old(self).reward_pools@, old(self).validators.members(), old(self).validators.epoch, total_rewards,
                old(self).validators.active_stake_spec() as int),
        ensures
            final(self).reward_pools@.len() == old(self).reward_pools@.len(),
            forall|p: int| 0 <= p < old(self).reward_pools@.len() ==> pool_credited(#[trigger] old(self).reward_pools@[p], final(self).reward_pools@[p],
                old(self).validators.members(), old(self).validators.epoch, total_rewards, old(self).validators.active_stake_spec() as int,
                old(self).current_epoch),
            final(self).validators == old(self).validators,
            final(self).delegations@ == old(self).delegations@,
            final(self).unbonding@ == old(self).unbonding@,
            final(self).delegators@ == old(self).delegators@,
            final(self).current_epoch == old(self).current_epoch,
            final(self).config == old(self).config,
    {
        let total = self.validators.active_stake();
        if total == 0 {
            return;
        }
        let ghost p0 = self.reward_pools@;
        let ghost m = self.validators.members();
        let mut p: usize = 0;
        while p < self.reward_pools.len()
            invariant
                p <= p0.len(),
                self.reward_pools@.len() == p0.len(),
                self.validators == old(self).validators,
                self.delegations@ == old(self).delegations@,
                self.unbonding@ == old(self).unbonding@,
                self.delegators@ == old(self).delegators@,
                self.current_epoch == old(self).current_epoch,
                self.config == old(self).config,
                self.wf(),
                m == self.validators.members(),
                p0 == old(self).reward_pools@,
                total == self.validators.active_stake_spec(),
                total > 0,
                rewards_fit(p0, m, self.validators.epoch, total_rewards, total as int),
                forall|q: int| p <= q < p0.len() ==> self.reward_pools@[q] == p0[q],
                forall|q: int| 0 <= q < p ==> pool_credited(#[trigger] p0[q], self.reward_pools@[q], m, self.validators.epoch,
                    total_rewards, total as int, self.current_epoch),
            decreases p0.len() - p,
        {
            let (addr, pool) = self.reward_pools[p];
            match self.validators.position(&addr) {
                Some(vi) => {
                    proof {
                        let k = choose|k: int| 0 <= k < m.len() && (#[trigger] m[k]).address == addr.0@;
                        if k != vi { if k < vi { assert(m[k].address != m[vi as int].address); } else { assert(m[vi as int].address != m[k].address); } }
                        assert(member_with(m, addr.0@) == m[vi as int]);
                    }
                    let stake = self.validators.validators[vi].stake;
                    let commission = self.validators.validators[vi].commission;
                    if self.validators.validators[vi].is_eligible(self.validators.epoch) {
                        proof {
                            assert(m[vi as int].commission <= 10000);
                            assert(p0[p as int].0 == addr);
                            assert(earns(m, p0[p as int].0.0@, self.validators.epoch));
                            assert((total_rewards as int) * (stake as int) <= 0xffff_ffff_ffff_ffff * 0xffff_ffff_ffff_ffff) by (nonlinear_arith)
                                requires total_rewards <= 0xffff_ffff_ffff_ffffu64, stake <= 0xffff_ffff_ffff_ffffu64;
                        }
                        let vr128: u128 = (total_rewards as u128) * (stake as u128) / (total as u128);
                        let vr: u64 = (vr128 % 0x1_0000_0000_0000_0000) as u64;
                        proof {
                            assert((vr as int) * (commission as int) / 10000 <= vr as int) by (nonlinear_arith)
                                requires commission <= 10000, vr >= 0;
                            assert((vr as int) * (commission as int) <= 0xffff_ffff_ffff_ffff * 10000) by (nonlinear_arith)
                                requires commission <= 10000, vr <= 0xffff_ffff_ffff_ffffu64;
                        }
                        let cut: u64 = ((vr as u128) * (commission as u128) / 10000) as u64;
                        let dr: u64 = vr - cut;
                        let d128: u128 = (dr as u128) * 1_000_000_000_000_000_000 / (stake as u128);
                        let delta = U256([(d128 % 0x1_0000_0000_0000_0000) as u64, (d128 / 0x1_0000_0000_0000_0000) as u64, 0, 0]);
                        proof {
                            assert(delta.0@ =~= seq![(d128 % 0x1_0000_0000_0000_0000) as u64, (d128 / 0x1_0000_0000_0000_0000) as u64, 0u64, 0u64]);
                            vstd::arithmetic::div_mod::lemma_fundamental_div_mod(d128 as int, 0x1_0000_0000_0000_0000);
                            assert(delta.value() == d128);
                        }
                        let rps = match pool.reward_per_share.checked_add(&delta) {
                            Some(x) => x,
                            None => { proof { assert(false); } pool.reward_per_share },
                        };
                        let np = RewardPool { total_rewards: pool.total_rewards + dr, reward_per_share: rps, epoch: self.current_epoch };
                        self.reward_pools.set(p, (addr, np));
                    } else {
                        proof { assert(!earns(m, p0[p as int].0.0@, self.validators.epoch)); }
                    }
                },
                None => {},
            }
            p = p + 1;
        }
    }

    /// Ends the epoch: the epoch advances, its rewards are credited,
    /// completed unbonding is released, and the validator set moves to the
    /// new epoch.
    pub fn end_epoch(&mut self, rewards: u64) -> (r: Result<u64, ConsensusError>)
        requires
            old(self).wf(),
            old(self).epoch_spec() < u64::MAX,
            old(self).set_spec().active_stake_spec() <= u64::MAX,
            rewards_fit(old(self).pools_spec(), old(self).set_spec().members(), old(self).set_spec().epoch, rewards,
                old(self).set_spec().active_stake_spec() as int),
        ensures
            final(self).wf(),
            r == Ok::<u64, ConsensusError>((old(self).epoch_spec() + 1) as u64),
            final(self).epoch_spec() == old(self).epoch_spec() + 1,
            final(self).set_spec().members() == old(self).set_spec().members(),
            final(self).set_spec().epoch == old(self).epoch_spec() + 1,
            final(self).set_spec().total_stake == old(self).set_spec().total_stake,
            final(self).pools_spec().len() == old(self).pools_spec().len(),
            forall|p: int| 0 <= p < old(self).pools_spec().len() ==> pool_credited(#[trigger] old(self).pools_spec()[p], final(self).pools_spec()[p],
                old(self).set_spec().members(), old(self).set_spec().epoch, rewards, old(self).set_spec().active_stake_spec() as int,
                (old(self).epoch_spec() + 1) as u64),
            forall|i: int| 0 <= i < final(self).unbonding_spec().len() ==> (#[trigger] final(self).unbonding_spec()[i]).completion_epoch > old(self).epoch_spec() + 1
                && old(self).unbonding_spec().contains(final(self).unbonding_spec()[i]),
            forall|i: int| 0 <= i < old(self).unbonding_spec().len() && (#[trigger] old(self).unbonding_spec()[i]).completion_epoch > old(self).epoch_spec() + 1
                ==> final(self).unbonding_spec().contains(old(self).unbonding_spec()[i]),
            final(self).delegations_spec() == old(self).delegations_spec(),
            final(self).delegators_spec() == old(self).delegators_spec(),
            final(self).config_spec() == old(self).config_spec(),
    {
        self.current_epoch = self.current_epoch + 1;
        let new_epoch = self.current_epoch;
        self.distribute_rewards(rewards);
        self.process_unbonding(new_epoch);
        self.validators.epoch = new_epoch;
        Ok(new_epoch)
    }

    /// The pool of validator `a`.
    fn find_pool(&self, a: &Address) -> (r: Option<RewardPool>)
        ensures r == pool_lookup(self.reward_pools@, a.0@),
    {
        let mut found: Option<RewardPool> = None;
        let mut i: usize = 0;
        assert(self.reward_pools@.take(0) =~= Seq::<(Address, RewardPool)>::empty());
        while i < self.reward_pools.len()
            invariant
                i <= self.reward_pools@.len(),
                found == pool_lookup(self.reward_pools@.take(i as int), a.0@),
            decreases self.reward_pools@.len() - i,
        {
            assert(self.reward_pools@.take(i + 1).drop_last() =~= self.reward_pools@.take(i as int));
            if self.reward_pools[i].0 == *a {
                found = Some(self.reward_pools[i].1);
            }
            i = i + 1;
        }
        assert(self.reward_pools@.take(i as int) =~= self.reward_pools@);
        found
    }

    /// Claims a delegator's rewards over all its delegations; each
    /// delegation that earned records the claim's epoch.
    pub fn claim_rewards(&mut self, delegator: &Address) -> (r: Result<u64, ConsensusError>)
        requires
            claim_fits(old(self).delegations_spec(), old(self).pools_spec(), delegator.0@),
        ensures
            !old(self).has_delegated(delegator.0@) ==> (r matches Err(ConsensusError::InvalidProposal(_)))
                && final(self).delegations_spec() == old(self).delegations_spec(),
            old(self).has_delegated(delegator.0@) ==> r == Ok::<u64, ConsensusError>(claim_total(old(self).delegations_spec(), old(self).pools_spec(), delegator.0@) as u64)
                && final(self).delegations_spec() == claimed(old(self).delegations_spec(), old(self).pools_spec(), delegator.0@, old(self).epoch_spec()),
            final(self).set_spec() == old(self).set_spec(),
            final(self).pools_spec() == old(self).pools_spec(),
            final(self).unbonding_spec() == old(self).unbonding_spec(),
            final(self).delegators_spec() == old(self).delegators_spec(),
            final(self).epoch_spec() == old(self).epoch_spec(),
            final(self).config_spec() == old(self).config_spec(),
            old(self).wf() ==> final(self).wf(),
    {
        let mut q: usize = 0;
        let mut known = false;
        while q < self.delegators.len()
            invariant
                q <= self.delegators@.len(),
                known <==> exists|j: int| 0 <= j < q && (#[trigger] self.delegators@[j]).0@ == delegator.0@,
            decreases self.delegators@.len() - q,
        {
            if self.delegators[q] == *delegator {
                known = true;
            }
            q = q + 1;
        }
        if !known {
            return Err(ConsensusError::InvalidProposal("No delegations".to_owned()));
        }
        let ghost ds = self.delegations@;
        let ghost pools = self.reward_pools@;
        let epoch = self.current_epoch;
        let mut total: u64 = 0;
        let mut k: usize = 0;
        assert(ds.take(0) =~= Seq::<Delegation>::empty());
        while k < self.delegations.len()
            invariant
                k <= ds.len(),
                self.delegations@.len() == ds.len(),
                pools == self.reward_pools@,
                epoch == self.current_epoch,
                self.validators == old(self).validators,
                self.reward_pools@ == old(self).reward_pools@,
                self.unbonding@ == old(self).unbonding@,
                self.delegators@ == old(self).delegators@,
                self.current_epoch == old(self).current_epoch,
                self.config == old(self).config,
                ds == old(self).delegations@,
                claim_fits(ds, pools, delegator.0@),
                forall|j: int| k <= j < ds.len() ==> self.delegations@[j] == ds[j],
                forall|j: int| 0 <= j < k ==> self.delegations@[j] == claimed(ds, pools, delegator.0@, epoch)[j],
                total == claim_total(ds.take(k as int), pools, delegator.0@),
            decreases ds.len() - k,
        {
            let d = self.delegations[k];
            proof {
                assert(ds.take(k + 1).drop_last() =~= ds.take(k as int));
                lemma_claim_prefix(ds, pools, delegator.0@, k + 1);
            }
            if d.delegator == *delegator {
                match self.find_pool(&d.validator) {
                    Some(pool) => {
                        proof { assert(claims(ds[k as int], pools, delegator.0@)); }
                        let prod = pool.reward_per_share.wrapping_mul_u64(d.shares);
                        proof {
                            vstd::arithmetic::div_mod::lemma_small_mod((pool.reward_per_share.value() * d.shares) as nat,
                                crate::primitives::types::u256_modulus() as nat);
                        }
                        let q = prod.div_u64(1_000_000_000_000_000_000);
                        proof {
                            vstd::arithmetic::div_mod::lemma_small_mod(q.value() as nat, 0x1_0000_0000_0000_0000nat);
                        }
                        let pend = q.as_u64();
                        total = total + pend;
                        self.delegations.set(k, Delegation { last_claim_epoch: epoch, ..d });
                    },
                    None => {},
                }
            }
            k = k + 1;
        }
        assert(ds.take(k as int) =~= ds);
        assert(self.delegations@ =~= claimed(ds, pools, delegator.0@, epoch));
        proof {
            if old(self).wf() {
                assert(self.validators == old(self).validators);
            }
        }
        Ok(total)
    }

    /// The unbonding entries of a delegator, in order.
    pub fn get_unbonding(&self, address: &Address) -> (r: Vec<UnbondingEntry>)
        ensures
            r@ == unbonding_of(self.unbonding_spec(), address.0@),
            forall|i: int| 0 <= i < r@.len() ==> (#[trigger] r@[i]).delegator.0@ == address.0@ && self.unbonding_spec().contains(r@[i]),
    {
        let mut out: Vec<UnbondingEntry> = Vec::new();
        let mut i: usize = 0;
        assert(self.unbonding@.take(0) =~= Seq::<UnbondingEntry>::empty());
        while i < self.unbonding.len()
            invariant
                i <= self.unbonding@.len(),
                out@ == unbonding_of(self.unbonding@.take(i as int), address.0@),
                forall|k: int| 0 <= k < out@.len() ==> (#[trigger] out@[k]).delegator.0@ == address.0@ && self.unbonding@.contains(out@[k]),
            decreases self.unbonding@.len() - i,
        {
            let e = self.unbonding[i];
            proof {
                assert(self.unbonding@.take(i + 1).drop_last() =~= self.unbonding@.take(i as int));
                assert(self.unbonding@.take(i + 1).last() == e);
            }
            if e.delegator == *address {
                let ghost o = out@;
                out.push(e);
                proof {
                    assert forall|k: int| 0 <= k < out@.len() implies (#[trigger] out@[k]).delegator.0@ == address.0@ && self.unbonding@.contains(out@[k]) by {
                        if k < o.len() { assert(out@[k] == o[k]); } else { assert(self.unbonding@[i as int] == e); }
                    }
                }
            }
            i = i + 1;
        }
        assert(self.unbonding@.take(i as int) =~= self.unbonding@);
        out
    }

    /// The delegations of a delegator, in order.
    pub fn get_delegations(&self, address: &Address) -> (r: Vec<Delegation>)
        ensures
            r@ == delegations_of(self.delegations_spec(), address.0@),
            forall|i: int| 0 <= i < r@.len() ==> (#[trigger] r@[i]).delegator.0@ == address.0@ && self.delegations_spec().contains(r@[i]),
            r@.len() == 0 ==> forall|i: int| 0 <= i < self.delegations_spec().len() ==> (#[trigger] self.delegations_spec()[i]).delegator.0@ != address.0@,
    {
        let mut out: Vec<Delegation> = Vec::new();
        let mut i: usize = 0;
        assert(self.delegations@.take(0) =~= Seq::<Delegation>::empty());
        while i < self.delegations.len()
            invariant
                i <= self.delegations@.len(),
                out@ == delegations_of(self.delegations@.take(i as int), address.0@),
                forall|k: int| 0 <= k < out@.len() ==> (#[trigger] out@[k]).delegator.0@ == address.0@ && self.delegations@.contains(out@[k]),
                out@.len() == 0 ==> forall|k: int| 0 <= k < i ==> (#[trigger] self.delegations@[k]).delegator.0@ != address.0@,
            decreases self.delegations@.len() - i,
        {
            let e = self.delegations[i];
            proof {
                assert(self.delegations@.take(i + 1).drop_last() =~= self.delegations@.take(i as int));
                assert(self.delegations@.take(i + 1).last() == e);
            }
            if e.delegator == *address {
                let ghost o = out@;
                out.push(e);
                proof {
                    assert forall|k: int| 0 <= k < out@.len() implies (#[trigger] out@[k]).delegator.0@ == address.0@ && self.delegations@.contains(out@[k]) by {
                        if k < o.len() { assert(out@[k] == o[k]); } else { assert(self.delegations@[i as int] == e); }
                    }
                }
            }
            i = i + 1;
        }
        assert(self.delegations@.take(i as int) =~= self.delegations@);
        out
    }

    /// The validator set.
    pub fn validator_set(&self) -> (r: &ValidatorSet)
        ensures *r == self.set_spec(),
    {
        &self.validators
    }

    /// The leader of a slot: a stake-weighted pick among the eligible
    /// validators, seeded by Keccak-256 of (epoch, slot, randomness); none
    /// without eligible validators.
    pub fn select_leader(&self, epoch: u64, slot: u64, randomness: &crate::primitives::types::Hash) -> (r: Option<Address>)
        requires
            self.wf(),
            self.set_spec().active_stake_spec() <= u64::MAX,
        ensures
            ({
                let active = eligible_of(self.set_spec().members(), self.set_spec().epoch);
                let seed = keccak256_spec(leader_seed(epoch, slot, randomness.0@));
                match r {
                    Some(a) => active.len() > 0 && leader_walk(active, 0, le64_value(seed) % (self.set_spec().active_stake_spec() as int)) == Some(a.0@),
                    None => active.len() == 0,
                }
            }),
    {
        let active = self.validators.active_validators();
        let ghost av = Seq::new(active@.len(), |i: int| active@[i]@);
        if active.len() == 0 {
            return None;
        }
        let mut seed_data: Vec<u8> = Vec::new();
        crate::primitives::address::push_all(&mut seed_data, crate::evm::state::le_u64_bytes(epoch).as_slice());
        crate::primitives::address::push_all(&mut seed_data, crate::evm::state::le_u64_bytes(slot).as_slice());
        crate::primitives::address::push_all(&mut seed_data, randomness.0.as_slice());
        let seed = keccak256(seed_data.as_slice());
        let mut rv: u128 = 0;
        let mut k: usize = 8;
        proof { lemma_pow256_eight(); }
        while k > 0
            invariant
                k <= 8,
                seed@.len() == 32,
                rv == le64_from(seed@, k as int),
                rv < crate::evm::state::pow256((8 - k) as nat),
                crate::evm::state::pow256(8) == 0x1_0000_0000_0000_0000,
            decreases k,
        {
            proof {
                lemma_pow256_mono((9 - k) as nat, 8);
                assert(crate::evm::state::pow256((9 - k) as nat) == 256 * crate::evm::state::pow256((8 - k) as nat));
            }
            rv = rv * 256 + seed[k - 1] as u128;
            k = k - 1;
        }
        let random_value: u64 = rv as u64;
        let total = self.validators.active_stake();
        proof {
            lemma_active_positive(self.validators.members(), self.validators.epoch);
            lemma_prefix_eligible(self.validators.members(), self.validators.epoch);
        }
        let target = random_value % total;
        proof {
            assert(seed_data@ =~= leader_seed(epoch, slot, randomness.0@));
        }
        let n = active.len();
        let mut i: usize = 0;
        let mut cumulative: u64 = 0;
        assert(av.skip(0) =~= av);
        assert(av.take(0) =~= Seq::<ValidatorView>::empty());
        while i + 1 < n
            invariant
                n == active@.len() == av.len(),
                n > 0,
                i < n,
                av == Seq::new(active@.len(), |q: int| active@[q]@),
                prefix_stake(av) == total,
                av == eligible_of(self.set_spec().members(), self.set_spec().epoch),
                total == self.set_spec().active_stake_spec(),
                target as int == le64_value(keccak256_spec(leader_seed(epoch, slot, randomness.0@))) % (total as int),
                cumulative == prefix_stake(av.take(i as int)),
                leader_walk(av, 0, target as int) == leader_walk(av.skip(i as int), cumulative as int, target as int),
            decreases n - i,
        {
            proof {
                lemma_prefix_take(av, i + 1);
                assert(av.take(i + 1).drop_last() =~= av.take(i as int));
                assert(av.skip(i as int)[0] == av[i as int]);
            }
            cumulative = cumulative + active[i].stake;
            if cumulative > target {
                return Some(active[i].address);
            }
            assert(av.skip(i as int).drop_first() =~= av.skip(i + 1));
            i = i + 1;
        }
        assert(av.skip(i as int)[0] == av[i as int]);
        Some(active[i].address)
    }
}

/// Replacing a delegation by one of the same delegator and validator does
/// not change what is left once that pair is dropped.
proof fn lemma_drop_pair_update(ds: Seq<Delegation>, i: int, nd: Delegation)
    requires
        0 <= i < ds.len(),
        nd.delegator == ds[i].delegator,
        nd.validator == ds[i].validator,
    ensures drop_pair(ds.update(i, nd), nd.delegator.0@, nd.validator.0@) == drop_pair(ds, nd.delegator.0@, nd.validator.0@),
    decreases ds.len(),
{
    let u = ds.update(i, nd);
    if i == ds.len() - 1 {
        assert(u.drop_last() =~= ds.drop_last());
    } else {
        assert(u.drop_last() =~= ds.drop_last().update(i, nd));
        lemma_drop_pair_update(ds.drop_last(), i, nd);
    }
}

proof fn lemma_claim_prefix(ds: Seq<Delegation>, pools: Seq<(Address, RewardPool)>, a: Seq<u8>, i: int)
    requires 0 <= i <= ds.len(),
    ensures 0 <= claim_total(ds.take(i), pools, a) <= claim_total(ds, pools, a),
    decreases ds.len() - i,
{
    lemma_claim_nonneg(ds.take(i), pools, a);
    if i < ds.len() {
        lemma_claim_prefix(ds, pools, a, i + 1);
        assert(ds.take(i + 1).drop_last() =~= ds.take(i));
        assert(ds.take(i + 1).last() == ds[i]);
        let d = ds[i];
        if claims(d, pools, a) {
            let p = pool_lookup(pools, d.validator.0@)->0;
            p.reward_per_share.lemma_value_bounds();
            assert(p.reward_per_share.value() * d.shares >= 0) by (nonlinear_arith)
                requires p.reward_per_share.value() >= 0;
            assert(pending_reward(d, p) >= 0);
        }
    } else {
        assert(ds.take(i) =~= ds);
        lemma_claim_nonneg(ds, pools, a);
    }
}

proof fn lemma_claim_nonneg(ds: Seq<Delegation>, pools: Seq<(Address, RewardPool)>, a: Seq<u8>)
    ensures claim_total(ds, pools, a) >= 0,
    decreases ds.len(),
{
    if ds.len() > 0 {
        lemma_claim_nonneg(ds.drop_last(), pools, a);
        let d = ds.last();
        if claims(d, pools, a) {
            let p = pool_lookup(pools, d.validator.0@)->0;
            p.reward_per_share.lemma_value_bounds();
            assert(p.reward_per_share.value() * d.shares >= 0) by (nonlinear_arith)
                requires p.reward_per_share.value() >= 0;
        }
    }
}

proof fn lemma_pow256_eight()
    ensures crate::evm::state::pow256(8) == 0x1_0000_0000_0000_0000,
{
    reveal_with_fuel(crate::evm::state::pow256, 9);
}

pub(crate) proof fn lemma_pow256_mono(a: nat, b: nat)
    requires a <= b,
    ensures crate::evm::state::pow256(a) <= crate::evm::state::pow256(b),
    decreases b,
{
    if a < b {
        lemma_pow256_mono(a, (b - 1) as nat);
    }
}

pub(crate) proof fn lemma_prefix_take(s: Seq<ValidatorView>, i: int)
    requires 0 <= i <= s.len(),
    ensures prefix_stake(s.take(i)) <= prefix_stake(s),
    decreases s.len() - i,
{
    if i < s.len() {
        lemma_prefix_take(s, i + 1);
        assert(s.take(i + 1).drop_last() =~= s.take(i));
    } else {
        assert(s.take(i) =~= s);
    }
}

pub(crate) proof fn lemma_prefix_eligible(s: Seq<ValidatorView>, epoch: u64)
    ensures prefix_stake(eligible_of(s, epoch)) == crate::consensus::validator::eligible_stake(s, epoch),
    decreases s.len(),
{
    if s.len() > 0 {
        lemma_prefix_eligible(s.drop_last(), epoch);
        if crate::consensus::validator::eligible(s.last(), epoch) {
            assert(eligible_of(s, epoch).drop_last() =~= eligible_of(s.drop_last(), epoch));
        }
    }
}

pub(crate) proof fn lemma_active_positive(s: Seq<ValidatorView>, epoch: u64)
    requires eligible_of(s, epoch).len() > 0,
    ensures crate::consensus::validator::eligible_stake(s, epoch) > 0,
    decreases s.len(),
{
    if s.len() > 0 {
        if !crate::consensus::validator::eligible(s.last(), epoch) {
            lemma_active_positive(s.drop_last(), epoch);
        }
    }
}

/// The rewards credited in one epoch to the validators of `m` taking part in
/// `epoch`, each its stake-weighted share of `rewards` out of `total`.
pub open spec fn rewards_credited(m: Seq<ValidatorView>, epoch: u64, rewards: u64, total: int) -> int
    decreases m.len(),
{
    if m.len() == 0 {
        0
    } else {
        rewards_credited(m.drop_last(), epoch, rewards, total)
            + if crate::consensus::validator::eligible(m.last(), epoch) { validator_reward(rewards, m.last().stake, total) } else { 0 }
    }
}

/// A validator's share of an epoch's rewards is `rewards * stake / total`
/// rounded down: `share * total <= rewards * stake < (share + 1) * total`,
/// and never more than the rewards.
pub proof fn lemma_validator_share(rewards: u64, stake: u64, total: int)
    requires
        0 < total,
        stake <= total,
    ensures
        validator_reward(rewards, stake, total) * total <= rewards * stake,
        rewards * stake < (validator_reward(rewards, stake, total) + 1) * total,
        0 <= validator_reward(rewards, stake, total) <= rewards,
{
    let rs: int = (rewards as int) * (stake as int);
    let q: int = rs / total;
    assert(0 <= q <= rewards && q * total <= rs < (q + 1) * total) by (nonlinear_arith)
        requires 0 < total, 0 <= stake <= total, rewards >= 0, rs == (rewards as int) * (stake as int), q == rs / total;
    assert(q % 0x1_0000_0000_0000_0000 == q);
}

/// A validator taking part in `epoch` holds at most the stake of all who
/// take part.
pub proof fn lemma_eligible_member_stake(m: Seq<ValidatorView>, epoch: u64, i: int)
    requires
        0 <= i < m.len(),
        crate::consensus::validator::eligible(m[i], epoch),
    ensures
        m[i].stake <= crate::consensus::validator::eligible_stake(m, epoch),
    decreases m.len(),
{
    if i < m.len() - 1 {
        lemma_eligible_member_stake(m.drop_last(), epoch, i);
        assert(m.drop_last()[i] == m[i]);
    }
}

proof fn lemma_credited_scaled(m: Seq<ValidatorView>, epoch: u64, rewards: u64, total: int)
    requires
        0 < total,
        crate::consensus::validator::eligible_stake(m, epoch) <= total,
    ensures
        rewards_credited(m, epoch, rewards, total) * total <= rewards * crate::consensus::validator::eligible_stake(m, epoch),
    decreases m.len(),
{
    if m.len() > 0 {
        let es: int = crate::consensus::validator::eligible_stake(m.drop_last(), epoch) as int;
        let c: int = rewards_credited(m.drop_last(), epoch, rewards, total);
        lemma_credited_scaled(m.drop_last(), epoch, rewards, total);
        if crate::consensus::validator::eligible(m.last(), epoch) {
            let s: int = m.last().stake as int;
            let v: int = validator_reward(rewards, m.last().stake, total);
            lemma_validator_share(rewards, m.last().stake, total);
            assert((c + v) * total <= (rewards as int) * (es + s)) by (nonlinear_arith)
                requires c * total <= (rewards as int) * es, v * total <= (rewards as int) * s;
        }
    }
}

/// Over the validators taking part in an epoch, the rewards credited sum to
/// at most the epoch's rewards, when each is credited its share of the
/// stake of all who take part.
pub proof fn lemma_epoch_rewards_bounded(m: Seq<ValidatorView>, epoch: u64, rewards: u64)
    requires
        crate::consensus::validator::eligible_stake(m, epoch) > 0,
    ensures
        rewards_credited(m, epoch, rewards, crate::consensus::validator::eligible_stake(m, epoch) as int) <= rewards,
{
    let t: int = crate::consensus::validator::eligible_stake(m, epoch) as int;
    let c: int = rewards_credited(m, epoch, rewards, t);
    lemma_credited_scaled(m, epoch, rewards, t);
    assert(c <= rewards) by (nonlinear_arith)
        requires c * t <= (rewards as int) * t, t > 0;
}

/// What a delegation is owed is its shares times the pool's rewards per
/// share scaled back by 10^18, rounded down, and grows with the rewards per
/// share.
pub proof fn lemma_pending_reward(d: Delegation, p: RewardPool, p2: RewardPool)
    requires
        p.reward_per_share.value() <= p2.reward_per_share.value(),
    ensures
        pending_reward(d, p) * 1_000_000_000_000_000_000 <= p.reward_per_share.value() * d.shares,
        p.reward_per_share.value() * d.shares < (pending_reward(d, p) + 1) * 1_000_000_000_000_000_000,
        pending_reward(d, p) <= pending_reward(d, p2),
{
    let a: int = p.reward_per_share.value();
    let b: int = p2.reward_per_share.value();
    let sh: int = d.shares as int;
    p.reward_per_share.lemma_value_bounds();
    assert(0 <= a * sh <= b * sh) by (nonlinear_arith) requires 0 <= a <= b, sh >= 0;
    vstd::arithmetic::div_mod::lemma_div_is_ordered(a * sh, b * sh, 1_000_000_000_000_000_000);
    vstd::arithmetic::div_mod::lemma_fundamental_div_mod(a * sh, 1_000_000_000_000_000_000);
}

/// Shares are issued in proportion to the pool: into a pool with shares and
/// stake, `amount * shares / stake` rounded down (when that fits 64 bits);
/// into an empty pool, a million per unit (when that fits).
pub proof fn lemma_shares_issued(amount: u64, total_shares: int, stake: u64)
    requires total_shares >= 0,
    ensures
        stake > 0 && total_shares > 0 && amount * total_shares / (stake as int) <= u64::MAX ==> {
            let n = shares_issued(amount, total_shares, stake) as int;
            n * stake <= amount * total_shares < (n + 1) * stake
        },
        (stake == 0 || total_shares == 0) && amount * 1_000_000 <= u64::MAX ==>
            shares_issued(amount, total_shares, stake) == amount * 1_000_000,
{
    if stake > 0 && total_shares > 0 {
        let p: int = amount * total_shares;
        let q: int = p / (stake as int);
        assert(p >= 0) by (nonlinear_arith) requires amount >= 0, total_shares >= 0, p == amount * total_shares;
        assert(q >= 0 && q * stake <= p < (q + 1) * stake) by (nonlinear_arith)
            requires p >= 0, stake > 0, q == p / (stake as int);
        if q <= u64::MAX {
            assert(q % 0x1_0000_0000_0000_0000 == q);
        }
    }
}

/// When an epoch's rewards are credited over the active stake, the pool of
/// a validator taking part grows by the validator's share less commission:
/// by `share - share * commission / 10000`, where `share` is
/// `rewards * stake / active` rounded down.
pub proof fn lemma_pool_growth(o: (Address, RewardPool), n: (Address, RewardPool), m: Seq<ValidatorView>,
    vepoch: u64, rewards: u64, epoch: u64)
    requires
        crate::consensus::validator::eligible_stake(m, vepoch) > 0,
        earns(m, o.0.0@, vepoch),
        pool_credited(o, n, m, vepoch, rewards, crate::consensus::validator::eligible_stake(m, vepoch) as int, epoch),
    ensures
        ({
            let t = crate::consensus::validator::eligible_stake(m, vepoch) as int;
            let v = member_with(m, o.0.0@);
            exists|share: int| #![trigger share * t]
                share * t <= rewards * v.stake < (share + 1) * t
                && n.1.total_rewards == o.1.total_rewards + share - share * v.commission / 10000
        }),
        ({
            let v = member_with(m, o.0.0@);
            let d = n.1.reward_per_share.value() - o.1.reward_per_share.value();
            let g = n.1.total_rewards - o.1.total_rewards;
            d * v.stake <= g * 1_000_000_000_000_000_000 < (d + 1) * v.stake
        }),
{
    let t = crate::consensus::validator::eligible_stake(m, vepoch) as int;
    let a = o.0.0@;
    let i = choose|i: int| 0 <= i < m.len() && (#[trigger] m[i]).address == a;
    let v = member_with(m, a);
    assert(v == m[i]);
    lemma_eligible_member_stake(m, vepoch, i);
    lemma_validator_share(rewards, v.stake, t);
    let share = validator_reward(rewards, v.stake, t);
    assert(share * t <= rewards * v.stake < (share + 1) * t);
    let g: int = delegator_reward(rewards, v, t);
    let d: int = per_share_delta(rewards, v, t);
    let st: int = v.stake as int;
    assert(st > 0);
    assert(d * st <= g * 1_000_000_000_000_000_000 < (d + 1) * st) by (nonlinear_arith)
        requires st > 0, d == g * 1_000_000_000_000_000_000 / st;
}

proof fn lemma_prefix_first(s: Seq<ValidatorView>, j: int)
    requires 1 <= j <= s.len(),
    ensures prefix_stake(s.take(j)) == s[0].stake + prefix_stake(s.drop_first().take(j - 1)),
    decreases j,
{
    if j == 1 {
        assert(s.take(1).drop_last() =~= Seq::<ValidatorView>::empty());
        assert(s.drop_first().take(0) =~= Seq::<ValidatorView>::empty());
    } else {
        lemma_prefix_first(s, j - 1);
        assert(s.take(j).drop_last() =~= s.take(j - 1));
        assert(s.drop_first().take(j - 1).drop_last() =~= s.drop_first().take(j - 2));
    }
}

proof fn lemma_prefix_monotone(s: Seq<ValidatorView>, a: int, b: int)
    requires 0 <= a <= b <= s.len(),
    ensures prefix_stake(s.take(a)) <= prefix_stake(s.take(b)),
{
    lemma_prefix_take(s.take(b), a);
    assert(s.take(b).take(a) =~= s.take(a));
}

proof fn lemma_walk_from(s: Seq<ValidatorView>, cum: int, target: int, i: int)
    requires
        0 <= i < s.len(),
        cum + prefix_stake(s.take(i)) <= target < cum + prefix_stake(s.take(i + 1)),
    ensures leader_walk(s, cum, target) == Some(s[i].address),
    decreases s.len(),
{
    lemma_prefix_first(s, 1);
    assert(s.drop_first().take(0) =~= Seq::<ValidatorView>::empty());
    assert(prefix_stake(s.take(1)) == s[0].stake);
    if i == 0 {
        assert(s.take(0) =~= Seq::<ValidatorView>::empty());
    } else {
        lemma_prefix_monotone(s, 1, i);
        lemma_prefix_first(s, i);
        lemma_prefix_first(s, i + 1);
        lemma_walk_from(s.drop_first(), cum + s[0].stake, target, i - 1);
    }
}

/// Leader selection is weighted by stake: the validator whose share of the
/// running stake total covers the target is chosen, so the validators that
/// take part split the targets in proportion to their stakes.
pub proof fn lemma_leader_stake_weighted(s: Seq<ValidatorView>, i: int, target: int)
    requires
        0 <= i < s.len(),
        prefix_stake(s.take(i)) <= target < prefix_stake(s.take(i + 1)),
    ensures
        leader_walk(s, 0, target) == Some(s[i].address),
{
    lemma_walk_from(s, 0, target, i);
}

/// The chosen leader is always one of the validators walked over.
pub proof fn lemma_leader_is_member(s: Seq<ValidatorView>, cum: int, target: int)
    requires s.len() > 0,
    ensures
        leader_walk(s, cum, target) is Some,
        has_address(s, leader_walk(s, cum, target)->0),
    decreases s.len(),
{
    if !(cum + s[0].stake > target || s.len() == 1) {
        lemma_leader_is_member(s.drop_first(), cum + s[0].stake, target);
        let k = choose|k: int| 0 <= k < s.drop_first().len() && (#[trigger] s.drop_first()[k]).address == leader_walk(s, cum, target)->0;
        assert(s[k + 1] == s.drop_first()[k]);
    } else {
        assert(s[0].address == leader_walk(s, cum, target)->0);
    }
}

/// The leader chosen among the validators taking part in an epoch is a
/// member eligible in that epoch: active, not jailed, with stake.
pub proof fn lemma_leader_eligible(m: Seq<ValidatorView>, epoch: u64, target: int)
    requires eligible_of(m, epoch).len() > 0,
    ensures
        ({
            let a = leader_walk(eligible_of(m, epoch), 0, target);
            a is Some && exists|i: int| 0 <= i < m.len() && (#[trigger] m[i]).address == a->0
                && crate::consensus::validator::eligible(m[i], epoch)
        }),
{
    let e = eligible_of(m, epoch);
    lemma_leader_is_member(e, 0, target);
    crate::consensus::validator::lemma_eligible_of_members(m, epoch);
    let a = leader_walk(e, 0, target)->0;
    let k = choose|k: int| 0 <= k < e.len() && (#[trigger] e[k]).address == a;
    assert(crate::consensus::validator::eligible(e[k], epoch));
    assert(m.contains(e[k]));
    let i = choose|i: int| 0 <= i < m.len() && m[i] == e[k];
    assert(m[i].address == a);
}

/// A validator that does not take part in the epoch (inactive, jailed past
/// it, or without stake) has its pool credited nothing.
pub proof fn lemma_ineligible_earns_nothing(o: (Address, RewardPool), n: (Address, RewardPool), m: Seq<ValidatorView>,
    vepoch: u64, rewards: u64, total: int, epoch: u64, i: int)
    requires
        crate::consensus::validator::addresses_unique(m),
        0 <= i < m.len(),
        m[i].address == o.0.0@,
        !m[i].active || m[i].jailed_until > vepoch || m[i].stake == 0,
        pool_credited(o, n, m, vepoch, rewards, total, epoch),
    ensures
        n == o,
{
    if has_address(m, o.0.0@) {
        let k = choose|k: int| 0 <= k < m.len() && (#[trigger] m[k]).address == o.0.0@;
        if k != i { if k < i { assert(m[k].address != m[i].address); } else { assert(m[i].address != m[k].address); } }
        assert(member_with(m, o.0.0@) == m[i]);
    }
}

impl Default for ProofOfStake {
    fn default() -> (p: Self)
        ensures
            p.wf(), p.epoch_spec() == 0, default_staking(p.config_spec()),
            p.set_spec().members().len() == 0, p.set_spec().total_stake == 0,
            p.set_spec().min_stake == 10_000_000_000 && p.set_spec().max_validators == 100 && p.set_spec().epoch == 0,
            p.delegations_spec().len() == 0 && p.unbonding_spec().len() == 0,
    {
        ProofOfStake::new(StakingConfig::default())
    }
}

} // verus!
