//! Account state for EVM execution: balances, nonces, code and storage,
//! snapshots, and a journal that undoes changes back to a checkpoint.
use vstd::prelude::*;
use crate::evm::EvmError;
use crate::primitives::address::Address;
use crate::primitives::hashing::{keccak256, keccak256_spec};
use crate::primitives::text::{hex_encode, hex_lower, str_to_chars, chars_to_string, push_chars};
use crate::primitives::types::U256;

verus! {

type VHash = crate::primitives::types::Hash;

/// The state of an account.
#[derive(Clone, Copy, Debug)]
pub struct Account {
    pub nonce: u64,
    pub balance: U256,
    /// Keccak-256 of the code, zero for none.
    pub code_hash: VHash,
    pub storage_root: VHash,
}

/// The empty account.
pub open spec fn empty_account() -> Account {
    Account {
        nonce: 0,
        balance: U256([0, 0, 0, 0]),
        code_hash: crate::primitives::types::Hash(vstd::array::spec_array_fill_for_copy_type::<u8, 32>(0u8)),
        storage_root: crate::primitives::types::Hash(vstd::array::spec_array_fill_for_copy_type::<u8, 32>(0u8)),
    }
}

impl Account {
    /// The empty account: zero nonce and balance, no code.
    pub fn empty() -> (a: Self)
        ensures a == empty_account(),
    {
        Account {
            nonce: 0,
            balance: U256([0, 0, 0, 0]),
            code_hash: crate::primitives::types::Hash([0u8; 32]),
            storage_root: crate::primitives::types::Hash([0u8; 32]),
        }
    }

    /// Empty in the sense of EIP-161: no nonce, no balance, no code.
    pub fn is_empty(&self) -> (r: bool)
        ensures r == (self.nonce == 0 && self.balance.value() == 0 && self.code_hash.0@ == Seq::new(32, |i: int| 0u8)),
    {
        let zero = crate::primitives::types::Hash::zero();
        self.nonce == 0 && self.balance.is_zero() && self.code_hash == zero
    }
}

impl Default for Account {
    fn default() -> (a: Self)
        ensures a == empty_account(),
    {
        Account::empty()
    }
}

/// The account stored for an address (the latest entry), or the empty one.
pub open spec fn account_of(accts: Seq<(Address, Account)>, a: Seq<u8>) -> Account
    decreases accts.len(),
{
    if accts.len() == 0 {
        empty_account()
    } else if accts.last().0.0@ == a {
        accts.last().1
    } else {
        account_of(accts.drop_last(), a)
    }
}

/// Two accounts agree but for their balances.
pub open spec fn same_but_balance(x: Account, y: Account) -> bool {
    x.nonce == y.nonce && x.code_hash == y.code_hash && x.storage_root == y.storage_root
}

/// An account is stored for the address.
pub open spec fn has_account(accts: Seq<(Address, Account)>, a: Seq<u8>) -> bool {
    exists|i: int| 0 <= i < accts.len() && (#[trigger] accts[i]).0.0@ == a
}

/// The value in a storage slot (the latest entry), or zero.
pub open spec fn slot_of(st: Seq<(Address, U256, U256)>, a: Seq<u8>, k: int) -> int
    decreases st.len(),
{
    if st.len() == 0 {
        0
    } else if st.last().0.0@ == a && st.last().1.value() == k {
        st.last().2.value()
    } else {
        slot_of(st.drop_last(), a, k)
    }
}

/// The code stored under a hash (the latest entry).
pub open spec fn code_of(code: Seq<(VHash, Vec<u8>)>, h: Seq<u8>) -> Option<Seq<u8>>
    decreases code.len(),
{
    if code.len() == 0 { None } else if code.last().0.0@ == h { Some(code.last().1@) } else { code_of(code.drop_last(), h) }
}

/// The accounts and storage as plain values.
pub struct StateView {
    pub accounts: Seq<(Address, Account)>,
    pub storage: Seq<(Address, U256, U256)>,
}

/// Two states agree on every account and every storage slot.
pub open spec fn same_state(x: StateView, y: StateView) -> bool {
    &&& forall|a: Seq<u8>| #[trigger] account_of(x.accounts, a) == account_of(y.accounts, a)
    &&& forall|a: Seq<u8>, k: int| #[trigger] slot_of(x.storage, a, k) == slot_of(y.storage, a, k)
}

/// The account and storage database.
pub struct StateDb {
    accounts: Vec<(Address, Account)>,
    code: Vec<(VHash, Vec<u8>)>,
    storage: Vec<(Address, U256, U256)>,
    state_root: VHash,
    dirty_accounts: Vec<Address>,
    dirty_storage: Vec<(Address, U256)>,
}

/// A copy of the accounts and storage, to roll back to.
#[derive(Clone)]
pub struct StateSnapshot {
    accounts: Vec<(Address, Account)>,
    storage: Vec<(Address, U256, U256)>,
}

impl StateSnapshot {
    pub closed spec fn view(&self) -> StateView {
        StateView { accounts: self.accounts@, storage: self.storage@ }
    }
}

fn upsert_account(v: &mut Vec<(Address, Account)>, a: Address, acct: Account)
    ensures
        forall|x: Seq<u8>| #[trigger] account_of(final(v)@, x) == if x == a.0@ { acct } else { account_of(old(v)@, x) },
        forall|x: Seq<u8>| #[trigger] has_account(final(v)@, x) <==> has_account(old(v)@, x) || x == a.0@,
{
    let ghost s0 = v@;
    let mut i: usize = v.len();
    while i > 0
        invariant
            v@ == s0,
            s0 == old(v)@,
            i <= s0.len(),
            forall|j: int| i <= j < s0.len() ==> (#[trigger] s0[j]).0.0@ != a.0@,
        decreases i,
    {
        if v[i - 1].0 == a {
            let k: usize = i - 1;
            v.set(k, (a, acct));
            proof {
                assert(v@ == s0.update(k as int, (a, acct)));
                assert forall|x: Seq<u8>| #[trigger] account_of(v@, x) == if x == a.0@ { acct } else { account_of(s0, x) } by {
                    lemma_account_of_set(s0, k as int, a, acct, x);
                }
                assert forall|x: Seq<u8>| #[trigger] has_account(v@, x) <==> has_account(s0, x) || x == a.0@ by {
                    if has_account(s0, x) {
                        let j = choose|j: int| 0 <= j < s0.len() && (#[trigger] s0[j]).0.0@ == x;
                        assert(v@[j].0.0@ == x);
                    }
                    if x == a.0@ { assert(v@[k as int].0.0@ == x); }
                    if has_account(v@, x) {
                        let j = choose|j: int| 0 <= j < v@.len() && (#[trigger] v@[j]).0.0@ == x;
                        if j != k { assert(s0[j] == v@[j]); }
                    }
                }
            }
            return;
        }
        i = i - 1;
    }
    v.push((a, acct));
    proof {
        assert(v@.drop_last() =~= s0);
        assert forall|x: Seq<u8>| #[trigger] account_of(v@, x) == if x == a.0@ { acct } else { account_of(s0, x) } by {
            assert(v@.last() == (a, acct));
        }
        assert forall|x: Seq<u8>| #[trigger] has_account(v@, x) <==> has_account(s0, x) || x == a.0@ by {
            if has_account(s0, x) {
                let j = choose|j: int| 0 <= j < s0.len() && (#[trigger] s0[j]).0.0@ == x;
                assert(v@[j] == s0[j]);
            }
            if x == a.0@ { assert(v@[s0.len() as int].0.0@ == x); }
            if has_account(v@, x) {
                let j = choose|j: int| 0 <= j < v@.len() && (#[trigger] v@[j]).0.0@ == x;
                if j < s0.len() { assert(s0[j] == v@[j]); }
            }
        }
    }
}

proof fn lemma_account_of_set(s: Seq<(Address, Account)>, i: int, a: Address, acct: Account, x: Seq<u8>)
    requires 0 <= i < s.len(), s[i].0.0@ == a.0@,
    ensures
        x != a.0@ ==> account_of(s.update(i, (a, acct)), x) == account_of(s, x),
        x == a.0@ && (forall|j: int| i < j < s.len() ==> (#[trigger] s[j]).0.0@ != a.0@) ==> account_of(s.update(i, (a, acct)), x) == acct,
    decreases s.len(),
{
    let u = s.update(i, (a, acct));
    if i == s.len() - 1 {
        assert(u.drop_last() =~= s.drop_last());
    } else {
        assert(u.drop_last() =~= s.drop_last().update(i, (a, acct)));
        assert(u.last() == s.last());
        lemma_account_of_set(s.drop_last(), i, a, acct, x);
        if x == a.0@ && (forall|j: int| i < j < s.len() ==> (#[trigger] s[j]).0.0@ != a.0@) {
            assert(s.last().0.0@ != a.0@) by { assert(s[s.len() - 1] == s.last()); }
            assert forall|j: int| i < j < s.drop_last().len() implies (#[trigger] s.drop_last()[j]).0.0@ != a.0@ by {
                assert(s.drop_last()[j] == s[j]);
            }
        }
    }
}

pub(crate) fn u256_debug(x: &U256) -> (s: String)
    ensures s@ == "0x"@ + hex_lower(crate::primitives::types::u256_be_bytes(x.0@)),
{
    let be = x.to_be_bytes();
    let h = hex_encode(be.as_slice());
    let mut v = str_to_chars("0x");
    let hc = str_to_chars(h.as_str());
    push_chars(&mut v, hc.as_slice());
    chars_to_string(v.as_slice())
}

impl StateDb {
    pub closed spec fn view(&self) -> StateView {
        StateView { accounts: self.accounts@, storage: self.storage@ }
    }

    pub closed spec fn code_view(&self) -> Seq<(VHash, Vec<u8>)> {
        self.code@
    }

    pub closed spec fn root_view(&self) -> Seq<u8> {
        self.state_root.0@
    }

    /// An empty state with a zero root.
    pub fn new() -> (s: Self)
        ensures s.view().accounts.len() == 0 && s.view().storage.len() == 0,
            s.root_view() == Seq::new(32, |i: int| 0u8),
    {
        StateDb {
            accounts: Vec::new(),
            code: Vec::new(),
            storage: Vec::new(),
            state_root: crate::primitives::types::Hash::zero(),
            dirty_accounts: Vec::new(),
            dirty_storage: Vec::new(),
        }
    }

    /// The account of an address, empty when there is none.
    pub fn get_account(&self, address: &Address) -> (r: Account)
        ensures r == account_of(self.view().accounts, address.0@),
    {
        let mut i: usize = self.accounts.len();
        assert(self.accounts@.subrange(0, i as int) =~= self.accounts@);
        while i > 0
            invariant
                i <= self.accounts@.len(),
                account_of(self.accounts@, address.0@) == account_of(self.accounts@.subrange(0, i as int), address.0@),
            decreases i,
        {
            let ghost sub = self.accounts@.subrange(0, i as int);
            assert(sub.last() == self.accounts@[i - 1]);
            if self.accounts[i - 1].0 == *address {
                return self.accounts[i - 1].1;
            }
            assert(sub.drop_last() =~= self.accounts@.subrange(0, i - 1));
            i = i - 1;
        }
        Account::empty()
    }

    /// Stores an account and marks it changed.
    pub fn set_account(&mut self, address: Address, account: Account)
        ensures
            forall|x: Seq<u8>| #[trigger] account_of(final(self).view().accounts, x)
                == if x == address.0@ { account } else { account_of(old(self).view().accounts, x) },
            forall|x: Seq<u8>| #[trigger] has_account(final(self).view().accounts, x) <==> has_account(old(self).view().accounts, x) || x == address.0@,
            final(self).view().storage == old(self).view().storage,
            final(self).code_view() == old(self).code_view(),
            final(self).root_view() == old(self).root_view(),
    {
        upsert_account(&mut self.accounts, address, account);
        self.dirty_accounts.push(address);
    }

    /// Every stored account, in order.
    pub fn all_accounts(&self) -> (r: Vec<(Address, Account)>)
        ensures r@ == self.view().accounts,
    {
        let mut out: Vec<(Address, Account)> = Vec::new();
        let mut i: usize = 0;
        while i < self.accounts.len()
            invariant i <= self.accounts@.len(), out@ == self.accounts@.take(i as int),
            decreases self.accounts@.len() - i,
        {
            out.push(self.accounts[i]);
            assert(out@ =~= self.accounts@.take(i + 1));
            i = i + 1;
        }
        assert(self.accounts@.take(i as int) =~= self.accounts@);
        out
    }

    pub fn get_balance(&self, address: &Address) -> (r: U256)
        ensures r == account_of(self.view().accounts, address.0@).balance,
    {
        self.get_account(address).balance
    }

    /// Sets the balance of an account (creating it if needed).
    pub fn set_balance(&mut self, address: &Address, balance: U256)
        ensures
            forall|x: Seq<u8>| #[trigger] account_of(final(self).view().accounts, x)
                == if x == address.0@ { Account { balance, ..account_of(old(self).view().accounts, x) } } else { account_of(old(self).view().accounts, x) },
            final(self).view().storage == old(self).view().storage,
            final(self).code_view() == old(self).code_view(),
            final(self).root_view() == old(self).root_view(),
    {
        let mut account = self.get_account(address);
        account.balance = balance;
        self.set_account(*address, account);
    }

    /// Adds to a balance; fails without change when the sum overflows.
    pub fn add_balance(&mut self, address: &Address, amount: U256) -> (r: Result<(), EvmError>)
        ensures
            ({
                let b = account_of(old(self).view().accounts, address.0@).balance.value();
                &&& r is Ok <==> b + amount.value() < crate::primitives::types::u256_modulus()
                &&& r is Ok ==> account_of(final(self).view().accounts, address.0@).balance.value() == b + amount.value()
                &&& r is Ok ==> same_but_balance(account_of(final(self).view().accounts, address.0@), account_of(old(self).view().accounts, address.0@))
                &&& r is Err ==> final(self).view() == old(self).view() && r matches Err(EvmError::StateError(_))
            }),
            final(self).code_view() == old(self).code_view(),
            forall|x: Seq<u8>| x != address.0@ ==> #[trigger] account_of(final(self).view().accounts, x) == account_of(old(self).view().accounts, x),
            final(self).view().storage == old(self).view().storage,
    {
        let account = self.get_account(address);
        match account.balance.checked_add(&amount) {
            Some(nb) => {
                self.set_balance(address, nb);
                Ok(())
            },
            None => Err(EvmError::StateError("Balance overflow".to_owned())),
        }
    }

    /// Subtracts from a balance; fails without change when it is too small.
    pub fn sub_balance(&mut self, address: &Address, amount: U256) -> (r: Result<(), EvmError>)
        ensures
            ({
                let b = account_of(old(self).view().accounts, address.0@).balance.value();
                &&& r is Ok <==> b >= amount.value()
                &&& r is Ok ==> account_of(final(self).view().accounts, address.0@).balance.value() == b - amount.value()
                &&& r is Ok ==> same_but_balance(account_of(final(self).view().accounts, address.0@), account_of(old(self).view().accounts, address.0@))
                &&& r is Err ==> final(self).view() == old(self).view() && r matches Err(EvmError::InsufficientBalance { .. })
            }),
            final(self).code_view() == old(self).code_view(),
            forall|x: Seq<u8>| x != address.0@ ==> #[trigger] account_of(final(self).view().accounts, x) == account_of(old(self).view().accounts, x),
            final(self).view().storage == old(self).view().storage,
    {
        let account = self.get_account(address);
        if account.balance.lt(&amount) {
            return Err(EvmError::InsufficientBalance { required: u256_debug(&amount), available: u256_debug(&account.balance) });
        }
        match account.balance.checked_sub(&amount) {
            Some(nb) => {
                self.set_balance(address, nb);
                Ok(())
            },
            None => Err(EvmError::StateError("Balance underflow".to_owned())),
        }
    }

    pub fn get_nonce(&self, address: &Address) -> (r: u64)
        ensures r == account_of(self.view().accounts, address.0@).nonce,
    {
        self.get_account(address).nonce
    }

    /// Increments the nonce of an account.
    pub fn increment_nonce(&mut self, address: &Address)
        requires account_of(old(self).view().accounts, address.0@).nonce < u64::MAX,
        ensures
            forall|x: Seq<u8>| #[trigger] account_of(final(self).view().accounts, x)
                == if x == address.0@ {
                    Account { nonce: (account_of(old(self).view().accounts, x).nonce + 1) as u64, ..account_of(old(self).view().accounts, x) }
                } else { account_of(old(self).view().accounts, x) },
            final(self).code_view() == old(self).code_view(),
            final(self).view().storage == old(self).view().storage,
    {
        let mut account = self.get_account(address);
        account.nonce = account.nonce + 1;
        self.set_account(*address, account);
    }

    fn find_code(&self, h: &VHash) -> (r: Option<&Vec<u8>>)
        ensures
            match r {
                Some(c) => code_of(self.code@, h.0@) == Some(c@),
                None => code_of(self.code@, h.0@) is None,
            },
    {
        let mut i: usize = self.code.len();
        assert(self.code@.subrange(0, i as int) =~= self.code@);
        while i > 0
            invariant
                i <= self.code@.len(),
                code_of(self.code@, h.0@) == code_of(self.code@.subrange(0, i as int), h.0@),
            decreases i,
        {
            let ghost sub = self.code@.subrange(0, i as int);
            assert(sub.last() == self.code@[i - 1]);
            if self.code[i - 1].0 == *h {
                return Some(&self.code[i - 1].1);
            }
            assert(sub.drop_last() =~= self.code@.subrange(0, i - 1));
            i = i - 1;
        }
        None
    }

    /// The code of an account: none when its code hash is zero or unknown.
    pub fn get_code(&self, address: &Address) -> (r: Vec<u8>)
        ensures
            ({
                let h = account_of(self.view().accounts, address.0@).code_hash.0@;
                r@ == if h == Seq::new(32, |i: int| 0u8) { Seq::empty() } else {
                    match code_of(self.code_view(), h) { Some(c) => c, None => Seq::empty() }
                }
            }),
    {
        let account = self.get_account(address);
        if account.code_hash == crate::primitives::types::Hash::zero() {
            return Vec::new();
        }
        match self.find_code(&account.code_hash) {
            Some(c) => vstd::slice::slice_to_vec(c.as_slice()),
            None => Vec::new(),
        }
    }

    /// Stores code under its Keccak-256 hash and points the account at it.
    pub fn set_code(&mut self, address: &Address, code: Vec<u8>)
        ensures
            code_of(final(self).code_view(), keccak256_spec(code@)) == Some(code@),
            forall|x: Seq<u8>| x != address.0@ ==> #[trigger] account_of(final(self).view().accounts, x) == account_of(old(self).view().accounts, x),
            ({
                let n = account_of(final(self).view().accounts, address.0@);
                let o = account_of(old(self).view().accounts, address.0@);
                &&& n.code_hash.0@ == keccak256_spec(code@)
                &&& n.nonce == o.nonce && n.balance == o.balance && n.storage_root == o.storage_root
            }),
            final(self).view().storage == old(self).view().storage,
    {
        let code_hash = crate::primitives::types::Hash::new(keccak256(code.as_slice()));
        self.code.push((code_hash, code));
        let mut account = self.get_account(address);
        account.code_hash = code_hash;
        self.set_account(*address, account);
    }

    pub fn get_code_hash(&self, address: &Address) -> (r: VHash)
        ensures r == account_of(self.view().accounts, address.0@).code_hash,
    {
        self.get_account(address).code_hash
    }

    pub fn get_code_size(&self, address: &Address) -> (r: usize)
        ensures r == self.get_code_spec(address.0@).len(),
    {
        self.get_code(address).len()
    }

    pub open spec fn get_code_spec(&self, a: Seq<u8>) -> Seq<u8> {
        let h = account_of(self.view().accounts, a).code_hash.0@;
        if h == Seq::new(32, |i: int| 0u8) { Seq::empty() } else {
            match code_of(self.code_view(), h) { Some(c) => c, None => Seq::empty() }
        }
    }

    /// The value of a storage slot, zero when unset.
    pub fn get_storage(&self, address: &Address, key: &U256) -> (r: U256)
        ensures r.value() == slot_of(self.view().storage, address.0@, key.value()),
    {
        let mut i: usize = self.storage.len();
        assert(self.storage@.subrange(0, i as int) =~= self.storage@);
        while i > 0
            invariant
                i <= self.storage@.len(),
                slot_of(self.storage@, address.0@, key.value()) == slot_of(self.storage@.subrange(0, i as int), address.0@, key.value()),
            decreases i,
        {
            let ghost sub = self.storage@.subrange(0, i as int);
            assert(sub.last() == self.storage@[i - 1]);
            if self.storage[i - 1].0 == *address && self.storage[i - 1].1.eq_value(key) {
                return self.storage[i - 1].2;
            }
            assert(sub.drop_last() =~= self.storage@.subrange(0, i - 1));
            i = i - 1;
        }
        U256::zero()
    }

    /// Sets a storage slot.
    pub fn set_storage(&mut self, address: &Address, key: U256, value: U256)
        ensures
            forall|a: Seq<u8>, k: int| #[trigger] slot_of(final(self).view().storage, a, k)
                == if a == address.0@ && k == key.value() { value.value() } else { slot_of(old(self).view().storage, a, k) },
            final(self).view().accounts == old(self).view().accounts,
            final(self).code_view() == old(self).code_view(),
            final(self).root_view() == old(self).root_view(),
    {
        let ghost s0 = self.storage@;
        self.storage.push((*address, key, value));
        proof { assert(self.storage@.drop_last() =~= s0); }
        self.dirty_storage.push((*address, key));
    }

    /// Whether an account is stored for the address.
    pub fn account_exists(&self, address: &Address) -> (r: bool)
        ensures r == has_account(self.view().accounts, address.0@),
    {
        let mut i: usize = 0;
        while i < self.accounts.len()
            invariant i <= self.accounts@.len(), forall|j: int| 0 <= j < i ==> (#[trigger] self.accounts@[j]).0.0@ != address.0@,
            decreases self.accounts@.len() - i,
        {
            if self.accounts[i].0 == *address {
                return true;
            }
            i = i + 1;
        }
        false
    }

    /// Removes an account and its storage.
    pub fn delete_account(&mut self, address: &Address)
        ensures
            forall|x: Seq<u8>| #[trigger] account_of(final(self).view().accounts, x)
                == if x == address.0@ { empty_account() } else { account_of(old(self).view().accounts, x) },
            !has_account(final(self).view().accounts, address.0@),
            forall|a: Seq<u8>, k: int| #[trigger] slot_of(final(self).view().storage, a, k)
                == if a == address.0@ { 0 } else { slot_of(old(self).view().storage, a, k) },
    {
        let ghost a0 = self.accounts@;
        let mut kept: Vec<(Address, Account)> = Vec::new();
        let mut i: usize = 0;
        assert(a0.subrange(0, 0) =~= Seq::<(Address, Account)>::empty());
        while i < self.accounts.len()
            invariant
                a0 == self.accounts@,
                i <= a0.len(),
                forall|x: Seq<u8>| x != address.0@ ==> #[trigger] account_of(kept@, x) == account_of(a0.subrange(0, i as int), x),
                forall|j: int| 0 <= j < kept@.len() ==> (#[trigger] kept@[j]).0.0@ != address.0@,
            decreases a0.len() - i,
        {
            let e = self.accounts[i];
            let ghost k0 = kept@;
            proof {
                assert(a0.subrange(0, i + 1).drop_last() =~= a0.subrange(0, i as int));
                assert(a0.subrange(0, i + 1).last() == e);
            }
            if !(e.0 == *address) {
                kept.push(e);
                proof { assert(kept@.drop_last() =~= k0); }
            }
            proof {
                assert forall|x: Seq<u8>| x != address.0@ implies #[trigger] account_of(kept@, x) == account_of(a0.subrange(0, i + 1), x) by {
                    assert(account_of(k0, x) == account_of(a0.subrange(0, i as int), x));
                }
                assert forall|j2: int| 0 <= j2 < kept@.len() implies (#[trigger] kept@[j2]).0.0@ != address.0@ by {
                    if j2 < k0.len() { assert(kept@[j2] == k0[j2]); }
                }
            }
            i = i + 1;
        }
        proof {
            assert(a0.subrange(0, i as int) =~= a0);
            lemma_account_of_absent(kept@, address.0@);
        }
        self.accounts = kept;
        let ghost s0 = self.storage@;
        let mut keep_st: Vec<(Address, U256, U256)> = Vec::new();
        let mut j: usize = 0;
        assert(s0.subrange(0, 0) =~= Seq::<(Address, U256, U256)>::empty());
        while j < self.storage.len()
            invariant
                s0 == self.storage@,
                j <= s0.len(),
                forall|a: Seq<u8>, k: int| #[trigger] slot_of(keep_st@, a, k) == if a == address.0@ { 0 } else { slot_of(s0.subrange(0, j as int), a, k) },
            decreases s0.len() - j,
        {
            let e = self.storage[j];
            let ghost k0 = keep_st@;
            proof {
                assert(s0.subrange(0, j + 1).drop_last() =~= s0.subrange(0, j as int));
                assert(s0.subrange(0, j + 1).last() == e);
            }
            if !(e.0 == *address) {
                keep_st.push(e);
                proof { assert(keep_st@.drop_last() =~= k0); }
            }
            proof {
                assert forall|a: Seq<u8>, k: int| #[trigger] slot_of(keep_st@, a, k) == if a == address.0@ { 0 } else { slot_of(s0.subrange(0, j + 1), a, k) } by {
                    assert(slot_of(k0, a, k) == if a == address.0@ { 0 } else { slot_of(s0.subrange(0, j as int), a, k) });
                }
            }
            j = j + 1;
        }
        proof { assert(s0.subrange(0, j as int) =~= s0); }
        self.storage = keep_st;
        self.dirty_accounts.push(*address);
    }

    /// The current state root.
    pub fn state_root(&self) -> (r: VHash)
        ensures r.0@ == self.root_view(),
    {
        self.state_root
    }

    /// Hashes the accounts (address, nonce and balance little-endian, code
    /// hash, in stored order) into the new state root, and clears the
    /// change tracking.
    pub fn commit(&mut self) -> (r: VHash)
        ensures
            r.0@ == keccak256_spec(accounts_digest_input(old(self).view().accounts)),
            final(self).root_view() == r.0@,
            final(self).view() == old(self).view(),
            final(self).code_view() == old(self).code_view(),
    {
        let mut buf: Vec<u8> = Vec::new();
        let mut i: usize = 0;
        assert(self.accounts@.subrange(0, 0) =~= Seq::<(Address, Account)>::empty());
        while i < self.accounts.len()
            invariant
                i <= self.accounts@.len(),
                buf@ == accounts_digest_input(self.accounts@.subrange(0, i as int)),
            decreases self.accounts@.len() - i,
        {
            let (a, acct) = self.accounts[i];
            proof { assert(self.accounts@.subrange(0, i + 1).drop_last() =~= self.accounts@.subrange(0, i as int)); }
            let ghost b0 = buf@;
            crate::primitives::address::push_all(&mut buf, a.0.as_slice());
            let mut n: u64 = acct.nonce;
            let mut k: usize = 0;
            let ghost b1 = buf@;
            while k < 8
                invariant k <= 8, buf@ == b1 + le_bytes_u64(acct.nonce).subrange(0, k as int), n as nat == acct.nonce as nat / pow256(k as nat),
                decreases 8 - k,
            {
                buf.push((n % 256) as u8);
                proof { lemma_le_byte(acct.nonce, k as nat); }
                n = n / 256;
                assert(buf@ =~= b1 + le_bytes_u64(acct.nonce).subrange(0, k + 1));
                k = k + 1;
            }
            assert(le_bytes_u64(acct.nonce).subrange(0, 8) =~= le_bytes_u64(acct.nonce));
            let be = acct.balance.to_be_bytes();
            let ghost b2 = buf@;
            let mut m: usize = 32;
            while m > 0
                invariant m <= 32, buf@ == b2 + reversed(be@).subrange(0, (32 - m) as int),
                decreases m,
            {
                buf.push(be[m - 1]);
                assert(buf@ =~= b2 + reversed(be@).subrange(0, (32 - m + 1) as int));
                m = m - 1;
            }
            assert(reversed(be@).subrange(0, 32) =~= reversed(be@));
            crate::primitives::address::push_all(&mut buf, acct.code_hash.0.as_slice());
            proof {
                assert(buf@ =~= accounts_digest_input(self.accounts@.subrange(0, i + 1)));
            }
            i = i + 1;
        }
        assert(self.accounts@.subrange(0, i as int) =~= self.accounts@);
        let root = crate::primitives::types::Hash::new(keccak256(buf.as_slice()));
        self.state_root = root;
        self.dirty_accounts = Vec::new();
        self.dirty_storage = Vec::new();
        root
    }

    /// A copy of the accounts and storage.
    pub fn snapshot(&self) -> (s: StateSnapshot)
        ensures s.view() == self.view(),
    {
        StateSnapshot { accounts: copy_seq_accounts(&self.accounts), storage: copy_seq_storage(&self.storage) }
    }

    /// Restores the accounts and storage of a snapshot.
    pub fn rollback(&mut self, snapshot: StateSnapshot)
        ensures final(self).view() == snapshot.view(), final(self).code_view() == old(self).code_view(),
    {
        self.accounts = snapshot.accounts;
        self.storage = snapshot.storage;
    }
}

impl Default for StateDb {
    fn default() -> (s: Self)
        ensures s.view().accounts.len() == 0 && s.view().storage.len() == 0,
    {
        StateDb::new()
    }
}

proof fn lemma_account_of_absent(s: Seq<(Address, Account)>, a: Seq<u8>)
    requires forall|j: int| 0 <= j < s.len() ==> (#[trigger] s[j]).0.0@ != a,
    ensures account_of(s, a) == empty_account(), !has_account(s, a),
    decreases s.len(),
{
    if s.len() > 0 {
        assert(s[s.len() - 1] == s.last());
        assert forall|j: int| 0 <= j < s.drop_last().len() implies (#[trigger] s.drop_last()[j]).0.0@ != a by {
            assert(s.drop_last()[j] == s[j]);
        }
        lemma_account_of_absent(s.drop_last(), a);
    }
}

fn copy_seq_accounts(v: &Vec<(Address, Account)>) -> (r: Vec<(Address, Account)>)
    ensures r@ == v@,
{
    let mut out: Vec<(Address, Account)> = Vec::new();
    let mut i: usize = 0;
    while i < v.len()
        invariant i <= v@.len(), out@ == v@.subrange(0, i as int),
        decreases v@.len() - i,
    {
        out.push(v[i]);
        assert(out@ =~= v@.subrange(0, i + 1));
        i = i + 1;
    }
    assert(v@.subrange(0, i as int) =~= v@);
    out
}

fn copy_seq_storage(v: &Vec<(Address, U256, U256)>) -> (r: Vec<(Address, U256, U256)>)
    ensures r@ == v@,
{
    let mut out: Vec<(Address, U256, U256)> = Vec::new();
    let mut i: usize = 0;
    while i < v.len()
        invariant i <= v@.len(), out@ == v@.subrange(0, i as int),
        decreases v@.len() - i,
    {
        out.push(v[i]);
        assert(out@ =~= v@.subrange(0, i + 1));
        i = i + 1;
    }
    assert(v@.subrange(0, i as int) =~= v@);
    out
}

/// 256 to the power `k`.
pub open spec fn pow256(k: nat) -> nat
    decreases k,
{
    if k == 0 { 1 } else { 256 * pow256((k - 1) as nat) }
}

/// The eight little-endian bytes of a 64-bit number.
pub open spec fn le_bytes_u64(x: u64) -> Seq<u8> {
    Seq::new(8, |k: int| ((x as nat / pow256(k as nat)) % 256) as u8)
}

/// The eight little-endian bytes of `x`.
pub fn le_u64_bytes(x: u64) -> (r: Vec<u8>)
    ensures r@ == le_bytes_u64(x),
{
    let mut buf: Vec<u8> = Vec::new();
    let mut n: u64 = x;
    let mut k: usize = 0;
    assert(pow256(0) == 1);
    assert(le_bytes_u64(x).subrange(0, 0) =~= Seq::<u8>::empty());
    while k < 8
        invariant k <= 8, buf@ == le_bytes_u64(x).subrange(0, k as int), n as nat == x as nat / pow256(k as nat),
        decreases 8 - k,
    {
        buf.push((n % 256) as u8);
        proof { lemma_le_byte(x, k as nat); }
        n = n / 256;
        assert(buf@ =~= le_bytes_u64(x).subrange(0, k + 1));
        k = k + 1;
    }
    assert(le_bytes_u64(x).subrange(0, 8) =~= le_bytes_u64(x));
    buf
}

proof fn lemma_le_byte(x: u64, k: nat)
    requires k < 8,
    ensures (x as nat / pow256(k)) / 256 == x as nat / pow256(k + 1),
{
    assert(pow256(k + 1) == 256 * pow256(k));
    assert(pow256(k) > 0) by { lemma_pow256_pos(k); }
    vstd::arithmetic::div_mod::lemma_div_denominator(x as int, pow256(k) as int, 256);
    assert(pow256(k) * 256 == 256 * pow256(k)) by (nonlinear_arith);
}

proof fn lemma_pow256_pos(k: nat)
    ensures pow256(k) > 0,
    decreases k,
{
    if k > 0 { lemma_pow256_pos((k - 1) as nat); }
}

/// A byte string back to front.
pub open spec fn reversed(b: Seq<u8>) -> Seq<u8> {
    Seq::new(b.len(), |i: int| b[b.len() - 1 - i])
}

/// The bytes hashed into the state root, account by account.
pub open spec fn accounts_digest_input(accts: Seq<(Address, Account)>) -> Seq<u8>
    decreases accts.len(),
{
    if accts.len() == 0 {
        Seq::empty()
    } else {
        let (a, acct) = accts.last();
        accounts_digest_input(accts.drop_last()) + a.0@ + le_bytes_u64(acct.nonce)
            + reversed(crate::primitives::types::u256_be_bytes(acct.balance.0@)) + acct.code_hash.0@
    }
}


/// A change recorded so that it can be undone.
#[derive(Clone, Copy, Debug)]
pub enum JournalEntry {
    AccountCreated { address: Address },
    AccountDestroyed { address: Address, account: Account },
    BalanceChanged { address: Address, prev_balance: U256 },
    NonceChanged { address: Address, prev_nonce: u64 },
    CodeSet { address: Address, prev_code_hash: VHash },
    StorageChanged { address: Address, key: U256, prev_value: U256 },
}

/// `h1` is `h0` after the change that entry `e` records (and `e` holds
/// what `h0` had).
pub open spec fn journal_step(h0: StateView, h1: StateView, e: JournalEntry) -> bool {
    match e {
        JournalEntry::BalanceChanged { address, prev_balance } => {
            &&& account_of(h0.accounts, address.0@).balance == prev_balance
            &&& forall|x: Seq<u8>| #[trigger] account_of(h1.accounts, x) == if x == address.0@ {
                    Account { balance: account_of(h1.accounts, x).balance, ..account_of(h0.accounts, x) }
                } else { account_of(h0.accounts, x) }
            &&& forall|a: Seq<u8>, k: int| #[trigger] slot_of(h1.storage, a, k) == slot_of(h0.storage, a, k)
        },
        JournalEntry::StorageChanged { address, key, prev_value } => {
            &&& slot_of(h0.storage, address.0@, key.value()) == prev_value.value()
            &&& forall|x: Seq<u8>| #[trigger] account_of(h1.accounts, x) == account_of(h0.accounts, x)
            &&& forall|a: Seq<u8>, k: int| #[trigger] slot_of(h1.storage, a, k) ==
                    if a == address.0@ && k == key.value() { slot_of(h1.storage, a, k) } else { slot_of(h0.storage, a, k) }
        },
        _ => false,
    }
}

/// State with a journal of changes and checkpoints to revert to.
pub struct JournaledState {
    state: StateDb,
    journal: Vec<JournalEntry>,
    checkpoints: Vec<usize>,
    history: Ghost<Seq<StateView>>,
}

impl JournaledState {
    /// The journal holds, for each change, what was there before it: the
    /// states before each entry are remembered, the last is the current
    /// one, and checkpoints point into the journal in order.
    pub closed spec fn wf(&self) -> bool {
        &&& self.history@.len() == self.journal@.len() + 1
        &&& same_state(self.history@.last(), self.state.view())
        &&& forall|i: int| 0 <= i < self.journal@.len() ==> journal_step(self.history@[i], self.history@[i + 1], #[trigger] self.journal@[i])
        &&& forall|c: int| 0 <= c < self.checkpoints@.len() ==> #[trigger] self.checkpoints@[c] <= self.journal@.len()
        &&& forall|c: int, d: int| 0 <= c < d < self.checkpoints@.len() ==> #[trigger] self.checkpoints@[c] <= #[trigger] self.checkpoints@[d]
    }

    /// The accounts and storage now.
    pub closed spec fn current(&self) -> StateView {
        self.state.view()
    }

    /// The number of open checkpoints.
    pub closed spec fn checkpoint_count(&self) -> nat {
        self.checkpoints@.len()
    }

    /// The accounts and storage as they were when checkpoint `id` was taken.
    pub closed spec fn saved(&self, id: int) -> StateView {
        self.history@[self.checkpoints@[id] as int]
    }

    pub fn new(state: StateDb) -> (j: Self)
        ensures j.wf(), j.current() == state.view(), j.checkpoint_count() == 0,
    {
        let history: Ghost<Seq<StateView>> = Ghost(Seq::empty().push(state.view()));
        JournaledState { state, journal: Vec::new(), checkpoints: Vec::new(), history }
    }

    /// Opens a checkpoint at the current state and returns its id.
    pub fn checkpoint(&mut self) -> (id: usize)
        requires old(self).wf(),
        ensures
            final(self).wf(),
            id == old(self).checkpoint_count(),
            final(self).checkpoint_count() == old(self).checkpoint_count() + 1,
            same_state(final(self).saved(id as int), final(self).current()),
            forall|c: int| 0 <= c < old(self).checkpoint_count() ==> #[trigger] final(self).saved(c) == old(self).saved(c),
            final(self).current() == old(self).current(),
    {
        let id = self.checkpoints.len();
        self.checkpoints.push(self.journal.len());
        proof {
            assert(self.checkpoints@[id as int] == self.journal@.len());
            assert(self.history@[self.journal@.len() as int] == self.history@.last());
        }
        id
    }

    /// Closes checkpoint `id` and those after it, keeping the changes.
    pub fn commit_checkpoint(&mut self, id: usize)
        requires old(self).wf(),
        ensures
            final(self).wf(),
            final(self).current() == old(self).current(),
            final(self).checkpoint_count() == if id < old(self).checkpoint_count() { id as nat } else { old(self).checkpoint_count() },
            forall|c: int| 0 <= c < final(self).checkpoint_count() ==> #[trigger] final(self).saved(c) == old(self).saved(c),
    {
        if id < self.checkpoints.len() {
            self.checkpoints.truncate(id);
        }
    }

    /// Undoes every change since checkpoint `id` and closes it and those
    /// after it; an unknown id changes nothing.
    pub fn revert_checkpoint(&mut self, id: usize)
        requires old(self).wf(),
        ensures
            final(self).wf(),
            id < old(self).checkpoint_count() ==> same_state(final(self).current(), old(self).saved(id as int))
                && final(self).checkpoint_count() == id,
            id >= old(self).checkpoint_count() ==> final(self).current() == old(self).current()
                && final(self).checkpoint_count() == old(self).checkpoint_count(),
            forall|c: int| 0 <= c < final(self).checkpoint_count() ==> #[trigger] final(self).saved(c) == old(self).saved(c),
    {
        if id >= self.checkpoints.len() {
            return;
        }
        let journal_len = self.checkpoints[id];
        let ghost target = self.history@[journal_len as int];
        let ghost h0 = self.history@;
        proof { assert(h0.subrange(0, self.journal@.len() as int + 1) =~= h0); }
        while self.journal.len() > journal_len
            invariant
                self.history@.len() == self.journal@.len() + 1,
                same_state(self.history@.last(), self.state.view()),
                forall|i: int| 0 <= i < self.journal@.len() ==> journal_step(self.history@[i], self.history@[i + 1], #[trigger] self.journal@[i]),
                journal_len <= self.journal@.len(),
                self.checkpoints@ == old(self).checkpoints@,
                forall|c: int, d: int| 0 <= c < d < self.checkpoints@.len() ==> #[trigger] self.checkpoints@[c] <= #[trigger] self.checkpoints@[d],
                self.history@ == h0.subrange(0, self.journal@.len() as int + 1),
                h0 == old(self).history@,
                h0.len() == old(self).journal@.len() + 1,
                self.journal@.len() <= old(self).journal@.len(),
                target == h0[journal_len as int],
                id < self.checkpoints@.len(),
                self.checkpoints@[id as int] == journal_len,
            decreases self.journal@.len(),
        {
            let n = self.journal.len();
            let ghost js = self.journal@;
            let entry = self.journal.pop().unwrap();
            let ghost hs = self.history@;
            let ghost cb = self.state.view();
            proof {
                assert(entry == js[n - 1]);
                assert(journal_step(hs[n - 1], hs[n as int], entry));
                assert(hs.last() == hs[n as int]);
            }
            revert_entry(&mut self.state, entry);
            self.history = Ghost(hs.drop_last());
            proof {
                lemma_undo(hs[n - 1], hs[n as int], entry, cb, self.state.view());
                assert(self.history@.last() == hs[n - 1]);
                assert(self.history@ =~= h0.subrange(0, self.journal@.len() as int + 1));
                assert forall|i: int| 0 <= i < self.journal@.len() implies journal_step(self.history@[i], self.history@[i + 1], #[trigger] self.journal@[i]) by {
                    assert(self.journal@[i] == js[i]);
                    assert(self.history@[i] == hs[i] && self.history@[i + 1] == hs[i + 1]);
                }
            }
        }
        self.checkpoints.truncate(id);
        proof {
            assert(self.journal@.len() == journal_len);
            assert(self.history@.last() == target);
            assert forall|c: int| 0 <= c < self.checkpoints@.len() implies #[trigger] self.checkpoints@[c] <= self.journal@.len() by {
                assert(old(self).checkpoints@[c] <= old(self).checkpoints@[id as int]);
            }
            assert forall|c: int| 0 <= c < self.checkpoints@.len() implies #[trigger] self.saved(c) == old(self).saved(c) by {
                assert(old(self).checkpoints@[c] <= old(self).checkpoints@[id as int]);
                assert(self.history@[self.checkpoints@[c] as int] == h0[self.checkpoints@[c] as int]);
            }
        }
    }

    /// Sets a balance, recording the previous one.
    pub fn set_balance(&mut self, address: &Address, balance: U256)
        requires old(self).wf(),
        ensures
            final(self).wf(),
            forall|x: Seq<u8>| #[trigger] account_of(final(self).current().accounts, x)
                == if x == address.0@ { Account { balance, ..account_of(old(self).current().accounts, x) } } else { account_of(old(self).current().accounts, x) },
            forall|a: Seq<u8>, k: int| #[trigger] slot_of(final(self).current().storage, a, k) == slot_of(old(self).current().storage, a, k),
            final(self).checkpoint_count() == old(self).checkpoint_count(),
            forall|c: int| 0 <= c < old(self).checkpoint_count() ==> #[trigger] final(self).saved(c) == old(self).saved(c),
    {
        let prev_balance = self.state.get_balance(address);
        let ghost before = self.state.view();
        self.journal.push(JournalEntry::BalanceChanged { address: *address, prev_balance });
        self.state.set_balance(address, balance);
        let ghost after = self.state.view();
        let ghost hs = self.history@;
        self.history = Ghost(hs.push(after));
        proof {
            let h_last = hs.last();
            let e = JournalEntry::BalanceChanged { address: *address, prev_balance };
            assert forall|x: Seq<u8>| #[trigger] account_of(after.accounts, x) == if x == address.0@ {
                Account { balance: account_of(after.accounts, x).balance, ..account_of(h_last.accounts, x) }
            } else { account_of(h_last.accounts, x) } by {
                assert(account_of(h_last.accounts, x) == account_of(before.accounts, x));
            }
            assert forall|a: Seq<u8>, k: int| #[trigger] slot_of(after.storage, a, k) == slot_of(h_last.storage, a, k) by {
                assert(slot_of(h_last.storage, a, k) == slot_of(before.storage, a, k));
            }
            assert(account_of(h_last.accounts, address.0@) == account_of(before.accounts, address.0@));
            assert(journal_step(h_last, after, e));
            assert forall|i: int| 0 <= i < self.journal@.len() implies journal_step(self.history@[i], self.history@[i + 1], #[trigger] self.journal@[i]) by {
                if i < self.journal@.len() - 1 {
                    assert(self.history@[i] == hs[i] && self.history@[i + 1] == hs[i + 1]);
                    assert(self.journal@[i] == old(self).journal@[i]);
                } else {
                    assert(self.history@[i] == hs.last());
                }
            }
            assert forall|c: int| 0 <= c < self.checkpoints@.len() implies #[trigger] self.saved(c) == old(self).saved(c) by {
                assert(self.checkpoints@[c] <= old(self).journal@.len());
                assert(self.history@[self.checkpoints@[c] as int] == hs[self.checkpoints@[c] as int]);
            }
        }
    }

    /// Sets a storage slot, recording the previous value.
    pub fn set_storage(&mut self, address: &Address, key: U256, value: U256)
        requires old(self).wf(),
        ensures
            final(self).wf(),
            forall|a: Seq<u8>, k: int| #[trigger] slot_of(final(self).current().storage, a, k)
                == if a == address.0@ && k == key.value() { value.value() } else { slot_of(old(self).current().storage, a, k) },
            forall|x: Seq<u8>| #[trigger] account_of(final(self).current().accounts, x) == account_of(old(self).current().accounts, x),
            final(self).checkpoint_count() == old(self).checkpoint_count(),
            forall|c: int| 0 <= c < old(self).checkpoint_count() ==> #[trigger] final(self).saved(c) == old(self).saved(c),
    {
        let prev_value = self.state.get_storage(address, &key);
        let ghost before = self.state.view();
        self.journal.push(JournalEntry::StorageChanged { address: *address, key, prev_value });
        self.state.set_storage(address, key, value);
        let ghost after = self.state.view();
        let ghost hs = self.history@;
        self.history = Ghost(hs.push(after));
        proof {
            let h_last = hs.last();
            let e = JournalEntry::StorageChanged { address: *address, key, prev_value };
            assert forall|x: Seq<u8>| #[trigger] account_of(after.accounts, x) == account_of(h_last.accounts, x) by {
                assert(account_of(h_last.accounts, x) == account_of(before.accounts, x));
            }
            assert forall|a: Seq<u8>, k: int| #[trigger] slot_of(after.storage, a, k) ==
                if a == address.0@ && k == key.value() { slot_of(after.storage, a, k) } else { slot_of(h_last.storage, a, k) } by {
                assert(slot_of(h_last.storage, a, k) == slot_of(before.storage, a, k));
            }
            assert(slot_of(h_last.storage, address.0@, key.value()) == slot_of(before.storage, address.0@, key.value()));
            assert(journal_step(h_last, after, e));
            assert forall|i: int| 0 <= i < self.journal@.len() implies journal_step(self.history@[i], self.history@[i + 1], #[trigger] self.journal@[i]) by {
                if i < self.journal@.len() - 1 {
                    assert(self.history@[i] == hs[i] && self.history@[i + 1] == hs[i + 1]);
                    assert(self.journal@[i] == old(self).journal@[i]);
                } else {
                    assert(self.history@[i] == hs.last());
                }
            }
            assert forall|c: int| 0 <= c < self.checkpoints@.len() implies #[trigger] self.saved(c) == old(self).saved(c) by {
                assert(self.checkpoints@[c] <= old(self).journal@.len());
                assert(self.history@[self.checkpoints@[c] as int] == hs[self.checkpoints@[c] as int]);
            }
        }
    }

    /// The state underneath.
    pub fn state(&self) -> (r: &StateDb)
        ensures r.view() == self.current(),
    {
        &self.state
    }
}

/// The last remembered state (used in the undo argument).
pub open spec fn old_view_of(hs: Seq<StateView>) -> StateView {
    hs.last()
}

proof fn lemma_undo(h0: StateView, h1: StateView, e: JournalEntry, cb: StateView, ca: StateView)
    requires
        journal_step(h0, h1, e),
        same_state(h1, cb),
        match e {
            JournalEntry::BalanceChanged { address, prev_balance } =>
                (forall|x: Seq<u8>| #[trigger] account_of(ca.accounts, x) == if x == address.0@ {
                    Account { balance: prev_balance, ..account_of(cb.accounts, x) } } else { account_of(cb.accounts, x) })
                && (forall|a: Seq<u8>, k: int| #[trigger] slot_of(ca.storage, a, k) == slot_of(cb.storage, a, k)),
            JournalEntry::StorageChanged { address, key, prev_value } =>
                (forall|x: Seq<u8>| #[trigger] account_of(ca.accounts, x) == account_of(cb.accounts, x))
                && (forall|a: Seq<u8>, k: int| #[trigger] slot_of(ca.storage, a, k) == if a == address.0@ && k == key.value() {
                    prev_value.value() } else { slot_of(cb.storage, a, k) }),
            _ => true,
        },
    ensures same_state(h0, ca),
{
    match e {
        JournalEntry::BalanceChanged { address, prev_balance } => {
            assert forall|x: Seq<u8>| #[trigger] account_of(h0.accounts, x) == account_of(ca.accounts, x) by {
                assert(account_of(cb.accounts, x) == account_of(h1.accounts, x));
                assert(account_of(h1.accounts, x) == if x == address.0@ {
                    Account { balance: account_of(h1.accounts, x).balance, ..account_of(h0.accounts, x) } } else { account_of(h0.accounts, x) });
            }
            assert forall|a: Seq<u8>, k: int| #[trigger] slot_of(h0.storage, a, k) == slot_of(ca.storage, a, k) by {
                assert(slot_of(cb.storage, a, k) == slot_of(h1.storage, a, k));
                assert(slot_of(h1.storage, a, k) == slot_of(h0.storage, a, k));
            }
        },
        JournalEntry::StorageChanged { address, key, prev_value } => {
            assert forall|x: Seq<u8>| #[trigger] account_of(h0.accounts, x) == account_of(ca.accounts, x) by {
                assert(account_of(cb.accounts, x) == account_of(h1.accounts, x));
                assert(account_of(h1.accounts, x) == account_of(h0.accounts, x));
            }
            assert forall|a: Seq<u8>, k: int| #[trigger] slot_of(h0.storage, a, k) == slot_of(ca.storage, a, k) by {
                assert(slot_of(cb.storage, a, k) == slot_of(h1.storage, a, k));
                assert(slot_of(h1.storage, a, k) == if a == address.0@ && k == key.value() { slot_of(h1.storage, a, k) } else { slot_of(h0.storage, a, k) });
            }
        },
        _ => {},
    }
}

/// Undoes one recorded change.
fn revert_entry(state: &mut StateDb, entry: JournalEntry)
    ensures
        match entry {
            JournalEntry::BalanceChanged { address, prev_balance } =>
                (forall|x: Seq<u8>| #[trigger] account_of(final(state).view().accounts, x) == if x == address.0@ {
                    Account { balance: prev_balance, ..account_of(old(state).view().accounts, x) } } else { account_of(old(state).view().accounts, x) })
                && (forall|a: Seq<u8>, k: int| #[trigger] slot_of(final(state).view().storage, a, k) == slot_of(old(state).view().storage, a, k)),
            JournalEntry::StorageChanged { address, key, prev_value } =>
                (forall|x: Seq<u8>| #[trigger] account_of(final(state).view().accounts, x) == account_of(old(state).view().accounts, x))
                && (forall|a: Seq<u8>, k: int| #[trigger] slot_of(final(state).view().storage, a, k) == if a == address.0@ && k == key.value() {
                    prev_value.value() } else { slot_of(old(state).view().storage, a, k) }),
            _ => true,
        },
{
    match entry {
        JournalEntry::AccountCreated { address } => {
            state.delete_account(&address);
        },
        JournalEntry::AccountDestroyed { address, account } => {
            state.set_account(address, account);
        },
        JournalEntry::BalanceChanged { address, prev_balance } => {
            state.set_balance(&address, prev_balance);
        },
        JournalEntry::NonceChanged { address, prev_nonce } => {
            let mut account = state.get_account(&address);
            account.nonce = prev_nonce;
            state.set_account(address, account);
        },
        JournalEntry::CodeSet { address, prev_code_hash } => {
            let mut account = state.get_account(&address);
            account.code_hash = prev_code_hash;
            state.set_account(address, account);
        },
        JournalEntry::StorageChanged { address, key, prev_value } => {
            state.set_storage(&address, key, prev_value);
        },
    }
}

} // verus!
