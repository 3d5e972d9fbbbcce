//! The account database: accounts, contract code and storage slots, with the
//! accounts committed into a Merkle Patricia trie.
use vstd::prelude::*;
use crate::primitives::address::Address;
use crate::primitives::hashing::{keccak256, keccak256_spec};
use crate::primitives::text::{dec_digits, u64_to_decimal};
use crate::primitives::types::{U256, u256_modulus};
use crate::state::{StateError, StateResult};
use crate::state::trie::{MerkleTrie, text, json_bytes, push_text, push_json_bytes, zero_hash};

verus! {

type VHash = crate::primitives::types::Hash;

/// The state of an account.
#[derive(Clone, Copy, Debug)]
pub struct AccountState {
    pub nonce: u64,
    pub balance: U256,
    /// Keccak-256 of the account's code; zero for none.
    pub code_hash: VHash,
    pub storage_root: VHash,
}

/// The account with nothing in it.
pub open spec fn empty_account_state() -> AccountState {
    AccountState {
        nonce: 0,
        balance: U256([0, 0, 0, 0]),
        code_hash: crate::primitives::types::Hash(vstd::array::spec_array_fill_for_copy_type::<u8, 32>(0u8)),
        storage_root: crate::primitives::types::Hash(vstd::array::spec_array_fill_for_copy_type::<u8, 32>(0u8)),
    }
}

impl AccountState {
    /// The account with zero nonce, zero balance and zero hashes.
    pub fn empty() -> (a: Self)
        ensures a == empty_account_state(),
    {
        AccountState { nonce: 0, balance: U256([0, 0, 0, 0]), code_hash: crate::primitives::types::Hash([0u8; 32]), storage_root: crate::primitives::types::Hash([0u8; 32]) }
    }
}

impl Default for AccountState {
    fn default() -> (a: Self)
        ensures a == empty_account_state(),
    {
        AccountState::empty()
    }
}

/// The accounts of a list, by address; a later entry wins.
pub open spec fn accounts_map(s: Seq<(Address, AccountState)>) -> Map<Seq<u8>, AccountState>
    decreases s.len(),
{
    if s.len() == 0 {
        Map::empty()
    } else {
        accounts_map(s.drop_last()).insert(s.last().0.0@, s.last().1)
    }
}

/// The code of a list, by hash; a later entry wins.
pub open spec fn code_map(s: Seq<(VHash, Vec<u8>)>) -> Map<Seq<u8>, Seq<u8>>
    decreases s.len(),
{
    if s.len() == 0 {
        Map::empty()
    } else {
        code_map(s.drop_last()).insert(s.last().0.0@, s.last().1@)
    }
}

/// The storage slots of a list, by address and key; a later entry wins.
pub open spec fn slots_map(s: Seq<(Address, U256, U256)>) -> Map<(Seq<u8>, int), int>
    decreases s.len(),
{
    if s.len() == 0 {
        Map::empty()
    } else {
        slots_map(s.drop_last()).insert((s.last().0.0@, s.last().1.value()), s.last().2.value())
    }
}

/// No address occurs twice.
pub open spec fn distinct_addresses(s: Seq<(Address, AccountState)>) -> bool {
    forall|i: int, j: int| 0 <= i < j < s.len() ==> (#[trigger] s[i]).0.0@ != (#[trigger] s[j]).0.0@
}

/// The database as plain values.
pub struct StoreView {
    pub accounts: Map<Seq<u8>, AccountState>,
    pub code: Map<Seq<u8>, Seq<u8>>,
    pub slots: Map<(Seq<u8>, int), int>,
}

/// The account stored for an address, or the empty one.
pub open spec fn account_in(m: Map<Seq<u8>, AccountState>, a: Seq<u8>) -> AccountState {
    if m.contains_key(a) { m[a] } else { empty_account_state() }
}

/// The value of a storage slot, zero when unset.
pub open spec fn slot_in(m: Map<(Seq<u8>, int), int>, a: Seq<u8>, k: int) -> int {
    if m.contains_key((a, k)) { m[(a, k)] } else { 0 }
}

/// The code of an account: what is stored under its code hash, or nothing.
pub open spec fn code_in(v: StoreView, a: Seq<u8>) -> Seq<u8> {
    let h = account_in(v.accounts, a).code_hash.0@;
    if v.code.contains_key(h) { v.code[h] } else { Seq::empty() }
}

/// The slots without those of address `a` (with key `k`, if one is given).
pub open spec fn slots_without(m: Map<(Seq<u8>, int), int>, a: Seq<u8>, k: Option<int>) -> Map<(Seq<u8>, int), int> {
    m.remove_keys(Set::new(|x: (Seq<u8>, int)| x.0 == a && (k is None || x.1 == k->0)))
}

/// The JSON text of a list of 64-bit numbers, without brackets.
pub open spec fn u64_list(xs: Seq<u64>) -> Seq<u8>
    decreases xs.len(),
{
    if xs.len() == 0 {
        Seq::empty()
    } else if xs.len() == 1 {
        text(dec_digits(xs[0] as nat))
    } else {
        u64_list(xs.drop_last()) + seq![44u8] + text(dec_digits(xs.last() as nat))
    }
}

/// The JSON encoding of an account, as `serde_json` writes the derived form:
/// the balance as its four limbs, the hashes as byte arrays.
pub open spec fn account_json(a: AccountState) -> Seq<u8> {
    text("{\"nonce\":"@) + text(dec_digits(a.nonce as nat)) + text(",\"balance\":["@) + u64_list(a.balance.0@)
        + text("],\"code_hash\":"@) + json_bytes(a.code_hash.0@) + text(",\"storage_root\":"@)
        + json_bytes(a.storage_root.0@) + text("}"@)
}

proof fn lemma_accounts_map_dom(s: Seq<(Address, AccountState)>, a: Seq<u8>)
    ensures accounts_map(s).contains_key(a) <==> exists|i: int| 0 <= i < s.len() && (#[trigger] s[i]).0.0@ == a,
    decreases s.len(),
{
    if s.len() > 0 {
        lemma_accounts_map_dom(s.drop_last(), a);
        if accounts_map(s.drop_last()).contains_key(a) {
            let i = choose|i: int| 0 <= i < s.drop_last().len() && (#[trigger] s.drop_last()[i]).0.0@ == a;
            assert(s[i] == s.drop_last()[i]);
        }
        if exists|i: int| 0 <= i < s.len() && (#[trigger] s[i]).0.0@ == a {
            let i = choose|i: int| 0 <= i < s.len() && (#[trigger] s[i]).0.0@ == a;
            if i < s.len() - 1 {
                assert(s.drop_last()[i] == s[i]);
            } else {
                assert(s.last() == s[i]);
            }
        }
    }
}

proof fn lemma_accounts_map_len(s: Seq<(Address, AccountState)>)
    requires distinct_addresses(s),
    ensures accounts_map(s).dom().finite(), accounts_map(s).dom().len() == s.len(),
    decreases s.len(),
{
    if s.len() > 0 {
        let d = s.drop_last();
        assert(distinct_addresses(d)) by {
            assert forall|i: int, j: int| 0 <= i < j < d.len() implies (#[trigger] d[i]).0.0@ != (#[trigger] d[j]).0.0@ by {
                assert(d[i] == s[i] && d[j] == s[j]);
            }
        }
        lemma_accounts_map_len(d);
        lemma_accounts_map_dom(d, s.last().0.0@);
        if accounts_map(d).contains_key(s.last().0.0@) {
            let i = choose|i: int| 0 <= i < d.len() && (#[trigger] d[i]).0.0@ == s.last().0.0@;
            assert(d[i] == s[i]);
            assert(s[s.len() - 1] == s.last());
            assert(s[i].0.0@ != s[s.len() - 1].0.0@);
        }
    }
}

proof fn lemma_accounts_map_set(s: Seq<(Address, AccountState)>, k: int, a: Address, v: AccountState)
    requires
        0 <= k < s.len(),
        s[k].0.0@ == a.0@,
        forall|j: int| k < j < s.len() ==> (#[trigger] s[j]).0.0@ != a.0@,
    ensures accounts_map(s.update(k, (a, v))) == accounts_map(s).insert(a.0@, v),
    decreases s.len(),
{
    let u = s.update(k, (a, v));
    if k == s.len() - 1 {
        assert(u.drop_last() =~= s.drop_last());
        assert(accounts_map(u) =~= accounts_map(s).insert(a.0@, v));
    } else {
        assert(u.drop_last() =~= s.drop_last().update(k, (a, v)));
        assert(u.last() == s.last());
        assert(s[s.len() - 1] == s.last());
        assert forall|j: int| k < j < s.drop_last().len() implies (#[trigger] s.drop_last()[j]).0.0@ != a.0@ by {
            assert(s.drop_last()[j] == s[j]);
        }
        lemma_accounts_map_set(s.drop_last(), k, a, v);
        assert(accounts_map(u) =~= accounts_map(s).insert(a.0@, v));
    }
}

/// Stores `v` for address `a`, replacing its entry if there is one.
fn upsert_account(list: &mut Vec<(Address, AccountState)>, a: Address, v: AccountState)
    requires distinct_addresses(old(list)@),
    ensures
        distinct_addresses(final(list)@),
        accounts_map(final(list)@) == accounts_map(old(list)@).insert(a.0@, v),
{
    let ghost s0 = list@;
    let mut i: usize = list.len();
    while i > 0
        invariant
            list@ == s0,
            s0 == old(list)@,
            distinct_addresses(s0),
            i <= s0.len(),
            forall|j: int| i <= j < s0.len() ==> (#[trigger] s0[j]).0.0@ != a.0@,
        decreases i,
    {
        if list[i - 1].0 == a {
            let k: usize = i - 1;
            list.set(k, (a, v));
            proof {
                assert(list@ == s0.update(k as int, (a, v)));
                lemma_accounts_map_set(s0, k as int, a, v);
                assert forall|x: int, y: int| 0 <= x < y < list@.len() implies (#[trigger] list@[x]).0.0@ != (#[trigger] list@[y]).0.0@ by {
                    assert(s0[x] == list@[x] || x == k);
                    assert(s0[y] == list@[y] || y == k);
                    assert(s0[k as int].0.0@ == a.0@);
                }
            }
            return;
        }
        i = i - 1;
    }
    list.push((a, v));
    proof {
        assert(list@.drop_last() =~= s0);
        assert(list@.last() == (a, v));
        assert forall|x: int, y: int| 0 <= x < y < list@.len() implies (#[trigger] list@[x]).0.0@ != (#[trigger] list@[y]).0.0@ by {
            assert(list@[x] == s0[x]);
            if y < s0.len() { assert(list@[y] == s0[y]); }
        }
    }
}

/// The entries without address `a`.
fn without_account(list: &Vec<(Address, AccountState)>, a: &Address) -> (r: Vec<(Address, AccountState)>)
    requires distinct_addresses(list@),
    ensures
        distinct_addresses(r@),
        accounts_map(r@) == accounts_map(list@).remove(a.0@),
{
    let ghost s = list@;
    let mut kept: Vec<(Address, AccountState)> = Vec::new();
    let mut i: usize = 0;
    assert(accounts_map(s.subrange(0, 0)) =~= Map::<Seq<u8>, AccountState>::empty());
    assert(accounts_map(kept@) =~= accounts_map(s.subrange(0, 0)).remove(a.0@));
    while i < list.len()
        invariant
            s == list@,
            distinct_addresses(s),
            i <= s.len(),
            distinct_addresses(kept@),
            accounts_map(kept@) == accounts_map(s.subrange(0, i as int)).remove(a.0@),
            forall|j: int| 0 <= j < kept@.len() ==> exists|t: int| 0 <= t < i && (#[trigger] s[t]).0.0@ == (#[trigger] kept@[j]).0.0@,
        decreases s.len() - i,
    {
        let e = list[i];
        let ghost k0 = kept@;
        proof {
            assert(s.subrange(0, i + 1).drop_last() =~= s.subrange(0, i as int));
            assert(s.subrange(0, i + 1).last() == e);
        }
        if !(e.0 == *a) {
            kept.push(e);
            proof {
                assert(kept@.drop_last() =~= k0);
                assert(accounts_map(kept@) =~= accounts_map(s.subrange(0, i + 1)).remove(a.0@));
                assert forall|x: int, y: int| 0 <= x < y < kept@.len() implies (#[trigger] kept@[x]).0.0@ != (#[trigger] kept@[y]).0.0@ by {
                    assert(kept@[x] == k0[x]);
                    if y < k0.len() {
                        assert(kept@[y] == k0[y]);
                    } else {
                        let t = choose|t: int| 0 <= t < i && (#[trigger] s[t]).0.0@ == (#[trigger] k0[x]).0.0@;
                        assert(s[t].0.0@ != s[i as int].0.0@);
                    }
                }
                assert forall|j: int| 0 <= j < kept@.len() implies exists|t: int| 0 <= t < i + 1 && (#[trigger] s[t]).0.0@ == (#[trigger] kept@[j]).0.0@ by {
                    if j < k0.len() {
                        assert(kept@[j] == k0[j]);
                        let t = choose|t: int| 0 <= t < i && (#[trigger] s[t]).0.0@ == (#[trigger] k0[j]).0.0@;
                        assert(s[t].0.0@ == kept@[j].0.0@);
                    } else {
                        assert(s[i as int].0.0@ == kept@[j].0.0@);
                    }
                }
            }
        } else {
            proof {
                assert(accounts_map(kept@) =~= accounts_map(s.subrange(0, i + 1)).remove(a.0@));
                assert forall|j: int| 0 <= j < kept@.len() implies exists|t: int| 0 <= t < i + 1 && (#[trigger] s[t]).0.0@ == (#[trigger] kept@[j]).0.0@ by {
                    let t = choose|t: int| 0 <= t < i && (#[trigger] s[t]).0.0@ == (#[trigger] kept@[j]).0.0@;
                    assert(s[t].0.0@ == kept@[j].0.0@);
                }
            }
        }
        i = i + 1;
    }
    assert(s.subrange(0, i as int) =~= s);
    kept
}

/// The slots without those of address `a` (with key `k`, if one is given).
fn without_slots(list: &Vec<(Address, U256, U256)>, a: &Address, k: Option<U256>) -> (r: Vec<(Address, U256, U256)>)
    ensures
        slots_map(r@) == slots_without(slots_map(list@), a.0@, match k { Some(x) => Some(x.value()), None => None }),
{
    let ghost s = list@;
    let ghost ko: Option<int> = match k { Some(x) => Some(x.value()), None => None };
    let ghost dropped = Set::new(|x: (Seq<u8>, int)| x.0 == a.0@ && (ko is None || x.1 == ko->0));
    let mut kept: Vec<(Address, U256, U256)> = Vec::new();
    let mut i: usize = 0;
    assert(slots_map(s.subrange(0, 0)) =~= Map::<(Seq<u8>, int), int>::empty());
    assert(slots_map(kept@) =~= slots_map(s.subrange(0, 0)).remove_keys(dropped));
    while i < list.len()
        invariant
            s == list@,
            i <= s.len(),
            dropped == Set::new(|x: (Seq<u8>, int)| x.0 == a.0@ && (ko is None || x.1 == ko->0)),
            ko == match k { Some(x) => Some(x.value()), None => None },
            slots_map(kept@) == slots_map(s.subrange(0, i as int)).remove_keys(dropped),
        decreases s.len() - i,
    {
        let e = list[i];
        let ghost k0 = kept@;
        proof {
            assert(s.subrange(0, i + 1).drop_last() =~= s.subrange(0, i as int));
            assert(s.subrange(0, i + 1).last() == e);
        }
        let drop = e.0 == *a && match &k { Some(x) => e.1.eq_value(x), None => true };
        if !drop {
            kept.push(e);
            proof {
                assert(kept@.drop_last() =~= k0);
                assert(!dropped.contains((e.0.0@, e.1.value())));
            }
        } else {
            proof { assert(dropped.contains((e.0.0@, e.1.value()))); }
        }
        proof {
            assert(slots_map(kept@) =~= slots_map(s.subrange(0, i + 1)).remove_keys(dropped));
        }
        i = i + 1;
    }
    assert(s.subrange(0, i as int) =~= s);
    kept
}

fn push_u64_dec(out: &mut Vec<u8>, n: u64)
    ensures final(out)@ == old(out)@ + text(dec_digits(n as nat)),
{
    let cs = u64_to_decimal(n);
    let ghost start = out@;
    let mut i: usize = 0;
    while i < cs.len()
        invariant
            i <= cs@.len(),
            cs@ == dec_digits(n as nat),
            out@ == start + text(cs@.subrange(0, i as int)),
        decreases cs@.len() - i,
    {
        out.push(cs[i] as u8);
        assert(text(cs@.subrange(0, i + 1)) =~= text(cs@.subrange(0, i as int)).push(cs@[i as int] as u8));
        i = i + 1;
    }
    assert(cs@.subrange(0, i as int) =~= cs@);
}

/// The JSON encoding of an account.
pub fn encode_account(a: &AccountState) -> (r: Vec<u8>)
    ensures r@ == account_json(*a),
{
    let mut out: Vec<u8> = Vec::new();
    push_text(&mut out, "{\"nonce\":");
    push_u64_dec(&mut out, a.nonce);
    push_text(&mut out, ",\"balance\":[");
    let ghost mid = out@;
    let limbs = a.balance.0;
    let mut i: usize = 0;
    assert(limbs@.subrange(0, 0) =~= Seq::<u64>::empty());
    while i < 4
        invariant
            i <= 4,
            limbs@ == a.balance.0@,
            out@ == mid + u64_list(limbs@.subrange(0, i as int)),
        decreases 4 - i,
    {
        if i > 0 {
            out.push(44);
        }
        push_u64_dec(&mut out, limbs[i]);
        proof {
            let sub = limbs@.subrange(0, i + 1);
            assert(sub.drop_last() =~= limbs@.subrange(0, i as int));
            if i == 0 {
                assert(u64_list(limbs@.subrange(0, 0)) =~= Seq::<u8>::empty());
            }
            assert(out@ =~= mid + u64_list(sub));
        }
        i = i + 1;
    }
    assert(limbs@.subrange(0, 4) =~= limbs@);
    push_text(&mut out, "],\"code_hash\":");
    push_json_bytes(&mut out, a.code_hash.0.as_slice());
    push_text(&mut out, ",\"storage_root\":");
    push_json_bytes(&mut out, a.storage_root.0.as_slice());
    push_text(&mut out, "}");
    out
}

/// The account database.
pub struct StateDb {
    accounts: Vec<(Address, AccountState)>,
    code: Vec<(VHash, Vec<u8>)>,
    storage: Vec<(Address, U256, U256)>,
    trie: MerkleTrie,
}

impl StateDb {
    pub closed spec fn view(&self) -> StoreView {
        StoreView { accounts: accounts_map(self.accounts@), code: code_map(self.code@), slots: slots_map(self.storage@) }
    }

    /// The root of the trie the accounts are committed into.
    pub closed spec fn root_view(&self) -> Seq<u8> {
        self.trie.root_view()
    }

    /// The trie is well formed and no address has two entries.
    pub closed spec fn wf(&self) -> bool {
        self.trie.wf() && distinct_addresses(self.accounts@)
    }

    /// An empty database over an empty trie.
    pub fn new() -> (s: Self)
        ensures
            s.wf(),
            s.view().accounts == Map::<Seq<u8>, AccountState>::empty(),
            s.view().code == Map::<Seq<u8>, Seq<u8>>::empty(),
            s.view().slots == Map::<(Seq<u8>, int), int>::empty(),
            s.root_view() == zero_hash(),
    {
        let s = StateDb { accounts: Vec::new(), code: Vec::new(), storage: Vec::new(), trie: MerkleTrie::new() };
        proof {
            assert(accounts_map(s.accounts@) =~= Map::<Seq<u8>, AccountState>::empty());
            assert(code_map(s.code@) =~= Map::<Seq<u8>, Seq<u8>>::empty());
            assert(slots_map(s.storage@) =~= Map::<(Seq<u8>, int), int>::empty());
        }
        s
    }

    /// The root of the trie as last committed.
    pub fn state_root(&self) -> (r: VHash)
        ensures r.0@ == self.root_view(),
    {
        *self.trie.root()
    }

    /// The account of an address, empty when there is none.
    pub fn get_account(&self, address: &Address) -> (r: AccountState)
        ensures r == account_in(self.view().accounts, address.0@),
    {
        let ghost s = self.accounts@;
        let mut i: usize = self.accounts.len();
        assert(s.subrange(0, i as int) =~= s);
        while i > 0
            invariant
                s == self.accounts@,
                i <= s.len(),
                account_in(accounts_map(s), address.0@) == account_in(accounts_map(s.subrange(0, i as int)), address.0@),
            decreases i,
        {
            let ghost sub = s.subrange(0, i as int);
            assert(sub.last() == s[i - 1]);
            assert(sub.drop_last() =~= s.subrange(0, i - 1));
            if self.accounts[i - 1].0 == *address {
                return self.accounts[i - 1].1;
            }
            i = i - 1;
        }
        AccountState::empty()
    }

    /// Stores an account.
    pub fn set_account(&mut self, address: &Address, account: AccountState)
        requires old(self).wf(),
        ensures
            final(self).wf(),
            final(self).view().accounts == old(self).view().accounts.insert(address.0@, account),
            final(self).view().code == old(self).view().code,
            final(self).view().slots == old(self).view().slots,
            final(self).root_view() == old(self).root_view(),
    {
        upsert_account(&mut self.accounts, *address, account);
    }

    /// The balance of an account.
    pub fn get_balance(&self, address: &Address) -> (r: U256)
        ensures r == account_in(self.view().accounts, address.0@).balance,
    {
        self.get_account(address).balance
    }

    /// Sets the balance of an account, creating the account if needed.
    pub fn set_balance(&mut self, address: &Address, balance: U256)
        requires old(self).wf(),
        ensures
            final(self).wf(),
            final(self).view().accounts == old(self).view().accounts.insert(address.0@,
                AccountState { balance, ..account_in(old(self).view().accounts, address.0@) }),
            final(self).view().code == old(self).view().code,
            final(self).view().slots == old(self).view().slots,
            final(self).root_view() == old(self).root_view(),
    {
        let mut account = self.get_account(address);
        account.balance = balance;
        self.set_account(address, account);
    }

    /// Adds to the balance of an account.
    pub fn add_balance(&mut self, address: &Address, amount: U256)
        requires
            old(self).wf(),
            account_in(old(self).view().accounts, address.0@).balance.value() + amount.value() < u256_modulus(),
        ensures
            final(self).wf(),
            account_in(final(self).view().accounts, address.0@).balance.value()
                == account_in(old(self).view().accounts, address.0@).balance.value() + amount.value(),
            final(self).view().accounts == old(self).view().accounts.insert(address.0@,
                AccountState { balance: account_in(final(self).view().accounts, address.0@).balance, ..account_in(old(self).view().accounts, address.0@) }),
            final(self).view().code == old(self).view().code,
            final(self).view().slots == old(self).view().slots,
            final(self).root_view() == old(self).root_view(),
    {
        let mut account = self.get_account(address);
        let nb = account.balance.wrapping_add(&amount);
        proof {
            account.balance.lemma_value_bounds();
            amount.lemma_value_bounds();
            vstd::arithmetic::div_mod::lemma_small_mod((account.balance.value() + amount.value()) as nat, u256_modulus() as nat);
        }
        account.balance = nb;
        self.set_account(address, account);
    }

    /// Subtracts from the balance of an account; fails, changing nothing,
    /// when the balance is smaller than the amount.
    pub fn sub_balance(&mut self, address: &Address, amount: U256) -> (r: StateResult<()>)
        requires old(self).wf(),
        ensures
            final(self).wf(),
            ({
                let b = account_in(old(self).view().accounts, address.0@).balance.value();
                &&& r is Ok <==> b >= amount.value()
                &&& r is Ok ==> account_in(final(self).view().accounts, address.0@).balance.value() == b - amount.value()
                    && final(self).view().accounts == old(self).view().accounts.insert(address.0@,
                        AccountState { balance: account_in(final(self).view().accounts, address.0@).balance, ..account_in(old(self).view().accounts, address.0@) })
                &&& r is Err ==> final(self).view() == old(self).view() && r matches Err(StateError::Storage(_))
            }),
            final(self).view().code == old(self).view().code,
            final(self).view().slots == old(self).view().slots,
            final(self).root_view() == old(self).root_view(),
    {
        let mut account = self.get_account(address);
        if account.balance.lt(&amount) {
            return Err(StateError::Storage("Insufficient balance".to_owned()));
        }
        match account.balance.checked_sub(&amount) {
            Some(nb) => {
                account.balance = nb;
                self.set_account(address, account);
                Ok(())
            },
            None => Err(StateError::Storage("Insufficient balance".to_owned())),
        }
    }

    /// The nonce of an account.
    pub fn get_nonce(&self, address: &Address) -> (r: u64)
        ensures r == account_in(self.view().accounts, address.0@).nonce,
    {
        self.get_account(address).nonce
    }

    /// Sets the nonce of an account, creating the account if needed.
    pub fn set_nonce(&mut self, address: &Address, nonce: u64)
        requires old(self).wf(),
        ensures
            final(self).wf(),
            final(self).view().accounts == old(self).view().accounts.insert(address.0@,
                AccountState { nonce, ..account_in(old(self).view().accounts, address.0@) }),
            final(self).view().code == old(self).view().code,
            final(self).view().slots == old(self).view().slots,
            final(self).root_view() == old(self).root_view(),
    {
        let mut account = self.get_account(address);
        account.nonce = nonce;
        self.set_account(address, account);
    }

    /// Adds one to the nonce of an account.
    pub fn increment_nonce(&mut self, address: &Address)
        requires
            old(self).wf(),
            account_in(old(self).view().accounts, address.0@).nonce < u64::MAX,
        ensures
            final(self).wf(),
            final(self).view().accounts == old(self).view().accounts.insert(address.0@,
                AccountState { nonce: (account_in(old(self).view().accounts, address.0@).nonce + 1) as u64,
                    ..account_in(old(self).view().accounts, address.0@) }),
            final(self).view().code == old(self).view().code,
            final(self).view().slots == old(self).view().slots,
            final(self).root_view() == old(self).root_view(),
    {
        let mut account = self.get_account(address);
        account.nonce = account.nonce + 1;
        self.set_account(address, account);
    }

    /// The code hash of an account.
    pub fn get_code_hash(&self, address: &Address) -> (r: VHash)
        ensures r == account_in(self.view().accounts, address.0@).code_hash,
    {
        self.get_account(address).code_hash
    }

    /// The code stored under the account's code hash; empty when none is.
    pub fn get_code(&self, address: &Address) -> (r: Vec<u8>)
        ensures r@ == code_in(self.view(), address.0@),
    {
        let account = self.get_account(address);
        let h = account.code_hash;
        let ghost s = self.code@;
        let mut i: usize = self.code.len();
        assert(s.subrange(0, i as int) =~= s);
        while i > 0
            invariant
                s == self.code@,
                i <= s.len(),
                h == account_in(self.view().accounts, address.0@).code_hash,
                code_map(s).contains_key(h.0@) == code_map(s.subrange(0, i as int)).contains_key(h.0@),
                code_map(s).contains_key(h.0@) ==> code_map(s)[h.0@] == code_map(s.subrange(0, i as int))[h.0@],
            decreases i,
        {
            let ghost sub = s.subrange(0, i as int);
            assert(sub.last() == s[i - 1]);
            assert(sub.drop_last() =~= s.subrange(0, i - 1));
            if self.code[i - 1].0 == h {
                assert(s[i - 1].0.0@ == h.0@);
                assert(code_map(sub) == code_map(sub.drop_last()).insert(s[i - 1].0.0@, s[i - 1].1@));
                assert(code_map(sub)[h.0@] == s[i - 1].1@);
                return vstd::slice::slice_to_vec(self.code[i - 1].1.as_slice());
            }
            i = i - 1;
        }
        Vec::new()
    }

    /// Stores code under its Keccak-256 hash and points the account at it.
    pub fn set_code(&mut self, address: &Address, code: Vec<u8>)
        requires old(self).wf(),
        ensures
            final(self).wf(),
            account_in(final(self).view().accounts, address.0@).code_hash.0@ == keccak256_spec(code@),
            final(self).view().accounts == old(self).view().accounts.insert(address.0@,
                AccountState { code_hash: account_in(final(self).view().accounts, address.0@).code_hash,
                    ..account_in(old(self).view().accounts, address.0@) }),
            final(self).view().code == old(self).view().code.insert(keccak256_spec(code@), code@),
            final(self).view().slots == old(self).view().slots,
            final(self).root_view() == old(self).root_view(),
    {
        let code_hash = crate::primitives::types::Hash::new(keccak256(code.as_slice()));
        let ghost c0 = self.code@;
        self.code.push((code_hash, code));
        proof { assert(self.code@.drop_last() =~= c0); }
        let mut account = self.get_account(address);
        account.code_hash = code_hash;
        self.set_account(address, account);
    }

    /// The value of a storage slot, zero when unset.
    pub fn get_storage(&self, address: &Address, key: &U256) -> (r: U256)
        ensures r.value() == slot_in(self.view().slots, address.0@, key.value()),
    {
        let ghost s = self.storage@;
        let ghost kk = (address.0@, key.value());
        let mut i: usize = self.storage.len();
        assert(s.subrange(0, i as int) =~= s);
        while i > 0
            invariant
                s == self.storage@,
                i <= s.len(),
                kk == (address.0@, key.value()),
                slots_map(s).contains_key(kk) == slots_map(s.subrange(0, i as int)).contains_key(kk),
                slots_map(s).contains_key(kk) ==> slots_map(s)[kk] == slots_map(s.subrange(0, i as int))[kk],
            decreases i,
        {
            let ghost sub = s.subrange(0, i as int);
            assert(sub.last() == s[i - 1]);
            assert(sub.drop_last() =~= s.subrange(0, i - 1));
            if self.storage[i - 1].0 == *address && self.storage[i - 1].1.eq_value(key) {
                return self.storage[i - 1].2;
            }
            i = i - 1;
        }
        U256::zero()
    }

    /// Sets a storage slot; setting zero removes it.
    pub fn set_storage(&mut self, address: &Address, key: U256, value: U256)
        requires old(self).wf(),
        ensures
            final(self).wf(),
            final(self).view().slots == if value.value() == 0 {
                old(self).view().slots.remove((address.0@, key.value()))
            } else {
                old(self).view().slots.insert((address.0@, key.value()), value.value())
            },
            final(self).view().accounts == old(self).view().accounts,
            final(self).view().code == old(self).view().code,
            final(self).root_view() == old(self).root_view(),
    {
        let ghost m0 = slots_map(self.storage@);
        let mut kept = without_slots(&self.storage, address, Some(key));
        proof {
            assert(slots_without(m0, address.0@, Some(key.value())) =~= m0.remove((address.0@, key.value())));
        }
        if !value.is_zero() {
            let ghost k0 = kept@;
            kept.push((*address, key, value));
            proof {
                assert(kept@.drop_last() =~= k0);
                assert(slots_map(kept@) =~= m0.insert((address.0@, key.value()), value.value()));
            }
        }
        self.storage = kept;
    }

    /// Whether an account is stored for the address.
    pub fn account_exists(&self, address: &Address) -> (r: bool)
        ensures r == self.view().accounts.contains_key(address.0@),
    {
        proof { lemma_accounts_map_dom(self.accounts@, address.0@); }
        let mut i: usize = 0;
        while i < self.accounts.len()
            invariant
                i <= self.accounts@.len(),
                forall|j: int| 0 <= j < i ==> (#[trigger] self.accounts@[j]).0.0@ != address.0@,
            decreases self.accounts@.len() - i,
        {
            if self.accounts[i].0 == *address {
                assert(self.accounts@[i as int].0.0@ == address.0@);
                proof { lemma_accounts_map_dom(self.accounts@, address.0@); }
                return true;
            }
            i = i + 1;
        }
        false
    }

    /// Whether the account has no nonce, no balance and no code hash.
    pub fn is_empty(&self, address: &Address) -> (r: bool)
        ensures
            r == ({
                let a = account_in(self.view().accounts, address.0@);
                a.nonce == 0 && a.balance.value() == 0 && a.code_hash.0@ == zero_hash()
            }),
    {
        let account = self.get_account(address);
        let zero = crate::primitives::types::Hash::zero();
        proof {
            if account.code_hash == zero { assert(account.code_hash.0@ =~= zero_hash()); }
            if account.code_hash.0@ == zero_hash() { assert(account.code_hash.0@ =~= zero.0@); }
        }
        account.nonce == 0 && account.balance.is_zero() && account.code_hash == zero
    }

    /// Removes an account and all its storage slots.
    pub fn delete_account(&mut self, address: &Address)
        requires old(self).wf(),
        ensures
            final(self).wf(),
            final(self).view().accounts == old(self).view().accounts.remove(address.0@),
            final(self).view().slots == slots_without(old(self).view().slots, address.0@, None),
            final(self).view().code == old(self).view().code,
            final(self).root_view() == old(self).root_view(),
    {
        self.accounts = without_account(&self.accounts, address);
        self.storage = without_slots(&self.storage, address, None);
    }

    /// Writes every account into the trie under its address, as its JSON
    /// encoding, in stored order, and returns the new root. A key the trie
    /// cannot take is skipped.
    pub fn commit(&mut self) -> (r: VHash)
        requires old(self).wf(),
        ensures
            final(self).wf(),
            final(self).view() == old(self).view(),
            r.0@ == final(self).root_view(),
    {
        let mut i: usize = 0;
        while i < self.accounts.len()
            invariant
                self.wf(),
                self.view() == old(self).view(),
            decreases self.accounts@.len() - i,
        {
            let (address, account) = self.accounts[i];
            let encoded = encode_account(&account);
            if self.trie.can_insert(address.0.as_slice()) {
                let _ = self.trie.insert(address.0.as_slice(), encoded);
            }
            i = i + 1;
        }
        *self.trie.root()
    }

    /// The number of accounts.
    pub fn account_count(&self) -> (r: usize)
        requires self.wf(),
        ensures r == self.view().accounts.dom().len(),
    {
        proof { lemma_accounts_map_len(self.accounts@); }
        self.accounts.len()
    }
}

impl Default for StateDb {
    fn default() -> (s: Self)
        ensures
            s.wf(),
            s.view().accounts == Map::<Seq<u8>, AccountState>::empty(),
            s.view().code == Map::<Seq<u8>, Seq<u8>>::empty(),
            s.view().slots == Map::<(Seq<u8>, int), int>::empty(),
            s.root_view() == zero_hash(),
    {
        StateDb::new()
    }
}

} // verus!
