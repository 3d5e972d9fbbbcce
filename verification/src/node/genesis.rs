//! The genesis document: pre-funded accounts, pre-deployed contracts and
//! the initial validators, with the parsing of its numbers and addresses.
use vstd::prelude::*;
use crate::primitives::address::Address;
use crate::primitives::text::{hex_decode, hex_decode_spec, str_to_chars};
use crate::primitives::types::{U256, limbs_from_be, limbs_value, u256_modulus};
use crate::primitives::hashing::keccak256_spec;
use crate::evm::state::{StateDb, Account, account_of, slot_of, code_of};
use crate::consensus::pos::ProofOfStake;
use crate::consensus::validator::{has_address, eligible_of, ValidatorView};
use crate::primitives::text::{hex_encode, hex_lower, dec_digits, u64_to_decimal, chars_to_string};

verus! {

/// A pre-funded or pre-deployed account.
#[derive(Clone, Debug)]
pub struct GenesisAccount {
    /// Hex address, with or without 0x.
    pub address: String,
    /// Balance in the smallest unit, decimal.
    pub balance: String,
    /// Hex bytecode of a pre-deployed contract.
    pub code: Option<String>,
    /// Storage slots, hex slot to hex value.
    pub storage: Vec<(String, String)>,
    pub nonce: u64,
}

/// A validator of the genesis.
#[derive(Clone, Debug)]
pub struct GenesisValidator {
    pub address: String,
    /// Hex compressed SEC1 public key.
    pub pubkey: String,
    /// Self-delegated stake, decimal.
    pub stake: String,
    /// Commission in basis points.
    pub commission: u16,
}

/// The genesis document.
#[derive(Clone, Debug)]
pub struct GenesisConfig {
    pub chain_id: u64,
    pub timestamp: u64,
    pub name: String,
    pub accounts: Vec<GenesisAccount>,
    pub validators: Vec<GenesisValidator>,
}

impl Default for GenesisConfig {
    fn default() -> (r: Self)
        ensures
            r.chain_id == 1337 && r.timestamp == 0,
            r.name@ == "NexusChain Devnet"@,
            r.accounts@.len() == 0 && r.validators@.len() == 0,
    {
        GenesisConfig {
            chain_id: 1337,
            timestamp: 0,
            name: "NexusChain Devnet".to_owned(),
            accounts: Vec::new(),
            validators: Vec::new(),
        }
    }
}

/// The value of the decimal digits of `s` (other characters skipped),
/// modulo 2^256.
pub open spec fn decimal_digits_value(s: Seq<char>) -> int
    decreases s.len(),
{
    if s.len() == 0 {
        0
    } else {
        let rest = decimal_digits_value(s.drop_last());
        let c = s.last();
        if '0' <= c && c <= '9' {
            (rest * 10 + (c as int - '0' as int)) % u256_modulus()
        } else {
            rest
        }
    }
}

/// Parses the decimal digits of a string into a 256-bit number, skipping
/// other characters and wrapping at 2^256.
pub fn parse_u256_decimal(s: &str) -> (r: U256)
    ensures r.value() == decimal_digits_value(s@),
{
    let chars = str_to_chars(s);
    let mut result = U256::zero();
    let mut i: usize = 0;
    assert(chars@.subrange(0, 0) =~= Seq::<char>::empty());
    while i < chars.len()
        invariant
            i <= chars@.len(),
            chars@ == s@,
            result.value() == decimal_digits_value(chars@.subrange(0, i as int)),
        decreases chars@.len() - i,
    {
        assert(chars@.subrange(0, i + 1).drop_last() =~= chars@.subrange(0, i as int));
        let c = chars[i];
        if '0' <= c && c <= '9' {
            let d: u64 = (c as u32 - '0' as u32) as u64;
            let scaled = result.wrapping_mul_u64(10);
            let sum = scaled.wrapping_add(&U256::from_u64(d));
            proof {
                let m = u256_modulus();
                let a = result.value() * 10;
                assert(m > 0);
                vstd::arithmetic::div_mod::lemma_add_mod_noop(a, d as int, m);
                vstd::arithmetic::div_mod::lemma_mod_twice(a, m);
                vstd::arithmetic::div_mod::lemma_small_mod(d as nat, m as nat);
            }
            result = sum;
        }
        i = i + 1;
    }
    assert(chars@.subrange(0, i as int) =~= chars@);
    result
}

/// The string with every leading "0x" removed.
pub open spec fn strip_0x(s: Seq<char>) -> Seq<char>
    decreases s.len(),
{
    if s.len() >= 2 && s[0] == '0' && s[1] == 'x' { strip_0x(s.skip(2)) } else { s }
}

fn strip_0x_exec(s: &str) -> (r: Vec<char>)
    ensures r@ == strip_0x(s@),
{
    let chars = str_to_chars(s);
    let mut start: usize = 0;
    assert(chars@.skip(0) =~= chars@);
    while start < chars.len() && chars.len() - start >= 2 && chars[start] == '0' && chars[start + 1] == 'x'
        invariant
            start <= chars@.len(),
            chars@ == s@,
            strip_0x(s@) == strip_0x(chars@.skip(start as int)),
        decreases chars@.len() - start,
    {
        assert(chars@.skip(start as int).skip(2) =~= chars@.skip(start + 2));
        start = start + 2;
    }
    let mut out: Vec<char> = Vec::new();
    let mut i: usize = start;
    while i < chars.len()
        invariant
            start <= i <= chars@.len(),
            out@ == chars@.subrange(start as int, i as int),
        decreases chars@.len() - i,
    {
        out.push(chars[i]);
        assert(out@ =~= chars@.subrange(start as int, i + 1));
        i = i + 1;
    }
    assert(chars@.subrange(start as int, i as int) =~= chars@.skip(start as int));
    out
}

/// The bytes of ASCII characters; `None` when one is not ASCII.
pub open spec fn ascii_bytes(s: Seq<char>) -> Option<Seq<u8>> {
    if forall|i: int| 0 <= i < s.len() ==> (#[trigger] s[i] as u32) < 128 {
        Some(Seq::new(s.len(), |i: int| s[i] as u8))
    } else {
        None
    }
}

pub(crate) fn ascii_bytes_exec(s: &Vec<char>) -> (r: Option<Vec<u8>>)
    ensures
        match ascii_bytes(s@) {
            Some(b) => r matches Some(v) && v@ == b,
            None => r is None,
        },
{
    let mut out: Vec<u8> = Vec::new();
    let mut i: usize = 0;
    while i < s.len()
        invariant
            i <= s@.len(),
            out@ == Seq::new(i as nat, |k: int| s@[k] as u8),
            forall|k: int| 0 <= k < i ==> (#[trigger] s@[k] as u32) < 128,
        decreases s@.len() - i,
    {
        let c = s[i];
        if (c as u32) >= 128 {
            return None;
        }
        out.push(c as u8);
        assert(out@ =~= Seq::new((i + 1) as nat, |k: int| s@[k] as u8));
        i = i + 1;
    }
    Some(out)
}

/// The hex decoding of a string (after its "0x" prefixes), `None` when it
/// is not an even run of hex digits.
pub open spec fn hex_of_str(s: Seq<char>) -> Option<Seq<u8>> {
    match ascii_bytes(strip_0x(s)) {
        None => None,
        Some(b) => match hex_decode_spec(b) {
            Ok(v) => Some(v),
            Err(_) => None,
        },
    }
}

fn hex_of_str_exec(s: &str) -> (r: Option<Vec<u8>>)
    ensures
        match hex_of_str(s@) {
            Some(v) => r matches Some(x) && x@ == v,
            None => r is None,
        },
{
    let stripped = strip_0x_exec(s);
    match ascii_bytes_exec(&stripped) {
        None => None,
        Some(b) => match hex_decode(b.as_slice()) {
            Ok(v) => Some(v),
            Err(_) => None,
        },
    }
}

/// Parses a hex address (with or without 0x): exactly twenty bytes.
pub fn parse_addr(s: &str) -> (r: Option<Address>)
    ensures
        match hex_of_str(s@) {
            Some(v) => if v.len() == 20 { r matches Some(a) && a.0@ == v } else { r is None },
            None => r is None,
        },
{
    match hex_of_str_exec(s) {
        None => None,
        Some(v) => Address::from_slice(v.as_slice()),
    }
}

/// Up to 32 trailing bytes, left-padded with zeros to 32.
pub open spec fn left_pad32(b: Seq<u8>) -> Seq<u8> {
    let tail = if b.len() > 32 { b.subrange(b.len() - 32, b.len() as int) } else { b };
    Seq::new((32 - tail.len()) as nat, |i: int| 0u8) + tail
}

/// Parses a hex number (with or without 0x) of up to 32 bytes, big-endian;
/// longer input keeps its last 32 bytes, and bad hex reads as zero.
pub fn parse_u256_hex(s: &str) -> (r: U256)
    ensures
        r.0@ == limbs_from_be(left_pad32(match hex_of_str(s@) { Some(v) => v, None => Seq::empty() })),
{
    let bytes: Vec<u8> = match hex_of_str_exec(s) {
        Some(v) => v,
        None => Vec::new(),
    };
    let n: usize = bytes.len();
    let take: usize = if n > 32 { 32 } else { n };
    let offset: usize = 32 - take;
    let mut arr = [0u8; 32];
    let mut i: usize = 0;
    while i < take
        invariant
            i <= take,
            take <= 32,
            offset == 32 - take,
            n == bytes@.len(),
            take == (if n > 32 { 32 } else { n }),
            forall|k: int| 0 <= k < offset ==> arr@[k] == 0,
            forall|k: int| offset <= k < offset + i ==> #[trigger] arr@[k] == bytes@[n - take + (k - offset)],
        decreases take - i,
    {
        arr[offset + i] = bytes[n - take + i];
        i = i + 1;
    }
    proof {
        let b = bytes@;
        let tail = if b.len() > 32 { b.subrange(b.len() - 32, b.len() as int) } else { b };
        assert(arr@ =~= Seq::new((32 - tail.len()) as nat, |i: int| 0u8) + tail);
    }
    U256::from_be_bytes(arr)
}


/// The ways applying a genesis document fails.
#[derive(Debug)]
pub enum GenesisError {
    Io(String),
    Parse(String),
    BadAddress(String),
    BadCode(String),
    BadPubkey(String),
    PoS(String),
}

/// The address a hex string stands for: exactly twenty bytes.
pub open spec fn addr_of(s: Seq<char>) -> Option<Seq<u8>> {
    match hex_of_str(s) {
        Some(v) => if v.len() == 20 { Some(v) } else { None },
        None => None,
    }
}

/// The number a hex string stands for, as `parse_u256_hex` reads it.
pub open spec fn hex_u256(s: Seq<char>) -> int {
    let l = limbs_from_be(left_pad32(match hex_of_str(s) { Some(v) => v, None => Seq::empty() }));
    limbs_value(l[0], l[1], l[2], l[3])
}

/// The value the storage entries give slot `k`: the last entry for it.
pub open spec fn storage_written(st: Seq<(String, String)>, k: int) -> Option<int>
    decreases st.len(),
{
    if st.len() == 0 {
        None
    } else if hex_u256(st.last().0@) == k {
        Some(hex_u256(st.last().1@))
    } else {
        storage_written(st.drop_last(), k)
    }
}

/// An account entry parses: its address, and its code if it has any.
pub open spec fn account_entry_ok(e: GenesisAccount) -> bool {
    addr_of(e.address@) is Some && (e.code matches Some(c) ==> hex_of_str(c@) is Some)
}

/// A validator entry parses: its address and its public key.
pub open spec fn validator_entry_ok(v: GenesisValidator) -> bool {
    addr_of(v.address@) is Some && hex_of_str(v.pubkey@) is Some
}

/// The account an entry sets up: its nonce and balance, and the hash of its
/// code (zero without code).
pub open spec fn holds_entry(acct: Account, e: GenesisAccount) -> bool {
    &&& acct.nonce == e.nonce
    &&& acct.balance.value() == decimal_digits_value(e.balance@)
    &&& match e.code {
        Some(c) => acct.code_hash.0@ == keccak256_spec(hex_of_str(c@)->0),
        None => acct.code_hash.0@ == Seq::new(32, |i: int| 0u8),
    }
}

/// The last of the first `n` entries with address `a`.
pub open spec fn last_with(es: Seq<GenesisAccount>, a: Seq<u8>, n: int) -> Option<int>
    decreases n,
{
    if n <= 0 {
        None
    } else if addr_of(es[n - 1].address@) == Some(a) {
        Some(n - 1)
    } else {
        last_with(es, a, n - 1)
    }
}

/// Every address of the entries holds its last entry's account; the others
/// are as in `orig`.
#[verifier::opaque]
pub open spec fn accounts_applied(es: Seq<GenesisAccount>, cur: Seq<(Address, Account)>, orig: Seq<(Address, Account)>) -> bool {
    &&& forall|a: Seq<u8>| #[trigger] last_with(es, a, es.len() as int) is Some
        ==> holds_entry(account_of(cur, a), es[last_with(es, a, es.len() as int)->0])
    &&& forall|a: Seq<u8>| #[trigger] last_with(es, a, es.len() as int) is None
        ==> account_of(cur, a) == account_of(orig, a)
}

/// The first entry that does not parse.
pub open spec fn first_bad_account(es: Seq<GenesisAccount>) -> Option<int> {
    if exists|i: int| 0 <= i < es.len() && !account_entry_ok(#[trigger] es[i]) {
        Some(choose|i: int| 0 <= i < es.len() && !account_entry_ok(#[trigger] es[i])
            && forall|j: int| 0 <= j < i ==> account_entry_ok(es[j]))
    } else {
        None
    }
}

/// The first validator entry that does not parse.
pub open spec fn first_bad_validator(vs: Seq<GenesisValidator>) -> Option<int> {
    if exists|i: int| 0 <= i < vs.len() && !validator_entry_ok(#[trigger] vs[i]) {
        Some(choose|i: int| 0 <= i < vs.len() && !validator_entry_ok(#[trigger] vs[i])
            && forall|j: int| 0 <= j < i ==> validator_entry_ok(vs[j]))
    } else {
        None
    }
}

/// The stake of a validator entry, as registered: its decimal value, kept
/// to 64 bits.
pub open spec fn entry_stake(v: GenesisValidator) -> int {
    decimal_digits_value(v.stake@) % 0x1_0000_0000_0000_0000
}

/// The stakes of the validator entries together.
pub open spec fn stake_sum(vs: Seq<GenesisValidator>) -> int
    decreases vs.len(),
{
    if vs.len() == 0 { 0 } else { stake_sum(vs.drop_last()) + entry_stake(vs.last()) }
}

/// The validator a genesis entry registers.
pub open spec fn genesis_view(v: GenesisValidator) -> crate::consensus::validator::ValidatorView {
    crate::consensus::validator::ValidatorView {
        address: addr_of(v.address@)->0, pubkey: hex_of_str(v.pubkey@)->0, stake: entry_stake(v) as u64,
        commission: v.commission, active: true, jailed_until: 0, slash_count: 0, uptime: 10000, last_active_epoch: 0,
    }
}

/// The members after registering the entries in order.
pub open spec fn registered(m: Seq<crate::consensus::validator::ValidatorView>, vs: Seq<GenesisValidator>) -> Seq<crate::consensus::validator::ValidatorView>
    decreases vs.len(),
{
    if vs.len() == 0 { m } else { crate::consensus::validator::upsert(registered(m, vs.drop_last()), genesis_view(vs.last())) }
}

/// Every entry has the stake and commission that registration accepts.
pub open spec fn entries_acceptable(vs: Seq<GenesisValidator>, min_validator: u64, max_commission: u16, set_min: u64) -> bool {
    forall|i: int| 0 <= i < vs.len() ==> entry_stake(#[trigger] vs[i]) >= min_validator && entry_stake(vs[i]) >= set_min
        && vs[i].commission <= max_commission
}

/// Sets up one account: its nonce and balance, its code, and its storage.
fn apply_account(state: &mut StateDb, entry: &GenesisAccount) -> (r: Result<(), GenesisError>)
    ensures
        addr_of(entry.address@) is None ==> (r matches Err(GenesisError::BadAddress(s)) && s@ == entry.address@)
            && final(state).view() == old(state).view() && final(state).code_view() == old(state).code_view(),
        addr_of(entry.address@) matches Some(a) ==> {
            &&& forall|x: Seq<u8>| x != a ==> #[trigger] account_of(final(state).view().accounts, x) == account_of(old(state).view().accounts, x)
            &&& r is Ok ==> holds_entry(account_of(final(state).view().accounts, a), *entry)
            &&& (entry.code matches Some(c) && hex_of_str(c@) is None)
                ==> (r matches Err(GenesisError::BadCode(s)) && s@ == entry.address@)
            &&& r is Ok <==> account_entry_ok(*entry)
            &&& r is Ok ==> forall|x: Seq<u8>, k: int| #[trigger] slot_of(final(state).view().storage, x, k)
                == if x == a { match storage_written(entry.storage@, k) { Some(v) => v, None => slot_of(old(state).view().storage, x, k) } }
                    else { slot_of(old(state).view().storage, x, k) }
            &&& r is Err ==> final(state).view().storage == old(state).view().storage
        },
{
    let addr = match parse_addr(entry.address.as_str()) {
        Some(a) => a,
        None => { return Err(GenesisError::BadAddress(entry.address.clone())); },
    };
    let balance = parse_u256_decimal(entry.balance.as_str());
    let account = Account {
        nonce: entry.nonce,
        balance,
        code_hash: crate::primitives::types::Hash::zero(),
        storage_root: crate::primitives::types::Hash::zero(),
    };
    state.set_account(addr, account);
    match &entry.code {
        Some(code_hex) => match hex_of_str_exec(code_hex.as_str()) {
            Some(code) => { state.set_code(&addr, code); },
            None => { return Err(GenesisError::BadCode(entry.address.clone())); },
        },
        None => {},
    }
    let ghost st0 = state.view().storage;
    let ghost acc0 = state.view().accounts;
    let mut i: usize = 0;
    assert(entry.storage@.take(0) =~= Seq::<(String, String)>::empty());
    while i < entry.storage.len()
        invariant
            i <= entry.storage@.len(),
            state.view().accounts == acc0,
            forall|x: Seq<u8>, k: int| #[trigger] slot_of(state.view().storage, x, k)
                == if x == addr.0@ { match storage_written(entry.storage@.take(i as int), k) { Some(v) => v, None => slot_of(st0, x, k) } }
                    else { slot_of(st0, x, k) },
        decreases entry.storage@.len() - i,
    {
        assert(entry.storage@.take(i + 1).drop_last() =~= entry.storage@.take(i as int));
        assert(entry.storage@.take(i + 1).last() == entry.storage@[i as int]);
        let slot = parse_u256_hex(entry.storage[i].0.as_str());
        let val = parse_u256_hex(entry.storage[i].1.as_str());
        state.set_storage(&addr, slot, val);
        i = i + 1;
    }
    assert(entry.storage@.take(i as int) =~= entry.storage@);
    Ok(())
}

/// Applies a genesis document: each account in order, then each validator
/// registered with proof of stake. The first entry that does not parse
/// stops the rest with its error.
#[verifier::rlimit(40)]
pub fn apply_genesis(state: &mut StateDb, pos: &mut ProofOfStake, config: &GenesisConfig) -> (r: Result<(), GenesisError>)
    requires
        old(pos).wf(),
        old(pos).config_spec().max_commission <= 10000,
        old(pos).set_spec().total_stake + stake_sum(config.validators@) <= u64::MAX,
    ensures
        final(pos).wf(),
        first_bad_account(config.accounts@) matches Some(k) ==> ({
            let e = config.accounts@[k];
            if addr_of(e.address@) is None { r matches Err(GenesisError::BadAddress(s)) && s@ == e.address@ }
            else { r matches Err(GenesisError::BadCode(s)) && s@ == e.address@ }
        }),
        (first_bad_account(config.accounts@) is None && first_bad_validator(config.validators@) is Some) ==> ({
            let v = config.validators@[first_bad_validator(config.validators@)->0];
            (r matches Err(GenesisError::PoS(_))) || if addr_of(v.address@) is None { r matches Err(GenesisError::BadAddress(s)) && s@ == v.address@ }
            else { r matches Err(GenesisError::BadPubkey(s)) && s@ == v.address@ }
        }),
        first_bad_account(config.accounts@) is None && first_bad_validator(config.validators@) is None
            ==> r is Ok || r matches Err(GenesisError::PoS(_)),
        first_bad_account(config.accounts@) is None ==> forall|a: Seq<u8>| #[trigger] last_with(config.accounts@, a, config.accounts@.len() as int) is Some
            ==> holds_entry(account_of(final(state).view().accounts, a), config.accounts@[last_with(config.accounts@, a, config.accounts@.len() as int)->0]),
        first_bad_account(config.accounts@) is None ==> forall|a: Seq<u8>| #[trigger] last_with(config.accounts@, a, config.accounts@.len() as int) is None
            ==> account_of(final(state).view().accounts, a) == account_of(old(state).view().accounts, a),
        r is Ok ==> forall|i: int| 0 <= i < config.validators@.len()
            ==> has_address(final(pos).set_spec().members(), #[trigger] addr_of(config.validators@[i].address@)->0),
        r is Ok ==> final(pos).set_spec().members() == registered(old(pos).set_spec().members(), config.validators@),
        first_bad_account(config.accounts@) is None && first_bad_validator(config.validators@) is None
            && entries_acceptable(config.validators@, old(pos).config_spec().min_validator_stake,
                old(pos).config_spec().max_commission, old(pos).set_spec().min_stake) ==> r is Ok,
{
    let es = &config.accounts;
    let mut i: usize = 0;
    while i < es.len()
        invariant
            i <= es@.len(),
            es@ == config.accounts@,
            *pos == *old(pos),
            pos.wf(),
            forall|j: int| 0 <= j < i ==> account_entry_ok(#[trigger] es@[j]),
            forall|a: Seq<u8>| #[trigger] last_with(es@, a, i as int) is Some
                ==> holds_entry(account_of(state.view().accounts, a), es@[last_with(es@, a, i as int)->0]),
            forall|a: Seq<u8>| #[trigger] last_with(es@, a, i as int) is None
                ==> account_of(state.view().accounts, a) == account_of(old(state).view().accounts, a),
        decreases es@.len() - i,
    {
        let ghost before = state.view().accounts;
        match apply_account(state, &es[i]) {
            Ok(()) => {},
            Err(e) => {
                proof { lemma_first_bad_account(es@, i as int); }
                return Err(e);
            },
        }
        proof { lemma_accounts_step(es@, i as int, before, state.view().accounts, old(state).view().accounts); }
        i = i + 1;
    }
    proof {
        lemma_no_bad_account(es@);
        reveal(accounts_applied);
    }
    let vs = &config.validators;
    let mut k: usize = 0;
    assert(vs@.take(0) =~= Seq::<GenesisValidator>::empty());
    proof { lemma_stake_sum_prefix(vs@, 0); }
    while k < vs.len()
        invariant
            k <= vs@.len(),
            es@ == config.accounts@,
            vs@ == config.validators@,
            pos.wf(),
            first_bad_account(es@) is None,
            forall|j: int| 0 <= j < k ==> validator_entry_ok(#[trigger] vs@[j]),
            pos.config_spec() == old(pos).config_spec(),
            pos.set_spec().min_stake == old(pos).set_spec().min_stake,
            old(pos).config_spec().max_commission <= 10000,
            pos.set_spec().members() == registered(old(pos).set_spec().members(), vs@.take(k as int)),
            first_bad_validator(vs@) is None ==> forall|j: int| 0 <= j < vs@.len() ==> validator_entry_ok(#[trigger] vs@[j]),
            pos.set_spec().total_stake + stake_sum(vs@) - stake_sum(vs@.take(k as int)) <= u64::MAX,
            stake_sum(vs@.take(k as int)) <= stake_sum(vs@),
            forall|j: int| 0 <= j < k ==> has_address(pos.set_spec().members(), #[trigger] addr_of(vs@[j].address@)->0),
            accounts_applied(es@, state.view().accounts, old(state).view().accounts),
        decreases vs@.len() - k,
    {
        let v = &vs[k];
        proof {
            assert(vs@.take(k + 1).drop_last() =~= vs@.take(k as int));
            lemma_stake_sum_prefix(vs@, k + 1);
        }
        let addr = match parse_addr(v.address.as_str()) {
            Some(a) => a,
            None => {
                proof { lemma_first_bad_validator(vs@, k as int); reveal(accounts_applied); }
                return Err(GenesisError::BadAddress(v.address.clone()));
            },
        };
        let pubkey = match hex_of_str_exec(v.pubkey.as_str()) {
            Some(p) => p,
            None => {
                proof { lemma_first_bad_validator(vs@, k as int); reveal(accounts_applied); }
                return Err(GenesisError::BadPubkey(v.address.clone()));
            },
        };
        let stake = parse_u256_decimal(v.stake.as_str()).as_u64();
        let ghost m0 = pos.set_spec().members();
        let ghost pubkey_view = pubkey@;
        proof {
            assert(stake == entry_stake(vs@[k as int]));
            assert(vs@.take(k + 1).last() == vs@[k as int]);
        }
        match pos.register_validator(addr, pubkey, stake, v.commission) {
            Ok(()) => {},
            Err(e) => {
                proof { reveal(accounts_applied); }
                return Err(GenesisError::PoS(consensus_error_text(&e)));
            },
        }
        proof {
            assert(genesis_view(vs@[k as int]) == crate::consensus::validator::ValidatorView {
                address: addr.0@, pubkey: pubkey_view, stake, commission: v.commission, active: true, jailed_until: 0,
                slash_count: 0, uptime: 10000, last_active_epoch: 0 });
        }
        proof {
            let m1 = pos.set_spec().members();
            assert forall|j: int| 0 <= j < k + 1 implies has_address(m1, #[trigger] addr_of(vs@[j].address@)->0) by {
                let aj = addr_of(vs@[j].address@)->0;
                let nv = crate::consensus::validator::ValidatorView {
                    address: addr.0@, pubkey: pubkey_view, stake, commission: v.commission, active: true, jailed_until: 0,
                    slash_count: 0, uptime: 10000, last_active_epoch: 0 };
                assert(m1 == crate::consensus::validator::upsert(m0, nv));
                if j < k {
                    let w = choose|w: int| 0 <= w < m0.len() && (#[trigger] m0[w]).address == aj;
                    crate::consensus::validator::lemma_upsert_keeps(m0, w, nv);
                } else {
                    crate::consensus::validator::lemma_upsert_has(m0, nv);
                }
            }
        }
        k = k + 1;
    }
    proof {
        assert(vs@.take(k as int) =~= vs@);
        reveal(accounts_applied);
        if first_bad_validator(vs@) is Some {
            let w = choose|w: int| 0 <= w < vs@.len() && !validator_entry_ok(#[trigger] vs@[w]);
            assert(validator_entry_ok(vs@[w]));
        }
    }
    Ok(())
}

proof fn lemma_first_bad_account(es: Seq<GenesisAccount>, k: int)
    requires
        0 <= k < es.len(),
        !account_entry_ok(es[k]),
        forall|j: int| 0 <= j < k ==> account_entry_ok(#[trigger] es[j]),
    ensures first_bad_account(es) == Some(k),
{
    let w = choose|w: int| 0 <= w < es.len() && !account_entry_ok(#[trigger] es[w])
        && forall|j: int| 0 <= j < w ==> account_entry_ok(es[j]);
    if w < k { assert(account_entry_ok(es[w])); }
    if w > k { assert(account_entry_ok(es[k])); }
}

proof fn lemma_no_bad_account(es: Seq<GenesisAccount>)
    requires forall|j: int| 0 <= j < es.len() ==> account_entry_ok(#[trigger] es[j]),
    ensures first_bad_account(es) is None,
{
}

proof fn lemma_accounts_step(es: Seq<GenesisAccount>, i: int, before: Seq<(Address, Account)>, after: Seq<(Address, Account)>,
    orig: Seq<(Address, Account)>)
    requires
        0 <= i < es.len(),
        account_entry_ok(es[i]),
        forall|a: Seq<u8>| #[trigger] last_with(es, a, i) is Some ==> holds_entry(account_of(before, a), es[last_with(es, a, i)->0]),
        forall|a: Seq<u8>| #[trigger] last_with(es, a, i) is None ==> account_of(before, a) == account_of(orig, a),
        forall|x: Seq<u8>| x != addr_of(es[i].address@)->0 ==> #[trigger] account_of(after, x) == account_of(before, x),
        holds_entry(account_of(after, addr_of(es[i].address@)->0), es[i]),
    ensures
        forall|a: Seq<u8>| #[trigger] last_with(es, a, i + 1) is Some ==> holds_entry(account_of(after, a), es[last_with(es, a, i + 1)->0]),
        forall|a: Seq<u8>| #[trigger] last_with(es, a, i + 1) is None ==> account_of(after, a) == account_of(orig, a),
{
    let a0 = addr_of(es[i].address@)->0;
    assert forall|a: Seq<u8>| #[trigger] last_with(es, a, i + 1) is Some implies holds_entry(account_of(after, a), es[last_with(es, a, i + 1)->0]) by {
        if a != a0 {
            assert(last_with(es, a, i + 1) == last_with(es, a, i));
        } else {
            assert(last_with(es, a, i + 1) == Some(i));
        }
    }
    assert forall|a: Seq<u8>| #[trigger] last_with(es, a, i + 1) is None implies account_of(after, a) == account_of(orig, a) by {
        if a != a0 {
            assert(last_with(es, a, i + 1) == last_with(es, a, i));
        } else {
            assert(last_with(es, a, i + 1) == Some(i));
        }
    }
}

proof fn lemma_first_bad_validator(vs: Seq<GenesisValidator>, k: int)
    requires
        0 <= k < vs.len(),
        !validator_entry_ok(vs[k]),
        forall|j: int| 0 <= j < k ==> validator_entry_ok(#[trigger] vs[j]),
    ensures first_bad_validator(vs) == Some(k),
{
    let w = choose|w: int| 0 <= w < vs.len() && !validator_entry_ok(#[trigger] vs[w])
        && forall|j: int| 0 <= j < w ==> validator_entry_ok(vs[j]);
    if w < k { assert(validator_entry_ok(vs[w])); }
    if w > k { assert(validator_entry_ok(vs[k])); }
}

/// Whether the stakes a genesis file lists, added to what the proof of stake
/// already holds, fit its 64-bit stake counter (what `apply_genesis` needs).
pub fn genesis_stakes_fit(pos: &ProofOfStake, config: &GenesisConfig) -> (r: bool)
    ensures r == (pos.set_spec().total_stake + stake_sum(config.validators@) <= u64::MAX),
{
    let vs = &config.validators;
    let mut acc: u64 = pos.validator_set().total_stake;
    let mut i: usize = 0;
    proof { assert(vs@.take(0) =~= Seq::<GenesisValidator>::empty()); }
    while i < vs.len()
        invariant
            i <= vs@.len(),
            vs@ == config.validators@,
            acc == pos.set_spec().total_stake + stake_sum(vs@.take(i as int)),
        decreases vs@.len() - i,
    {
        let stake = parse_u256_decimal(vs[i].stake.as_str()).as_u64();
        proof {
            assert(stake == entry_stake(vs@[i as int]));
            lemma_stake_sum_prefix(vs@, i + 1);
        }
        match acc.checked_add(stake) {
            Some(x) => { acc = x; },
            None => {
                proof {
                    assert(stake_sum(vs@.take(i + 1)) == stake_sum(vs@.take(i as int)) + entry_stake(vs@[i as int]));
                    assert(stake_sum(vs@.take(i + 1)) <= stake_sum(vs@));
                    assert(vs@ == config.validators@);
                }
                return false;
            },
        }
        i = i + 1;
    }
    proof { assert(vs@.take(vs@.len() as int) =~= vs@); }
    true
}

proof fn lemma_stake_sum_prefix(vs: Seq<GenesisValidator>, i: int)
    requires 0 <= i <= vs.len(),
    ensures
        stake_sum(vs.take(i)) <= stake_sum(vs),
        i > 0 ==> stake_sum(vs.take(i)) == stake_sum(vs.take(i - 1)) + entry_stake(vs[i - 1]),
    decreases vs.len() - i,
{
    if i > 0 {
        assert(vs.take(i).drop_last() =~= vs.take(i - 1));
    }
    if i < vs.len() {
        lemma_stake_sum_prefix(vs, i + 1);
        assert(vs.take(i + 1).drop_last() =~= vs.take(i));
    } else {
        assert(vs.take(i) =~= vs);
    }
}

/// The name of a consensus error's variant.
pub open spec fn consensus_error_name(e: crate::consensus::ConsensusError) -> Seq<char> {
    match e {
        crate::consensus::ConsensusError::InvalidSignature => "InvalidSignature"@,
        crate::consensus::ConsensusError::UnknownValidator(_) => "UnknownValidator"@,
        crate::consensus::ConsensusError::InsufficientStake { .. } => "InsufficientStake"@,
        crate::consensus::ConsensusError::InvalidProposal(_) => "InvalidProposal"@,
        crate::consensus::ConsensusError::DuplicateVote => "DuplicateVote"@,
        crate::consensus::ConsensusError::InvalidVote(_) => "InvalidVote"@,
        crate::consensus::ConsensusError::NotReached => "NotReached"@,
        crate::consensus::ConsensusError::SlashingCondition(_) => "SlashingCondition"@,
        crate::consensus::ConsensusError::EpochMismatch { .. } => "EpochMismatch"@,
        crate::consensus::ConsensusError::NotLeader => "NotLeader"@,
    }
}

/// The name of a consensus error's variant.
fn consensus_error_text(e: &crate::consensus::ConsensusError) -> (r: String)
    ensures r@ == consensus_error_name(*e),
{
    match e {
        crate::consensus::ConsensusError::InvalidSignature => "InvalidSignature".to_owned(),
        crate::consensus::ConsensusError::UnknownValidator(_) => "UnknownValidator".to_owned(),
        crate::consensus::ConsensusError::InsufficientStake { .. } => "InsufficientStake".to_owned(),
        crate::consensus::ConsensusError::InvalidProposal(_) => "InvalidProposal".to_owned(),
        crate::consensus::ConsensusError::DuplicateVote => "DuplicateVote".to_owned(),
        crate::consensus::ConsensusError::InvalidVote(_) => "InvalidVote".to_owned(),
        crate::consensus::ConsensusError::NotReached => "NotReached".to_owned(),
        crate::consensus::ConsensusError::SlashingCondition(_) => "SlashingCondition".to_owned(),
        crate::consensus::ConsensusError::EpochMismatch { .. } => "EpochMismatch".to_owned(),
        crate::consensus::ConsensusError::NotLeader => "NotLeader".to_owned(),
    }
}


/// "0x" and the lowercase hex digits of the bytes.
pub open spec fn hex_text(b: Seq<u8>) -> Seq<char> {
    "0x"@ + hex_lower(b)
}

pub(crate) fn hex_text_string(b: &[u8]) -> (r: String)
    ensures r@ == hex_text(b@),
{
    let h = hex_encode(b);
    let mut v = str_to_chars("0x");
    let hc = str_to_chars(h.as_str());
    let ghost start = v@;
    let mut i: usize = 0;
    while i < hc.len()
        invariant i <= hc@.len(), v@ == start + hc@.take(i as int), start == "0x"@,
        decreases hc@.len() - i,
    {
        v.push(hc[i]);
        assert(v@ =~= start + hc@.take(i + 1));
        i = i + 1;
    }
    assert(hc@.take(i as int) =~= hc@);
    chars_to_string(v.as_slice())
}

/// Not empty in the sense of EIP-161.
pub open spec fn account_nonempty(a: Account) -> bool {
    !(a.nonce == 0 && a.balance.value() == 0 && a.code_hash.0@ == Seq::new(32, |i: int| 0u8))
}

/// The stored accounts that are not empty, in order.
pub open spec fn nonempty_accounts(s: Seq<(Address, Account)>) -> Seq<(Address, Account)>
    decreases s.len(),
{
    if s.len() == 0 {
        s
    } else if account_nonempty(s.last().1) {
        nonempty_accounts(s.drop_last()).push(s.last())
    } else {
        nonempty_accounts(s.drop_last())
    }
}

/// The genesis entry of a validator.
pub open spec fn exports_validator(g: GenesisValidator, v: ValidatorView) -> bool {
    g.address@ == hex_text(v.address) && g.pubkey@ == hex_text(v.pubkey)
        && g.stake@ == dec_digits(v.stake as nat) && g.commission == v.commission
}

/// The genesis entry of an account with code `code`.
pub open spec fn exports_account(g: GenesisAccount, a: Address, acct: Account, code: Seq<u8>) -> bool {
    &&& g.address@ == hex_text(a.0@)
    &&& g.balance@ == dec_digits(acct.balance.value() as nat)
    &&& g.storage@.len() == 0
    &&& g.nonce == acct.nonce
    &&& if code.len() == 0 { g.code is None } else { g.code matches Some(c) && c@ == hex_text(code) }
}

/// A genesis document of the state at `timestamp`: the non-empty accounts
/// (without storage) and the validators active in the set's epoch.
pub fn export_genesis_at(state: &StateDb, pos: &ProofOfStake, chain_id: u64, name: &str, timestamp: u64) -> (r: GenesisConfig)
    ensures
        r.chain_id == chain_id && r.timestamp == timestamp && r.name@ == name@,
        ({
            let active = eligible_of(pos.set_spec().members(), pos.set_spec().epoch);
            &&& r.validators@.len() == active.len()
            &&& forall|i: int| 0 <= i < active.len() ==> exports_validator(#[trigger] r.validators@[i], active[i])
        }),
        ({
            let kept = nonempty_accounts(state.view().accounts);
            &&& r.accounts@.len() == kept.len()
            &&& forall|i: int| 0 <= i < kept.len() ==> exports_account(#[trigger] r.accounts@[i], kept[i].0, kept[i].1,
                state.get_code_spec(kept[i].0.0@))
        }),
{
    let active = pos.validator_set().active_validators();
    let ghost av = Seq::new(active@.len(), |i: int| active@[i]@);
    let mut validators: Vec<GenesisValidator> = Vec::new();
    let mut i: usize = 0;
    while i < active.len()
        invariant
            i <= active@.len(),
            av == Seq::new(active@.len(), |q: int| active@[q]@),
            validators@.len() == i,
            forall|q: int| 0 <= q < i ==> exports_validator(#[trigger] validators@[q], av[q]),
        decreases active@.len() - i,
    {
        let v = active[i];
        let g = GenesisValidator {
            address: hex_text_string(v.address.0.as_slice()),
            pubkey: hex_text_string(v.pubkey.as_slice()),
            stake: chars_to_string(u64_to_decimal(v.stake).as_slice()),
            commission: v.commission,
        };
        validators.push(g);
        i = i + 1;
    }
    let all = state.all_accounts();
    let mut accounts: Vec<GenesisAccount> = Vec::new();
    let mut k: usize = 0;
    assert(all@.take(0) =~= Seq::<(Address, Account)>::empty());
    while k < all.len()
        invariant
            k <= all@.len(),
            all@ == state.view().accounts,
            accounts@.len() == nonempty_accounts(all@.take(k as int)).len(),
            forall|q: int| 0 <= q < accounts@.len() ==> exports_account(#[trigger] accounts@[q],
                nonempty_accounts(all@.take(k as int))[q].0, nonempty_accounts(all@.take(k as int))[q].1,
                state.get_code_spec(nonempty_accounts(all@.take(k as int))[q].0.0@)),
        decreases all@.len() - k,
    {
        assert(all@.take(k + 1).drop_last() =~= all@.take(k as int));
        assert(all@.take(k + 1).last() == all@[k as int]);
        let (addr, acct) = all[k];
        if !acct.is_empty() {
            let code = state.get_code(&addr);
            let code_hex = if code.len() == 0 { None } else { Some(hex_text_string(code.as_slice())) };
            let g = GenesisAccount {
                address: hex_text_string(addr.0.as_slice()),
                balance: acct.balance.to_decimal_string(),
                code: code_hex,
                storage: Vec::new(),
                nonce: acct.nonce,
            };
            accounts.push(g);
        }
        k = k + 1;
    }
    assert(all@.take(k as int) =~= all@);
    GenesisConfig { chain_id, timestamp, name: name.to_owned(), accounts, validators }
}

/// A genesis document of the state now.
pub fn export_genesis(state: &StateDb, pos: &ProofOfStake, chain_id: u64, name: &str) -> (r: GenesisConfig)
    ensures
        r.chain_id == chain_id && r.name@ == name@,
        ({
            let active = eligible_of(pos.set_spec().members(), pos.set_spec().epoch);
            &&& r.validators@.len() == active.len()
            &&& forall|i: int| 0 <= i < active.len() ==> exports_validator(#[trigger] r.validators@[i], active[i])
        }),
        ({
            let kept = nonempty_accounts(state.view().accounts);
            &&& r.accounts@.len() == kept.len()
            &&& forall|i: int| 0 <= i < kept.len() ==> exports_account(#[trigger] r.accounts@[i], kept[i].0, kept[i].1,
                state.get_code_spec(kept[i].0.0@))
        }),
{
    let now = crate::primitives::clock::unix_time_secs();
    export_genesis_at(state, pos, chain_id, name, now)
}

} // verus!
