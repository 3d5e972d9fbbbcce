//! The execution environment of a block (a DAG vertex) and the executor
//! that holds it with the account state, with the rules that place newly
//! created contracts.
use vstd::prelude::*;
use vstd::string::StringExecFns;
use crate::primitives::address::{Address, digest_tail, create_preimage, create2_preimage};
use crate::primitives::hashing::keccak256_spec;
use crate::primitives::types::U256;
use crate::evm::gas::{GasSchedule, GasMeter, berlin_spec, min_int};
use crate::evm::state::{StateDb, StateView, Account, account_of, empty_account, same_but_balance, u256_debug};
use crate::evm::receipt::{Receipt, ExecutionResult, ExecutionStatus, revert_reason_spec};
use crate::evm::precompiles::{
    PrecompileKind, PrecompileResult, precompile_number, precompile_address_spec, precompile_kinds, get_precompiles,
    word_gas, bn_pairing_gas, zkp_verify_gas, poseidon_gas, iso_parse_gas, iso_validate_gas,
};
use crate::evm::modexp::modexp_input_fits;
use crate::evm::EvmError;
use crate::primitives::transaction::{Transaction, TxType};
use crate::primitives::types::u256_modulus;
use crate::primitives::text::{u64_to_decimal, chars_to_string, dec_digits};

verus! {

/// The environment transactions run in.
pub struct EvmEnv {
    /// Chain id.
    pub chain_id: u64,
    /// Current block number (the vertex height in the DAG).
    pub number: u64,
    /// Timestamp.
    pub timestamp: u64,
    /// Coinbase (the validator's address).
    pub coinbase: Address,
    /// Gas limit of the block.
    pub gas_limit: u64,
    /// Base fee per gas (EIP-1559).
    pub base_fee_per_gas: U256,
    /// Hash of the previous block (vertex).
    pub prev_hash: crate::primitives::types::Hash,
    /// Difficulty (zero after the merge).
    pub difficulty: U256,
    /// Randomness beacon value (PREVRANDAO).
    pub prevrandao: crate::primitives::types::Hash,
}

/// The test network's environment: chain 1337, block 0 at time 0, a zero
/// coinbase, a 30 000 000 gas limit, a base fee of one gwei, zero hashes and
/// zero difficulty.
pub open spec fn default_env_spec(e: EvmEnv) -> bool {
    &&& e.chain_id == 1337 && e.number == 0 && e.timestamp == 0
    &&& e.coinbase.0@ == Seq::new(20, |i: int| 0u8)
    &&& e.gas_limit == 30_000_000
    &&& e.base_fee_per_gas.value() == 1_000_000_000
    &&& e.prev_hash.0@ == Seq::new(32, |i: int| 0u8)
    &&& e.difficulty.value() == 0
    &&& e.prevrandao.0@ == Seq::new(32, |i: int| 0u8)
}

impl Default for EvmEnv {
    fn default() -> (r: Self)
        ensures default_env_spec(r),
    {
        let base = U256::from_u64(1_000_000_000);
        let diff = U256::zero();
        EvmEnv {
            chain_id: 1337,
            number: 0,
            timestamp: 0,
            coinbase: Address::zero(),
            gas_limit: 30_000_000,
            base_fee_per_gas: base,
            prev_hash: crate::primitives::types::Hash::zero(),
            difficulty: diff,
            prevrandao: crate::primitives::types::Hash::zero(),
        }
    }
}

/// The executor: the account state, the environment and the gas schedule.
pub struct Executor {
    state: StateDb,
    env: EvmEnv,
    gas_schedule: GasSchedule,
}

impl Executor {
    pub closed spec fn env_spec(&self) -> EvmEnv {
        self.env
    }

    pub closed spec fn state_spec(&self) -> StateView {
        self.state.view()
    }

    pub closed spec fn schedule_spec(&self) -> GasSchedule {
        self.gas_schedule
    }

    pub closed spec fn code_spec(&self) -> Seq<(crate::primitives::types::Hash, Vec<u8>)> {
        self.state.code_view()
    }

    /// The length of the code an account runs.
    pub closed spec fn code_len(&self, a: Seq<u8>) -> nat {
        self.state.get_code_spec(a).len()
    }

    proof fn lemma_code_len_kept(&self, old_ex: &Self, a: Seq<u8>)
        requires
            self.state.code_view() == old_ex.state.code_view(),
            account_of(self.state.view().accounts, a).code_hash == account_of(old_ex.state.view().accounts, a).code_hash,
        ensures self.code_len(a) == old_ex.code_len(a),
    {
    }

    /// An executor over a state and an environment, with the default gas
    /// schedule.
    pub fn new(state: StateDb, env: EvmEnv) -> (r: Self)
        ensures r.env_spec() == env, r.state_spec() == state.view(), r.schedule_spec() == berlin_spec(),
    {
        Executor { state, env, gas_schedule: GasSchedule::default() }
    }

    /// The current environment.
    pub fn env(&self) -> (r: &EvmEnv)
        ensures *r == self.env_spec(),
    {
        &self.env
    }

    /// Replaces the environment for a new block (vertex).
    pub fn set_env(&mut self, env: EvmEnv)
        ensures
            final(self).env_spec() == env,
            final(self).state_spec() == old(self).state_spec(),
            final(self).schedule_spec() == old(self).schedule_spec(),
    {
        self.env = env;
    }

    /// The account state.
    pub fn state(&self) -> (r: &StateDb)
        ensures r.view() == self.state_spec(),
    {
        &self.state
    }

    /// Runs code with the stand-in interpreter: it charges three gas a byte
    /// of code and reverts, using all its gas, when that is more than given.
    pub fn execute_code(&self, code: &[u8], gas_limit: u64) -> (r: Result<ExecutionResult, EvmError>)
        ensures r matches Ok(res) && code_outcome(code@.len(), gas_limit, res),
    {
        let mut meter = GasMeter::new(gas_limit, self.gas_schedule);
        let n: u64 = code.len() as u64;
        let base_cost: u64 = if n > 0x5555_5555_5555_5555u64 { u64::MAX } else { n * 3 };
        if meter.consume(base_cost).is_err() {
            return Ok(ExecutionResult::revert(gas_limit, Vec::new()));
        }
        let used = meter.used();
        let refunded = meter.refunded();
        Ok(ExecutionResult::success(used, refunded, Vec::new(), Vec::new()))
    }

    /// Executes a call: a precompile runs on the data; otherwise the value
    /// moves to the callee and its code (if any) runs.
    pub fn execute_call(&mut self, sender: &Address, to: &Address, value: U256, data: &[u8], gas: u64) -> (r: Result<ExecutionResult, EvmError>)
        requires
            precompile_at_spec(to.0@) matches Some(k) ==> precompile_fits(k, data@, old(self).schedule_spec()),
        ensures
            final(self).env_spec() == old(self).env_spec(),
            final(self).schedule_spec() == old(self).schedule_spec(),
            final(self).code_spec() == old(self).code_spec(),
            precompile_at_spec(to.0@) is Some ==> final(self).state_spec() == old(self).state_spec(),
            precompile_at_spec(to.0@) is Some ==> (r matches Ok(res) ==> res.success && res.gas_used <= gas
                && res.gas_refunded == 0 && res.logs@.len() == 0 && res.created_address is None),
            precompile_at_spec(to.0@) is None ==> ({
                let s0 = old(self).state_spec();
                let b_from = account_of(s0.accounts, sender.0@).balance.value();
                let b_to = account_of(s0.accounts, to.0@).balance.value();
                if value.value() > 0 && b_from < value.value() {
                    r matches Err(EvmError::InsufficientBalance { .. }) && final(self).state_spec() == s0
                } else if value.value() > 0 && sender.0@ != to.0@ && b_to + value.value() >= u256_modulus() {
                    r matches Err(EvmError::StateError(_))
                } else {
                    &&& transferred(s0, final(self).state_spec(), sender.0@, to.0@, value.value())
                    &&& r matches Ok(res) && code_outcome(old(self).code_len(to.0@), gas, res)
                }
            }),
    {
        match precompile_at(to) {
            Some(k) => {
                let p = run_precompile(k, data, gas, &self.gas_schedule)?;
                if p.gas_used > gas {
                    return Err(EvmError::OutOfGas { used: p.gas_used, limit: gas });
                }
                return Ok(ExecutionResult::success(p.gas_used, 0, p.output, Vec::new()));
            },
            None => {},
        }
        let ghost s0 = self.state.view();
        if !value.is_zero() {
            self.state.sub_balance(sender, value)?;
            let ghost s1 = self.state.view();
            match self.state.add_balance(to, value) {
                Ok(()) => {},
                Err(e) => {
                    proof {
                        if sender.0@ == to.0@ {
                            assert(account_of(s1.accounts, to.0@).balance.value() + value.value() < u256_modulus()) by {
                                account_of(s0.accounts, to.0@).balance.lemma_value_bounds();
                            }
                        }
                    }
                    return Err(e);
                },
            }
        }
        proof {
            if value.value() == 0 {
                assert forall|x: Seq<u8>| #[trigger] account_of(self.state.view().accounts, x) == account_of(s0.accounts, x) by {}
            }
        }
        let code = self.state.get_code(to);
        proof { self.lemma_code_len_kept(old(self), to.0@); }
        if code.len() == 0 {
            return Ok(ExecutionResult::success(0, 0, Vec::new(), Vec::new()));
        }
        self.execute_code(code.as_slice(), gas)
    }

    /// Executes a contract creation: the new account at the CREATE address
    /// of the sender's nonce before this transaction, the value moved to it,
    /// the init code run, and the code it returns stored.
    pub fn execute_create(&mut self, sender: &Address, tx: &Transaction, gas: u64) -> (r: Result<ExecutionResult, EvmError>)
        requires account_of(old(self).state_spec().accounts, sender.0@).nonce >= 1,
        ensures
            final(self).env_spec() == old(self).env_spec(),
            final(self).schedule_spec() == old(self).schedule_spec(),
            ({
                let s0 = old(self).state_spec();
                let s1 = final(self).state_spec();
                let addr = create_address_spec(sender.0@, (account_of(s0.accounts, sender.0@).nonce - 1) as u64);
                let e = account_of(s0.accounts, addr);
                if !(e.nonce == 0 && e.balance.value() == 0 && e.code_hash.0@ == Seq::new(32, |i: int| 0u8)) {
                    r matches Err(EvmError::CreateFailed(m)) && m@ == "Contract address already exists"@ && s1 == s0
                } else if account_of(s0.accounts, sender.0@).balance.value() < tx.value.value() {
                    r is Err
                } else {
                    &&& addr != sender.0@
                    &&& s1.storage == s0.storage
                    &&& forall|x: Seq<u8>| x != sender.0@ && x != addr ==> #[trigger] account_of(s1.accounts, x) == account_of(s0.accounts, x)
                    &&& same_but_balance(account_of(s1.accounts, sender.0@), account_of(s0.accounts, sender.0@))
                    &&& account_of(s1.accounts, sender.0@).balance.value() == account_of(s0.accounts, sender.0@).balance.value() - tx.value.value()
                    &&& account_of(s1.accounts, addr).nonce == 1
                    &&& account_of(s1.accounts, addr).balance.value() == tx.value.value()
                    &&& r matches Ok(res) && create_outcome(tx.data@.len(), gas, addr, account_of(s1.accounts, addr), res)
                }
            }),
    {
        let ghost s0 = self.state.view();
        let nonce = self.state.get_nonce(sender) - 1;
        let contract_addr = self.calculate_create_address(sender, nonce);
        let existing = self.state.get_account(&contract_addr);
        if !existing.is_empty() {
            return Err(EvmError::CreateFailed("Contract address already exists".to_owned()));
        }
        proof {
            if contract_addr.0@ == sender.0@ { assert(existing.nonce >= 1); }
        }
        let zero = U256::zero();
        self.state.set_account(contract_addr, Account {
            nonce: 1,
            balance: zero,
            code_hash: crate::primitives::types::Hash::zero(),
            storage_root: crate::primitives::types::Hash::zero(),
        });
        let ghost s1 = self.state.view();
        if !tx.value.is_zero() {
            self.state.sub_balance(sender, tx.value)?;
            let ghost s2 = self.state.view();
            match self.state.add_balance(&contract_addr, tx.value) {
                Ok(()) => {},
                Err(e) => {
                    proof { tx.value.lemma_value_bounds(); }
                    return Err(e);
                },
            }
        }
        let result = self.execute_code(tx.data.as_slice(), gas)?;
        if result.success {
            let code = result.output;
            if code.len() > 24576 {
                return Err(EvmError::CreateFailed("Contract code size exceeds limit".to_owned()));
            }
            if code.len() > 0 && code[0] == 0xEF {
                return Err(EvmError::CreateFailed("Contract code starts with 0xEF".to_owned()));
            }
            let deposit: u64 = code.len() as u64 * 200;
            assert(code@ =~= Seq::<u8>::empty());
            self.state.set_code(&contract_addr, code);
            Ok(ExecutionResult {
                success: true,
                gas_used: result.gas_used + deposit,
                gas_refunded: result.gas_refunded,
                output: Vec::new(),
                logs: result.logs,
                created_address: Some(contract_addr),
            })
        } else {
            Ok(result)
        }
    }

    /// The gas price a transaction pays under the current base fee.
    fn calculate_gas_price(&self, tx: &Transaction) -> (r: Result<U256, EvmError>)
        ensures
            match effective_price(*tx, self.env.base_fee_per_gas.value()) {
                Some(p) => r matches Ok(x) && x.value() == p,
                None => r matches Err(EvmError::StateError(m)) && m@ == "Max fee per gas below base fee"@,
            },
    {
        match tx.tx_type {
            TxType::DynamicFee => {
                let base = self.env.base_fee_per_gas;
                if tx.gas_price.lt(&base) {
                    return Err(EvmError::StateError("Max fee per gas below base fee".to_owned()));
                }
                let room = tx.gas_price.checked_sub(&base).unwrap();
                let tip = match tx.max_priority_fee { Some(p) => p, None => U256::zero() };
                let prio = tip.min(room);
                let price = base.checked_add(&prio);
                proof { tx.gas_price.lemma_value_bounds(); }
                Ok(price.unwrap())
            },
            _ => Ok(tx.gas_price),
        }
    }

    /// Executes transactions one after another, each on the state the
    /// previous one left.
    pub fn execute_batch(&mut self, txs: Vec<Transaction>) -> (r: Vec<Result<Receipt, EvmError>>)
        requires
            forall|i: int| 0 <= i < txs@.len() ==> tx_admissible(old(self).env_spec(), old(self).schedule_spec(), #[trigger] txs@[i]),
        ensures
            r@.len() == txs@.len(),
            final(self).env_spec() == old(self).env_spec(),
            final(self).schedule_spec() == old(self).schedule_spec(),
            forall|i: int| 0 <= i < r@.len() ==> (#[trigger] r@[i] matches Ok(rc) ==>
                rc.tx_hash.0@ == crate::primitives::hashing::blake3_spec(crate::primitives::transaction::full_encoding(txs@[i]))),
    {
        let mut out: Vec<Result<Receipt, EvmError>> = Vec::new();
        let mut i: usize = 0;
        while i < txs.len()
            invariant
                i <= txs@.len(),
                out@.len() == i,
                self.env_spec() == old(self).env_spec(),
                self.schedule_spec() == old(self).schedule_spec(),
                forall|j: int| 0 <= j < txs@.len() ==> tx_admissible(old(self).env_spec(), old(self).schedule_spec(), #[trigger] txs@[j]),
                forall|j: int| 0 <= j < i ==> (#[trigger] out@[j] matches Ok(rc) ==>
                    rc.tx_hash.0@ == crate::primitives::hashing::blake3_spec(crate::primitives::transaction::full_encoding(txs@[j]))),
            decreases txs@.len() - i,
        {
            assert(tx_admissible(old(self).env_spec(), old(self).schedule_spec(), txs@[i as int]));
            let res = self.execute_tx(&txs[i]);
            out.push(res);
            i = i + 1;
        }
        out
    }

    /// Checks a transaction before it runs: its signer, intrinsic gas and
    /// gas price, or the first reason to refuse it.
    #[verifier::rlimit(40)]
    fn validate_tx(&self, tx: &Transaction) -> (r: Result<(Address, u64, U256), EvmError>)
        requires
            tx.gas_price.value() * tx.gas_limit + tx.value.value() < u256_modulus(),
            tx.tx_type != TxType::DynamicFee ==> tx.gas_price.value() >= self.env_spec().base_fee_per_gas.value(),
            self.schedule_spec().intrinsic_gas_spec(tx.data@, tx.to is None, 0) <= u64::MAX,
        ensures
            match tx_rejection(self.env_spec(), self.schedule_spec(), self.state_spec(), *tx) {
                Some(rj) => r matches Err(e) && reported_as(e, rj),
                None => r matches Ok(v) && v.0.0@ == sender_of(*tx).unwrap()
                    && v.1 == self.schedule_spec().intrinsic_gas_spec(tx.data@, tx.to is None, 0)
                    && v.2.value() == effective_price(*tx, self.env_spec().base_fee_per_gas.value()).unwrap(),
            },
    {
        if tx.gas_limit > self.env.gas_limit {
            return Err(EvmError::OutOfGas { used: tx.gas_limit, limit: self.env.gas_limit });
        }
        if tx.chain_id != self.env.chain_id {
            return Err(EvmError::StateError(chain_mismatch_message(self.env.chain_id, tx.chain_id)));
        }
        let sender = match tx.recover_sender() {
            Ok(a) => a,
            Err(_) => { return Err(EvmError::InvalidSignature); },
        };
        let is_create = tx.to.is_none();
        let intrinsic = self.gas_schedule.intrinsic_gas(tx.data.as_slice(), is_create, 0);
        if tx.gas_limit < intrinsic {
            return Err(EvmError::OutOfGas { used: intrinsic, limit: tx.gas_limit });
        }
        let price = self.calculate_gas_price(tx)?;
        proof {
            lemma_price_bound(*tx, self.env.base_fee_per_gas.value());
            assert(price.value() * tx.gas_limit <= tx.gas_price.value() * tx.gas_limit) by (nonlinear_arith)
                requires price.value() <= tx.gas_price.value(), 0 <= price.value();
            tx.value.lemma_value_bounds();
        }
        let max_fee = price.checked_mul_u64(tx.gas_limit).unwrap();
        let total = max_fee.checked_add(&tx.value).unwrap();
        let balance = self.state.get_balance(&sender);
        if balance.lt(&total) {
            return Err(EvmError::InsufficientBalance { required: u256_debug(&total), available: u256_debug(&balance) });
        }
        let expected = self.state.get_nonce(&sender);
        if tx.nonce != expected {
            return Err(EvmError::NonceMismatch { expected, got: tx.nonce });
        }
        Ok((sender, intrinsic, price))
    }

    /// Executes a transaction: it is checked (gas limit, chain, signature,
    /// intrinsic gas, fee price, balance, nonce, in that order, each failure
    /// leaving the state as it was), the sender pays the whole gas limit up
    /// front and its nonce goes up, the call or creation runs (undone when it
    /// reverts or fails), the unused gas is paid back and the coinbase gets
    /// the part of the price above the base fee.
    pub fn execute_tx(&mut self, tx: &Transaction) -> (r: Result<Receipt, EvmError>)
        requires
            tx_admissible(old(self).env_spec(), old(self).schedule_spec(), *tx),
        ensures
            final(self).env_spec() == old(self).env_spec(),
            final(self).schedule_spec() == old(self).schedule_spec(),
            tx_rejection(old(self).env_spec(), old(self).schedule_spec(), old(self).state_spec(), *tx) matches Some(rj)
                ==> (r matches Err(e) && reported_as(e, rj)) && final(self).state_spec() == old(self).state_spec(),
            r matches Ok(rc) ==> tx_rejection(old(self).env_spec(), old(self).schedule_spec(), old(self).state_spec(), *tx) is None
                && tx_receipt_ok(old(self).env_spec(), old(self).schedule_spec(), old(self).state_spec(), final(self).state_spec(), *tx, rc),
    {
        let (sender, intrinsic, price) = self.validate_tx(tx)?;
        self.run_tx(tx, &sender, intrinsic, price)
    }

    /// Runs the call or creation of a transaction whose fee is paid, and
    /// writes its receipt: a success keeps its effects, a revert or failure
    /// is undone.
    #[verifier::rlimit(60)]
    #[verifier::spinoff_prover]
    fn run_body(&mut self, tx: &Transaction, sender: &Address, intrinsic: u64, price: U256) -> (r: (Receipt, u64))
        requires
            intrinsic <= tx.gas_limit,
            account_of(old(self).state_spec().accounts, sender.0@).nonce >= 1,
            tx.to matches Some(t) && precompile_at_spec(t.0@) matches Some(k) ==> precompile_fits(k, tx.data@, old(self).schedule_spec()),
        ensures
            final(self).env_spec() == old(self).env_spec(),
            final(self).schedule_spec() == old(self).schedule_spec(),
            ({
                let (rc, g) = r;
                let a0 = account_of(old(self).state_spec().accounts, sender.0@);
                let a1 = account_of(final(self).state_spec().accounts, sender.0@);
                &&& rc.tx_hash.0@ == crate::primitives::hashing::blake3_spec(crate::primitives::transaction::full_encoding(*tx))
                &&& rc.vertex_hash == old(self).env_spec().prev_hash
                &&& rc.effective_gas_price == price
                &&& rc.gas_used == g && intrinsic <= g <= tx.gas_limit
                &&& rc.status == ExecutionStatus::Failure ==> g == tx.gas_limit
                &&& same_but_balance(a1, a0)
                &&& a1.balance.value() == a0.balance.value()
                    - (if rc.status == ExecutionStatus::Success { value_moved(*tx, sender.0@) } else { 0 })
                &&& rc.status != ExecutionStatus::Success ==> final(self).state_spec() == old(self).state_spec()
                &&& forall|x: Seq<u8>| x != sender.0@ && (rc.status != ExecutionStatus::Success
                        || x != touched_by(*tx, sender.0@, (a0.nonce - 1) as u64))
                    ==> #[trigger] account_of(final(self).state_spec().accounts, x) == account_of(old(self).state_spec().accounts, x)
            }),
    {
        let ghost s_paid = self.state.view();
        let snap = self.state.snapshot();
        let gas_avail = tx.gas_limit - intrinsic;
        let result = match &tx.to {
            None => self.execute_create(sender, tx, gas_avail),
            Some(to) => self.execute_call(sender, to, tx.value, tx.data.as_slice(), gas_avail),
        };
        let tx_hash = tx.hash();
        let prev = self.env.prev_hash;
        match result {
            Ok(res) => {
                if res.success {
                    let g = intrinsic + res.gas_used - res.gas_refunded;
                    let mut rc = Receipt::success(tx_hash, prev, g, price, res.logs);
                    rc.contract_address = res.created_address;
                    (rc, g)
                } else {
                    self.state.rollback(snap);
                    let reason = match res.revert_reason() { Some(t) => t, None => String::new() };
                    let g = intrinsic + res.gas_used;
                    (Receipt::revert(tx_hash, prev, g, price, reason), g)
                }
            },
            Err(_) => {
                self.state.rollback(snap);
                (Receipt::failure(tx_hash, prev, tx.gas_limit, price), tx.gas_limit)
            },
        }
    }

    /// Pays back the unused gas to the sender and the part of the price
    /// above the base fee to the coinbase.
    #[verifier::rlimit(40)]
    fn settle(&mut self, sender: &Address, price: U256, gas_limit: u64, gas_used: u64) -> (r: Result<(), EvmError>)
        requires
            gas_used <= gas_limit,
            old(self).env_spec().base_fee_per_gas.value() <= price.value(),
            price.value() * gas_limit < u256_modulus(),
        ensures
            final(self).env_spec() == old(self).env_spec(),
            final(self).schedule_spec() == old(self).schedule_spec(),
            r is Ok ==> ({
                let a0 = account_of(old(self).state_spec().accounts, sender.0@);
                let a1 = account_of(final(self).state_spec().accounts, sender.0@);
                &&& same_but_balance(a1, a0)
                &&& sender.0@ != old(self).env_spec().coinbase.0@
                    ==> a1.balance.value() == a0.balance.value() + price.value() * (gas_limit - gas_used)
                &&& sender.0@ != old(self).env_spec().coinbase.0@
                    ==> account_of(final(self).state_spec().accounts, old(self).env_spec().coinbase.0@).balance.value()
                        == account_of(old(self).state_spec().accounts, old(self).env_spec().coinbase.0@).balance.value()
                            + price.value() * gas_used - old(self).env_spec().base_fee_per_gas.value() * gas_used
            }),
    {
        proof {
            assert(price.value() * (gas_limit - gas_used) <= price.value() * gas_limit) by (nonlinear_arith)
                requires gas_used <= gas_limit, 0 <= price.value();
            assert(price.value() * gas_used <= price.value() * gas_limit) by (nonlinear_arith)
                requires gas_used <= gas_limit, 0 <= price.value();
            assert(self.env.base_fee_per_gas.value() * gas_used <= price.value() * gas_used) by (nonlinear_arith)
                requires self.env.base_fee_per_gas.value() <= price.value(), 0 <= gas_used;
            self.env.base_fee_per_gas.lemma_value_bounds();
        }
        let refund = price.checked_mul_u64(gas_limit - gas_used).unwrap();
        self.state.add_balance(sender, refund)?;
        let fee = price.checked_mul_u64(gas_used).unwrap();
        let base_part = self.env.base_fee_per_gas.checked_mul_u64(gas_used).unwrap();
        let priority = fee.checked_sub(&base_part).unwrap();
        let coinbase = self.env.coinbase;
        self.state.add_balance(&coinbase, priority)?;
        Ok(())
    }

    /// Runs a transaction that passed its checks.
    #[verifier::rlimit(60)]
    fn run_tx(&mut self, tx: &Transaction, sender: &Address, intrinsic: u64, price: U256) -> (r: Result<Receipt, EvmError>)
        requires
            tx_rejection(old(self).env_spec(), old(self).schedule_spec(), old(self).state_spec(), *tx) is None,
            sender.0@ == sender_of(*tx).unwrap(),
            intrinsic == old(self).schedule_spec().intrinsic_gas_spec(tx.data@, tx.to is None, 0),
            price.value() == effective_price(*tx, old(self).env_spec().base_fee_per_gas.value()).unwrap(),
            tx.gas_price.value() * tx.gas_limit + tx.value.value() < u256_modulus(),
            tx.tx_type != TxType::DynamicFee ==> tx.gas_price.value() >= old(self).env_spec().base_fee_per_gas.value(),
            tx.nonce < u64::MAX,
            tx.to matches Some(t) && precompile_at_spec(t.0@) matches Some(k) ==> precompile_fits(k, tx.data@, old(self).schedule_spec()),
        ensures
            final(self).env_spec() == old(self).env_spec(),
            final(self).schedule_spec() == old(self).schedule_spec(),
            r matches Ok(rc) ==> tx_receipt_ok(old(self).env_spec(), old(self).schedule_spec(), old(self).state_spec(), final(self).state_spec(), *tx, rc),
    {
        let ghost s0 = self.state.view();
        let ghost b0 = account_of(s0.accounts, sender.0@).balance.value();
        proof {
            lemma_price_bound(*tx, self.env.base_fee_per_gas.value());
            assert(price.value() * tx.gas_limit <= tx.gas_price.value() * tx.gas_limit) by (nonlinear_arith)
                requires price.value() <= tx.gas_price.value(), 0 <= price.value();
            tx.value.lemma_value_bounds();
        }
        let max_fee = price.checked_mul_u64(tx.gas_limit).unwrap();
        let balance = self.state.get_balance(sender);
        let after_fee = balance.checked_sub(&max_fee).unwrap();
        self.state.set_balance(sender, after_fee);
        self.state.increment_nonce(sender);
        let ghost b1 = account_of(self.state.view().accounts, sender.0@).balance.value();
        let (receipt, gas_used) = self.run_body(tx, sender, intrinsic, price);
        let ghost b2 = account_of(self.state.view().accounts, sender.0@).balance.value();
        let ghost moved: int = if receipt.status == ExecutionStatus::Success { value_moved(*tx, sender.0@) } else { 0 };
        let ghost cb = self.env.coinbase.0@;
        let ghost c2 = account_of(self.state.view().accounts, cb).balance.value();
        self.settle(sender, price, tx.gas_limit, gas_used)?;
        proof {
            let pr = price.value();
            let base = self.env.base_fee_per_gas.value();
            assert(b1 == b0 - pr * tx.gas_limit);
            assert(b2 == b1 - moved);
            assert(pr * tx.gas_limit == pr * gas_used + pr * (tx.gas_limit - gas_used)) by (nonlinear_arith);
            assert(pr * gas_used - base * gas_used == (pr - base) * gas_used) by (nonlinear_arith);
            if sender.0@ != cb && (receipt.status != ExecutionStatus::Success
                || cb != touched_by(*tx, sender.0@, account_of(s0.accounts, sender.0@).nonce)) {
                assert(c2 == account_of(s0.accounts, cb).balance.value());
            }
        }
        Ok(receipt)
    }

    /// The address of a contract created with CREATE by `sender` at
    /// `nonce`: the last twenty bytes of the Keccak-256 hash of
    /// RLP([sender, nonce]).
    pub fn calculate_create_address(&self, sender: &Address, nonce: u64) -> (r: Address)
        ensures r.0@ == digest_tail(keccak256_spec(create_preimage(sender.0@, nonce))),
    {
        Address::create_contract_address(sender, nonce)
    }

    /// The address of a contract created with CREATE2: the last twenty
    /// bytes of the Keccak-256 hash of 0xff ‖ sender ‖ salt ‖ init code hash.
    pub fn calculate_create2_address(sender: &Address, salt: &[u8; 32], init_code_hash: &[u8; 32]) -> (r: Address)
        ensures r.0@ == digest_tail(keccak256_spec(create2_preimage(sender.0@, salt@, init_code_hash@))),
    {
        let h = crate::primitives::types::Hash::new(*init_code_hash);
        Address::create2_contract_address(sender, salt, &h)
    }
}

/// The precompile whose input a call may hand it: the bounds under which
/// its gas fits a 64-bit counter.
pub open spec fn precompile_fits(k: PrecompileKind, input: Seq<u8>, sc: GasSchedule) -> bool {
    match k {
        PrecompileKind::Identity => input.len() + 31 <= u64::MAX && word_gas(input.len(), sc.identity_base, sc.identity_word) <= u64::MAX,
        PrecompileKind::Sha256 => input.len() + 31 <= u64::MAX && word_gas(input.len(), sc.sha256_base, sc.sha256_word) <= u64::MAX,
        PrecompileKind::Ripemd160 => input.len() + 31 <= u64::MAX && word_gas(input.len(), sc.ripemd160_base, sc.ripemd160_word) <= u64::MAX,
        PrecompileKind::Modexp => modexp_input_fits(input),
        PrecompileKind::BnPairing => bn_pairing_gas(input.len(), sc) <= u64::MAX,
        PrecompileKind::ZkpVerify => input.len() >= 224 ==> zkp_verify_gas(input.len(), sc) <= u64::MAX,
        PrecompileKind::PoseidonHash => poseidon_gas(input.len()) <= u64::MAX,
        PrecompileKind::Iso20022Parse => iso_parse_gas(input.len(), sc) <= u64::MAX,
        PrecompileKind::Iso20022Validate => iso_validate_gas(input.len(), sc) <= u64::MAX,
        PrecompileKind::ZkpBatchVerify => input.len() >= 4 ==> sc.zkp_verify_base * ((input[0] as int) * 16777216
            + (input[1] as int) * 65536 + (input[2] as int) * 256 + input[3] as int) * 60 <= u64::MAX,
        _ => true,
    }
}

/// Runs the precompile of a kind.
fn run_precompile(k: PrecompileKind, input: &[u8], gas_limit: u64, sc: &GasSchedule) -> (r: Result<PrecompileResult, EvmError>)
    requires precompile_fits(k, input@, *sc),
{
    match k {
        PrecompileKind::Ecrecover => crate::evm::precompiles::ecrecover(input, gas_limit, sc),
        PrecompileKind::Sha256 => crate::evm::precompiles::sha256(input, gas_limit, sc),
        PrecompileKind::Ripemd160 => crate::evm::precompiles::ripemd160(input, gas_limit, sc),
        PrecompileKind::Identity => crate::evm::precompiles::identity(input, gas_limit, sc),
        PrecompileKind::Modexp => crate::evm::modexp::modexp(input, gas_limit, sc),
        PrecompileKind::BnAdd => crate::evm::precompiles::bn_add(input, gas_limit, sc),
        PrecompileKind::BnMul => crate::evm::precompiles::bn_mul(input, gas_limit, sc),
        PrecompileKind::BnPairing => crate::evm::precompiles::bn_pairing(input, gas_limit, sc),
        PrecompileKind::Blake2f => crate::evm::precompiles::blake2f(input, gas_limit, sc),
        PrecompileKind::ZkpVerify => crate::evm::precompiles::zkp_verify(input, gas_limit, sc),
        PrecompileKind::ZkpBatchVerify => crate::evm::precompiles::zkp_batch_verify(input, gas_limit, sc),
        PrecompileKind::Iso20022Parse => crate::evm::precompiles::iso20022_parse(input, gas_limit, sc),
        PrecompileKind::Iso20022Validate => crate::evm::precompiles::iso20022_validate(input, gas_limit, sc),
        PrecompileKind::DagGetVertex => crate::evm::precompiles::dag_get_vertex(input, gas_limit, sc),
        PrecompileKind::PoseidonHash => crate::evm::precompiles::poseidon_hash(input, gas_limit, sc),
    }
}

proof fn lemma_precompile_address_injective(k1: PrecompileKind, k2: PrecompileKind)
    requires precompile_address_spec(precompile_number(k1)) == precompile_address_spec(precompile_number(k2)),
    ensures k1 == k2,
{
    let n1 = precompile_number(k1);
    let n2 = precompile_number(k2);
    let a1 = precompile_address_spec(n1);
    let a2 = precompile_address_spec(n2);
    assert(n1 < 65536 && n2 < 65536);
    assert(a1[18] == a2[18] && a1[19] == a2[19]);
    assert(a1[19] as int == n1 % 256 && a2[19] as int == n2 % 256);
    assert(a1[18] as int == (n1 / 256) % 256 && a2[18] as int == (n2 / 256) % 256);
    assert(n1 == (n1 / 256) * 256 + n1 % 256);
    assert(n2 == (n2 / 256) * 256 + n2 % 256);
    assert(n1 == n2);
}

/// The precompile at an address, if one sits there.
pub open spec fn precompile_at_spec(a: Seq<u8>) -> Option<PrecompileKind> {
    if exists|i: int| 0 <= i < 15 && a == precompile_address_spec(precompile_number(#[trigger] precompile_kinds()[i])) {
        Some(precompile_kinds()[choose|i: int| 0 <= i < 15 && a == precompile_address_spec(precompile_number(#[trigger] precompile_kinds()[i]))])
    } else {
        None
    }
}

/// The precompile at an address, if one sits there.
pub fn precompile_at(a: &Address) -> (r: Option<PrecompileKind>)
    ensures
        r matches Some(k) ==> a.0@ == precompile_address_spec(precompile_number(k)),
        r == precompile_at_spec(a.0@),
{
    let table = get_precompiles();
    let mut i: usize = 0;
    while i < table.len()
        invariant
            table@.len() == 15, i <= 15,
            forall|j: int| 0 <= j < 15 ==> (#[trigger] table@[j]).1 == precompile_kinds()[j],
            forall|j: int| 0 <= j < 15 ==> (#[trigger] table@[j]).0.0@ == precompile_address_spec(precompile_number(table@[j].1)),
            forall|j: int| 0 <= j < i ==> a.0@ != precompile_address_spec(precompile_number(#[trigger] precompile_kinds()[j])),
        decreases 15 - i,
    {
        if crate::primitives::types::bytes_eq(&table[i].0.0, &a.0) {
            proof {
                assert(table@[i as int].0.0@ == a.0@);
                assert(precompile_kinds()[i as int] == table@[i as int].1);
                let j = choose|j: int| 0 <= j < 15 && a.0@ == precompile_address_spec(precompile_number(#[trigger] precompile_kinds()[j]));
                lemma_precompile_address_injective(precompile_kinds()[i as int], precompile_kinds()[j]);
            }
            return Some(table[i].1);
        }
        proof { assert(table@[i as int].0.0@ != a.0@); assert(precompile_kinds()[i as int] == table@[i as int].1); }
        i = i + 1;
    }
    None
}

/// The gas price a transaction pays (EIP-1559 for dynamic-fee ones: the
/// base fee plus the tip, the tip capped by the room under the fee cap), or
/// `None` when a dynamic fee cap is below the base fee.
pub open spec fn effective_price(tx: Transaction, base: int) -> Option<int> {
    match tx.tx_type {
        TxType::DynamicFee => if tx.gas_price.value() < base { None } else {
            Some(base + min_int(match tx.max_priority_fee { Some(p) => p.value(), None => 0 }, tx.gas_price.value() - base))
        },
        _ => Some(tx.gas_price.value()),
    }
}

/// The sender a signed transaction recovers to, if any.
pub open spec fn sender_of(tx: Transaction) -> Option<Seq<u8>> {
    match tx.signature {
        None => None,
        Some(sig) => match crate::primitives::crypto::recover_spec(keccak256_spec(crate::primitives::transaction::signing_preimage(tx)), sig) {
            Some(k) => Some(digest_tail(keccak256_spec(k))),
            None => None,
        },
    }
}

/// What running init code of `len` bytes with `gas` gives for the account
/// created at `addr`: the charge and the stored (empty) code when the gas
/// covers it, else a revert that used all the gas.
pub open spec fn create_outcome(len: nat, gas: u64, addr: Seq<u8>, acct: Account, res: ExecutionResult) -> bool {
    &&& res.gas_refunded == 0 && res.output@.len() == 0
    &&& code_gas(len) <= gas ==> res.success && res.gas_used == code_gas(len)
        && (res.created_address matches Some(a) && a.0@ == addr)
        && acct.code_hash.0@ == keccak256_spec(Seq::<u8>::empty())
    &&& code_gas(len) > gas ==> !res.success && res.gas_used == gas && res.created_address is None
}

/// "Chain ID mismatch: expected <expected>, got <got>".
fn chain_mismatch_message(expected: u64, got: u64) -> (r: String)
    ensures r@ == "Chain ID mismatch: expected "@ + dec_digits(expected as nat) + ", got "@ + dec_digits(got as nat),
{
    let mut m = "Chain ID mismatch: expected ".to_owned();
    let d1 = chars_to_string(u64_to_decimal(expected).as_slice());
    m.append(d1.as_str());
    m.append(", got ");
    let d2 = chars_to_string(u64_to_decimal(got).as_slice());
    m.append(d2.as_str());
    m
}

proof fn lemma_price_bound(tx: Transaction, base: int)
    requires tx.tx_type != TxType::DynamicFee ==> tx.gas_price.value() >= base, base >= 0,
    ensures effective_price(tx, base) matches Some(p) ==> base <= p <= tx.gas_price.value(),
{
    match tx.max_priority_fee { Some(p) => { p.lemma_value_bounds(); }, None => {} }
}

/// Why a transaction is refused before it runs.
pub enum Rejection {
    GasLimit { used: u64, limit: u64 },
    ChainId { expected: u64, got: u64 },
    Signature,
    Intrinsic { used: u64, limit: u64 },
    FeeCap,
    Balance,
    Nonce { expected: u64, got: u64 },
}

/// Why a transaction is refused, checked in order: a gas limit above the
/// block's, another chain, no recoverable signer, less gas than the intrinsic
/// cost, a fee cap below the base fee, a balance below the gas limit at the
/// price plus the value, a nonce other than the account's; `None` when it
/// passes.
pub open spec fn tx_rejection(env: EvmEnv, sc: GasSchedule, s: StateView, tx: Transaction) -> Option<Rejection> {
    let intrinsic = sc.intrinsic_gas_spec(tx.data@, tx.to is None, 0);
    if tx.gas_limit > env.gas_limit {
        Some(Rejection::GasLimit { used: tx.gas_limit, limit: env.gas_limit })
    } else if tx.chain_id != env.chain_id {
        Some(Rejection::ChainId { expected: env.chain_id, got: tx.chain_id })
    } else if sender_of(tx) is None {
        Some(Rejection::Signature)
    } else if tx.gas_limit < intrinsic {
        Some(Rejection::Intrinsic { used: intrinsic as u64, limit: tx.gas_limit })
    } else if effective_price(tx, env.base_fee_per_gas.value()) is None {
        Some(Rejection::FeeCap)
    } else {
        let acct = account_of(s.accounts, sender_of(tx).unwrap());
        let total = effective_price(tx, env.base_fee_per_gas.value()).unwrap() * tx.gas_limit + tx.value.value();
        if acct.balance.value() < total {
            Some(Rejection::Balance)
        } else if tx.nonce != acct.nonce {
            Some(Rejection::Nonce { expected: acct.nonce, got: tx.nonce })
        } else {
            None
        }
    }
}

/// The error a rejection is reported as.
pub open spec fn reported_as(e: EvmError, rj: Rejection) -> bool {
    match rj {
        Rejection::GasLimit { used, limit } => e == EvmError::OutOfGas { used, limit },
        Rejection::ChainId { expected, got } => e matches EvmError::StateError(m)
            && m@ == "Chain ID mismatch: expected "@ + dec_digits(expected as nat) + ", got "@ + dec_digits(got as nat),
        Rejection::Signature => e == EvmError::InvalidSignature,
        Rejection::Intrinsic { used, limit } => e == EvmError::OutOfGas { used, limit },
        Rejection::FeeCap => e matches EvmError::StateError(m) && m@ == "Max fee per gas below base fee"@,
        Rejection::Balance => e is InsufficientBalance,
        Rejection::Nonce { expected, got } => e == EvmError::NonceMismatch { expected, got },
    }
}

/// A transaction the executor can take without any arithmetic leaving its
/// range: its gas at its price plus its value below 2^256, a price of at
/// least the base fee unless the fee is dynamic, a nonce below the largest,
/// an intrinsic gas within 64 bits, and precompile input whose gas fits.
pub open spec fn tx_admissible(env: EvmEnv, sc: GasSchedule, tx: Transaction) -> bool {
    &&& tx.gas_price.value() * tx.gas_limit + tx.value.value() < u256_modulus()
    &&& tx.tx_type != TxType::DynamicFee ==> tx.gas_price.value() >= env.base_fee_per_gas.value()
    &&& tx.nonce < u64::MAX
    &&& sc.intrinsic_gas_spec(tx.data@, tx.to is None, 0) <= u64::MAX
    &&& tx.to matches Some(t) && precompile_at_spec(t.0@) matches Some(k) ==> precompile_fits(k, tx.data@, sc)
}

/// The value that a successful run moves out of the sender: none for a
/// precompile or a call to itself.
pub open spec fn value_moved(tx: Transaction, sender: Seq<u8>) -> int {
    match tx.to {
        None => tx.value.value(),
        Some(t) => if precompile_at_spec(t.0@) is Some || t.0@ == sender { 0 } else { tx.value.value() },
    }
}

/// The account a transaction's run can credit besides its sender: the
/// callee, or the contract created at the sender's nonce `n`.
pub open spec fn touched_by(tx: Transaction, sender: Seq<u8>, n: u64) -> Seq<u8> {
    match tx.to { Some(t) => t.0@, None => create_address_spec(sender, n) }
}

/// A receipt of an executed transaction: its hash, the previous vertex and
/// the price; the gas charged (all of it on failure, at least the intrinsic
/// cost, at most the limit); the sender's nonce one higher, and, when the
/// sender is not the coinbase, its balance lower by the gas used at the price
/// and by the value a successful run moved.
pub open spec fn tx_receipt_ok(env: EvmEnv, sc: GasSchedule, s0: StateView, s1: StateView, tx: Transaction, rc: Receipt) -> bool {
    let sender = sender_of(tx).unwrap();
    let price = effective_price(tx, env.base_fee_per_gas.value()).unwrap();
    let intrinsic = sc.intrinsic_gas_spec(tx.data@, tx.to is None, 0);
    let a0 = account_of(s0.accounts, sender);
    let a1 = account_of(s1.accounts, sender);
    &&& rc.tx_hash.0@ == crate::primitives::hashing::blake3_spec(crate::primitives::transaction::full_encoding(tx))
    &&& rc.vertex_hash == env.prev_hash
    &&& rc.effective_gas_price.value() == price
    &&& intrinsic <= rc.gas_used <= tx.gas_limit
    &&& rc.status == ExecutionStatus::Failure ==> rc.gas_used == tx.gas_limit
    &&& a1.nonce == a0.nonce + 1
    &&& sender != env.coinbase.0@ ==> a1.balance.value() == a0.balance.value() - price * rc.gas_used
        - (if rc.status == ExecutionStatus::Success { value_moved(tx, sender) } else { 0 })
    &&& sender != env.coinbase.0@ && (rc.status != ExecutionStatus::Success || env.coinbase.0@ != touched_by(tx, sender, a0.nonce))
        ==> account_of(s1.accounts, env.coinbase.0@).balance.value()
            == account_of(s0.accounts, env.coinbase.0@).balance.value() + (price - env.base_fee_per_gas.value()) * rc.gas_used
}

/// The CREATE address of a sender at a nonce.
pub open spec fn create_address_spec(sender: Seq<u8>, nonce: u64) -> Seq<u8> {
    digest_tail(keccak256_spec(create_preimage(sender, nonce)))
}

/// The stand-in interpreter's charge for running code: three gas a byte
/// (saturating at the 64-bit limit).
pub open spec fn code_gas(len: nat) -> int {
    min_int(3 * (len as int), u64::MAX as int)
}

/// Value moved from `from` to `to` between two states: both balances
/// change by `v` (neither when they are one account), every other field
/// and every other account stays.
pub open spec fn transferred(s0: StateView, s1: StateView, from: Seq<u8>, to: Seq<u8>, v: int) -> bool {
    &&& s1.storage == s0.storage
    &&& forall|x: Seq<u8>| x != from && x != to ==> #[trigger] account_of(s1.accounts, x) == account_of(s0.accounts, x)
    &&& same_but_balance(account_of(s1.accounts, from), account_of(s0.accounts, from))
    &&& same_but_balance(account_of(s1.accounts, to), account_of(s0.accounts, to))
    &&& from != to ==> account_of(s1.accounts, from).balance.value() == account_of(s0.accounts, from).balance.value() - v
    &&& from != to ==> account_of(s1.accounts, to).balance.value() == account_of(s0.accounts, to).balance.value() + v
    &&& from == to ==> account_of(s1.accounts, from).balance.value() == account_of(s0.accounts, from).balance.value()
}

/// What running code gives: its charge when the gas covers it, else a
/// revert that used all the gas.
pub open spec fn code_outcome(len: nat, gas: u64, r: ExecutionResult) -> bool {
    &&& r.gas_refunded == 0 && r.output@.len() == 0 && r.logs@.len() == 0 && r.created_address is None
    &&& code_gas(len) <= gas ==> r.success && r.gas_used == code_gas(len)
    &&& code_gas(len) > gas ==> !r.success && r.gas_used == gas
}

/// The code-size limit of EIP-170.
pub open spec fn max_code_size() -> int { 24576 }

} // verus!
