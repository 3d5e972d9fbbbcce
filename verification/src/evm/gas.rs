//! Gas accounting: the gas schedule, intrinsic and memory costs, the
//! EIP-1559 fee market, and the per-transaction gas meter.
use vstd::prelude::*;
use crate::primitives::types::{U256, u256_modulus};

verus! {

/// Gas costs of transaction parts, opcodes and precompiles.
#[derive(Clone, Copy, Debug, PartialEq, Eq, Structural)]
pub struct GasSchedule {
    pub tx_base: u64,
    pub tx_data_zero: u64,
    pub tx_data_nonzero: u64,
    pub tx_create: u64,
    pub access_list_address: u64,
    pub access_list_storage_key: u64,
    pub base: u64,
    pub verylow: u64,
    pub low: u64,
    pub mid: u64,
    pub high: u64,
    pub jumpdest: u64,
    pub memory: u64,
    pub copy: u64,
    pub sload_cold: u64,
    pub sload_warm: u64,
    pub sstore_set: u64,
    pub sstore_reset: u64,
    pub sstore_clear_refund: u64,
    pub cold_account_access: u64,
    pub warm_account_access: u64,
    pub cold_sload: u64,
    pub call: u64,
    pub call_value_transfer: u64,
    pub call_new_account: u64,
    pub selfdestruct: u64,
    pub ecrecover: u64,
    pub sha256_base: u64,
    pub sha256_word: u64,
    pub ripemd160_base: u64,
    pub ripemd160_word: u64,
    pub identity_base: u64,
    pub identity_word: u64,
    pub modexp_gquad_divisor: u64,
    pub bn_add: u64,
    pub bn_mul: u64,
    pub bn_pairing_base: u64,
    pub bn_pairing_point: u64,
    pub blake2f_round: u64,
    pub zkp_verify_base: u64,
    pub zkp_verify_per_input: u64,
    pub iso20022_parse_base: u64,
    pub iso20022_parse_per_byte: u64,
}

/// The Berlin/London gas schedule with this chain's extensions.
pub open spec fn berlin_spec() -> GasSchedule {
        GasSchedule {
            tx_base: 21000,
            tx_data_zero: 4,
            tx_data_nonzero: 16,
            tx_create: 32000,
            access_list_address: 2400,
            access_list_storage_key: 1900,
            base: 2,
            verylow: 3,
            low: 5,
            mid: 8,
            high: 10,
            jumpdest: 1,
            memory: 3,
            copy: 3,
            sload_cold: 2100,
            sload_warm: 100,
            sstore_set: 20000,
            sstore_reset: 2900,
            sstore_clear_refund: 15000,
            cold_account_access: 2600,
            warm_account_access: 100,
            cold_sload: 2100,
            call: 100,
            call_value_transfer: 9000,
            call_new_account: 25000,
            selfdestruct: 5000,
            ecrecover: 3000,
            sha256_base: 60,
            sha256_word: 12,
            ripemd160_base: 600,
            ripemd160_word: 120,
            identity_base: 15,
            identity_word: 3,
            modexp_gquad_divisor: 3,
            bn_add: 150,
            bn_mul: 6000,
            bn_pairing_base: 45000,
            bn_pairing_point: 34000,
            blake2f_round: 1,
            zkp_verify_base: 100000,
            zkp_verify_per_input: 5000,
            iso20022_parse_base: 5000,
            iso20022_parse_per_byte: 10,
        }
}

impl Default for GasSchedule {
    fn default() -> (r: Self)
        ensures r == berlin_spec(),
    {
        Self::berlin()
    }
}

/// The number of zero bytes in `data`.
pub open spec fn zero_count(data: Seq<u8>) -> nat
    decreases data.len(),
{
    if data.len() == 0 {
        0
    } else {
        zero_count(data.drop_last()) + if data.last() == 0 { 1nat } else { 0nat }
    }
}

proof fn lemma_zero_count_bound(data: Seq<u8>)
    ensures zero_count(data) <= data.len(),
    decreases data.len(),
{
    if data.len() > 0 {
        lemma_zero_count_bound(data.drop_last());
    }
}

impl GasSchedule {
    /// The Berlin/London gas schedule.
    pub fn berlin() -> (r: Self)
        ensures r == berlin_spec(),
    {
        Self {
            tx_base: 21000,
            tx_data_zero: 4,
            tx_data_nonzero: 16,
            tx_create: 32000,
            access_list_address: 2400,
            access_list_storage_key: 1900,
            base: 2,
            verylow: 3,
            low: 5,
            mid: 8,
            high: 10,
            jumpdest: 1,
            memory: 3,
            copy: 3,
            sload_cold: 2100,
            sload_warm: 100,
            sstore_set: 20000,
            sstore_reset: 2900,
            sstore_clear_refund: 15000,
            cold_account_access: 2600,
            warm_account_access: 100,
            cold_sload: 2100,
            call: 100,
            call_value_transfer: 9000,
            call_new_account: 25000,
            selfdestruct: 5000,
            ecrecover: 3000,
            sha256_base: 60,
            sha256_word: 12,
            ripemd160_base: 600,
            ripemd160_word: 120,
            identity_base: 15,
            identity_word: 3,
            modexp_gquad_divisor: 3,
            bn_add: 150,
            bn_mul: 6000,
            bn_pairing_base: 45000,
            bn_pairing_point: 34000,
            blake2f_round: 1,
            zkp_verify_base: 100000,
            zkp_verify_per_input: 5000,
            iso20022_parse_base: 5000,
            iso20022_parse_per_byte: 10,
        }
    }

    /// Intrinsic gas of a transaction: base cost, creation cost, data bytes
    /// by zero and non-zero, and access-list addresses.
    pub open spec fn intrinsic_gas_spec(&self, data: Seq<u8>, is_create: bool, access_list_len: nat) -> int {
        self.tx_base + (if is_create { self.tx_create as int } else { 0int })
            + zero_count(data) * self.tx_data_zero
            + (data.len() - zero_count(data)) * self.tx_data_nonzero
            + access_list_len * self.access_list_address
    }

    /// Intrinsic gas of a transaction.
    pub fn intrinsic_gas(&self, data: &[u8], is_create: bool, access_list_len: usize) -> (r: u64)
        requires self.intrinsic_gas_spec(data@, is_create, access_list_len as nat) <= u64::MAX,
        ensures r == self.intrinsic_gas_spec(data@, is_create, access_list_len as nat),
    {
        let ghost total = self.intrinsic_gas_spec(data@, is_create, access_list_len as nat);
        proof {
            lemma_zero_count_bound(data@);
            assert(0 <= zero_count(data@) * self.tx_data_zero) by (nonlinear_arith);
            assert(0 <= (data@.len() - zero_count(data@)) * self.tx_data_nonzero) by (nonlinear_arith)
                requires data@.len() - zero_count(data@) >= 0;
            assert(0 <= access_list_len * self.access_list_address) by (nonlinear_arith);
        }
        let mut gas: u64 = self.tx_base;
        if is_create {
            gas = gas + self.tx_create;
        }
        let ghost g0 = gas as int;
        let mut i: usize = 0;
        while i < data.len()
            invariant
                i <= data@.len(),
                total == self.intrinsic_gas_spec(data@, is_create, access_list_len as nat),
                total <= u64::MAX,
                g0 == self.tx_base + (if is_create { self.tx_create as int } else { 0int }),
                gas == g0 + zero_count(data@.take(i as int)) * self.tx_data_zero
                    + (i - zero_count(data@.take(i as int))) * self.tx_data_nonzero,
                zero_count(data@.take(i as int)) <= i,
                0 <= zero_count(data@) * self.tx_data_zero,
                0 <= (data@.len() - zero_count(data@)) * self.tx_data_nonzero,
                0 <= access_list_len * self.access_list_address,
            decreases data@.len() - i,
        {
            let ghost zi = zero_count(data@.take(i as int));
            assert(data@.take(i + 1).drop_last() =~= data@.take(i as int));
            proof {
                lemma_zero_count_prefix_le(data@, i + 1);
                let zj = zero_count(data@.take(i + 1));
                let zn = zero_count(data@);
                assert(zj * self.tx_data_zero + (i + 1 - zj) * self.tx_data_nonzero
                    <= zn * self.tx_data_zero + (data@.len() - zn) * self.tx_data_nonzero) by (nonlinear_arith)
                    requires zj <= zn, i + 1 - zj <= data@.len() - zn, zj >= 0, i + 1 - zj >= 0;
            }
            if data[i] == 0 {
                assert(gas + self.tx_data_zero == g0 + (zi + 1) * self.tx_data_zero + (i + 1 - (zi + 1)) * self.tx_data_nonzero) by (nonlinear_arith)
                    requires gas == g0 + zi * self.tx_data_zero + (i - zi) * self.tx_data_nonzero;
                gas = gas + self.tx_data_zero;
            } else {
                assert(gas + self.tx_data_nonzero == g0 + zi * self.tx_data_zero + (i + 1 - zi) * self.tx_data_nonzero) by (nonlinear_arith)
                    requires gas == g0 + zi * self.tx_data_zero + (i - zi) * self.tx_data_nonzero;
                gas = gas + self.tx_data_nonzero;
            }
            i = i + 1;
        }
        assert(data@.take(data@.len() as int) =~= data@);
        let extra: u64 = (access_list_len as u64) * self.access_list_address;
        gas + extra
    }

    /// Memory cost of `size` bytes: three gas per word plus the quadratic
    /// term words² / 512.
    pub open spec fn memory_cost_spec(&self, size: nat) -> int {
        let words = (size + 31) / 32;
        words * self.memory + (words * words) / 512
    }

    /// Memory cost of `size` bytes.
    pub fn memory_cost(&self, size: u64) -> (r: u64)
        requires
            size + 31 <= u64::MAX,
            self.memory_cost_spec(size as nat) <= u64::MAX,
        ensures r == self.memory_cost_spec(size as nat),
    {
        let words: u64 = (size + 31) / 32;
        proof {
            assert(0 <= words * self.memory) by (nonlinear_arith);
            assert(0 <= (words * words) / 512) by (nonlinear_arith);
            assert(words * words <= 0xffff_ffff_ffff_ffff_ffff_ffff_ffff_ffff_int) by (nonlinear_arith)
                requires words <= 0x1000_0000_0000_0000_int;
        }
        let wm: u64 = words * self.memory;
        let sq: u128 = (words as u128) * (words as u128);
        let q: u64 = (sq / 512) as u64;
        wm + q
    }

    /// The extra memory cost of growing from `current_size` to `new_size`
    /// bytes; nothing when not growing.
    pub fn memory_expansion_cost(&self, current_size: u64, new_size: u64) -> (r: u64)
        requires
            new_size > current_size ==> new_size + 31 <= u64::MAX
                && self.memory_cost_spec(new_size as nat) <= u64::MAX,
        ensures
            r == (if new_size <= current_size {
                0
            } else {
                self.memory_cost_spec(new_size as nat) - self.memory_cost_spec(current_size as nat)
            }),
    {
        if new_size <= current_size {
            return 0;
        }
        proof {
            lemma_memory_cost_monotone(*self, current_size as nat, new_size as nat);
        }
        self.memory_cost(new_size) - self.memory_cost(current_size)
    }
}

proof fn lemma_zero_count_prefix_le(data: Seq<u8>, i: int)
    requires 0 <= i <= data.len(),
    ensures
        zero_count(data.take(i)) <= zero_count(data),
        i - zero_count(data.take(i)) <= data.len() - zero_count(data),
    decreases data.len() - i,
{
    if i < data.len() {
        lemma_zero_count_prefix_le(data, i + 1);
        assert(data.take(i + 1).drop_last() =~= data.take(i));
    } else {
        assert(data.take(i) =~= data);
    }
}

/// More memory never costs less.
pub proof fn lemma_memory_cost_monotone(s: GasSchedule, a: nat, b: nat)
    requires a <= b,
    ensures s.memory_cost_spec(a) <= s.memory_cost_spec(b),
{
    let wa = (a + 31) / 32;
    let wb = (b + 31) / 32;
    vstd::arithmetic::div_mod::lemma_div_is_ordered((a + 31) as int, (b + 31) as int, 32);
    assert(wa * s.memory <= wb * s.memory) by (nonlinear_arith) requires wa <= wb;
    assert(wa * wa <= wb * wb) by (nonlinear_arith) requires wa <= wb, 0 <= wa;
    vstd::arithmetic::div_mod::lemma_div_is_ordered((wa * wa) as int, (wb * wb) as int, 512);
}

/// Each data byte adds its own price to the intrinsic gas: a zero byte the
/// zero-byte price, any other the nonzero-byte price; a creation adds the
/// creation price; with no data, no creation and no access list the cost is
/// the base price.
pub proof fn lemma_intrinsic_gas_steps(s: GasSchedule, data: Seq<u8>, b: u8, is_create: bool, access_list_len: nat)
    ensures
        s.intrinsic_gas_spec(data.push(b), is_create, access_list_len)
            == s.intrinsic_gas_spec(data, is_create, access_list_len) + if b == 0 { s.tx_data_zero as int } else { s.tx_data_nonzero as int },
        s.intrinsic_gas_spec(data, true, access_list_len) == s.intrinsic_gas_spec(data, false, access_list_len) + s.tx_create,
        s.intrinsic_gas_spec(Seq::empty(), false, 0) == s.tx_base,
{
    let d2 = data.push(b);
    assert(d2.drop_last() =~= data);
    let e = Seq::<u8>::empty();
    assert(zero_count(e) == 0);
    assert(0 * s.tx_data_zero == 0 && 0 * s.tx_data_nonzero == 0 && 0 * s.access_list_address == 0);
    let z = zero_count(data) as int;
    let n = data.len() as int;
    lemma_zero_count_bound(data);
    if b == 0 {
        assert((z + 1) * s.tx_data_zero + (n + 1 - (z + 1)) * s.tx_data_nonzero
            == z * s.tx_data_zero + (n - z) * s.tx_data_nonzero + s.tx_data_zero) by (nonlinear_arith);
    } else {
        assert(z * s.tx_data_zero + (n + 1 - z) * s.tx_data_nonzero
            == z * s.tx_data_zero + (n - z) * s.tx_data_nonzero + s.tx_data_nonzero) by (nonlinear_arith);
    }
}

/// EIP-1559 fee market parameters.
#[derive(Clone, Copy, Debug)]
pub struct FeeMarket {
    /// Base fee per gas of the current block.
    pub base_fee_per_gas: U256,
    /// Bound on the base fee change per block, as a divisor.
    pub max_change_denominator: u64,
    /// Gas per block the base fee aims at.
    pub target_gas_per_block: u64,
    pub gas_limit: u64,
    pub min_base_fee: U256,
    pub max_base_fee: Option<U256>,
}

impl Default for FeeMarket {
    fn default() -> (r: Self)
        ensures
            r.base_fee_per_gas.value() == 1_000_000_000,
            r.max_change_denominator == 8,
            r.target_gas_per_block == 15_000_000,
            r.gas_limit == 30_000_000,
            r.min_base_fee.value() == 1_000_000,
            r.max_base_fee is None,
    {
        FeeMarket {
            base_fee_per_gas: U256::from_u64(1_000_000_000),
            max_change_denominator: 8,
            target_gas_per_block: 15_000_000,
            gas_limit: 30_000_000,
            min_base_fee: U256::from_u64(1_000_000),
            max_base_fee: None,
        }
    }
}

pub open spec fn max_int(a: int, b: int) -> int { if a < b { b } else { a } }

pub open spec fn min_int(a: int, b: int) -> int { if b < a { b } else { a } }

impl FeeMarket {
    /// The change of the base fee for a block that used `gas_used`.
    pub open spec fn fee_delta(&self, gas_used: int) -> int {
        let target = self.target_gas_per_block as int;
        let gas_delta = if gas_used > target { gas_used - target } else { target - gas_used };
        self.base_fee_per_gas.value() * gas_delta / target / (self.max_change_denominator as int)
    }

    /// The base fee after a block that used `gas_used`: unchanged at the
    /// target; else moved by base × |used − target| / target / denominator
    /// (at least 1 upwards, not below 0 downwards), then kept within the
    /// minimum and the optional maximum.
    pub open spec fn next_base_fee_spec(&self, gas_used: int) -> int {
        let base = self.base_fee_per_gas.value();
        if gas_used == self.target_gas_per_block {
            base
        } else {
            let moved = if gas_used > self.target_gas_per_block {
                base + max_int(self.fee_delta(gas_used), 1)
            } else {
                max_int(base - self.fee_delta(gas_used), 0)
            };
            let bounded = max_int(moved, self.min_base_fee.value());
            match self.max_base_fee {
                Some(m) => min_int(bounded, m.value()),
                None => bounded,
            }
        }
    }

    /// The computation can be carried out in 256 bits: a nonzero target and
    /// denominator, and no overflow of the product or the raised fee.
    pub open spec fn next_base_fee_defined(&self, gas_used: int) -> bool {
        let target = self.target_gas_per_block as int;
        let gas_delta = if gas_used > target { gas_used - target } else { target - gas_used };
        gas_used != target ==> {
            &&& target > 0
            &&& self.max_change_denominator > 0
            &&& self.base_fee_per_gas.value() * gas_delta < u256_modulus()
            &&& gas_used > target ==> self.base_fee_per_gas.value() + max_int(self.fee_delta(gas_used), 1) < u256_modulus()
        }
    }

    /// The base fee of the next block.
    pub fn next_base_fee(&self, gas_used: u64) -> (r: U256)
        requires self.next_base_fee_defined(gas_used as int),
        ensures r.value() == self.next_base_fee_spec(gas_used as int),
    {
        let target = self.target_gas_per_block;
        if gas_used == target {
            return self.base_fee_per_gas;
        }
        let base = self.base_fee_per_gas;
        proof {
            base.lemma_value_bounds();
        }
        let gas_delta: u64 = if gas_used > target { gas_used - target } else { target - gas_used };
        let prod = base.wrapping_mul_u64(gas_delta);
        proof {
            assert(0 <= base.value() * gas_delta) by (nonlinear_arith) requires base.value() >= 0;
            vstd::arithmetic::div_mod::lemma_small_mod((base.value() * gas_delta) as nat, u256_modulus() as nat);
        }
        let fee_delta = prod.div_u64(target).div_u64(self.max_change_denominator);
        let moved = if gas_used > target {
            let one = U256::from_u64(1);
            let step = fee_delta.max(one);
            match base.checked_add(&step) {
                Some(v) => v,
                None => base,
            }
        } else {
            match base.checked_sub(&fee_delta) {
                Some(v) => v,
                None => U256::zero(),
            }
        };
        let mut result = moved.max(self.min_base_fee);
        match self.max_base_fee {
            Some(m) => {
                result = result.min(m);
            },
            None => {},
        }
        result
    }

    /// The price per gas an EIP-1559 transaction pays: the base fee plus the
    /// priority fee, capped so the total stays within the maximum fee.
    pub fn effective_gas_price(&self, max_fee_per_gas: U256, max_priority_fee: U256) -> (r: U256)
        requires max_fee_per_gas.value() >= self.base_fee_per_gas.value(),
        ensures
            r.value() == self.base_fee_per_gas.value()
                + min_int(max_priority_fee.value(), max_fee_per_gas.value() - self.base_fee_per_gas.value()),
    {
        let headroom = match max_fee_per_gas.checked_sub(&self.base_fee_per_gas) {
            Some(v) => v,
            None => U256::zero(),
        };
        let priority = max_priority_fee.min(headroom);
        proof {
            max_fee_per_gas.lemma_value_bounds();
        }
        match self.base_fee_per_gas.checked_add(&priority) {
            Some(v) => v,
            None => self.base_fee_per_gas,
        }
    }

    /// Whether fee parameters are acceptable: the maximum fee covers the base
    /// fee and the priority fee does not exceed the maximum fee.
    pub fn validate_fee(&self, max_fee_per_gas: U256, max_priority_fee: U256) -> (r: bool)
        ensures
            r == (max_fee_per_gas.value() >= self.base_fee_per_gas.value()
                && max_priority_fee.value() <= max_fee_per_gas.value()),
    {
        self.base_fee_per_gas.le(&max_fee_per_gas) && max_priority_fee.le(&max_fee_per_gas)
    }
}

/// The base fee stays at the target, and otherwise moves toward the demand:
/// after a block above the target it rises by at least 1 and by at most
/// base × (used − target) / target / denominator when that is more (with no
/// maximum set and the base at or above the minimum); after a block below
/// the target it does not rise above the base or the minimum, and falls by
/// at most base × (target − used) / target / denominator when no bound applies.
pub proof fn lemma_base_fee_direction(f: FeeMarket, gas_used: int)
    requires
        gas_used >= 0,
        f.next_base_fee_defined(gas_used),
    ensures
        gas_used == f.target_gas_per_block ==> f.next_base_fee_spec(gas_used) == f.base_fee_per_gas.value(),
        gas_used > f.target_gas_per_block && f.max_base_fee is None && f.base_fee_per_gas.value() >= f.min_base_fee.value() ==> {
            let up = f.next_base_fee_spec(gas_used) - f.base_fee_per_gas.value();
            &&& up >= 1
            &&& up == 1 || up * f.target_gas_per_block * f.max_change_denominator
                <= f.base_fee_per_gas.value() * (gas_used - f.target_gas_per_block)
        },
        gas_used < f.target_gas_per_block ==> f.next_base_fee_spec(gas_used) <= max_int(f.base_fee_per_gas.value(), f.min_base_fee.value()),
        gas_used < f.target_gas_per_block && f.max_base_fee is None
            && f.next_base_fee_spec(gas_used) > f.min_base_fee.value() ==> {
            let down = f.base_fee_per_gas.value() - f.next_base_fee_spec(gas_used);
            down * f.target_gas_per_block * f.max_change_denominator
                <= f.base_fee_per_gas.value() * (f.target_gas_per_block - gas_used)
        },
{
    let t = f.target_gas_per_block as int;
    let den = f.max_change_denominator as int;
    let base = f.base_fee_per_gas.value();
    f.base_fee_per_gas.lemma_value_bounds();
    if gas_used != t {
        let gd: int = if gas_used > t { gas_used - t } else { t - gas_used };
        let d = f.fee_delta(gas_used);
        let p: int = base * gd;
        assert(p >= 0) by (nonlinear_arith) requires base >= 0, gd >= 0, p == base * gd;
        let q1: int = p / t;
        assert(d == q1 / den);
        assert(d * t * den <= p && d >= 0) by (nonlinear_arith)
            requires t > 0, den > 0, p >= 0, q1 == p / t, d == q1 / den;
    }
}

/// Gas accounting of one transaction.
#[derive(Clone, Copy, Debug)]
pub struct GasMeter {
    gas_limit: u64,
    gas_used: u64,
    gas_refunded: u64,
    schedule: GasSchedule,
}

/// The state of a gas meter.
pub struct GasMeterView {
    pub gas_limit: u64,
    pub gas_used: u64,
    pub gas_refunded: u64,
    pub schedule: GasSchedule,
}

impl View for GasMeter {
    type V = GasMeterView;

    closed spec fn view(&self) -> GasMeterView {
        GasMeterView {
            gas_limit: self.gas_limit,
            gas_used: self.gas_used,
            gas_refunded: self.gas_refunded,
            schedule: self.schedule,
        }
    }
}

/// The refund granted for a meter: what was refunded, capped at half of
/// the gas used.
/// A meter after a refund of `amount`: the refund counter grows, saturating.
pub open spec fn refund_step(m: GasMeterView, amount: u64) -> GasMeterView {
    GasMeterView { gas_refunded: min_int(m.gas_refunded + amount, u64::MAX as int) as u64, ..m }
}

/// A meter after consuming `amount`: the use grows (saturating) when it
/// stays within the limit, else nothing changes.
pub open spec fn consume_step(m: GasMeterView, amount: u64) -> GasMeterView {
    if min_int(m.gas_used + amount, u64::MAX as int) <= m.gas_limit {
        GasMeterView { gas_used: min_int(m.gas_used + amount, u64::MAX as int) as u64, ..m }
    } else {
        m
    }
}

/// One operation on a meter.
pub enum MeterEvent {
    Consume(u64),
    Refund(u64),
}

/// A meter after a history of consumptions and refunds, in order.
pub open spec fn after_events(m: GasMeterView, evs: Seq<MeterEvent>) -> GasMeterView
    decreases evs.len(),
{
    if evs.len() == 0 { m } else {
        let prev = after_events(m, evs.drop_last());
        match evs.last() {
            MeterEvent::Consume(a) => consume_step(prev, a),
            MeterEvent::Refund(a) => refund_step(prev, a),
        }
    }
}

/// The refund amounts of a history, in order.
pub open spec fn refunds_of(evs: Seq<MeterEvent>) -> Seq<u64>
    decreases evs.len(),
{
    if evs.len() == 0 { Seq::empty() } else {
        match evs.last() {
            MeterEvent::Consume(_) => refunds_of(evs.drop_last()),
            MeterEvent::Refund(a) => refunds_of(evs.drop_last()).push(a),
        }
    }
}

/// Over any history of consumptions and refunds from a fresh refund
/// counter, the counter is the saturating sum of the refunds, and the refund
/// granted is that sum capped at half the gas used at the end.
pub proof fn lemma_meter_history(m: GasMeterView, evs: Seq<MeterEvent>)
    requires m.gas_refunded == 0,
    ensures
        after_events(m, evs).gas_refunded == saturating_sum(refunds_of(evs)),
        capped_refund(after_events(m, evs)) == min_int(saturating_sum(refunds_of(evs)), after_events(m, evs).gas_used as int / 2),
    decreases evs.len(),
{
    if evs.len() > 0 {
        lemma_meter_history(m, evs.drop_last());
        match evs.last() {
            MeterEvent::Consume(a) => {},
            MeterEvent::Refund(a) => {
                assert(refunds_of(evs).drop_last() =~= refunds_of(evs.drop_last()));
            },
        }
    }
}

/// Rewriting a clean nonzero slot with another nonzero value costs the cold
/// surcharge plus the reset price, and changes no refund.
pub proof fn lemma_sstore_clean_rewrite(s: GasSchedule, original: int, current: int, new: int, is_cold: bool)
    requires
        original == current,
        current != 0,
        new != current,
        new != 0,
    ensures
        ({
            let cold = if is_cold { s.cold_sload as int } else { 0int };
            &&& (sstore_spec(s, original, current, new, is_cold) is Some <==> cold + s.sstore_reset <= u64::MAX)
            &&& cold + s.sstore_reset <= u64::MAX ==> sstore_spec(s, original, current, new, is_cold) == Some((cold + s.sstore_reset, 0int))
        }),
{
}

/// A write that leaves the slot's value as it is costs the cold surcharge
/// plus the warm read price and changes no refund, whatever the slot held
/// originally.
pub proof fn lemma_sstore_no_change(s: GasSchedule, original: int, current: int, is_cold: bool)
    ensures
        ({
            let cold = if is_cold { s.cold_sload as int } else { 0int };
            &&& (sstore_spec(s, original, current, current, is_cold) is Some <==> cold + s.sload_warm <= u64::MAX)
            &&& cold + s.sload_warm <= u64::MAX ==> sstore_spec(s, original, current, current, is_cold) == Some((cold + s.sload_warm, 0int))
        }),
{
}

/// Writing a slot and then writing its original value back costs, net of
/// the refunds, what two writes that change nothing cost: the cold
/// surcharge once and the warm read price twice, whatever the values (for
/// schedules whose set and reset prices fit a signed refund).
pub proof fn lemma_sstore_write_then_restore(s: GasSchedule, original: int, new: int, is_cold: bool)
    requires
        original != new,
        s.sstore_set <= i64::MAX,
        s.sstore_reset <= i64::MAX,
        sstore_spec(s, original, original, new, is_cold) is Some,
        sstore_spec(s, original, new, original, false) is Some,
    ensures
        ({
            let (g1, r1) = sstore_spec(s, original, original, new, is_cold)->0;
            let (g2, r2) = sstore_spec(s, original, new, original, false)->0;
            let cold = if is_cold { s.cold_sload as int } else { 0int };
            g1 + g2 - (r1 + r2) == cold + 2 * s.sload_warm
        }),
{
}

/// A meter after a history of refunds, in order.
pub open spec fn after_refunds(m: GasMeterView, amounts: Seq<u64>) -> GasMeterView
    decreases amounts.len(),
{
    if amounts.len() == 0 { m } else { refund_step(after_refunds(m, amounts.drop_last()), amounts.last()) }
}

/// The saturating sum of refund amounts.
pub open spec fn saturating_sum(amounts: Seq<u64>) -> int
    decreases amounts.len(),
{
    if amounts.len() == 0 { 0 } else { min_int(saturating_sum(amounts.drop_last()) + amounts.last(), u64::MAX as int) }
}

/// The refund a meter grants after any history of refunds from a fresh
/// counter is the saturating sum of the amounts, capped at half the gas used,
/// and the gas used after the refund is the gas used minus that.
pub proof fn lemma_refund_history(m: GasMeterView, amounts: Seq<u64>)
    requires m.gas_refunded == 0,
    ensures
        after_refunds(m, amounts).gas_refunded == saturating_sum(amounts),
        after_refunds(m, amounts).gas_used == m.gas_used,
        after_refunds(m, amounts).gas_limit == m.gas_limit,
        capped_refund(after_refunds(m, amounts)) == min_int(saturating_sum(amounts), m.gas_used as int / 2),
        after_refunds(m, amounts).gas_used - capped_refund(after_refunds(m, amounts))
            == m.gas_used - min_int(saturating_sum(amounts), m.gas_used as int / 2),
    decreases amounts.len(),
{
    if amounts.len() > 0 {
        lemma_refund_history(m, amounts.drop_last());
    }
}

pub open spec fn capped_refund(m: GasMeterView) -> int {
    min_int(m.gas_refunded as int, m.gas_used as int / 2)
}

/// The outcome of an SSTORE under EIP-2200 with EIP-2929 cold access: the
/// gas charged and the refund change, or `None` when the arithmetic leaves
/// the 64-bit range.
pub open spec fn sstore_spec(s: GasSchedule, original: int, current: int, new: int, is_cold: bool) -> Option<(int, int)> {
    let cold = if is_cold { s.cold_sload as int } else { 0int };
    let clear = (s.sstore_clear_refund as i64) as int;
    if current == new {
        let g = cold + s.sload_warm;
        if g <= u64::MAX { Some((g, 0)) } else { None }
    } else if original == current {
        if original == 0 {
            let g = cold + s.sstore_set;
            if g <= u64::MAX { Some((g, 0)) } else { None }
        } else if new == 0 {
            let g = cold + s.sstore_reset;
            if g <= u64::MAX { Some((g, clear)) } else { None }
        } else {
            let g = cold + s.sstore_reset;
            if g <= u64::MAX { Some((g, 0)) } else { None }
        }
    } else {
        let g = cold + s.sload_warm;
        let r1: int = if original != 0 && current == 0 {
            -clear
        } else if original != 0 && new == 0 {
            clear
        } else {
            0
        };
        let restore: Option<int> = if original == new {
            if original == 0 {
                if s.sstore_set >= s.sload_warm { Some(((s.sstore_set - s.sload_warm) as u64 as i64) as int) } else { None }
            } else {
                if s.sstore_reset >= s.sload_warm { Some(((s.sstore_reset - s.sload_warm) as u64 as i64) as int) } else { None }
            }
        } else {
            Some(0)
        };
        match restore {
            None => None,
            Some(x) => if g <= u64::MAX && i64::MIN <= r1 <= i64::MAX && i64::MIN <= r1 + x <= i64::MAX {
                Some((g, r1 + x))
            } else {
                None
            },
        }
    }
}

impl GasMeter {
    pub fn new(gas_limit: u64, schedule: GasSchedule) -> (r: Self)
        ensures r@ == (GasMeterView { gas_limit, gas_used: 0, gas_refunded: 0, schedule }),
    {
        GasMeter { gas_limit, gas_used: 0, gas_refunded: 0, schedule }
    }

    /// Consumes gas; fails, changing nothing, when the limit would be passed.
    pub fn consume(&mut self, amount: u64) -> (r: Result<(), ()>)
        ensures
            r is Ok <==> min_int(old(self)@.gas_used + amount, u64::MAX as int) <= old(self)@.gas_limit,
            final(self)@ == consume_step(old(self)@, amount),
    {
        let new_used: u64 = if self.gas_used > u64::MAX - amount { u64::MAX } else { self.gas_used + amount };
        if new_used > self.gas_limit {
            return Err(());
        }
        self.gas_used = new_used;
        Ok(())
    }

    /// Adds a refund, saturating at the largest value.
    pub fn refund(&mut self, amount: u64)
        ensures
            final(self)@ == refund_step(old(self)@, amount),
    {
        self.gas_refunded = if self.gas_refunded > u64::MAX - amount { u64::MAX } else { self.gas_refunded + amount };
    }

    /// Gas left: the limit minus what was used, not below zero.
    pub fn remaining(&self) -> (r: u64)
        ensures r == max_int(self@.gas_limit - self@.gas_used, 0),
    {
        if self.gas_limit >= self.gas_used { self.gas_limit - self.gas_used } else { 0 }
    }

    pub fn used(&self) -> (r: u64)
        ensures r == self@.gas_used,
    {
        self.gas_used
    }

    /// The refund granted, capped at half of the gas used.
    pub fn refunded(&self) -> (r: u64)
        ensures r == capped_refund(self@),
    {
        let max_refund = self.gas_used / 2;
        if max_refund < self.gas_refunded { max_refund } else { self.gas_refunded }
    }

    /// Gas used after the refund.
    pub fn final_used(&self) -> (r: u64)
        ensures r == self@.gas_used - capped_refund(self@),
    {
        self.gas_used - self.refunded()
    }

    pub fn schedule(&self) -> (r: &GasSchedule)
        ensures *r == self@.schedule,
    {
        &self.schedule
    }

    /// Gas and refund change of an SSTORE, from the slot's original, current
    /// and new values (EIP-2200), with the cold-access surcharge.
    pub fn sstore_gas(&self, original: U256, current: U256, new: U256, is_cold: bool) -> (r: (u64, i64))
        requires sstore_spec(self@.schedule, original.value(), current.value(), new.value(), is_cold) is Some,
        ensures
            sstore_spec(self@.schedule, original.value(), current.value(), new.value(), is_cold)
                == Some((r.0 as int, r.1 as int)),
    {
        let s = self.schedule;
        let mut gas: u64 = if is_cold { s.cold_sload } else { 0 };
        let mut refund: i64 = 0;
        let clear: i64 = s.sstore_clear_refund as i64;
        if current.eq_value(&new) {
            gas = gas + s.sload_warm;
        } else if original.eq_value(&current) {
            if original.is_zero() {
                gas = gas + s.sstore_set;
            } else if new.is_zero() {
                gas = gas + s.sstore_reset;
                refund = clear;
            } else {
                gas = gas + s.sstore_reset;
            }
        } else {
            gas = gas + s.sload_warm;
            if !original.is_zero() {
                if current.is_zero() {
                    refund = refund - clear;
                } else if new.is_zero() {
                    refund = refund + clear;
                }
            }
            if original.eq_value(&new) {
                if original.is_zero() {
                    refund = refund + ((s.sstore_set - s.sload_warm) as i64);
                } else {
                    refund = refund + ((s.sstore_reset - s.sload_warm) as i64);
                }
            }
        }
        (gas, refund)
    }
}

} // verus!
