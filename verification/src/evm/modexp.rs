//! The MODEXP precompile (0x05, EIP-198 with the EIP-2565 gas formula):
//! big-endian operands, a left-padded result, and its gas cost.
use vstd::prelude::*;
use vstd::arithmetic::power::pow;
use vstd::arithmetic::power2::pow2;
use crate::evm::EvmError;
use crate::evm::precompiles::PrecompileResult;
use crate::evm::gas::GasSchedule;
use crate::primitives::crypto::{be_value, lemma_be_value_bound};

verus! {

/// The low 64 bits of a big-endian number: the value of its last (at most)
/// eight bytes.
pub open spec fn low64_be(b: Seq<u8>) -> nat {
    let start: int = if b.len() > 8 { b.len() - 8 } else { 0 };
    be_value(b.subrange(start, b.len() as int))
}

/// Reads the low 64 bits of a big-endian number.
pub fn u256_from_be_bytes(bytes: &[u8]) -> (r: u64)
    ensures r == low64_be(bytes@),
{
    let n: usize = bytes.len();
    let start: usize = if n > 8 { n - 8 } else { 0 };
    let mut acc: u64 = 0;
    let mut j: usize = start;
    assert(bytes@.subrange(start as int, start as int) =~= Seq::<u8>::empty());
    while j < n
        invariant
            start <= j <= n,
            n == bytes@.len(),
            n - start <= 8,
            acc == be_value(bytes@.subrange(start as int, j as int)),
        decreases n - j,
    {
        proof {
            let s = bytes@.subrange(start as int, j + 1);
            assert(s.drop_last() =~= bytes@.subrange(start as int, j as int));
            lemma_be_value_bound(s);
            if s.len() < 8 {
                vstd::arithmetic::power2::lemma_pow2_strictly_increases(8 * s.len(), 64);
            }
            vstd::arithmetic::power2::lemma2_to64();
        }
        acc = acc * 256 + bytes[j] as u64;
        j = j + 1;
    }
    acc
}

/// The number of bits of a byte, less one (0 for the values 0 and 1).
pub open spec fn byte_log2(x: nat) -> nat
    decreases x,
{
    if x < 2 { 0 } else { 1 + byte_log2(x / 2) }
}

/// The index of the most significant set bit of a big-endian number, 0 when
/// it is zero.
pub open spec fn highest_bit_spec(b: Seq<u8>) -> nat
    decreases b.len(),
{
    if b.len() == 0 {
        0
    } else if b[0] != 0 {
        ((b.len() - 1) * 8 + byte_log2(b[0] as nat)) as nat
    } else {
        highest_bit_spec(b.drop_first())
    }
}

fn byte_log2_exec(x: u8) -> (r: u64)
    ensures r == byte_log2(x as nat), r <= 7,
{
    let mut v: u8 = x;
    let mut r: u64 = 0;
    proof { lemma_byte_log2_bound(x as nat); }
    while v >= 2
        invariant
            r + byte_log2(v as nat) == byte_log2(x as nat),
            r + byte_log2(v as nat) <= 7,
            v <= x,
        decreases v,
    {
        proof { lemma_byte_log2_bound(v as nat); }
        v = v / 2;
        r = r + 1;
    }
    proof { lemma_byte_log2_bound(x as nat); }
    r
}

proof fn lemma_byte_log2_bound(x: nat)
    requires x < 256,
    ensures byte_log2(x) <= 7, x >= 2 ==> byte_log2(x) >= 1,
    decreases x,
{
    if x >= 2 {
        lemma_byte_log2_bound(x / 2);
        if x / 2 >= 128 {
            assert(false);
        }
        lemma_byte_log2_small(x / 2);
    }
}

proof fn lemma_byte_log2_small(x: nat)
    requires x < 128,
    ensures byte_log2(x) <= 6,
    decreases x,
{
    if x >= 2 {
        lemma_byte_log2_small2(x / 2);
    }
}

proof fn lemma_byte_log2_small2(x: nat)
    requires x < 64,
    ensures byte_log2(x) <= 5,
    decreases x,
{
    reveal_with_fuel(byte_log2, 7);
    if x >= 2 {
        assert(x / 2 < 32);
        if x / 2 >= 2 {
            assert(x / 4 < 16);
        }
    }
}

/// Index of the most significant set bit of a big-endian number.
pub fn highest_bit_index(bytes: &[u8]) -> (r: u64)
    requires bytes@.len() * 8 + 8 <= u64::MAX,
    ensures r == highest_bit_spec(bytes@),
{
    let n: usize = bytes.len();
    let mut i: usize = 0;
    assert(bytes@.subrange(0, n as int) =~= bytes@);
    while i < n
        invariant
            i <= n,
            n == bytes@.len(),
            n * 8 + 8 <= u64::MAX,
            highest_bit_spec(bytes@) == highest_bit_spec(bytes@.subrange(i as int, n as int)),
        decreases n - i,
    {
        let b = bytes[i];
        let ghost sub = bytes@.subrange(i as int, n as int);
        assert(sub[0] == b);
        if b != 0 {
            let lg = byte_log2_exec(b);
            return ((n - i - 1) as u64) * 8 + lg;
        }
        assert(sub.drop_first() =~= bytes@.subrange(i + 1, n as int));
        i = i + 1;
    }
    assert(bytes@.subrange(n as int, n as int).len() == 0);
    0
}

/// `x - c`, or zero when `c` is larger.
pub open spec fn saturating_sub_spec(x: int, c: int) -> int {
    if x > c { x - c } else { 0 }
}

/// The EIP-2565 multiplication complexity of operands of `max_len` bytes.
pub open spec fn mult_complexity(max_len: int) -> int {
    if max_len <= 64 {
        max_len * max_len
    } else if max_len <= 1024 {
        saturating_sub_spec(max_len * max_len / 4 + 96 * max_len, 3072)
    } else {
        saturating_sub_spec(max_len * max_len / 16 + 480 * max_len, 199680)
    }
}

/// The first (at most) 32 bytes of the exponent, as far as the input holds
/// them.
pub open spec fn exp_head(input: Seq<u8>, base_len: int, exp_len: int) -> Seq<u8> {
    let s = 96 + base_len;
    let e = if exp_len < 32 { exp_len } else { 32 };
    if s + e <= input.len() {
        input.subrange(s, s + e)
    } else if s < input.len() {
        input.subrange(s, input.len() as int)
    } else {
        Seq::empty()
    }
}

/// The adjusted exponent length of EIP-2565.
pub open spec fn adjusted_exp_len(input: Seq<u8>, base_len: int, exp_len: int) -> int {
    let hb = highest_bit_spec(exp_head(input, base_len, exp_len)) as int;
    if exp_len <= 32 { hb } else { 8 * (exp_len - 32) + hb }
}

/// The MODEXP gas: complexity times the adjusted exponent length (at least
/// one), divided by three, and never under 200.
pub open spec fn modexp_gas_spec(base_len: int, exp_len: int, mod_len: int, input: Seq<u8>) -> int {
    let max_len = if base_len < mod_len { mod_len } else { base_len };
    let adj = adjusted_exp_len(input, base_len, exp_len);
    let g = mult_complexity(max_len) * (if adj < 1 { 1 } else { adj }) / 3;
    if g < 200 { 200 } else { g }
}

/// The gas formula's arithmetic stays within 64 bits on these lengths.
pub open spec fn modexp_gas_fits(base_len: int, exp_len: int, mod_len: int, input: Seq<u8>) -> bool {
    let max_len = if base_len < mod_len { mod_len } else { base_len };
    let adj = adjusted_exp_len(input, base_len, exp_len);
    &&& max_len * max_len <= u64::MAX
    &&& max_len * max_len / 16 + 480 * max_len <= u64::MAX
    &&& 96 + base_len + 32 <= u64::MAX
    &&& 8 * exp_len + 8 <= u64::MAX
    &&& mult_complexity(max_len) * (if adj < 1 { 1 } else { adj }) <= u64::MAX
}

proof fn lemma_mult_nonneg(a: int, b: int)
    requires a >= 0, b >= 0,
    ensures a * b >= 0,
{
    assert(a * b >= 0) by (nonlinear_arith) requires a >= 0, b >= 0;
}

fn exp_head_exec(input: &[u8], base_len: u64, exp_len: u64) -> (r: &[u8])
    requires 96 + base_len + 32 <= u64::MAX,
    ensures r@ == exp_head(input@, base_len as int, exp_len as int),
{
    let s: u64 = 96 + base_len;
    let e: u64 = if exp_len < 32 { exp_len } else { 32 };
    let n: usize = input.len();
    if s + e <= n as u64 {
        vstd::slice::slice_subrange(input, s as usize, (s + e) as usize)
    } else if s < n as u64 {
        vstd::slice::slice_subrange(input, s as usize, n)
    } else {
        vstd::slice::slice_subrange(input, 0, 0)
    }
}

/// The EIP-2565 gas of a MODEXP call.
pub fn modexp_gas(base_len: u64, exp_len: u64, mod_len: u64, input: &[u8]) -> (r: u64)
    requires modexp_gas_fits(base_len as int, exp_len as int, mod_len as int, input@),
    ensures r == modexp_gas_spec(base_len as int, exp_len as int, mod_len as int, input@),
{
    let max_len: u64 = if base_len < mod_len { mod_len } else { base_len };
    proof { lemma_mult_nonneg(max_len as int, max_len as int); }
    let sq: u64 = max_len * max_len;
    let mult: u64 = if max_len <= 64 {
        sq
    } else if max_len <= 1024 {
        let x: u64 = sq / 4 + 96 * max_len;
        if x > 3072 { x - 3072 } else { 0 }
    } else {
        let x: u64 = sq / 16 + 480 * max_len;
        if x > 199680 { x - 199680 } else { 0 }
    };
    let head = exp_head_exec(input, base_len, exp_len);
    proof {
        let h = exp_head(input@, base_len as int, exp_len as int);
        assert(h.len() <= 32);
    }
    let hb: u64 = highest_bit_index(head);
    proof {
        lemma_highest_bit_bound(head@);
    }
    let adjusted: u64 = if exp_len <= 32 { hb } else { 8 * (exp_len - 32) + hb };
    let adj1: u64 = if adjusted < 1 { 1 } else { adjusted };
    proof { lemma_mult_nonneg(mult as int, adj1 as int); }
    let g: u64 = mult * adj1 / 3;
    if g < 200 { 200 } else { g }
}

proof fn lemma_highest_bit_bound(b: Seq<u8>)
    ensures highest_bit_spec(b) <= b.len() * 8,
    decreases b.len(),
{
    if b.len() > 0 {
        if b[0] != 0 {
            lemma_byte_log2_bound(b[0] as nat);
        } else {
            lemma_highest_bit_bound(b.drop_first());
        }
    }
}

/// `len` bytes of `data` from `offset`, zero where `data` ends.
pub open spec fn read_slice_spec(data: Seq<u8>, offset: int, len: int) -> Seq<u8> {
    Seq::new(len as nat, |i: int| if offset + i < data.len() { data[offset + i] } else { 0u8 })
}

/// Reads `len` bytes from `data` at `offset`, padding with zeros.
pub fn read_slice(data: &[u8], offset: usize, len: usize) -> (r: Vec<u8>)
    ensures r@ == read_slice_spec(data@, offset as int, len as int),
{
    let n: usize = data.len();
    let mut out: Vec<u8> = Vec::new();
    let mut i: usize = 0;
    while i < len
        invariant
            i <= len,
            n == data@.len(),
            out@ == read_slice_spec(data@, offset as int, i as int),
        decreases len - i,
    {
        let b: u8 = if offset < n && i < n - offset { data[offset + i] } else { 0 };
        out.push(b);
        assert(out@ =~= read_slice_spec(data@, offset as int, i + 1));
        i = i + 1;
    }
    out
}

/// The three operand lengths in the header of a MODEXP input.
pub open spec fn modexp_lens(input: Seq<u8>) -> (int, int, int) {
    (low64_be(input.subrange(0, 32)) as int, low64_be(input.subrange(32, 64)) as int,
        low64_be(input.subrange(64, 96)) as int)
}

/// The operand bytes that follow the header.
pub open spec fn modexp_data(input: Seq<u8>) -> Seq<u8> {
    input.subrange(96, input.len() as int)
}

/// What MODEXP needs of the machine: lengths that fit its integers.
pub open spec fn modexp_input_fits(input: Seq<u8>) -> bool {
    input.len() >= 96 ==> {
        let (b, e, m) = modexp_lens(input);
        &&& modexp_gas_fits(b, e, m, input)
        &&& b <= usize::MAX && e <= usize::MAX && m <= usize::MAX
        &&& b + e <= usize::MAX
    }
}

/// Computes `base^exp mod modulus` with `BigUint::modpow` on big-endian
/// operands and returns `to_bytes_be` of the result: its value is the
/// modular power, written with no leading zero byte (zero is one zero byte).
#[verifier::external_body]
fn modpow_be(base: &[u8], exp: &[u8], modulus: &[u8]) -> (r: Vec<u8>)
    requires be_value(modulus@) > 0,
    ensures
        be_value(r@) == pow(be_value(base@) as int, be_value(exp@)) % (be_value(modulus@) as int),
        r@.len() >= 1,
        r@.len() == 1 || r@[0] != 0,
{
    let b = num_bigint::BigUint::from_bytes_be(base);
    let e = num_bigint::BigUint::from_bytes_be(exp);
    let m = num_bigint::BigUint::from_bytes_be(modulus);
    b.modpow(&e, &m).to_bytes_be()
}

proof fn lemma_be_value_zero_prefix(k: nat, r: Seq<u8>)
    ensures be_value(Seq::new(k, |i: int| 0u8) + r) == be_value(r),
    decreases r.len(), k,
{
    let z = Seq::new(k, |i: int| 0u8);
    if r.len() == 0 {
        assert(z + r =~= z);
        if k > 0 {
            assert(z.drop_last() =~= Seq::new((k - 1) as nat, |i: int| 0u8));
            lemma_be_value_zero_prefix((k - 1) as nat, r);
            assert(Seq::new((k - 1) as nat, |i: int| 0u8) + r =~= Seq::new((k - 1) as nat, |i: int| 0u8));
        }
    } else {
        assert((z + r).drop_last() =~= z + r.drop_last());
        lemma_be_value_zero_prefix(k, r.drop_last());
    }
}

proof fn lemma_be_value_lower(b: Seq<u8>)
    requires b.len() >= 1, b[0] != 0,
    ensures be_value(b) >= pow2(8 * (b.len() - 1) as nat),
    decreases b.len(),
{
    if b.len() == 1 {
        assert(b.drop_last().len() == 0);
        vstd::arithmetic::power2::lemma2_to64();
    } else {
        lemma_be_value_lower(b.drop_last());
        vstd::arithmetic::power2::lemma_pow2_adds(8 * (b.len() - 2) as nat, 8);
        vstd::arithmetic::power2::lemma2_to64();
        let p = pow2(8 * (b.len() - 2) as nat);
        assert(be_value(b.drop_last()) * 256 + b.last() >= p * 256) by (nonlinear_arith)
            requires be_value(b.drop_last()) >= p;
    }
}

proof fn lemma_be_value_zeros(k: nat)
    ensures be_value(Seq::new(k, |i: int| 0u8)) == 0,
{
    lemma_be_value_zero_prefix(k, Seq::empty());
    assert(Seq::new(k, |i: int| 0u8) + Seq::<u8>::empty() =~= Seq::new(k, |i: int| 0u8));
}

/// What a MODEXP call gives back when it succeeds: nothing for a short
/// input or a zero modulus length; otherwise `mod_len` bytes, all zero for a
/// zero modulus, else the big-endian modular power.
pub open spec fn modexp_output_ok(input: Seq<u8>, out: Seq<u8>) -> bool {
    if input.len() < 96 {
        out.len() == 0
    } else {
        let (b, e, m) = modexp_lens(input);
        let data = modexp_data(input);
        let base = read_slice_spec(data, 0, b);
        let exp = read_slice_spec(data, b, e);
        let modulus = read_slice_spec(data, b + e, m);
        if m == 0 {
            out.len() == 0
        } else if be_value(modulus) == 0 {
            out == Seq::new(m as nat, |i: int| 0u8)
        } else {
            out.len() == m && be_value(out) == pow(be_value(base) as int, be_value(exp)) % (be_value(modulus) as int)
        }
    }
}

/// 0x05: modular exponentiation of big-endian operands. Its gas follows
/// EIP-2565 and does not depend on the schedule.
pub fn modexp(input: &[u8], gas_limit: u64, schedule: &GasSchedule) -> (r: Result<PrecompileResult, EvmError>)
    requires modexp_input_fits(input@),
    ensures
        input@.len() < 96 ==> (r matches Ok(p) && p.output@.len() == 0 && p.gas_used == 200),
        input@.len() >= 96 ==> ({
            let (b, e, m) = modexp_lens(input@);
            let gas = modexp_gas_spec(b, e, m, input@);
            match r {
                Ok(p) => gas <= gas_limit && p.gas_used == gas && modexp_output_ok(input@, p.output@),
                Err(err) => gas_limit < gas && err == (EvmError::OutOfGas { used: gas as u64, limit: gas_limit }),
            }
        }),
{
    if input.len() < 96 {
        return PrecompileResult::ok(Vec::new(), 200);
    }
    let base_len: u64 = u256_from_be_bytes(vstd::slice::slice_subrange(input, 0, 32));
    let exp_len: u64 = u256_from_be_bytes(vstd::slice::slice_subrange(input, 32, 64));
    let mod_len: u64 = u256_from_be_bytes(vstd::slice::slice_subrange(input, 64, 96));
    let gas = modexp_gas(base_len, exp_len, mod_len, input);
    if gas_limit < gas {
        return Err(EvmError::OutOfGas { used: gas, limit: gas_limit });
    }
    if mod_len == 0 {
        return PrecompileResult::ok(Vec::new(), gas);
    }
    let data = vstd::slice::slice_subrange(input, 96, input.len());
    let bl: usize = base_len as usize;
    let el: usize = exp_len as usize;
    let ml: usize = mod_len as usize;
    let base = read_slice(data, 0, bl);
    let exp = read_slice(data, bl, el);
    let modulus = read_slice(data, bl + el, ml);
    let mut all_zero = true;
    let mut i: usize = 0;
    while i < ml
        invariant
            i <= ml,
            modulus@.len() == ml,
            all_zero == (forall|j: int| 0 <= j < i ==> modulus@[j] == 0),
        decreases ml - i,
    {
        if modulus[i] != 0 {
            all_zero = false;
        }
        i = i + 1;
    }
    if all_zero {
        proof {
            assert(modulus@ =~= Seq::new(ml as nat, |i: int| 0u8));
            lemma_be_value_zeros(ml as nat);
        }
        let zeros: Vec<u8> = vec![0u8; ml];
        assert(zeros@ =~= Seq::new(ml as nat, |i: int| 0u8));
        return PrecompileResult::ok(zeros, gas);
    }
    proof {
        let k = choose|j: int| 0 <= j < ml && modulus@[j] != 0;
        lemma_be_value_nonzero(modulus@, k);
    }
    let res = modpow_be(base.as_slice(), exp.as_slice(), modulus.as_slice());
    let rl: usize = res.len();
    proof {
        lemma_be_value_bound(modulus@);
        if rl > ml {
            lemma_be_value_lower(res@);
            if rl - 1 > ml {
                vstd::arithmetic::power2::lemma_pow2_strictly_increases(8 * ml as nat, 8 * (rl - 1) as nat);
            }
            let m = be_value(modulus@) as int;
            let p = pow(be_value(base@) as int, be_value(exp@));
            assert(p % m < m) by (nonlinear_arith) requires m > 0;
            assert(false);
        }
    }
    let pad: usize = ml - rl;
    let mut output: Vec<u8> = vec![0u8; pad];
    let mut j: usize = 0;
    while j < rl
        invariant
            j <= rl,
            rl <= ml,
            rl == res@.len(),
            output@ == Seq::new((ml - rl) as nat, |i: int| 0u8) + res@.subrange(0, j as int),
        decreases rl - j,
    {
        output.push(res[j]);
        assert(output@ =~= Seq::new((ml - rl) as nat, |i: int| 0u8) + res@.subrange(0, j + 1));
        j = j + 1;
    }
    proof {
        assert(res@.subrange(0, rl as int) =~= res@);
        lemma_be_value_zero_prefix((ml - rl) as nat, res@);
    }
    PrecompileResult::ok(output, gas)
}

proof fn lemma_be_value_nonzero(b: Seq<u8>, k: int)
    requires 0 <= k < b.len(), b[k] != 0,
    ensures be_value(b) > 0,
    decreases b.len(),
{
    if k == b.len() - 1 {
    } else {
        lemma_be_value_nonzero(b.drop_last(), k);
        assert(be_value(b.drop_last()) * 256 >= 256) by (nonlinear_arith)
            requires be_value(b.drop_last()) > 0;
    }
}

} // verus!
