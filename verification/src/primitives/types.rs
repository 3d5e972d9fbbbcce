//! Core value types: hashes, 256-bit unsigned integers, identifiers.
use vstd::prelude::*;
use vstd::std_specs::cmp::PartialEqSpecImpl;

verus! {

/// Height of a vertex in the DAG.
pub type Height = u64;
/// Accumulated consensus weight.
pub type Weight = u128;
/// Milliseconds since the Unix epoch.
pub type Timestamp = u64;
/// Account nonce.
pub type Nonce = u64;
/// Gas units.
pub type Gas = u64;

/// 2^64, the radix of a limb.
pub open spec fn limb_base() -> int { 0x1_0000_0000_0000_0000 }

/// 2^256, one more than the largest 256-bit value.
pub open spec fn u256_modulus() -> int {
    0x1_0000_0000_0000_0000_0000_0000_0000_0000_0000_0000_0000_0000_0000_0000_0000_0000int
}

/// Compares two byte slices element by element.
pub fn bytes_eq(a: &[u8], b: &[u8]) -> (r: bool)
    ensures r == (a@ == b@),
{
    if a.len() != b.len() {
        return false;
    }
    let mut i: usize = 0;
    while i < a.len()
        invariant
            i <= a@.len(),
            a@.len() == b@.len(),
            forall|j: int| 0 <= j < i ==> a@[j] == b@[j],
        decreases a@.len() - i,
    {
        if a[i] != b[i] {
            return false;
        }
        i = i + 1;
    }
    assert(a@ =~= b@);
    true
}

/// 32-byte hash type used throughout the system.
#[derive(Clone, Copy, Debug)]
pub struct Hash(pub [u8; 32]);

impl PartialEq for Hash {
    fn eq(&self, other: &Self) -> (r: bool) {
        bytes_eq(self.0.as_slice(), other.0.as_slice())
    }
}

impl PartialEqSpecImpl for Hash {
    open spec fn obeys_eq_spec() -> bool { true }
    open spec fn eq_spec(&self, other: &Self) -> bool { self.0@ == other.0@ }
}

impl Eq for Hash {}

impl Hash {
    pub fn new(bytes: [u8; 32]) -> (h: Self)
        ensures h.0 == bytes,
    {
        Hash(bytes)
    }

    /// The all-zero hash.
    pub fn zero() -> (h: Self)
        ensures h.0@ == Seq::new(32, |i: int| 0u8),
    {
        let h = Hash([0u8; 32]);
        assert(h.0@ =~= Seq::new(32, |i: int| 0u8));
        h
    }

    pub open spec fn is_zero_spec(&self) -> bool {
        self.0@ == Seq::new(32, |i: int| 0u8)
    }

    pub fn is_zero(&self) -> (r: bool)
        ensures r == self.is_zero_spec(),
    {
        let z = Hash::zero();
        bytes_eq(self.0.as_slice(), z.0.as_slice())
    }

    pub fn as_bytes(&self) -> (r: &[u8; 32])
        ensures r == &self.0,
    {
        &self.0
    }

    /// Builds a hash from a slice of exactly 32 bytes.
    pub fn from_slice(slice: &[u8]) -> (r: Option<Self>)
        ensures
            r is Some <==> slice@.len() == 32,
            r matches Some(h) ==> h.0@ == slice@,
    {
        if slice.len() == 32 {
            let mut bytes = [0u8; 32];
            let mut i: usize = 0;
            while i < 32
                invariant
                    i <= 32,
                    slice@.len() == 32,
                    forall|j: int| 0 <= j < i ==> bytes@[j] == slice@[j],
                decreases 32 - i,
            {
                bytes[i] = slice[i];
                i = i + 1;
            }
            assert(bytes@ =~= slice@);
            Some(Hash(bytes))
        } else {
            None
        }
    }
}

/// Token amount: a 256-bit unsigned integer stored as four little-endian 64-bit limbs.
#[derive(Clone, Copy, Debug)]
pub struct U256(pub [u64; 4]);

/// The number that four little-endian limbs stand for.
pub open spec fn limbs_value(l0: u64, l1: u64, l2: u64, l3: u64) -> int {
    l0 + l1 * 0x1_0000_0000_0000_0000int + l2 * 0x1_0000_0000_0000_0000_0000_0000_0000_0000int
        + l3 * 0x1_0000_0000_0000_0000_0000_0000_0000_0000_0000_0000_0000_0000int
}

impl U256 {
    /// The number this value stands for.
    pub open spec fn value(&self) -> int {
        limbs_value(self.0@[0], self.0@[1], self.0@[2], self.0@[3])
    }

    pub fn zero() -> (r: Self)
        ensures r.value() == 0, r.0@ == seq![0u64, 0, 0, 0],
    {
        let r = U256([0, 0, 0, 0]);
        assert(r.0@ =~= seq![0u64, 0, 0, 0]);
        r
    }

    pub fn one() -> (r: Self)
        ensures r.value() == 1, r.0@ == seq![1u64, 0, 0, 0],
    {
        let r = U256([1, 0, 0, 0]);
        assert(r.0@ =~= seq![1u64, 0, 0, 0]);
        r
    }

    pub fn from_u64(val: u64) -> (r: Self)
        ensures r.value() == val, r.0@ == seq![val, 0, 0, 0],
    {
        let r = U256([val, 0, 0, 0]);
        assert(r.0@ =~= seq![val, 0u64, 0, 0]);
        r
    }

    /// The low 64 bits of the value.
    pub fn as_u64(&self) -> (r: u64)
        ensures r == self.0@[0], r == self.value() % limb_base(),
    {
        self.0[0]
    }

    pub fn is_zero(&self) -> (r: bool)
        ensures r == (self.value() == 0),
    {
        self.0[0] == 0 && self.0[1] == 0 && self.0[2] == 0 && self.0[3] == 0
    }

    pub fn checked_add(&self, other: &Self) -> (r: Option<Self>)
        ensures
            r is Some <==> self.value() + other.value() < u256_modulus(),
            r matches Some(s) ==> s.value() == self.value() + other.value(),
    {
        let s0: u128 = self.0[0] as u128 + other.0[0] as u128;
        let r0: u64 = (s0 % 0x1_0000_0000_0000_0000) as u64;
        let c0: u128 = s0 / 0x1_0000_0000_0000_0000;
        let s1: u128 = self.0[1] as u128 + other.0[1] as u128 + c0;
        let r1: u64 = (s1 % 0x1_0000_0000_0000_0000) as u64;
        let c1: u128 = s1 / 0x1_0000_0000_0000_0000;
        let s2: u128 = self.0[2] as u128 + other.0[2] as u128 + c1;
        let r2: u64 = (s2 % 0x1_0000_0000_0000_0000) as u64;
        let c2: u128 = s2 / 0x1_0000_0000_0000_0000;
        let s3: u128 = self.0[3] as u128 + other.0[3] as u128 + c2;
        let r3: u64 = (s3 % 0x1_0000_0000_0000_0000) as u64;
        let c3: u128 = s3 / 0x1_0000_0000_0000_0000;
        if c3 > 0 {
            None
        } else {
            let r = U256([r0, r1, r2, r3]);
            assert(r.0@ =~= seq![r0, r1, r2, r3]);
            Some(r)
        }
    }

    pub fn checked_sub(&self, other: &Self) -> (r: Option<Self>)
        ensures
            r is Some <==> self.value() >= other.value(),
            r matches Some(s) ==> s.value() == self.value() - other.value(),
    {
        let d0: i128 = self.0[0] as i128 - other.0[0] as i128;
        let (r0, b0): (u64, i128) = if d0 < 0 { ((d0 + 0x1_0000_0000_0000_0000) as u64, 1) } else { (d0 as u64, 0) };
        let d1: i128 = self.0[1] as i128 - other.0[1] as i128 - b0;
        let (r1, b1): (u64, i128) = if d1 < 0 { ((d1 + 0x1_0000_0000_0000_0000) as u64, 1) } else { (d1 as u64, 0) };
        let d2: i128 = self.0[2] as i128 - other.0[2] as i128 - b1;
        let (r2, b2): (u64, i128) = if d2 < 0 { ((d2 + 0x1_0000_0000_0000_0000) as u64, 1) } else { (d2 as u64, 0) };
        let d3: i128 = self.0[3] as i128 - other.0[3] as i128 - b2;
        if d3 < 0 {
            None
        } else {
            let r3 = d3 as u64;
            let r = U256([r0, r1, r2, r3]);
            assert(r.0@ =~= seq![r0, r1, r2, r3]);
            Some(r)
        }
    }
}


/// Big-endian 64-bit word stored at `b[off..off + 8]`.
pub open spec fn be_u64_at(b: Seq<u8>, off: int) -> u64 {
    ((b[off] as u64) << 56u64) | ((b[off + 1] as u64) << 48u64) | ((b[off + 2] as u64) << 40u64)
        | ((b[off + 3] as u64) << 32u64) | ((b[off + 4] as u64) << 24u64)
        | ((b[off + 5] as u64) << 16u64) | ((b[off + 6] as u64) << 8u64) | (b[off + 7] as u64)
}

/// Byte `j` (0 = most significant) of the big-endian encoding of `x`.
pub open spec fn be_byte_of(x: u64, j: int) -> u8 {
    ((x >> ((56 - 8 * j) as u64)) & 0xffu64) as u8
}

/// Reads the big-endian 64-bit word at `b[off..off + 8]`.
pub fn read_be_u64(b: &[u8], off: usize) -> (r: u64)
    requires off + 8 <= b@.len(),
    ensures r == be_u64_at(b@, off as int),
{
    ((b[off] as u64) << 56u64) | ((b[off + 1] as u64) << 48u64) | ((b[off + 2] as u64) << 40u64)
        | ((b[off + 3] as u64) << 32u64) | ((b[off + 4] as u64) << 24u64)
        | ((b[off + 5] as u64) << 16u64) | ((b[off + 6] as u64) << 8u64) | (b[off + 7] as u64)
}

/// Writing a word big-endian and reading it back gives the word.
pub proof fn lemma_be_u64_roundtrip(x: u64, b: Seq<u8>, off: int)
    requires
        0 <= off,
        off + 8 <= b.len(),
        forall|j: int| 0 <= j < 8 ==> #[trigger] b[off + j] == be_byte_of(x, j),
    ensures
        be_u64_at(b, off) == x,
{
    assert(b[off + 0] == be_byte_of(x, 0));
    assert(b[off + 1] == be_byte_of(x, 1));
    assert(b[off + 2] == be_byte_of(x, 2));
    assert(b[off + 3] == be_byte_of(x, 3));
    assert(b[off + 4] == be_byte_of(x, 4));
    assert(b[off + 5] == be_byte_of(x, 5));
    assert(b[off + 6] == be_byte_of(x, 6));
    assert(b[off + 7] == be_byte_of(x, 7));
    let b0 = b[off];
    let b1 = b[off + 1];
    let b2 = b[off + 2];
    let b3 = b[off + 3];
    let b4 = b[off + 4];
    let b5 = b[off + 5];
    let b6 = b[off + 6];
    let b7 = b[off + 7];
    assert(b0 == ((x >> 56u64) & 0xffu64) as u8);
    assert(b1 == ((x >> 48u64) & 0xffu64) as u8);
    assert(b2 == ((x >> 40u64) & 0xffu64) as u8);
    assert(b3 == ((x >> 32u64) & 0xffu64) as u8);
    assert(b4 == ((x >> 24u64) & 0xffu64) as u8);
    assert(b5 == ((x >> 16u64) & 0xffu64) as u8);
    assert(b6 == ((x >> 8u64) & 0xffu64) as u8);
    assert(b7 == ((x >> 0u64) & 0xffu64) as u8);
    assert(((b0 as u64) << 56u64) | ((b1 as u64) << 48u64) | ((b2 as u64) << 40u64)
        | ((b3 as u64) << 32u64) | ((b4 as u64) << 24u64) | ((b5 as u64) << 16u64)
        | ((b6 as u64) << 8u64) | (b7 as u64) == x) by (bit_vector)
        requires
            b0 == ((x >> 56u64) & 0xffu64) as u8,
            b1 == ((x >> 48u64) & 0xffu64) as u8,
            b2 == ((x >> 40u64) & 0xffu64) as u8,
            b3 == ((x >> 32u64) & 0xffu64) as u8,
            b4 == ((x >> 24u64) & 0xffu64) as u8,
            b5 == ((x >> 16u64) & 0xffu64) as u8,
            b6 == ((x >> 8u64) & 0xffu64) as u8,
            b7 == ((x >> 0u64) & 0xffu64) as u8,
    ;
}

/// Writes `x` big-endian into `out[off..off + 8]`.
pub fn write_be_u64(out: &mut [u8; 32], off: usize, x: u64)
    requires off + 8 <= 32,
    ensures
        forall|j: int| 0 <= j < 8 ==> #[trigger] final(out)@[off + j] == be_byte_of(x, j),
        forall|k: int| 0 <= k < 32 && !(off <= k < off + 8) ==> final(out)@[k] == old(out)@[k],
{
    let mut j: usize = 0;
    while j < 8
        invariant
            j <= 8,
            off + 8 <= 32,
            forall|i: int| 0 <= i < j ==> #[trigger] out@[off + i] == be_byte_of(x, i),
            forall|k: int| 0 <= k < 32 && !(off <= k < off + j) ==> out@[k] == old(out)@[k],
        decreases 8 - j,
    {
        let shift: u64 = 56 - 8 * (j as u64);
        out[off + j] = ((x >> shift) & 0xff) as u8;
        j = j + 1;
    }
}

/// The 32-byte big-endian encoding of four little-endian limbs.
pub open spec fn u256_be_bytes(l: Seq<u64>) -> Seq<u8> {
    Seq::new(32, |k: int| be_byte_of(l[3 - k / 8], k % 8))
}

/// The four little-endian limbs read from a 32-byte big-endian encoding.
pub open spec fn limbs_from_be(b: Seq<u8>) -> Seq<u64> {
    seq![be_u64_at(b, 24), be_u64_at(b, 16), be_u64_at(b, 8), be_u64_at(b, 0)]
}

proof fn lemma_u256_be_limb(l: Seq<u64>, i: int)
    requires l.len() == 4, 0 <= i < 4,
    ensures be_u64_at(u256_be_bytes(l), 24 - 8 * i) == l[i],
{
    let b = u256_be_bytes(l);
    let off = 24 - 8 * i;
    assert forall|j: int| 0 <= j < 8 implies #[trigger] b[off + j] == be_byte_of(l[i], j) by {
        assert((off + j) / 8 == 3 - i) by (nonlinear_arith)
            requires off == 24 - 8 * i, 0 <= j < 8, 0 <= i < 4;
        assert((off + j) % 8 == j) by (nonlinear_arith)
            requires off == 24 - 8 * i, 0 <= j < 8, 0 <= i < 4;
    }
    lemma_be_u64_roundtrip(l[i], b, off);
}

/// Decoding the big-endian encoding of a value gives back the value.
pub proof fn lemma_u256_be_roundtrip(l: Seq<u64>)
    requires l.len() == 4,
    ensures limbs_from_be(u256_be_bytes(l)) == l,
{
    lemma_u256_be_limb(l, 0);
    lemma_u256_be_limb(l, 1);
    lemma_u256_be_limb(l, 2);
    lemma_u256_be_limb(l, 3);
    assert(limbs_from_be(u256_be_bytes(l)) =~= l);
}

impl U256 {
    /// Reads four big-endian words, most significant first.
    pub fn from_be_bytes(bytes: [u8; 32]) -> (r: Self)
        ensures
            r.0@ == limbs_from_be(bytes@),
    {
        let l0 = read_be_u64(bytes.as_slice(), 24);
        let l1 = read_be_u64(bytes.as_slice(), 16);
        let l2 = read_be_u64(bytes.as_slice(), 8);
        let l3 = read_be_u64(bytes.as_slice(), 0);
        let r = U256([l0, l1, l2, l3]);
        assert(r.0@ =~= limbs_from_be(bytes@));
        r
    }

    /// Writes the limbs big-endian, most significant limb first.
    pub fn to_be_bytes(&self) -> (r: [u8; 32])
        ensures
            r@ == u256_be_bytes(self.0@),
    {
        let mut out = [0u8; 32];
        write_be_u64(&mut out, 0, self.0[3]);
        write_be_u64(&mut out, 8, self.0[2]);
        write_be_u64(&mut out, 16, self.0[1]);
        write_be_u64(&mut out, 24, self.0[0]);
        assert forall|i: int, j: int| 0 <= i < 4 && 0 <= j < 8 implies
            #[trigger] out@[(3 - i) * 8 + j] == be_byte_of(self.0@[i], j) by {
            if i == 0 { assert(out@[24 + j] == be_byte_of(self.0@[0], j)); }
            else if i == 1 { assert(out@[16 + j] == be_byte_of(self.0@[1], j)); }
            else if i == 2 { assert(out@[8 + j] == be_byte_of(self.0@[2], j)); }
            else { assert(out@[0 + j] == be_byte_of(self.0@[3], j)); }
        }
        assert forall|k: int| 0 <= k < 32 implies out@[k] == u256_be_bytes(self.0@)[k] by {
            let i = 3 - k / 8;
            let j = k % 8;
            assert(k == (3 - i) * 8 + j);
            assert(out@[(3 - i) * 8 + j] == be_byte_of(self.0@[i], j));
        }
        assert(out@ =~= u256_be_bytes(self.0@));
        out
    }

    pub fn lt(&self, other: &Self) -> (r: bool)
        ensures r == (self.value() < other.value()),
    {
        if self.0[3] != other.0[3] {
            self.0[3] < other.0[3]
        } else if self.0[2] != other.0[2] {
            self.0[2] < other.0[2]
        } else if self.0[1] != other.0[1] {
            self.0[1] < other.0[1]
        } else {
            self.0[0] < other.0[0]
        }
    }

    pub fn le(&self, other: &Self) -> (r: bool)
        ensures r == (self.value() <= other.value()),
    {
        !other.lt(self)
    }

    pub fn eq_value(&self, other: &Self) -> (r: bool)
        ensures r == (self.value() == other.value()), r == (self.0@ == other.0@),
    {
        let r = self.0[0] == other.0[0] && self.0[1] == other.0[1] && self.0[2] == other.0[2]
            && self.0[3] == other.0[3];
        proof {
            if r { assert(self.0@ =~= other.0@); }
        }
        r
    }

    /// The larger of two values.
    pub fn max(self, other: Self) -> (r: Self)
        ensures r == (if self.value() < other.value() { other } else { self }),
    {
        if self.lt(&other) { other } else { self }
    }

    /// The smaller of two values.
    pub fn min(self, other: Self) -> (r: Self)
        ensures r == (if other.value() < self.value() { other } else { self }),
    {
        if other.lt(&self) { other } else { self }
    }
}


/// A limb times a 64-bit number stays below 2^128 - 2^64.
proof fn lemma_limb_product(x: u64, y: u64)
    ensures (x as int) * (y as int) <= 0xffff_ffff_ffff_fffe_0000_0000_0000_0001int,
{
    assert((x as int) * (y as int) <= 0xffff_ffff_ffff_ffffint * 0xffff_ffff_ffff_ffffint) by (nonlinear_arith)
        requires 0 <= x <= 0xffff_ffff_ffff_ffffint, 0 <= y <= 0xffff_ffff_ffff_ffffint;
}

proof fn lemma_mul_sum(l0: u64, l1: u64, l2: u64, l3: u64, b: u64, r0: u64, r1: u64, r2: u64, r3: u64,
    c1: int, c2: int, c3: int, c4: int)
    requires
        l0 as int * b == r0 + c1 * 0x1_0000_0000_0000_0000int,
        l1 as int * b + c1 == r1 + c2 * 0x1_0000_0000_0000_0000int,
        l2 as int * b + c2 == r2 + c3 * 0x1_0000_0000_0000_0000int,
        l3 as int * b + c3 == r3 + c4 * 0x1_0000_0000_0000_0000int,
    ensures
        limbs_value(l0, l1, l2, l3) * b == limbs_value(r0, r1, r2, r3) + c4 * u256_modulus(),
{
    let B: int = 0x1_0000_0000_0000_0000;
    assert(u256_modulus() == B * B * B * B) by {
        assert(B * B == 0x1_0000_0000_0000_0000_0000_0000_0000_0000int);
    }
    assert(limbs_value(l0, l1, l2, l3) == l0 + l1 * B + l2 * (B * B) + l3 * (B * B * B));
    assert(limbs_value(r0, r1, r2, r3) == r0 + r1 * B + r2 * (B * B) + r3 * (B * B * B));
    assert((l0 + l1 * B + l2 * (B * B) + l3 * (B * B * B)) * b
        == (l0 as int * b) + (l1 as int * b) * B + (l2 as int * b) * (B * B) + (l3 as int * b) * (B * B * B)) by (nonlinear_arith);
    assert((l1 as int * b) * B == (r1 + c2 * B - c1) * B);
    assert((l2 as int * b) * (B * B) == (r2 + c3 * B - c2) * (B * B));
    assert((l3 as int * b) * (B * B * B) == (r3 + c4 * B - c3) * (B * B * B));
    assert((r1 + c2 * B - c1) * B == r1 * B + c2 * (B * B) - c1 * B) by (nonlinear_arith);
    assert((r2 + c3 * B - c2) * (B * B) == r2 * (B * B) + c3 * (B * B * B) - c2 * (B * B)) by (nonlinear_arith);
    assert((r3 + c4 * B - c3) * (B * B * B) == r3 * (B * B * B) + c4 * (B * B * B * B) - c3 * (B * B * B)) by (nonlinear_arith);
}

impl U256 {
    /// The product with a 64-bit number, or `None` when it is 2^256 or more.
    pub fn checked_mul_u64(&self, b: u64) -> (r: Option<Self>)
        ensures
            r is Some <==> self.value() * b < u256_modulus(),
            r matches Some(s) ==> s.value() == self.value() * b,
    {
        let base: u128 = 0x1_0000_0000_0000_0000;
        proof {
            lemma_limb_product(self.0[0], b);
            lemma_limb_product(self.0[1], b);
            lemma_limb_product(self.0[2], b);
            lemma_limb_product(self.0[3], b);
        }
        let p0: u128 = self.0[0] as u128 * b as u128;
        let r0: u64 = (p0 % base) as u64;
        let c1: u128 = p0 / base;
        let p1: u128 = self.0[1] as u128 * b as u128 + c1;
        let r1: u64 = (p1 % base) as u64;
        let c2: u128 = p1 / base;
        let p2: u128 = self.0[2] as u128 * b as u128 + c2;
        let r2: u64 = (p2 % base) as u64;
        let c3: u128 = p2 / base;
        let p3: u128 = self.0[3] as u128 * b as u128 + c3;
        let r3: u64 = (p3 % base) as u64;
        let c4: u128 = p3 / base;
        proof {
            lemma_mul_sum(self.0@[0], self.0@[1], self.0@[2], self.0@[3], b, r0, r1, r2, r3,
                c1 as int, c2 as int, c3 as int, c4 as int);
            lemma_limbs_value_bounds(r0, r1, r2, r3);
        }
        if c4 > 0 {
            None
        } else {
            let r = U256([r0, r1, r2, r3]);
            assert(r.0@ =~= seq![r0, r1, r2, r3]);
            Some(r)
        }
    }
}

proof fn lemma_limbs_value_bounds(l0: u64, l1: u64, l2: u64, l3: u64)
    ensures 0 <= limbs_value(l0, l1, l2, l3) < u256_modulus(),
{
}

impl U256 {
    pub proof fn lemma_value_bounds(&self)
        ensures 0 <= self.value() < u256_modulus(),
    {
        lemma_limbs_value_bounds(self.0@[0], self.0@[1], self.0@[2], self.0@[3]);
    }

    /// Addition modulo 2^256.
    pub fn wrapping_add(&self, other: &Self) -> (r: Self)
        ensures r.value() == (self.value() + other.value()) % u256_modulus(),
    {
        let s0: u128 = self.0[0] as u128 + other.0[0] as u128;
        let r0: u64 = (s0 % 0x1_0000_0000_0000_0000) as u64;
        let c0: u128 = s0 / 0x1_0000_0000_0000_0000;
        let s1: u128 = self.0[1] as u128 + other.0[1] as u128 + c0;
        let r1: u64 = (s1 % 0x1_0000_0000_0000_0000) as u64;
        let c1: u128 = s1 / 0x1_0000_0000_0000_0000;
        let s2: u128 = self.0[2] as u128 + other.0[2] as u128 + c1;
        let r2: u64 = (s2 % 0x1_0000_0000_0000_0000) as u64;
        let c2: u128 = s2 / 0x1_0000_0000_0000_0000;
        let s3: u128 = self.0[3] as u128 + other.0[3] as u128 + c2;
        let r3: u64 = (s3 % 0x1_0000_0000_0000_0000) as u64;
        let c3: u128 = s3 / 0x1_0000_0000_0000_0000;
        let r = U256([r0, r1, r2, r3]);
        assert(r.0@ =~= seq![r0, r1, r2, r3]);
        proof {
            let total = self.value() + other.value();
            assert(total == r.value() + c3 * u256_modulus());
            lemma_limbs_value_bounds(r0, r1, r2, r3);
            vstd::arithmetic::div_mod::lemma_fundamental_div_mod_converse(
                total, u256_modulus(), c3 as int, r.value());
        }
        r
    }

    /// Multiplication by a 64-bit factor, modulo 2^256.
    pub fn wrapping_mul_u64(&self, k: u64) -> (r: Self)
        ensures r.value() == (self.value() * k) % u256_modulus(),
    {
        let a0 = self.0[0];
        let a1 = self.0[1];
        let a2 = self.0[2];
        let a3 = self.0[3];
        proof {
            assert(a0 * k <= 0xffff_ffff_ffff_ffff * 0xffff_ffff_ffff_ffff) by (nonlinear_arith)
                requires a0 <= 0xffff_ffff_ffff_ffff, k <= 0xffff_ffff_ffff_ffff;
            assert(a1 * k <= 0xffff_ffff_ffff_ffff * 0xffff_ffff_ffff_ffff) by (nonlinear_arith)
                requires a1 <= 0xffff_ffff_ffff_ffff, k <= 0xffff_ffff_ffff_ffff;
            assert(a2 * k <= 0xffff_ffff_ffff_ffff * 0xffff_ffff_ffff_ffff) by (nonlinear_arith)
                requires a2 <= 0xffff_ffff_ffff_ffff, k <= 0xffff_ffff_ffff_ffff;
            assert(a3 * k <= 0xffff_ffff_ffff_ffff * 0xffff_ffff_ffff_ffff) by (nonlinear_arith)
                requires a3 <= 0xffff_ffff_ffff_ffff, k <= 0xffff_ffff_ffff_ffff;
        }
        let p0: u128 = a0 as u128 * k as u128;
        let r0: u64 = (p0 % 0x1_0000_0000_0000_0000) as u64;
        let c0: u128 = p0 / 0x1_0000_0000_0000_0000;
        let p1: u128 = a1 as u128 * k as u128 + c0;
        let r1: u64 = (p1 % 0x1_0000_0000_0000_0000) as u64;
        let c1: u128 = p1 / 0x1_0000_0000_0000_0000;
        let p2: u128 = a2 as u128 * k as u128 + c1;
        let r2: u64 = (p2 % 0x1_0000_0000_0000_0000) as u64;
        let c2: u128 = p2 / 0x1_0000_0000_0000_0000;
        let p3: u128 = a3 as u128 * k as u128 + c2;
        let r3: u64 = (p3 % 0x1_0000_0000_0000_0000) as u64;
        let c3: u128 = p3 / 0x1_0000_0000_0000_0000;
        let r = U256([r0, r1, r2, r3]);
        assert(r.0@ =~= seq![r0, r1, r2, r3]);
        proof {
            let v = self.value();
            assert(v * k == a0 * k + (a1 * k) * 0x1_0000_0000_0000_0000int
                + (a2 * k) * 0x1_0000_0000_0000_0000_0000_0000_0000_0000int
                + (a3 * k) * 0x1_0000_0000_0000_0000_0000_0000_0000_0000_0000_0000_0000_0000int)
                by (nonlinear_arith)
                requires v == limbs_value(a0, a1, a2, a3);
            assert(v * k == r.value() + c3 * u256_modulus());
            lemma_limbs_value_bounds(r0, r1, r2, r3);
            vstd::arithmetic::div_mod::lemma_fundamental_div_mod_converse(
                v * k, u256_modulus(), c3 as int, r.value());
        }
        r
    }

    /// Division by a nonzero 64-bit divisor, rounding down.
    pub fn div_u64(&self, d: u64) -> (r: Self)
        requires d > 0,
        ensures r.value() == self.value() / (d as int),
    {
        self.div_rem_u64(d).0
    }

    /// Quotient and remainder by a nonzero 64-bit divisor.
    pub fn div_rem_u64(&self, d: u64) -> (r: (Self, u64))
        requires d > 0,
        ensures r.0.value() == self.value() / (d as int), r.1 == self.value() % (d as int),
    {
        let a0 = self.0[0];
        let a1 = self.0[1];
        let a2 = self.0[2];
        let a3 = self.0[3];
        let q3: u64 = a3 / d;
        let m3: u64 = a3 % d;
        proof {
            assert(m3 as int * 0x1_0000_0000_0000_0000int + a2 < d as int * 0x1_0000_0000_0000_0000int) by (nonlinear_arith)
                requires m3 < d, a2 < 0x1_0000_0000_0000_0000int;
        }
        let x2: u128 = m3 as u128 * 0x1_0000_0000_0000_0000u128 + a2 as u128;
        let q2: u64 = (x2 / d as u128) as u64;
        let m2: u64 = (x2 % d as u128) as u64;
        proof {
            assert((x2 as int) / (d as int) <= 0xffff_ffff_ffff_ffff) by (nonlinear_arith)
                requires x2 < d * 0x1_0000_0000_0000_0000int, d > 0;
            assert(m2 as int * 0x1_0000_0000_0000_0000int + a1 < d as int * 0x1_0000_0000_0000_0000int) by (nonlinear_arith)
                requires m2 < d, a1 < 0x1_0000_0000_0000_0000int;
        }
        let x1: u128 = m2 as u128 * 0x1_0000_0000_0000_0000u128 + a1 as u128;
        let q1: u64 = (x1 / d as u128) as u64;
        let m1: u64 = (x1 % d as u128) as u64;
        proof {
            assert((x1 as int) / (d as int) <= 0xffff_ffff_ffff_ffff) by (nonlinear_arith)
                requires x1 < d * 0x1_0000_0000_0000_0000int, d > 0;
            assert(m1 as int * 0x1_0000_0000_0000_0000int + a0 < d as int * 0x1_0000_0000_0000_0000int) by (nonlinear_arith)
                requires m1 < d, a0 < 0x1_0000_0000_0000_0000int;
        }
        let x0: u128 = m1 as u128 * 0x1_0000_0000_0000_0000u128 + a0 as u128;
        let q0: u64 = (x0 / d as u128) as u64;
        let m0: u64 = (x0 % d as u128) as u64;
        proof {
            assert((x0 as int) / (d as int) <= 0xffff_ffff_ffff_ffff) by (nonlinear_arith)
                requires x0 < d * 0x1_0000_0000_0000_0000int, d > 0;
        }
        let r = U256([q0, q1, q2, q3]);
        assert(r.0@ =~= seq![q0, q1, q2, q3]);
        proof {
            let v = self.value();
            let dd = d as int;
            vstd::arithmetic::div_mod::lemma_fundamental_div_mod(a3 as int, dd);
            vstd::arithmetic::div_mod::lemma_fundamental_div_mod(x2 as int, dd);
            vstd::arithmetic::div_mod::lemma_fundamental_div_mod(x1 as int, dd);
            vstd::arithmetic::div_mod::lemma_fundamental_div_mod(x0 as int, dd);
            assert(q3 == a3 as int / dd && m3 == a3 as int % dd);
            assert(a3 == q3 * dd + m3) by (nonlinear_arith)
                requires q3 == a3 as int / dd, m3 == a3 as int % dd, a3 == dd * (a3 as int / dd) + a3 as int % dd;
            assert(q2 == x2 as int / dd && m2 == x2 as int % dd);
            assert(x2 == q2 * dd + m2) by (nonlinear_arith)
                requires q2 == x2 as int / dd, m2 == x2 as int % dd, x2 == dd * (x2 as int / dd) + x2 as int % dd;
            assert(q1 == x1 as int / dd && m1 == x1 as int % dd);
            assert(x1 == q1 * dd + m1) by (nonlinear_arith)
                requires q1 == x1 as int / dd, m1 == x1 as int % dd, x1 == dd * (x1 as int / dd) + x1 as int % dd;
            assert(q0 == x0 as int / dd);
            assert(m0 == x0 as int % dd);
            assert(x0 == q0 * dd + m0) by (nonlinear_arith)
                requires q0 == x0 as int / dd, m0 == x0 as int % dd, x0 == dd * (x0 as int / dd) + x0 as int % dd;
            assert(v == r.value() * dd + m0) by (nonlinear_arith)
                requires
                    v == limbs_value(a0, a1, a2, a3),
                    r.value() == limbs_value(q0, q1, q2, q3),
                    a3 == q3 * dd + m3,
                    x2 == m3 * 0x1_0000_0000_0000_0000int + a2,
                    x2 == q2 * dd + m2,
                    x1 == m2 * 0x1_0000_0000_0000_0000int + a1,
                    x1 == q1 * dd + m1,
                    x0 == m1 * 0x1_0000_0000_0000_0000int + a0,
                    x0 == q0 * dd + m0;
            lemma_limbs_value_bounds(q0, q1, q2, q3);
            vstd::arithmetic::div_mod::lemma_fundamental_div_mod_converse(
                v, dd, r.value(), m0 as int);
        }
        (r, m0)
    }

    /// The decimal digits of the value, without leading zeros.
    pub fn to_decimal_string(&self) -> (s: String)
        ensures s@ == crate::primitives::text::dec_digits(self.value() as nat),
    {
        proof { self.lemma_value_bounds(); }
        let mut digits: Vec<char> = Vec::new();
        let mut m: U256 = *self;
        loop
            invariant_except_break
                m.value() >= 0,
                crate::primitives::text::dec_digits(self.value() as nat) == crate::primitives::text::dec_digits(m.value() as nat) + digits@.reverse(),
            ensures
                crate::primitives::text::dec_digits(self.value() as nat) == digits@.reverse(),
            decreases m.value(),
        {
            let (q, d) = m.div_rem_u64(10);
            proof { q.lemma_value_bounds(); }
            if q.is_zero() {
                let ghost before = digits@;
                digits.push((48 + d as u8) as char);
                assert(m.value() < 10);
                assert(digits@.reverse() =~= seq![(48 + m.value()) as char] + before.reverse());
                break;
            }
            let ghost before = digits@;
            digits.push((48 + d as u8) as char);
            assert(crate::primitives::text::dec_digits(m.value() as nat)
                == crate::primitives::text::dec_digits((m.value() / 10) as nat).push((48 + m.value() % 10) as char));
            assert(digits@.reverse() =~= seq![(48 + d) as char] + before.reverse());
            assert(crate::primitives::text::dec_digits(m.value() as nat) + before.reverse()
                =~= crate::primitives::text::dec_digits(q.value() as nat) + digits@.reverse());
            m = q;
        }
        let mut out: Vec<char> = Vec::new();
        let mut i: usize = digits.len();
        while i > 0
            invariant
                i <= digits@.len(),
                out@ == digits@.subrange(i as int, digits@.len() as int).reverse(),
            decreases i,
        {
            i = i - 1;
            out.push(digits[i]);
            assert(out@ =~= digits@.subrange(i as int, digits@.len() as int).reverse());
        }
        assert(digits@.subrange(0, digits@.len() as int) =~= digits@);
        crate::primitives::text::chars_to_string(out.as_slice())
    }
}


impl Hash {
    /// "0x" followed by the lowercase hexadecimal digits of the hash.
    pub fn to_hex_string(&self) -> (r: String)
        ensures r@ == seq!['0', 'x'] + crate::primitives::text::hex_lower(self.0@),
    {
        let h = crate::primitives::text::hex_encode(self.0.as_slice());
        let mut r = String::new();
        crate::primitives::text::string_push(&mut r, '0');
        crate::primitives::text::string_push(&mut r, 'x');
        let chars = crate::primitives::text::str_to_chars(h.as_str());
        let mut i: usize = 0;
        while i < chars.len()
            invariant
                i <= chars@.len(),
                chars@ == crate::primitives::text::hex_lower(self.0@),
                r@ == seq!['0', 'x'] + chars@.take(i as int),
            decreases chars@.len() - i,
        {
            crate::primitives::text::string_push(&mut r, chars[i]);
            assert(chars@.take(i as int).push(chars@[i as int]) =~= chars@.take(i + 1));
            i = i + 1;
        }
        assert(chars@.take(chars@.len() as int) =~= chars@);
        r
    }
}

/// Validator or node identifier.
#[derive(Clone, Copy, Debug, Hash)]
pub struct ValidatorId(pub [u8; 32]);

impl PartialEq for ValidatorId {
    fn eq(&self, other: &Self) -> (r: bool) {
        bytes_eq(self.0.as_slice(), other.0.as_slice())
    }
}

impl PartialEqSpecImpl for ValidatorId {
    open spec fn obeys_eq_spec() -> bool { true }
    open spec fn eq_spec(&self, other: &Self) -> bool { self.0@ == other.0@ }
}

impl Eq for ValidatorId {}

impl ValidatorId {
    pub fn new(bytes: [u8; 32]) -> (r: Self)
        ensures r.0 == bytes,
    {
        ValidatorId(bytes)
    }
}

/// Protocol version, for upgrade coordination.
#[derive(Clone, Copy, Debug, PartialEq, Eq, Structural)]
pub struct ProtocolVersion {
    pub major: u16,
    pub minor: u16,
    pub patch: u16,
}

impl ProtocolVersion {
    /// The version of this software: 0.1.0.
    pub fn current() -> (r: Self)
        ensures r == (ProtocolVersion { major: 0, minor: 1, patch: 0 }),
    {
        ProtocolVersion { major: 0, minor: 1, patch: 0 }
    }

    /// Versions are compatible when their major numbers agree.
    pub fn is_compatible(&self, other: &Self) -> (r: bool)
        ensures r == (self.major == other.major),
    {
        self.major == other.major
    }
}

/// Heights at which protocol upgrades activate.
#[derive(Clone, Copy, Debug)]
pub struct UpgradeHeights {
    pub zk_evm: Option<Height>,
    pub iso_v2: Option<Height>,
    pub privacy_v2: Option<Height>,
    pub sharding: Option<Height>,
}

impl Default for UpgradeHeights {
    fn default() -> (r: Self)
        ensures r.zk_evm is None, r.iso_v2 is None, r.privacy_v2 is None, r.sharding is None,
    {
        UpgradeHeights { zk_evm: None, iso_v2: None, privacy_v2: None, sharding: None }
    }
}

/// Chain parameters, changeable by governance.
#[derive(Clone, Copy, Debug)]
pub struct ChainConfig {
    pub chain_id: u64,
    /// Least gas price accepted.
    pub min_gas_price: U256,
    pub max_gas_per_tx: Gas,
    /// Gas limit of a batch of vertices.
    pub vertex_gas_limit: Gas,
    pub min_validator_stake: U256,
    pub max_validators: u32,
    /// Percentage of weight needed for finality.
    pub finality_threshold: u32,
    pub upgrade_heights: UpgradeHeights,
}

impl Default for ChainConfig {
    /// The test network parameters.
    fn default() -> (r: Self)
        ensures
            r.chain_id == 1337,
            r.min_gas_price.value() == 1_000_000_000,
            r.max_gas_per_tx == 30_000_000,
            r.vertex_gas_limit == 100_000_000,
            r.min_validator_stake.value() == 10_000,
            r.max_validators == 100,
            r.finality_threshold == 67,
            r.upgrade_heights.zk_evm is None,
            r.upgrade_heights.iso_v2 is None,
            r.upgrade_heights.privacy_v2 is None,
            r.upgrade_heights.sharding is None,
    {
        ChainConfig {
            chain_id: 1337,
            min_gas_price: U256::from_u64(1_000_000_000),
            max_gas_per_tx: 30_000_000,
            vertex_gas_limit: 100_000_000,
            min_validator_stake: U256::from_u64(10_000),
            max_validators: 100,
            finality_threshold: 67,
            upgrade_heights: UpgradeHeights::default(),
        }
    }
}

/// Version of the wire protocol.
pub const PROTOCOL_VERSION: u32 = 1;

/// Largest transaction accepted, in bytes.
pub const MAX_TX_SIZE: usize = 131072;

/// Most parents a DAG vertex may reference.
pub const MAX_PARENTS: usize = 8;

} // verus!
