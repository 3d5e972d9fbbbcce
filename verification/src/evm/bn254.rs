//! Points of the BN254 (alt_bn128) curve as big-endian bytes, read and
//! checked here; the group arithmetic and the pairing are ark-bn254's.
use vstd::prelude::*;
use ark_bn254::{Bn254, Fq, Fq2, Fr, G1Affine, G2Affine};
use ark_ec::pairing::Pairing;
use ark_ec::{AffineRepr, CurveGroup};
use ark_ff::{BigInteger, PrimeField, Zero};
use crate::primitives::crypto::be_value;

verus! {

/// The modulus of the base field.
pub open spec fn fq_modulus() -> int {
    21888242871839275222246405745257275088696311157297823662689037894645226208583int
}

/// A big-endian number reduced into the base field.
pub open spec fn fq(b: Seq<u8>) -> int {
    be_value(b) as int % fq_modulus()
}

/// The constant b = 3/(u + 9) of the G2 curve, as its two coefficients.
pub open spec fn g2_coeff_b() -> (int, int) {
    (19485874751759354771024239261021720505790618469301721065564631296452457478373int,
     266929791119991161246907387137283842545076965332900288569378510910307636690int)
}

/// A product in the quadratic extension of the base field, where u² = -1.
pub open spec fn fq2_mul(a: (int, int), b: (int, int)) -> (int, int) {
    ((a.0 * b.0 - a.1 * b.1) % fq_modulus(), (a.0 * b.1 + a.1 * b.0) % fq_modulus())
}

/// (x, y) satisfies y² = x³ + 3 over the base field.
pub open spec fn g1_on_curve_spec(x: Seq<u8>, y: Seq<u8>) -> bool {
    (fq(y) * fq(y)) % fq_modulus() == (fq(x) * fq(x) * fq(x) + 3) % fq_modulus()
}

/// (x0 + x1·u, y0 + y1·u) satisfies y² = x³ + b over the quadratic extension.
pub open spec fn g2_on_curve_spec(x0: Seq<u8>, x1: Seq<u8>, y0: Seq<u8>, y1: Seq<u8>) -> bool {
    let x = (fq(x0), fq(x1));
    let y = (fq(y0), fq(y1));
    let x3 = fq2_mul(fq2_mul(x, x), x);
    fq2_mul(y, y) == ((x3.0 + g2_coeff_b().0) % fq_modulus(), (x3.1 + g2_coeff_b().1) % fq_modulus())
}

/// A point of G1: the point at infinity, or big-endian affine coordinates.
#[derive(Clone, Copy, Debug)]
pub enum G1Point {
    Infinity,
    Affine([u8; 32], [u8; 32]),
}

/// A point of G2: the point at infinity, or the coefficients (c0, c1) of
/// its affine coordinates x and y.
#[derive(Clone, Copy, Debug)]
pub enum G2Point {
    Infinity,
    Affine { x0: [u8; 32], x1: [u8; 32], y0: [u8; 32], y1: [u8; 32] },
}

/// A G1 point as plain values; `None` is the point at infinity.
pub open spec fn g1_view(p: G1Point) -> Option<(Seq<u8>, Seq<u8>)> {
    match p {
        G1Point::Infinity => None,
        G1Point::Affine(x, y) => Some((x@, y@)),
    }
}

/// A G2 point as plain values; `None` is the point at infinity.
pub open spec fn g2_view(p: G2Point) -> Option<(Seq<u8>, Seq<u8>, Seq<u8>, Seq<u8>)> {
    match p {
        G2Point::Infinity => None,
        G2Point::Affine { x0, x1, y0, y1 } => Some((x0@, x1@, y0@, y1@)),
    }
}

/// One pair of finite points for the pairing check: G1 (x, y), then G2
/// (x0, x1, y0, y1).
#[derive(Clone, Copy, Debug)]
pub struct PairingPair {
    pub g1x: [u8; 32],
    pub g1y: [u8; 32],
    pub g2x0: [u8; 32],
    pub g2x1: [u8; 32],
    pub g2y0: [u8; 32],
    pub g2y1: [u8; 32],
}

/// A pair as the sequence of its six coordinates.
pub open spec fn pair_view(p: PairingPair) -> Seq<Seq<u8>> {
    seq![p.g1x@, p.g1y@, p.g2x0@, p.g2x1@, p.g2y0@, p.g2y1@]
}

/// The sum of two G1 points as ark-bn254 computes it, coordinates reduced
/// into the field.
pub uninterp spec fn bn254_g1_add(a: Option<(Seq<u8>, Seq<u8>)>, b: Option<(Seq<u8>, Seq<u8>)>) -> Option<(Seq<u8>, Seq<u8>)>;

/// A G1 point times a big-endian scalar (reduced modulo the group order), as
/// ark-bn254 computes it.
pub uninterp spec fn bn254_g1_mul(p: Option<(Seq<u8>, Seq<u8>)>, scalar: Seq<u8>) -> Option<(Seq<u8>, Seq<u8>)>;

/// Whether the product of the pairings of the pairs is one, or `None` when
/// the final exponentiation has no result, as ark-bn254 computes it.
pub uninterp spec fn bn254_pairing_check(pairs: Seq<Seq<Seq<u8>>>) -> Option<bool>;

/// Calls ark-bn254's `Fq::from_be_bytes_mod_order` and `is_zero`: trusted to
/// tell whether the big-endian number is a multiple of the field modulus.
#[verifier::external_body]
pub fn fq_is_zero(b: &[u8; 32]) -> (r: bool)
    ensures r == (fq(b@) == 0),
{
    Fq::from_be_bytes_mod_order(b.as_slice()).is_zero()
}

/// Calls `G1Affine::is_on_curve` on the finite point with the reduced
/// coordinates: trusted to tell whether y² = x³ + 3 in the base field.
#[verifier::external_body]
pub fn g1_on_curve(x: &[u8; 32], y: &[u8; 32]) -> (r: bool)
    ensures r == g1_on_curve_spec(x@, y@),
{
    G1Affine::new_unchecked(Fq::from_be_bytes_mod_order(x.as_slice()), Fq::from_be_bytes_mod_order(y.as_slice())).is_on_curve()
}

/// Calls `G2Affine::is_on_curve` on the finite point with the reduced
/// coefficients: trusted to tell whether y² = x³ + 3/(u + 9) in the
/// quadratic extension (u² = -1).
#[verifier::external_body]
pub fn g2_on_curve(x0: &[u8; 32], x1: &[u8; 32], y0: &[u8; 32], y1: &[u8; 32]) -> (r: bool)
    ensures r == g2_on_curve_spec(x0@, x1@, y0@, y1@),
{
    let f = |b: &[u8; 32]| Fq::from_be_bytes_mod_order(b.as_slice());
    G2Affine::new_unchecked(Fq2::new(f(x0), f(x1)), Fq2::new(f(y0), f(y1))).is_on_curve()
}

/// Calls ark-bn254's G1 addition (projective sum, then back to affine); the
/// result is named by `bn254_g1_add`.
#[verifier::external_body]
pub fn g1_add(a: &G1Point, b: &G1Point) -> (r: G1Point)
    ensures g1_view(r) == bn254_g1_add(g1_view(*a), g1_view(*b)),
{
    let f = |b: &[u8; 32]| Fq::from_be_bytes_mod_order(b.as_slice());
    let pt = |p: &G1Point| match p { G1Point::Infinity => G1Affine::zero(), G1Point::Affine(x, y) => G1Affine::new_unchecked(f(x), f(y)) };
    let s = (pt(a).into_group() + pt(b).into_group()).into_affine();
    let out = |v: Fq| -> [u8; 32] { v.into_bigint().to_bytes_be().try_into().unwrap() };
    if s.is_zero() { G1Point::Infinity } else { G1Point::Affine(out(s.x), out(s.y)) }
}

/// Calls ark-bn254's G1 scalar multiplication, the scalar read with
/// `Fr::from_be_bytes_mod_order`; the result is named by `bn254_g1_mul`.
#[verifier::external_body]
pub fn g1_mul(p: &G1Point, scalar: &[u8; 32]) -> (r: G1Point)
    ensures g1_view(r) == bn254_g1_mul(g1_view(*p), scalar@),
{
    let f = |b: &[u8; 32]| Fq::from_be_bytes_mod_order(b.as_slice());
    let a = match p { G1Point::Infinity => G1Affine::zero(), G1Point::Affine(x, y) => G1Affine::new_unchecked(f(x), f(y)) };
    let s = (a.into_group() * Fr::from_be_bytes_mod_order(scalar.as_slice())).into_affine();
    let out = |v: Fq| -> [u8; 32] { v.into_bigint().to_bytes_be().try_into().unwrap() };
    if s.is_zero() { G1Point::Infinity } else { G1Point::Affine(out(s.x), out(s.y)) }
}

/// Calls `Bn254::multi_miller_loop` and `final_exponentiation` on the pairs
/// and tests the product for one; the result is named by
/// `bn254_pairing_check`.
#[verifier::external_body]
pub fn pairing_check(pairs: &[PairingPair]) -> (r: Option<bool>)
    ensures r == bn254_pairing_check(pairs@.map_values(|p: PairingPair| pair_view(p))),
{
    let f = |b: &[u8; 32]| Fq::from_be_bytes_mod_order(b.as_slice());
    let g1: Vec<G1Affine> = pairs.iter().map(|p| G1Affine::new_unchecked(f(&p.g1x), f(&p.g1y))).collect();
    let g2: Vec<G2Affine> = pairs.iter().map(|p| G2Affine::new_unchecked(Fq2::new(f(&p.g2x0), f(&p.g2x1)), Fq2::new(f(&p.g2y0), f(&p.g2y1)))).collect();
    Bn254::final_exponentiation(Bn254::multi_miller_loop(g1, g2)).map(|o| o.is_zero())
}

/// Reads a G1 point from 64 bytes (x then y): all-zero coordinates (after
/// reduction) are the point at infinity; otherwise it must lie on the curve.
pub open spec fn parse_g1_spec(b: Seq<u8>) -> Option<Option<(Seq<u8>, Seq<u8>)>> {
    let x = b.subrange(0, 32);
    let y = b.subrange(32, 64);
    if fq(x) == 0 && fq(y) == 0 {
        Some(None)
    } else if g1_on_curve_spec(x, y) {
        Some(Some((x, y)))
    } else {
        None
    }
}

/// Reads a G2 point from 128 bytes in Ethereum's order (x1, x0, y1, y0).
pub open spec fn parse_g2_spec(b: Seq<u8>) -> Option<Option<(Seq<u8>, Seq<u8>, Seq<u8>, Seq<u8>)>> {
    let x1 = b.subrange(0, 32);
    let x0 = b.subrange(32, 64);
    let y1 = b.subrange(64, 96);
    let y0 = b.subrange(96, 128);
    if fq(x0) == 0 && fq(x1) == 0 && fq(y0) == 0 && fq(y1) == 0 {
        Some(None)
    } else if g2_on_curve_spec(x0, x1, y0, y1) {
        Some(Some((x0, x1, y0, y1)))
    } else {
        None
    }
}

/// The 64-byte encoding of a G1 point; zeros for the point at infinity.
pub open spec fn g1_bytes(p: Option<(Seq<u8>, Seq<u8>)>) -> Seq<u8> {
    match p {
        None => Seq::new(64, |i: int| 0u8),
        Some((x, y)) => x + y,
    }
}

fn take32(b: &[u8], off: usize) -> (r: [u8; 32])
    requires off + 32 <= b@.len(),
    ensures r@ == b@.subrange(off as int, off + 32),
{
    let mut a = [0u8; 32];
    let mut i: usize = 0;
    let n: usize = b.len();
    while i < 32
        invariant
            i <= 32,
            n == b@.len(),
            off + 32 <= b@.len(),
            forall|j: int| 0 <= j < i ==> a@[j] == b@[off + j],
        decreases 32 - i,
    {
        a[i] = b[off + i];
        i = i + 1;
    }
    assert(a@ =~= b@.subrange(off as int, off + 32));
    a
}

/// Reads the G1 point at `off`.
pub fn parse_g1(b: &[u8], off: usize) -> (r: Option<G1Point>)
    requires off + 64 <= b@.len(),
    ensures
        match r {
            Some(p) => parse_g1_spec(b@.subrange(off as int, off + 64)) == Some(g1_view(p)),
            None => parse_g1_spec(b@.subrange(off as int, off + 64)) is None,
        },
{
    let n: usize = b.len();
    assert(off + 64 <= n);
    let x = take32(b, off);
    let y = take32(b, off + 32);
    proof {
        let s = b@.subrange(off as int, off + 64);
        assert(s.subrange(0, 32) =~= x@);
        assert(s.subrange(32, 64) =~= y@);
    }
    if fq_is_zero(&x) && fq_is_zero(&y) {
        return Some(G1Point::Infinity);
    }
    if !g1_on_curve(&x, &y) {
        return None;
    }
    Some(G1Point::Affine(x, y))
}

/// Reads the G2 point at `off`.
pub fn parse_g2(b: &[u8], off: usize) -> (r: Option<G2Point>)
    requires off + 128 <= b@.len(),
    ensures
        match r {
            Some(p) => parse_g2_spec(b@.subrange(off as int, off + 128)) == Some(g2_view(p)),
            None => parse_g2_spec(b@.subrange(off as int, off + 128)) is None,
        },
{
    let n: usize = b.len();
    assert(off + 128 <= n);
    let x1 = take32(b, off);
    let x0 = take32(b, off + 32);
    let y1 = take32(b, off + 64);
    let y0 = take32(b, off + 96);
    proof {
        let s = b@.subrange(off as int, off + 128);
        assert(s.subrange(0, 32) =~= x1@);
        assert(s.subrange(32, 64) =~= x0@);
        assert(s.subrange(64, 96) =~= y1@);
        assert(s.subrange(96, 128) =~= y0@);
    }
    if fq_is_zero(&x0) && fq_is_zero(&x1) && fq_is_zero(&y0) && fq_is_zero(&y1) {
        return Some(G2Point::Infinity);
    }
    if !g2_on_curve(&x0, &x1, &y0, &y1) {
        return None;
    }
    Some(G2Point::Affine { x0, x1, y0, y1 })
}

/// The 64-byte encoding of a G1 point.
pub fn serialize_g1(p: &G1Point) -> (r: Vec<u8>)
    ensures r@ == g1_bytes(g1_view(*p)),
{
    match p {
        G1Point::Infinity => {
            let z: Vec<u8> = vec![0u8; 64];
            assert(z@ =~= Seq::new(64, |i: int| 0u8));
            z
        },
        G1Point::Affine(x, y) => {
            let mut out: Vec<u8> = Vec::new();
            crate::primitives::address::push_all(&mut out, x.as_slice());
            crate::primitives::address::push_all(&mut out, y.as_slice());
            assert(out@ =~= x@ + y@);
            out
        },
    }
}

} // verus!
