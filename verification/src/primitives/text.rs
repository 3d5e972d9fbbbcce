//! Character and string helpers: decimal and hexadecimal rendering and parsing.
use vstd::prelude::*;
use vstd::string::StrSliceExecFns;

verus! {

/// Appends a character to a string (`String::push`).
#[verifier::external_body]
pub fn string_push(s: &mut String, c: char)
    ensures final(s)@ == old(s)@.push(c),
{
    s.push(c);
}

/// Decodes UTF-8 bytes into a string (`String::from_utf8`): `None` exactly
/// when the bytes are not valid UTF-8, otherwise the decoded characters.
#[verifier::external_body]
pub(crate) fn string_from_utf8(bytes: Vec<u8>) -> (r: Option<String>)
    ensures
        r is Some <==> vstd::utf8::valid_utf8(bytes@),
        r matches Some(s) ==> s@ == vstd::utf8::decode_utf8(bytes@),
{
    String::from_utf8(bytes).ok()
}

/// The uppercase form of a string under the full Unicode case mapping, as
/// `str::to_uppercase` computes it.
pub uninterp spec fn to_uppercase_spec(s: Seq<char>) -> Seq<char>;

/// The ASCII uppercase of a character: `a`..`z` become `A`..`Z`.
pub open spec fn ascii_upper_char(c: char) -> char {
    if 'a' <= c && c <= 'z' { ((c as u32) - 32) as char } else { c }
}

/// Every character is ASCII.
pub open spec fn ascii_chars_only(s: Seq<char>) -> bool {
    forall|i: int| 0 <= i < s.len() ==> (#[trigger] s[i] as u32) < 128
}

/// The uppercase form of a string: on ASCII text each letter `a`..`z`
/// raised, otherwise the full Unicode mapping `str::to_uppercase` applies.
pub open spec fn upper_spec(s: Seq<char>) -> Seq<char> {
    if ascii_chars_only(s) { s.map_values(|c: char| ascii_upper_char(c)) } else { to_uppercase_spec(s) }
}

/// Calls `str::to_uppercase`; trusted to return the uppercase form of its
/// argument, a function of the argument's characters alone, which on ASCII
/// input is the ASCII uppercase of each character (Unicode's mapping agrees
/// with ASCII's there).
#[verifier::external_body]
pub(crate) fn str_to_uppercase(s: &str) -> (r: String)
    ensures
        r@ == to_uppercase_spec(s@),
        ascii_chars_only(s@) ==> r@ == s@.map_values(|c: char| ascii_upper_char(c)),
{
    s.to_uppercase()
}

/// Whether the characters of `v` are those of `s`.
pub fn chars_equal_str(v: &[char], s: &str) -> (r: bool)
    ensures r == (v@ == s@),
{
    let n = s.unicode_len();
    if v.len() != n {
        return false;
    }
    let mut i: usize = 0;
    while i < n
        invariant
            i <= n == v@.len() == s@.len(),
            forall|j: int| 0 <= j < i ==> v@[j] == s@[j],
        decreases n - i,
    {
        if v[i] != s.get_char(i) {
            return false;
        }
        i = i + 1;
    }
    assert(v@ =~= s@);
    true
}

/// The characters that ASCII bytes stand for.
pub open spec fn ascii_chars(b: Seq<u8>) -> Seq<char> {
    Seq::new(b.len(), |i: int| b[i] as char)
}

/// Whether every byte is below 128.
pub open spec fn all_ascii(b: Seq<u8>) -> bool {
    forall|i: int| 0 <= i < b.len() ==> #[trigger] b[i] < 128
}

/// The characters of `b[from..to]` when every byte there is ASCII.
pub fn ascii_window_chars(b: &[u8], from: usize, to: usize) -> (r: Option<Vec<char>>)
    requires from <= to <= b@.len(),
    ensures
        r is Some <==> all_ascii(b@.subrange(from as int, to as int)),
        r matches Some(v) ==> v@ == ascii_chars(b@.subrange(from as int, to as int)),
{
    let ghost w = b@.subrange(from as int, to as int);
    let mut v: Vec<char> = Vec::new();
    let mut i: usize = from;
    while i < to
        invariant
            from <= i <= to <= b@.len(),
            w == b@.subrange(from as int, to as int),
            all_ascii(w.take(i - from)),
            v@ == ascii_chars(w.take(i - from)),
        decreases to - i,
    {
        if b[i] >= 128 {
            assert(w[i - from] == b@[i as int]);
            return None;
        }
        v.push(b[i] as char);
        assert(ascii_chars(w.take(i - from)).push(b@[i as int] as char)
            =~= ascii_chars(w.take(i + 1 - from)));
        i = i + 1;
    }
    assert(w.take(to - from) =~= w);
    Some(v)
}

/// Collects the characters of a string slice.
pub fn str_to_chars(s: &str) -> (v: Vec<char>)
    ensures v@ == s@,
{
    let mut v: Vec<char> = Vec::new();
    for c in iter: s.chars()
        invariant
            v@ == iter.seq().take(iter.index() as int),
    {
        v.push(c);
    }
    v
}

/// Appends the characters of `src`.
pub fn push_chars(v: &mut Vec<char>, src: &[char])
    ensures final(v)@ == old(v)@ + src@,
{
    let ghost start = v@;
    let mut i: usize = 0;
    while i < src.len()
        invariant
            i <= src@.len(),
            v@ == start + src@.take(i as int),
        decreases src@.len() - i,
    {
        v.push(src[i]);
        assert(src@.take(i as int).push(src@[i as int]) =~= src@.take(i + 1));
        i = i + 1;
    }
    assert(src@.take(src@.len() as int) =~= src@);
}

/// Builds a string from a sequence of characters.
pub fn chars_to_string(v: &[char]) -> (s: String)
    ensures s@ == v@,
{
    let mut s = String::new();
    let mut i: usize = 0;
    while i < v.len()
        invariant
            i <= v@.len(),
            s@ == v@.take(i as int),
        decreases v@.len() - i,
    {
        string_push(&mut s, v[i]);
        assert(v@.take(i as int).push(v@[i as int]) =~= v@.take(i + 1));
        i = i + 1;
    }
    assert(v@.take(v@.len() as int) =~= v@);
    s
}

/// Builds a string from ASCII bytes.
pub fn ascii_bytes_to_string(v: &[u8]) -> (s: String)
    ensures s@ == Seq::new(v@.len(), |i: int| v@[i] as char),
{
    let mut s = String::new();
    let mut i: usize = 0;
    while i < v.len()
        invariant
            i <= v@.len(),
            s@ == Seq::new(i as nat, |k: int| v@[k] as char),
        decreases v@.len() - i,
    {
        string_push(&mut s, v[i] as char);
        assert(Seq::new(i as nat, |k: int| v@[k] as char).push(v@[i as int] as char)
            =~= Seq::new((i + 1) as nat, |k: int| v@[k] as char));
        i = i + 1;
    }
    s
}

/// Lowercase hexadecimal digit for a value below 16.
pub open spec fn hex_char_lower(n: int) -> char {
    if n < 10 { (48 + n) as char } else { (87 + n) as char }
}

/// Uppercase hexadecimal digit for a value below 16.
pub open spec fn hex_char_upper(n: int) -> char {
    if n < 10 { (48 + n) as char } else { (55 + n) as char }
}

pub fn hex_digit_lower(n: u8) -> (c: char)
    requires n < 16,
    ensures c == hex_char_lower(n as int),
{
    if n < 10 { (48 + n) as char } else { (87 + n) as char }
}

pub fn hex_digit_upper(n: u8) -> (c: char)
    requires n < 16,
    ensures c == hex_char_upper(n as int),
{
    if n < 10 { (48 + n) as char } else { (55 + n) as char }
}

/// Lowercase hexadecimal encoding of bytes, two characters per byte.
pub open spec fn hex_lower(b: Seq<u8>) -> Seq<char> {
    Seq::new(2 * b.len(), |i: int| if i % 2 == 0 { hex_char_lower(b[i / 2] as int / 16) } else { hex_char_lower(b[i / 2] as int % 16) })
}

/// Encodes bytes as lowercase hexadecimal characters.
pub fn hex_encode(b: &[u8]) -> (s: String)
    ensures s@ == hex_lower(b@),
{
    let mut s = String::new();
    let mut i: usize = 0;
    while i < b.len()
        invariant
            i <= b@.len(),
            s@ == hex_lower(b@.take(i as int)),
        decreases b@.len() - i,
    {
        let byte = b[i];
        string_push(&mut s, hex_digit_lower(byte / 16));
        string_push(&mut s, hex_digit_lower(byte % 16));
        assert(s@ =~= hex_lower(b@.take(i + 1)));
        i = i + 1;
    }
    assert(b@.take(b@.len() as int) =~= b@);
    s
}

/// Decimal digits of a natural number, most significant first, without leading zeros.
pub open spec fn dec_digits(n: nat) -> Seq<char>
    decreases n,
{
    if n < 10 {
        seq![(48 + n) as char]
    } else {
        dec_digits(n / 10).push((48 + n % 10) as char)
    }
}

/// Pads `s` on the left with `c` up to `width` characters.
pub open spec fn pad_left(s: Seq<char>, width: nat, c: char) -> Seq<char> {
    if s.len() >= width { s } else { Seq::new((width - s.len()) as nat, |i: int| c) + s }
}

/// 10 to the power `k`.
pub open spec fn pow10(k: nat) -> nat
    decreases k,
{
    if k == 0 { 1 } else { 10 * pow10((k - 1) as nat) }
}

/// Decimal digits of `n`.
pub fn u64_to_decimal(n: u64) -> (v: Vec<char>)
    ensures v@ == dec_digits(n as nat),
{
    let mut digits: Vec<char> = Vec::new();
    let mut m: u64 = n;
    // digits are produced least significant first, then reversed
    loop
        invariant_except_break
            dec_digits(n as nat) == dec_digits(m as nat) + digits@.reverse(),
        ensures
            dec_digits(n as nat) == digits@.reverse(),
        decreases m,
    {
        if m < 10 {
            let ghost before = digits@;
            digits.push((48 + m as u8) as char);
            assert(digits@.reverse() =~= seq![(48 + m) as char] + before.reverse());
            assert(dec_digits(m as nat) == seq![(48 + m) as char]);
            break;
        }
        let d = m % 10;
        let ghost before = digits@;
        digits.push((48 + d as u8) as char);
        assert(dec_digits(m as nat) == dec_digits((m / 10) as nat).push((48 + m % 10) as char));
        assert(digits@.reverse() =~= seq![(48 + d) as char] + before.reverse());
        assert(dec_digits(m as nat) + before.reverse()
            =~= dec_digits((m / 10) as nat) + digits@.reverse());
        m = m / 10;
    }
    let mut out: Vec<char> = Vec::new();
    let mut i: usize = digits.len();
    while i > 0
        invariant
            i <= digits@.len(),
            out@ == digits@.subrange(i as int, digits@.len() as int).reverse(),
        decreases i,
    {
        i = i - 1;
        out.push(digits[i]);
        assert(out@ =~= digits@.subrange(i as int, digits@.len() as int).reverse());
    }
    assert(digits@.subrange(0, digits@.len() as int) =~= digits@);
    assert(out@ =~= dec_digits(n as nat));
    out
}


/// Value of a digit character in the given radix (at most 36), if it is one.
pub open spec fn digit_value(c: char, radix: nat) -> Option<nat> {
    let v: int = if '0' <= c && c <= '9' {
        c as int - 48
    } else if 'a' <= c && c <= 'z' {
        c as int - 87
    } else if 'A' <= c && c <= 'Z' {
        c as int - 55
    } else {
        -1
    };
    if 0 <= v && v < radix { Some(v as nat) } else { None }
}

/// Whether every character of `s` is a digit in the radix.
pub open spec fn all_digits(s: Seq<char>, radix: nat) -> bool {
    forall|i: int| 0 <= i < s.len() ==> #[trigger] digit_value(s[i], radix) is Some
}

/// The number written by the digits `s` (most significant first).
pub open spec fn digits_value(s: Seq<char>, radix: nat) -> nat
    decreases s.len(),
{
    if s.len() == 0 {
        0
    } else {
        digits_value(s.drop_last(), radix) * radix + digit_value(s.last(), radix).unwrap_or(0)
    }
}

/// The result of parsing `s` as an unsigned 64-bit integer in `radix`, as the
/// standard library does: an optional leading `+`, then at least one digit,
/// and no overflow.
pub open spec fn parse_u64_spec(s: Seq<char>, radix: nat) -> Option<u64> {
    let d = if s.len() > 0 && s[0] == '+' { s.drop_first() } else { s };
    if d.len() == 0 || !all_digits(d, radix) || digits_value(d, radix) > u64::MAX {
        None
    } else {
        Some(digits_value(d, radix) as u64)
    }
}

proof fn lemma_digits_value_prefix_monotone(s: Seq<char>, radix: nat, i: int)
    requires 1 <= radix, 0 <= i <= s.len(), all_digits(s, radix),
    ensures digits_value(s.take(i), radix) <= digits_value(s, radix),
    decreases s.len(),
{
    if i < s.len() {
        assert(all_digits(s.drop_last(), radix)) by {
            assert forall|k: int| 0 <= k < s.drop_last().len() implies
                #[trigger] digit_value(s.drop_last()[k], radix) is Some by {
                assert(s.drop_last()[k] == s[k]);
            }
        }
        lemma_digits_value_prefix_monotone(s.drop_last(), radix, i);
        assert(s.drop_last().take(i) =~= s.take(i));
        let v = digits_value(s.drop_last(), radix);
        assert(v <= v * radix) by (nonlinear_arith) requires radix >= 1;
    } else {
        assert(s.take(i) =~= s);
    }
}

/// Parses an unsigned 64-bit integer from characters in radix 10 or 16.
pub fn parse_u64_radix(s: &[char], radix: u32) -> (r: Option<u64>)
    requires radix == 10 || radix == 16,
    ensures r == parse_u64_spec(s@, radix as nat),
{
    let start: usize = if s.len() > 0 && s[0] == '+' { 1 } else { 0 };
    let ghost d = if s@.len() > 0 && s@[0] == '+' { s@.drop_first() } else { s@ };
    assert(d =~= s@.subrange(start as int, s@.len() as int));
    if start >= s.len() {
        return None;
    }
    let mut acc: u64 = 0;
    let mut i: usize = start;
    while i < s.len()
        invariant
            start <= i <= s@.len(),
            d == s@.subrange(start as int, s@.len() as int),
            d == (if s@.len() > 0 && s@[0] == '+' { s@.drop_first() } else { s@ }),
            radix == 10 || radix == 16,
            all_digits(d.take(i - start), radix as nat),
            acc == digits_value(d.take(i - start), radix as nat),
        decreases s@.len() - i,
    {
        let c = s[i];
        let v: u32 = if '0' <= c && c <= '9' {
            (c as u32) - 48
        } else if 'a' <= c && c <= 'z' {
            (c as u32) - 87
        } else if 'A' <= c && c <= 'Z' {
            (c as u32) - 55
        } else {
            radix
        };
        let k = i - start;
        assert(d[k as int] == c);
        if v >= radix {
            proof {
                assert(!all_digits(d, radix as nat)) by {
                    assert(digit_value(d[k as int], radix as nat) is None);
                }
            }
            return None;
        }
        assert(d.take(k + 1).drop_last() =~= d.take(k as int));
        assert(all_digits(d.take(k + 1), radix as nat)) by {
            assert forall|j: int| 0 <= j < d.take(k + 1).len() implies
                #[trigger] digit_value(d.take(k + 1)[j], radix as nat) is Some by {
                if j < k {
                    assert(d.take(k + 1)[j] == d.take(k as int)[j]);
                }
            }
        }
        assert(acc as u128 * radix as u128 <= 0xffff_ffff_ffff_ffff * 16) by (nonlinear_arith)
            requires acc <= 0xffff_ffff_ffff_ffff, radix <= 16;
        let next: u128 = acc as u128 * radix as u128 + v as u128;
        assert(digit_value(c, radix as nat) == Some(v as nat));
        assert(d.take(k + 1).last() == c);
        assert(next == digits_value(d.take(k + 1), radix as nat));
        if next > u64::MAX as u128 {
            proof {
                if all_digits(d, radix as nat) {
                    lemma_digits_value_prefix_monotone(d, radix as nat, k + 1);
                }
            }
            return None;
        }
        acc = next as u64;
        i = i + 1;
    }
    assert(d.take(d.len() as int) =~= d);
    Some(acc)
}


/// Why a hexadecimal string could not be decoded.
#[derive(Clone, Copy, Debug, PartialEq, Eq, Structural)]
pub enum HexError {
    /// A byte that is not a hexadecimal digit, with its position.
    InvalidHexCharacter { c: char, index: usize },
    /// The input has an odd number of bytes.
    OddLength,
    /// The decoded bytes do not have the expected length.
    InvalidStringLength,
}

/// Value of an ASCII hexadecimal digit byte.
pub open spec fn hex_byte_value(c: u8) -> Option<u8> {
    if 48 <= c && c <= 57 {
        Some((c - 48) as u8)
    } else if 97 <= c && c <= 102 {
        Some((c - 87) as u8)
    } else if 65 <= c && c <= 70 {
        Some((c - 55) as u8)
    } else {
        None
    }
}

/// Position of the first byte at or after `i` that is not a hexadecimal digit.
pub open spec fn first_non_hex(b: Seq<u8>, i: int) -> Option<int>
    decreases b.len() - i,
{
    if i < 0 || i >= b.len() {
        None
    } else if hex_byte_value(b[i]) is None {
        Some(i)
    } else {
        first_non_hex(b, i + 1)
    }
}

/// The bytes written by pairs of hexadecimal digits.
pub open spec fn hex_pairs_value(b: Seq<u8>) -> Seq<u8> {
    Seq::new(b.len() / 2, |i: int|
        (hex_byte_value(b[2 * i]).unwrap() * 16 + hex_byte_value(b[2 * i + 1]).unwrap()) as u8)
}

/// Decoding of a hexadecimal byte string.
pub open spec fn hex_decode_spec(b: Seq<u8>) -> Result<Seq<u8>, HexError> {
    if b.len() % 2 != 0 {
        Err(HexError::OddLength)
    } else {
        match first_non_hex(b, 0) {
            Some(k) => Err(HexError::InvalidHexCharacter { c: b[k] as char, index: k as usize }),
            None => Ok(hex_pairs_value(b)),
        }
    }
}

pub fn hex_value(c: u8) -> (r: Option<u8>)
    ensures r == hex_byte_value(c),
{
    if 48 <= c && c <= 57 {
        Some(c - 48)
    } else if 97 <= c && c <= 102 {
        Some(c - 87)
    } else if 65 <= c && c <= 70 {
        Some(c - 55)
    } else {
        None
    }
}

proof fn lemma_first_non_hex_none(b: Seq<u8>, i: int)
    requires 0 <= i <= b.len(), forall|j: int| i <= j < b.len() ==> hex_byte_value(#[trigger] b[j]) is Some,
    ensures first_non_hex(b, i) is None,
    decreases b.len() - i,
{
    if i < b.len() {
        lemma_first_non_hex_none(b, i + 1);
    }
}

proof fn lemma_first_non_hex_skip(b: Seq<u8>, i: int, k: int)
    requires 0 <= i <= k <= b.len(), forall|j: int| i <= j < k ==> hex_byte_value(#[trigger] b[j]) is Some,
    ensures first_non_hex(b, i) == first_non_hex(b, k),
    decreases k - i,
{
    if i < k {
        lemma_first_non_hex_skip(b, i + 1, k);
    }
}

/// Decodes a string of hexadecimal digit pairs (either case) into bytes.
pub fn hex_decode(b: &[u8]) -> (r: Result<Vec<u8>, HexError>)
    ensures
        match hex_decode_spec(b@) {
            Ok(v) => r matches Ok(out) && out@ == v,
            Err(e) => r == Err::<Vec<u8>, HexError>(e),
        },
{
    if b.len() % 2 != 0 {
        return Err(HexError::OddLength);
    }
    let mut out: Vec<u8> = Vec::new();
    let mut i: usize = 0;
    while i < b.len() / 2
        invariant
            b@.len() % 2 == 0,
            i <= b@.len() / 2,
            forall|j: int| 0 <= j < 2 * i ==> hex_byte_value(#[trigger] b@[j]) is Some,
            out@ == hex_pairs_value(b@.take(2 * i)),
        decreases b@.len() / 2 - i,
    {
        let hi = hex_value(b[2 * i]);
        match hi {
            None => {
                proof { lemma_first_non_hex_skip(b@, 0, 2 * i); }
                return Err(HexError::InvalidHexCharacter { c: b[2 * i] as char, index: 2 * i });
            }
            Some(h) => {
                let lo = hex_value(b[2 * i + 1]);
                match lo {
                    None => {
                        proof { lemma_first_non_hex_skip(b@, 0, 2 * i + 1); }
                        return Err(HexError::InvalidHexCharacter { c: b[2 * i + 1] as char, index: 2 * i + 1 });
                    }
                    Some(l) => {
                        out.push(h * 16 + l);
                        assert(out@ =~= hex_pairs_value(b@.take(2 * i + 2)));
                    }
                }
            }
        }
        i = i + 1;
    }
    proof {
        lemma_first_non_hex_none(b@, 0);
        assert(b@.take(2 * i) =~= b@);
    }
    Ok(out)
}

} // verus!
