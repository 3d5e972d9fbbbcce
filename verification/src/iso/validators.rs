//! Validation of financial identifiers: IBAN, BIC, LEI and card numbers.
use vstd::prelude::*;
use crate::iso::IsoError;
use crate::primitives::text::{str_to_chars, str_to_uppercase, upper_spec, chars_equal_str, u64_to_decimal, chars_to_string, dec_digits};
use vstd::string::StringExecFns;

verus! {


/// `s` without spaces and hyphens.
pub open spec fn strip_separators(s: Seq<char>) -> Seq<char>
    decreases s.len(),
{
    if s.len() == 0 {
        s
    } else if s.last() == ' ' || s.last() == '-' {
        strip_separators(s.drop_last())
    } else {
        strip_separators(s.drop_last()).push(s.last())
    }
}

/// The ASCII decimal digits of `s`, in order.
pub open spec fn ascii_digits_of(s: Seq<char>) -> Seq<char>
    decreases s.len(),
{
    if s.len() == 0 {
        s
    } else if '0' <= s.last() <= '9' {
        ascii_digits_of(s.drop_last()).push(s.last())
    } else {
        ascii_digits_of(s.drop_last())
    }
}

pub open spec fn is_upper(c: char) -> bool { 'A' <= c <= 'Z' }

pub open spec fn is_digit(c: char) -> bool { '0' <= c <= '9' }

pub open spec fn is_upper_alnum(c: char) -> bool { is_upper(c) || is_digit(c) }

/// IBAN syntax: two letters, two digits, four letters or digits, seven
/// digits, then up to sixteen letters or digits.
pub open spec fn iban_format(s: Seq<char>) -> bool {
    &&& 15 <= s.len() <= 31
    &&& forall|i: int| 0 <= i < 2 ==> is_upper(#[trigger] s[i])
    &&& forall|i: int| 2 <= i < 4 ==> is_digit(#[trigger] s[i])
    &&& forall|i: int| 4 <= i < 8 ==> is_upper_alnum(#[trigger] s[i])
    &&& forall|i: int| 8 <= i < 15 ==> is_digit(#[trigger] s[i])
    &&& forall|i: int| 15 <= i < s.len() ==> is_upper_alnum(#[trigger] s[i])
}

/// The IBAN length registered for a country (ISO 13616), if any.
pub open spec fn iban_country_length(c0: char, c1: char) -> Option<nat> {
    match (c0, c1) {
        ('A', 'D') => Some(24),
        ('A', 'E') => Some(23),
        ('A', 'L') => Some(28),
        ('A', 'T') => Some(20),
        ('A', 'Z') => Some(28),
        ('B', 'A') => Some(20),
        ('B', 'E') => Some(16),
        ('B', 'G') => Some(22),
        ('B', 'H') => Some(22),
        ('B', 'I') => Some(27),
        ('B', 'R') => Some(29),
        ('B', 'Y') => Some(28),
        ('C', 'H') => Some(21),
        ('C', 'R') => Some(22),
        ('C', 'Y') => Some(28),
        ('C', 'Z') => Some(24),
        ('D', 'E') => Some(22),
        ('D', 'J') => Some(27),
        ('D', 'K') => Some(18),
        ('D', 'O') => Some(28),
        ('E', 'E') => Some(20),
        ('E', 'G') => Some(29),
        ('E', 'S') => Some(24),
        ('F', 'I') => Some(18),
        ('F', 'K') => Some(18),
        ('F', 'O') => Some(18),
        ('F', 'R') => Some(27),
        ('G', 'B') => Some(22),
        ('G', 'E') => Some(22),
        ('G', 'I') => Some(23),
        ('G', 'L') => Some(18),
        ('G', 'R') => Some(27),
        ('G', 'T') => Some(28),
        ('H', 'R') => Some(21),
        ('H', 'U') => Some(28),
        ('I', 'E') => Some(22),
        ('I', 'L') => Some(23),
        ('I', 'Q') => Some(23),
        ('I', 'S') => Some(26),
        ('I', 'T') => Some(27),
        ('J', 'O') => Some(30),
        ('K', 'W') => Some(30),
        ('K', 'Z') => Some(20),
        ('L', 'B') => Some(28),
        ('L', 'C') => Some(32),
        ('L', 'I') => Some(21),
        ('L', 'T') => Some(20),
        ('L', 'U') => Some(20),
        ('L', 'V') => Some(21),
        ('L', 'Y') => Some(25),
        ('M', 'C') => Some(27),
        ('M', 'D') => Some(24),
        ('M', 'E') => Some(22),
        ('M', 'K') => Some(19),
        ('M', 'N') => Some(20),
        ('M', 'R') => Some(27),
        ('M', 'T') => Some(31),
        ('M', 'U') => Some(30),
        ('N', 'I') => Some(32),
        ('N', 'L') => Some(18),
        ('N', 'O') => Some(15),
        ('O', 'M') => Some(23),
        ('P', 'K') => Some(24),
        ('P', 'L') => Some(28),
        ('P', 'S') => Some(29),
        ('P', 'T') => Some(25),
        ('Q', 'A') => Some(29),
        ('R', 'O') => Some(24),
        ('R', 'S') => Some(22),
        ('R', 'U') => Some(33),
        ('S', 'A') => Some(24),
        ('S', 'C') => Some(31),
        ('S', 'D') => Some(18),
        ('S', 'E') => Some(24),
        ('S', 'I') => Some(19),
        ('S', 'K') => Some(24),
        ('S', 'M') => Some(27),
        ('S', 'O') => Some(23),
        ('S', 'T') => Some(25),
        ('S', 'V') => Some(28),
        ('T', 'L') => Some(23),
        ('T', 'N') => Some(24),
        ('T', 'R') => Some(26),
        ('U', 'A') => Some(29),
        ('V', 'A') => Some(22),
        ('V', 'G') => Some(24),
        ('X', 'K') => Some(20),
        _ => None,
    }
}

/// The number that an identifier stands for when each digit is kept and
/// each letter is replaced by its two-digit value (A = 10, ..., Z = 35).
pub open spec fn alnum_number(s: Seq<char>) -> nat
    decreases s.len(),
{
    if s.len() == 0 {
        0
    } else if is_digit(s.last()) {
        alnum_number(s.drop_last()) * 10 + (s.last() as nat - 48) as nat
    } else {
        alnum_number(s.drop_last()) * 100 + (s.last() as nat - 55) as nat
    }
}

/// An IBAN (already without separators and in uppercase) is valid: its
/// syntax, its registered length, and the ISO 7064 mod 97-10 check.
pub open spec fn iban_valid(s: Seq<char>) -> bool {
    &&& iban_format(s)
    &&& (match iban_country_length(s[0], s[1]) {
        Some(n) => s.len() == n,
        None => true,
    })
    &&& alnum_number(s.skip(4) + s.take(4)) % 97 == 1
}

/// The remainder modulo 97 of the number an uppercase alphanumeric string
/// stands for.
fn alnum_mod97(s: &[char]) -> (r: u64)
    requires forall|i: int| 0 <= i < s@.len() ==> is_upper_alnum(#[trigger] s@[i]),
    ensures r == alnum_number(s@) % 97,
{
    let mut rem: u64 = 0;
    let mut i: usize = 0;
    while i < s.len()
        invariant
            i <= s@.len(),
            forall|k: int| 0 <= k < s@.len() ==> is_upper_alnum(#[trigger] s@[k]),
            rem == alnum_number(s@.take(i as int)) % 97,
        decreases s@.len() - i,
    {
        let c = s[i];
        let ghost prev: int = alnum_number(s@.take(i as int)) as int;
        assert(s@.take(i + 1).drop_last() =~= s@.take(i as int));
        assert(s@.take(i + 1).last() == c);
        assert(is_upper_alnum(s@[i as int]));
        if '0' <= c && c <= '9' {
            let d = (c as u64) - 48;
            proof {
                vstd::arithmetic::div_mod::lemma_mul_mod_noop_left(prev, 10, 97);
                vstd::arithmetic::div_mod::lemma_add_mod_noop(prev * 10, d as int, 97);
                vstd::arithmetic::div_mod::lemma_add_mod_noop((prev % 97) * 10, d as int, 97);
                vstd::arithmetic::div_mod::lemma_small_mod(d as nat, 97);
            }
            rem = (rem * 10 + d) % 97;
        } else {
            let d = (c as u64) - 55;
            proof {
                vstd::arithmetic::div_mod::lemma_mul_mod_noop_left(prev, 100, 97);
                vstd::arithmetic::div_mod::lemma_add_mod_noop(prev * 100, d as int, 97);
                vstd::arithmetic::div_mod::lemma_add_mod_noop((prev % 97) * 100, d as int, 97);
                vstd::arithmetic::div_mod::lemma_small_mod(d as nat, 97);
            }
            rem = (rem * 100 + d) % 97;
        }
        i = i + 1;
    }
    assert(s@.take(s@.len() as int) =~= s@);
    rem
}

fn check_iban_format(s: &[char]) -> (r: bool)
    ensures r == iban_format(s@),
{
    if s.len() < 15 || s.len() > 31 {
        return false;
    }
    let mut i: usize = 0;
    while i < s.len()
        invariant
            15 <= s@.len() <= 31,
            i <= s@.len(),
            forall|k: int| 0 <= k < i && k < 2 ==> is_upper(#[trigger] s@[k]),
            forall|k: int| 2 <= k < i && k < 4 ==> is_digit(#[trigger] s@[k]),
            forall|k: int| 4 <= k < i && k < 8 ==> is_upper_alnum(#[trigger] s@[k]),
            forall|k: int| 8 <= k < i && k < 15 ==> is_digit(#[trigger] s@[k]),
            forall|k: int| 15 <= k < i ==> is_upper_alnum(#[trigger] s@[k]),
        decreases s@.len() - i,
    {
        let c = s[i];
        let upper = 'A' <= c && c <= 'Z';
        let digit = '0' <= c && c <= '9';
        let ok = if i < 2 {
            upper
        } else if i < 4 {
            digit
        } else if i < 8 {
            upper || digit
        } else if i < 15 {
            digit
        } else {
            upper || digit
        };
        if !ok {
            return false;
        }
        i = i + 1;
    }
    true
}

fn iban_length_for(c0: char, c1: char) -> (r: Option<usize>)
    ensures
        match r {
            Some(n) => iban_country_length(c0, c1) == Some(n as nat),
            None => iban_country_length(c0, c1) is None,
        },
{
    match (c0, c1) {
        ('A', 'D') => Some(24usize),
        ('A', 'E') => Some(23usize),
        ('A', 'L') => Some(28usize),
        ('A', 'T') => Some(20usize),
        ('A', 'Z') => Some(28usize),
        ('B', 'A') => Some(20usize),
        ('B', 'E') => Some(16usize),
        ('B', 'G') => Some(22usize),
        ('B', 'H') => Some(22usize),
        ('B', 'I') => Some(27usize),
        ('B', 'R') => Some(29usize),
        ('B', 'Y') => Some(28usize),
        ('C', 'H') => Some(21usize),
        ('C', 'R') => Some(22usize),
        ('C', 'Y') => Some(28usize),
        ('C', 'Z') => Some(24usize),
        ('D', 'E') => Some(22usize),
        ('D', 'J') => Some(27usize),
        ('D', 'K') => Some(18usize),
        ('D', 'O') => Some(28usize),
        ('E', 'E') => Some(20usize),
        ('E', 'G') => Some(29usize),
        ('E', 'S') => Some(24usize),
        ('F', 'I') => Some(18usize),
        ('F', 'K') => Some(18usize),
        ('F', 'O') => Some(18usize),
        ('F', 'R') => Some(27usize),
        ('G', 'B') => Some(22usize),
        ('G', 'E') => Some(22usize),
        ('G', 'I') => Some(23usize),
        ('G', 'L') => Some(18usize),
        ('G', 'R') => Some(27usize),
        ('G', 'T') => Some(28usize),
        ('H', 'R') => Some(21usize),
        ('H', 'U') => Some(28usize),
        ('I', 'E') => Some(22usize),
        ('I', 'L') => Some(23usize),
        ('I', 'Q') => Some(23usize),
        ('I', 'S') => Some(26usize),
        ('I', 'T') => Some(27usize),
        ('J', 'O') => Some(30usize),
        ('K', 'W') => Some(30usize),
        ('K', 'Z') => Some(20usize),
        ('L', 'B') => Some(28usize),
        ('L', 'C') => Some(32usize),
        ('L', 'I') => Some(21usize),
        ('L', 'T') => Some(20usize),
        ('L', 'U') => Some(20usize),
        ('L', 'V') => Some(21usize),
        ('L', 'Y') => Some(25usize),
        ('M', 'C') => Some(27usize),
        ('M', 'D') => Some(24usize),
        ('M', 'E') => Some(22usize),
        ('M', 'K') => Some(19usize),
        ('M', 'N') => Some(20usize),
        ('M', 'R') => Some(27usize),
        ('M', 'T') => Some(31usize),
        ('M', 'U') => Some(30usize),
        ('N', 'I') => Some(32usize),
        ('N', 'L') => Some(18usize),
        ('N', 'O') => Some(15usize),
        ('O', 'M') => Some(23usize),
        ('P', 'K') => Some(24usize),
        ('P', 'L') => Some(28usize),
        ('P', 'S') => Some(29usize),
        ('P', 'T') => Some(25usize),
        ('Q', 'A') => Some(29usize),
        ('R', 'O') => Some(24usize),
        ('R', 'S') => Some(22usize),
        ('R', 'U') => Some(33usize),
        ('S', 'A') => Some(24usize),
        ('S', 'C') => Some(31usize),
        ('S', 'D') => Some(18usize),
        ('S', 'E') => Some(24usize),
        ('S', 'I') => Some(19usize),
        ('S', 'K') => Some(24usize),
        ('S', 'M') => Some(27usize),
        ('S', 'O') => Some(23usize),
        ('S', 'T') => Some(25usize),
        ('S', 'V') => Some(28usize),
        ('T', 'L') => Some(23usize),
        ('T', 'N') => Some(24usize),
        ('T', 'R') => Some(26usize),
        ('U', 'A') => Some(29usize),
        ('V', 'A') => Some(22usize),
        ('V', 'G') => Some(24usize),
        ('X', 'K') => Some(20usize),
        _ => None,
    }
}

/// "IBAN length mismatch for <country>: expected <n>, got <len>".
fn iban_length_message(c0: char, c1: char, expected: usize, got: usize) -> (r: String)
    ensures r@ == "IBAN length mismatch for "@ + seq![c0, c1] + ": expected "@ + dec_digits(expected as nat) + ", got "@ + dec_digits(got as nat),
{
    let mut v = str_to_chars("IBAN length mismatch for ");
    v.push(c0);
    v.push(c1);
    let s1 = str_to_chars(": expected ");
    let d1 = u64_to_decimal(expected as u64);
    let s2 = str_to_chars(", got ");
    let d2 = u64_to_decimal(got as u64);
    let mut m = chars_to_string(v.as_slice());
    m.append(chars_to_string(s1.as_slice()).as_str());
    m.append(chars_to_string(d1.as_slice()).as_str());
    m.append(chars_to_string(s2.as_slice()).as_str());
    m.append(chars_to_string(d2.as_slice()).as_str());
    assert(v@ =~= "IBAN length mismatch for "@ + seq![c0, c1]);
    m
}

/// Validates an IBAN that is already without separators and in uppercase.
pub fn validate_iban_chars(iban: &[char]) -> (r: Result<(), IsoError>)
    ensures
        r is Ok <==> iban_valid(iban@),
        r matches Err(e) ==> e is ValidationFailed,
{
    if !check_iban_format(iban) {
        return Err(IsoError::ValidationFailed("Invalid IBAN format".to_owned()));
    }
    match iban_length_for(iban[0], iban[1]) {
        Some(n) => {
            if iban.len() != n {
                return Err(IsoError::ValidationFailed(iban_length_message(iban[0], iban[1], n, iban.len())));
            }
        },
        None => {},
    }
    let mut rearranged: Vec<char> = Vec::new();
    let mut i: usize = 4;
    while i < iban.len()
        invariant
            4 <= i <= iban@.len(),
            rearranged@ == iban@.subrange(4, i as int),
        decreases iban@.len() - i,
    {
        rearranged.push(iban[i]);
        assert(iban@.subrange(4, i as int).push(iban@[i as int]) =~= iban@.subrange(4, i + 1));
        i = i + 1;
    }
    let mut j: usize = 0;
    while j < 4
        invariant
            j <= 4 <= iban@.len(),
            rearranged@ == iban@.skip(4) + iban@.take(j as int),
        decreases 4 - j,
    {
        rearranged.push(iban[j]);
        assert(iban@.take(j as int).push(iban@[j as int]) =~= iban@.take(j + 1));
        j = j + 1;
    }
    assert(forall|k: int| 0 <= k < rearranged@.len() ==> is_upper_alnum(#[trigger] rearranged@[k])) by {
        assert forall|k: int| 0 <= k < rearranged@.len() implies is_upper_alnum(#[trigger] rearranged@[k]) by {
            if k < iban@.len() - 4 {
                assert(rearranged@[k] == iban@[k + 4]);
            } else {
                assert(rearranged@[k] == iban@[k - (iban@.len() - 4)]);
            }
        }
    }
    if alnum_mod97(rearranged.as_slice()) != 1 {
        return Err(IsoError::ValidationFailed("Invalid IBAN checksum".to_owned()));
    }
    Ok(())
}

/// The characters of `s` without spaces and hyphens, as a string.
fn strip_separators_str(s: &str) -> (r: String)
    ensures r@ == strip_separators(s@),
{
    let chars = str_to_chars(s);
    let mut out: Vec<char> = Vec::new();
    let mut i: usize = 0;
    while i < chars.len()
        invariant
            i <= chars@.len(),
            chars@ == s@,
            out@ == strip_separators(chars@.take(i as int)),
        decreases chars@.len() - i,
    {
        assert(chars@.take(i + 1).drop_last() =~= chars@.take(i as int));
        if chars[i] != ' ' && chars[i] != '-' {
            out.push(chars[i]);
        }
        i = i + 1;
    }
    assert(chars@.take(chars@.len() as int) =~= chars@);
    crate::primitives::text::chars_to_string(out.as_slice())
}

/// Validates an IBAN (ISO 13616): separators are dropped and letters
/// uppercased first.
pub fn validate_iban(iban: &str) -> (r: Result<(), IsoError>)
    ensures
        r is Ok <==> iban_valid(upper_spec(strip_separators(iban@))),
        r matches Err(e) ==> e is ValidationFailed,
{
    let stripped = strip_separators_str(iban);
    let upper = str_to_uppercase(stripped.as_str());
    let chars = str_to_chars(upper.as_str());
    validate_iban_chars(chars.as_slice())
}

/// Whether two letters are an ISO 3166-1 country code.
pub open spec fn valid_country_code(c0: char, c1: char) -> bool {
    match c0 {
        'A' => matches!(c1, 'D' | 'E' | 'F' | 'G' | 'L' | 'M' | 'O' | 'R' | 'T' | 'U' | 'Z'),
        'B' => matches!(c1, 'A' | 'B' | 'D' | 'E' | 'F' | 'G' | 'H' | 'I' | 'J' | 'M' | 'N' | 'O' | 'R' | 'S' | 'T' | 'W' | 'Y' | 'Z'),
        'C' => matches!(c1, 'A' | 'D' | 'F' | 'G' | 'H' | 'I' | 'L' | 'M' | 'N' | 'O' | 'R' | 'U' | 'V' | 'Y' | 'Z'),
        'D' => matches!(c1, 'E' | 'J' | 'K' | 'M' | 'O' | 'Z'),
        'E' => matches!(c1, 'C' | 'E' | 'G' | 'R' | 'S' | 'T'),
        'F' => matches!(c1, 'I' | 'J' | 'R'),
        'G' => matches!(c1, 'A' | 'B' | 'D' | 'E' | 'H' | 'M' | 'N' | 'Q' | 'R' | 'T' | 'W' | 'Y'),
        'H' => matches!(c1, 'K' | 'N' | 'R' | 'T' | 'U'),
        'I' => matches!(c1, 'D' | 'E' | 'L' | 'N' | 'Q' | 'R' | 'S' | 'T'),
        'J' => matches!(c1, 'M' | 'O' | 'P'),
        'K' => matches!(c1, 'E' | 'G' | 'H' | 'I' | 'M' | 'N' | 'P' | 'R' | 'W' | 'Z'),
        'L' => matches!(c1, 'A' | 'B' | 'C' | 'I' | 'K' | 'R' | 'S' | 'T' | 'U' | 'V' | 'Y'),
        'M' => matches!(c1, 'A' | 'C' | 'D' | 'E' | 'G' | 'K' | 'L' | 'M' | 'N' | 'O' | 'R' | 'T' | 'U' | 'V' | 'W' | 'X' | 'Y' | 'Z'),
        'N' => matches!(c1, 'A' | 'E' | 'G' | 'I' | 'L' | 'O' | 'P' | 'R' | 'Z'),
        'O' => matches!(c1, 'M'),
        'P' => matches!(c1, 'A' | 'E' | 'G' | 'H' | 'K' | 'L' | 'T' | 'W' | 'Y'),
        'Q' => matches!(c1, 'A'),
        'R' => matches!(c1, 'O' | 'S' | 'U' | 'W'),
        'S' => matches!(c1, 'A' | 'B' | 'C' | 'D' | 'E' | 'G' | 'I' | 'K' | 'L' | 'M' | 'N' | 'O' | 'R' | 'S' | 'T' | 'V' | 'Y' | 'Z'),
        'T' => matches!(c1, 'D' | 'G' | 'H' | 'J' | 'L' | 'M' | 'N' | 'O' | 'R' | 'T' | 'V' | 'W' | 'Z'),
        'U' => matches!(c1, 'A' | 'G' | 'S' | 'Y' | 'Z'),
        'V' => matches!(c1, 'A' | 'C' | 'E' | 'N' | 'U'),
        'W' => matches!(c1, 'S'),
        'X' => matches!(c1, 'K'),
        'Y' => matches!(c1, 'E'),
        'Z' => matches!(c1, 'A' | 'M' | 'W'),
        _ => false,
    }
}

fn is_valid_country_code(c0: char, c1: char) -> (r: bool)
    ensures r == valid_country_code(c0, c1),
{
    match c0 {
        'A' => matches!(c1, 'D' | 'E' | 'F' | 'G' | 'L' | 'M' | 'O' | 'R' | 'T' | 'U' | 'Z'),
        'B' => matches!(c1, 'A' | 'B' | 'D' | 'E' | 'F' | 'G' | 'H' | 'I' | 'J' | 'M' | 'N' | 'O' | 'R' | 'S' | 'T' | 'W' | 'Y' | 'Z'),
        'C' => matches!(c1, 'A' | 'D' | 'F' | 'G' | 'H' | 'I' | 'L' | 'M' | 'N' | 'O' | 'R' | 'U' | 'V' | 'Y' | 'Z'),
        'D' => matches!(c1, 'E' | 'J' | 'K' | 'M' | 'O' | 'Z'),
        'E' => matches!(c1, 'C' | 'E' | 'G' | 'R' | 'S' | 'T'),
        'F' => matches!(c1, 'I' | 'J' | 'R'),
        'G' => matches!(c1, 'A' | 'B' | 'D' | 'E' | 'H' | 'M' | 'N' | 'Q' | 'R' | 'T' | 'W' | 'Y'),
        'H' => matches!(c1, 'K' | 'N' | 'R' | 'T' | 'U'),
        'I' => matches!(c1, 'D' | 'E' | 'L' | 'N' | 'Q' | 'R' | 'S' | 'T'),
        'J' => matches!(c1, 'M' | 'O' | 'P'),
        'K' => matches!(c1, 'E' | 'G' | 'H' | 'I' | 'M' | 'N' | 'P' | 'R' | 'W' | 'Z'),
        'L' => matches!(c1, 'A' | 'B' | 'C' | 'I' | 'K' | 'R' | 'S' | 'T' | 'U' | 'V' | 'Y'),
        'M' => matches!(c1, 'A' | 'C' | 'D' | 'E' | 'G' | 'K' | 'L' | 'M' | 'N' | 'O' | 'R' | 'T' | 'U' | 'V' | 'W' | 'X' | 'Y' | 'Z'),
        'N' => matches!(c1, 'A' | 'E' | 'G' | 'I' | 'L' | 'O' | 'P' | 'R' | 'Z'),
        'O' => matches!(c1, 'M'),
        'P' => matches!(c1, 'A' | 'E' | 'G' | 'H' | 'K' | 'L' | 'T' | 'W' | 'Y'),
        'Q' => matches!(c1, 'A'),
        'R' => matches!(c1, 'O' | 'S' | 'U' | 'W'),
        'S' => matches!(c1, 'A' | 'B' | 'C' | 'D' | 'E' | 'G' | 'I' | 'K' | 'L' | 'M' | 'N' | 'O' | 'R' | 'S' | 'T' | 'V' | 'Y' | 'Z'),
        'T' => matches!(c1, 'D' | 'G' | 'H' | 'J' | 'L' | 'M' | 'N' | 'O' | 'R' | 'T' | 'V' | 'W' | 'Z'),
        'U' => matches!(c1, 'A' | 'G' | 'S' | 'Y' | 'Z'),
        'V' => matches!(c1, 'A' | 'C' | 'E' | 'N' | 'U'),
        'W' => matches!(c1, 'S'),
        'X' => matches!(c1, 'K'),
        'Y' => matches!(c1, 'E'),
        'Z' => matches!(c1, 'A' | 'M' | 'W'),
        _ => false,
    }
}

/// BIC syntax: four letters (institution), two letters (country), two
/// letters or digits (location), optionally three more (branch).
pub open spec fn bic_format(s: Seq<char>) -> bool {
    &&& (s.len() == 8 || s.len() == 11)
    &&& forall|i: int| 0 <= i < 6 ==> is_upper(#[trigger] s[i])
    &&& forall|i: int| 6 <= i < s.len() ==> is_upper_alnum(#[trigger] s[i])
}

/// A BIC (already in uppercase) is valid: syntax and a known country.
pub open spec fn bic_valid(s: Seq<char>) -> bool {
    bic_format(s) && valid_country_code(s[4], s[5])
}

/// Validates a BIC that is already in uppercase.
pub fn validate_bic_chars(bic: &[char]) -> (r: Result<(), IsoError>)
    ensures
        r is Ok <==> bic_valid(bic@),
        r matches Err(e) ==> e is ValidationFailed,
{
    if bic.len() != 8 && bic.len() != 11 {
        return Err(IsoError::ValidationFailed("Invalid BIC format".to_owned()));
    }
    let mut i: usize = 0;
    while i < bic.len()
        invariant
            bic@.len() == 8 || bic@.len() == 11,
            i <= bic@.len(),
            forall|k: int| 0 <= k < i && k < 6 ==> is_upper(#[trigger] bic@[k]),
            forall|k: int| 6 <= k < i ==> is_upper_alnum(#[trigger] bic@[k]),
        decreases bic@.len() - i,
    {
        let c = bic[i];
        let upper = 'A' <= c && c <= 'Z';
        let ok = if i < 6 { upper } else { upper || ('0' <= c && c <= '9') };
        if !ok {
            return Err(IsoError::ValidationFailed("Invalid BIC format".to_owned()));
        }
        i = i + 1;
    }
    if !is_valid_country_code(bic[4], bic[5]) {
        return Err(IsoError::ValidationFailed("Invalid country code in BIC".to_owned()));
    }
    Ok(())
}

/// Validates a BIC/SWIFT code (ISO 9362); letters are uppercased first.
pub fn validate_bic(bic: &str) -> (r: Result<(), IsoError>)
    ensures
        r is Ok <==> bic_valid(upper_spec(bic@)),
        r matches Err(e) ==> e is ValidationFailed,
{
    let upper = str_to_uppercase(bic);
    let chars = str_to_chars(upper.as_str());
    validate_bic_chars(chars.as_slice())
}

/// LEI syntax: four letters or digits, "00", twelve letters or digits, two
/// check digits.
pub open spec fn lei_format(s: Seq<char>) -> bool {
    &&& s.len() == 20
    &&& forall|i: int| 0 <= i < 4 ==> is_upper_alnum(#[trigger] s[i])
    &&& s[4] == '0' && s[5] == '0'
    &&& forall|i: int| 6 <= i < 18 ==> is_upper_alnum(#[trigger] s[i])
    &&& forall|i: int| 18 <= i < 20 ==> is_digit(#[trigger] s[i])
}

/// An LEI (already in uppercase) is valid: syntax and the mod 97-10 check.
pub open spec fn lei_valid(s: Seq<char>) -> bool {
    lei_format(s) && alnum_number(s) % 97 == 1
}

/// Validates an LEI that is already in uppercase.
pub fn validate_lei_chars(lei: &[char]) -> (r: Result<(), IsoError>)
    ensures
        r is Ok <==> lei_valid(lei@),
        r matches Err(e) ==> e is ValidationFailed,
{
    if lei.len() != 20 {
        return Err(IsoError::ValidationFailed("LEI must be 20 characters".to_owned()));
    }
    let mut i: usize = 0;
    while i < 20
        invariant
            lei@.len() == 20,
            i <= 20,
            forall|k: int| 0 <= k < i && k < 4 ==> is_upper_alnum(#[trigger] lei@[k]),
            4 < i ==> lei@[4] == '0',
            5 < i ==> lei@[5] == '0',
            forall|k: int| 6 <= k < i && k < 18 ==> is_upper_alnum(#[trigger] lei@[k]),
            forall|k: int| 18 <= k < i ==> is_digit(#[trigger] lei@[k]),
        decreases 20 - i,
    {
        let c = lei[i];
        let upper = 'A' <= c && c <= 'Z';
        let digit = '0' <= c && c <= '9';
        let ok = if i == 4 || i == 5 {
            c == '0'
        } else if i < 18 {
            upper || digit
        } else {
            digit
        };
        if !ok {
            return Err(IsoError::ValidationFailed("Invalid LEI format".to_owned()));
        }
        i = i + 1;
    }
    if alnum_mod97(lei) != 1 {
        return Err(IsoError::ValidationFailed("Invalid LEI checksum".to_owned()));
    }
    Ok(())
}

/// Validates an LEI (ISO 17442); letters are uppercased first.
pub fn validate_lei(lei: &str) -> (r: Result<(), IsoError>)
    ensures
        r is Ok <==> lei_valid(upper_spec(lei@)),
        r matches Err(e) ==> e is ValidationFailed,
{
    let upper = str_to_uppercase(lei);
    let chars = str_to_chars(upper.as_str());
    validate_lei_chars(chars.as_slice())
}

/// The Luhn sum of decimal digits, doubling every second digit from the
/// right when `double` says the last digit is doubled.
pub open spec fn luhn_sum(d: Seq<char>, double: bool) -> nat
    decreases d.len(),
{
    if d.len() == 0 {
        0
    } else {
        let v = (d.last() as nat - 48) as nat;
        let w = if double { if 2 * v > 9 { (2 * v - 9) as nat } else { 2 * v } } else { v };
        w + luhn_sum(d.drop_last(), !double)
    }
}

/// A card number, as its digits, is valid: 13 to 19 digits passing the
/// Luhn check.
pub open spec fn card_number_valid(d: Seq<char>) -> bool {
    13 <= d.len() <= 19 && luhn_sum(d, false) % 10 == 0
}

/// What one digit adds to the Luhn sum, doubled or not.
pub open spec fn luhn_weight(c: char, double: bool) -> nat {
    let v = (c as nat - 48) as nat;
    if double { if 2 * v > 9 { (2 * v - 9) as nat } else { 2 * v } } else { v }
}

proof fn lemma_luhn_update(d: Seq<char>, double: bool, i: int, c: char)
    requires 0 <= i < d.len(),
    ensures
        ({
            let par = if (d.len() - 1 - i) % 2 == 0 { double } else { !double };
            luhn_sum(d.update(i, c), double) + luhn_weight(d[i], par) == luhn_sum(d, double) + luhn_weight(c, par)
        }),
    decreases d.len(),
{
    let u = d.update(i, c);
    if i == d.len() - 1 {
        assert(u.drop_last() =~= d.drop_last());
    } else {
        assert(u.drop_last() =~= d.drop_last().update(i, c));
        assert(u.last() == d.last());
        lemma_luhn_update(d.drop_last(), !double, i, c);
    }
}

/// The Luhn check catches every single mistyped digit: changing one digit
/// of a valid card number to another digit makes it invalid.
pub proof fn lemma_luhn_single_digit_error(d: Seq<char>, i: int, c: char)
    requires
        forall|k: int| 0 <= k < d.len() ==> is_digit(#[trigger] d[k]),
        card_number_valid(d),
        0 <= i < d.len(),
        is_digit(c),
        c != d[i],
    ensures
        !card_number_valid(d.update(i, c)),
{
    let par = if (d.len() - 1 - i) % 2 == 0 { false } else { true };
    lemma_luhn_update(d, false, i, c);
    lemma_luhn_weight_distinct(d[i], c, par);
    let a = luhn_weight(d[i], par) as int;
    let b = luhn_weight(c, par) as int;
    let s0 = luhn_sum(d, false) as int;
    let s1 = luhn_sum(d.update(i, c), false) as int;
    assert(s1 % 10 != 0) by {
        assert(s1 == s0 - a + b);
        assert(s0 % 10 == 0);
        vstd::arithmetic::div_mod::lemma_fundamental_div_mod(s0, 10);
        vstd::arithmetic::div_mod::lemma_fundamental_div_mod(s1, 10);
    }
}

proof fn lemma_luhn_weight_distinct(x: char, y: char, double: bool)
    requires is_digit(x), is_digit(y), x != y,
    ensures
        luhn_weight(x, double) <= 9,
        luhn_weight(y, double) <= 9,
        luhn_weight(x, double) != luhn_weight(y, double),
{
    let vx = (x as nat - 48) as nat;
    let vy = (y as nat - 48) as nat;
    assert(vx != vy);
    assert(vx <= 9 && vy <= 9);
}

proof fn lemma_digits_of_are_digits(s: Seq<char>)
    ensures
        forall|i: int| 0 <= i < ascii_digits_of(s).len() ==> is_digit(#[trigger] ascii_digits_of(s)[i]),
        ascii_digits_of(s).len() <= s.len(),
    decreases s.len(),
{
    if s.len() > 0 {
        lemma_digits_of_are_digits(s.drop_last());
    }
}

/// The ASCII digits of a string slice.
fn digits_of(s: &str) -> (r: Vec<char>)
    ensures
        r@ == ascii_digits_of(s@),
        forall|i: int| 0 <= i < r@.len() ==> is_digit(#[trigger] r@[i]),
{
    let chars = str_to_chars(s);
    let mut out: Vec<char> = Vec::new();
    let mut i: usize = 0;
    while i < chars.len()
        invariant
            i <= chars@.len(),
            chars@ == s@,
            out@ == ascii_digits_of(chars@.take(i as int)),
        decreases chars@.len() - i,
    {
        assert(chars@.take(i + 1).drop_last() =~= chars@.take(i as int));
        if '0' <= chars[i] && chars[i] <= '9' {
            out.push(chars[i]);
        }
        i = i + 1;
    }
    assert(chars@.take(chars@.len() as int) =~= chars@);
    proof {
        lemma_digits_of_are_digits(s@);
    }
    out
}

/// Validates a card number by its ASCII digits (Luhn).
pub fn validate_card_number(card: &str) -> (r: Result<(), IsoError>)
    ensures
        r is Ok <==> card_number_valid(ascii_digits_of(card@)),
        r matches Err(e) ==> e is ValidationFailed,
{
    let d = digits_of(card);
    if d.len() < 13 || d.len() > 19 {
        return Err(IsoError::ValidationFailed("Card number must be 13-19 digits".to_owned()));
    }
    let mut sum: u32 = 0;
    let mut double = false;
    let mut i: usize = d.len();
    assert(d@.take(d@.len() as int) =~= d@);
    while i > 0
        invariant
            i <= d@.len() <= 19,
            forall|k: int| 0 <= k < d@.len() ==> is_digit(#[trigger] d@[k]),
            sum + luhn_sum(d@.take(i as int), double) == luhn_sum(d@, false),
            sum <= 9 * (d@.len() - i),
        decreases i,
    {
        let ghost t = d@.take(i as int);
        assert(t.drop_last() =~= d@.take(i - 1));
        assert(t.last() == d@[i - 1]);
        assert(is_digit(d@[i - 1]));
        let mut digit: u32 = (d[i - 1] as u32) - 48;
        if double {
            digit = digit * 2;
            if digit > 9 {
                digit = digit - 9;
            }
        }
        sum = sum + digit;
        double = !double;
        i = i - 1;
    }
    assert(d@.take(0) =~= Seq::<char>::empty());
    if sum % 10 != 0 {
        return Err(IsoError::ValidationFailed("Invalid card number checksum".to_owned()));
    }
    Ok(())
}

/// Value of a decimal digit character.
pub open spec fn dv(c: char) -> int { c as int - 48 }

/// The card network of a card number given by its digits, from its leading
/// digits (issuer identification number).
pub open spec fn card_network_spec(d: Seq<char>) -> Option<Seq<char>> {
    if d.len() < 6 {
        None
    } else {
        let p2 = dv(d[0]) * 10 + dv(d[1]);
        let p3 = p2 * 10 + dv(d[2]);
        let p4 = p3 * 10 + dv(d[3]);
        if d[0] == '4' {
            Some("Visa"@)
        } else if (51 <= p2 <= 55) || (2221 <= p4 <= 2720) {
            Some("Mastercard"@)
        } else if p2 == 34 || p2 == 37 {
            Some("American Express"@)
        } else if p4 == 6011 || p2 == 65 || (644 <= p3 <= 649) {
            Some("Discover"@)
        } else if 3528 <= p4 <= 3589 {
            Some("JCB"@)
        } else if (300 <= p3 <= 305) || p2 == 36 || p2 == 38 {
            Some("Diners Club"@)
        } else if p2 == 62 {
            Some("UnionPay"@)
        } else {
            None
        }
    }
}

/// The card network of a card number, from its ASCII digits.
pub fn get_card_network(card: &str) -> (r: Option<&'static str>)
    ensures
        match r {
            Some(s) => card_network_spec(ascii_digits_of(card@)) == Some(s@),
            None => card_network_spec(ascii_digits_of(card@)) is None,
        },
{
    let d = digits_of(card);
    if d.len() < 6 {
        return None;
    }
    let p2: u32 = ((d[0] as u32) - 48) * 10 + ((d[1] as u32) - 48);
    let p3: u32 = p2 * 10 + ((d[2] as u32) - 48);
    let p4: u32 = p3 * 10 + ((d[3] as u32) - 48);
    if d[0] == '4' {
        Some("Visa")
    } else if (51 <= p2 && p2 <= 55) || (2221 <= p4 && p4 <= 2720) {
        Some("Mastercard")
    } else if p2 == 34 || p2 == 37 {
        Some("American Express")
    } else if p4 == 6011 || p2 == 65 || (644 <= p3 && p3 <= 649) {
        Some("Discover")
    } else if 3528 <= p4 && p4 <= 3589 {
        Some("JCB")
    } else if (300 <= p3 && p3 <= 305) || p2 == 36 || p2 == 38 {
        Some("Diners Club")
    } else if p2 == 62 {
        Some("UnionPay")
    } else {
        None
    }
}

/// Validates identifiers by type name.
pub struct IdentifierValidator;

/// The kinds of identifier that `IdentifierValidator::validate` knows.
pub open spec fn identifier_kind(t: Seq<char>) -> int {
    if t == "IBAN"@ { 1 }
    else if t == "BIC"@ || t == "SWIFT"@ { 2 }
    else if t == "LEI"@ { 3 }
    else if t == "PAN"@ || t == "CARD"@ { 4 }
    else { 0 }
}

impl IdentifierValidator {
    /// Validates `value` as the identifier named by `identifier_type`
    /// (IBAN, BIC or SWIFT, LEI, PAN or CARD, in any case).
    pub fn validate(identifier_type: &str, value: &str) -> (r: Result<(), IsoError>)
        ensures
            identifier_kind(upper_spec(identifier_type@)) == 0 ==> r matches Err(IsoError::UnknownMessageType(_)),
            identifier_kind(upper_spec(identifier_type@)) == 1 ==> (r is Ok <==> iban_valid(upper_spec(strip_separators(value@)))),
            identifier_kind(upper_spec(identifier_type@)) == 2 ==> (r is Ok <==> bic_valid(upper_spec(value@))),
            identifier_kind(upper_spec(identifier_type@)) == 3 ==> (r is Ok <==> lei_valid(upper_spec(value@))),
            identifier_kind(upper_spec(identifier_type@)) == 4 ==> (r is Ok <==> card_number_valid(ascii_digits_of(value@))),
            identifier_kind(upper_spec(identifier_type@)) != 0 ==> (r matches Err(e) ==> e is ValidationFailed),
    {
        let upper = str_to_uppercase(identifier_type);
        let t = str_to_chars(upper.as_str());
        if chars_equal_str(t.as_slice(), "IBAN") {
            validate_iban(value)
        } else if chars_equal_str(t.as_slice(), "BIC") || chars_equal_str(t.as_slice(), "SWIFT") {
            validate_bic(value)
        } else if chars_equal_str(t.as_slice(), "LEI") {
            validate_lei(value)
        } else if chars_equal_str(t.as_slice(), "PAN") || chars_equal_str(t.as_slice(), "CARD") {
            validate_card_number(value)
        } else {
            let mut m = "Unknown identifier type: ".to_owned();
            vstd::string::StringExecFns::append(&mut m, identifier_type);
            Err(IsoError::UnknownMessageType(m))
        }
    }
}

} // verus!
