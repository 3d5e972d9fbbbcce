//! ISO 4217 currencies: codes, minor units and amount formatting.
use vstd::prelude::*;
use vstd::string::StringExecFns;
use crate::primitives::text::{
    str_to_chars, str_to_uppercase, upper_spec, chars_equal_str, dec_digits, pad_left,
    u64_to_decimal, chars_to_string, pow10,
};

verus! {

/// An ISO 4217 currency.
#[derive(Clone, Copy, Debug)]
pub struct Currency {
    /// Alphabetic code.
    pub code: &'static str,
    /// Numeric code.
    pub numeric: &'static str,
    /// Number of minor-unit decimal places.
    pub decimals: u8,
    /// English name.
    pub name: &'static str,
}

/// The abstract content of a currency entry.
pub struct CurrencyView {
    pub code: Seq<char>,
    pub numeric: Seq<char>,
    pub decimals: u8,
    pub name: Seq<char>,
}

impl View for Currency {
    type V = CurrencyView;

    open spec fn view(&self) -> CurrencyView {
        CurrencyView { code: self.code@, numeric: self.numeric@, decimals: self.decimals, name: self.name@ }
    }
}

/// The currency with alphabetic code `c` (exactly as written), if known.
pub open spec fn currency_by_code(c: Seq<char>) -> Option<CurrencyView> {
    if c == "AED"@ {
        Some(CurrencyView { code: "AED"@, numeric: "784"@, decimals: 2, name: "UAE Dirham"@ })
    } else if c == "AUD"@ {
        Some(CurrencyView { code: "AUD"@, numeric: "036"@, decimals: 2, name: "Australian Dollar"@ })
    } else if c == "BRL"@ {
        Some(CurrencyView { code: "BRL"@, numeric: "986"@, decimals: 2, name: "Brazilian Real"@ })
    } else if c == "CAD"@ {
        Some(CurrencyView { code: "CAD"@, numeric: "124"@, decimals: 2, name: "Canadian Dollar"@ })
    } else if c == "CHF"@ {
        Some(CurrencyView { code: "CHF"@, numeric: "756"@, decimals: 2, name: "Swiss Franc"@ })
    } else if c == "CNY"@ {
        Some(CurrencyView { code: "CNY"@, numeric: "156"@, decimals: 2, name: "Chinese Yuan"@ })
    } else if c == "EUR"@ {
        Some(CurrencyView { code: "EUR"@, numeric: "978"@, decimals: 2, name: "Euro"@ })
    } else if c == "GBP"@ {
        Some(CurrencyView { code: "GBP"@, numeric: "826"@, decimals: 2, name: "British Pound"@ })
    } else if c == "HKD"@ {
        Some(CurrencyView { code: "HKD"@, numeric: "344"@, decimals: 2, name: "Hong Kong Dollar"@ })
    } else if c == "INR"@ {
        Some(CurrencyView { code: "INR"@, numeric: "356"@, decimals: 2, name: "Indian Rupee"@ })
    } else if c == "JPY"@ {
        Some(CurrencyView { code: "JPY"@, numeric: "392"@, decimals: 0, name: "Japanese Yen"@ })
    } else if c == "KRW"@ {
        Some(CurrencyView { code: "KRW"@, numeric: "410"@, decimals: 0, name: "South Korean Won"@ })
    } else if c == "MXN"@ {
        Some(CurrencyView { code: "MXN"@, numeric: "484"@, decimals: 2, name: "Mexican Peso"@ })
    } else if c == "NOK"@ {
        Some(CurrencyView { code: "NOK"@, numeric: "578"@, decimals: 2, name: "Norwegian Krone"@ })
    } else if c == "NZD"@ {
        Some(CurrencyView { code: "NZD"@, numeric: "554"@, decimals: 2, name: "New Zealand Dollar"@ })
    } else if c == "PLN"@ {
        Some(CurrencyView { code: "PLN"@, numeric: "985"@, decimals: 2, name: "Polish Zloty"@ })
    } else if c == "RUB"@ {
        Some(CurrencyView { code: "RUB"@, numeric: "643"@, decimals: 2, name: "Russian Ruble"@ })
    } else if c == "SEK"@ {
        Some(CurrencyView { code: "SEK"@, numeric: "752"@, decimals: 2, name: "Swedish Krona"@ })
    } else if c == "SGD"@ {
        Some(CurrencyView { code: "SGD"@, numeric: "702"@, decimals: 2, name: "Singapore Dollar"@ })
    } else if c == "THB"@ {
        Some(CurrencyView { code: "THB"@, numeric: "764"@, decimals: 2, name: "Thai Baht"@ })
    } else if c == "TRY"@ {
        Some(CurrencyView { code: "TRY"@, numeric: "949"@, decimals: 2, name: "Turkish Lira"@ })
    } else if c == "USD"@ {
        Some(CurrencyView { code: "USD"@, numeric: "840"@, decimals: 2, name: "US Dollar"@ })
    } else if c == "ZAR"@ {
        Some(CurrencyView { code: "ZAR"@, numeric: "710"@, decimals: 2, name: "South African Rand"@ })
    } else if c == "XBT"@ {
        Some(CurrencyView { code: "XBT"@, numeric: "000"@, decimals: 8, name: "Bitcoin"@ })
    } else if c == "XET"@ {
        Some(CurrencyView { code: "XET"@, numeric: "000"@, decimals: 18, name: "Ethereum"@ })
    } else {
        None
    }
}

/// The currency with numeric code `n`, the first in table order when two
/// share it, if any.
pub open spec fn currency_by_numeric(n: Seq<char>) -> Option<CurrencyView> {
    if n == "784"@ {
        Some(CurrencyView { code: "AED"@, numeric: "784"@, decimals: 2, name: "UAE Dirham"@ })
    } else if n == "036"@ {
        Some(CurrencyView { code: "AUD"@, numeric: "036"@, decimals: 2, name: "Australian Dollar"@ })
    } else if n == "986"@ {
        Some(CurrencyView { code: "BRL"@, numeric: "986"@, decimals: 2, name: "Brazilian Real"@ })
    } else if n == "124"@ {
        Some(CurrencyView { code: "CAD"@, numeric: "124"@, decimals: 2, name: "Canadian Dollar"@ })
    } else if n == "756"@ {
        Some(CurrencyView { code: "CHF"@, numeric: "756"@, decimals: 2, name: "Swiss Franc"@ })
    } else if n == "156"@ {
        Some(CurrencyView { code: "CNY"@, numeric: "156"@, decimals: 2, name: "Chinese Yuan"@ })
    } else if n == "978"@ {
        Some(CurrencyView { code: "EUR"@, numeric: "978"@, decimals: 2, name: "Euro"@ })
    } else if n == "826"@ {
        Some(CurrencyView { code: "GBP"@, numeric: "826"@, decimals: 2, name: "British Pound"@ })
    } else if n == "344"@ {
        Some(CurrencyView { code: "HKD"@, numeric: "344"@, decimals: 2, name: "Hong Kong Dollar"@ })
    } else if n == "356"@ {
        Some(CurrencyView { code: "INR"@, numeric: "356"@, decimals: 2, name: "Indian Rupee"@ })
    } else if n == "392"@ {
        Some(CurrencyView { code: "JPY"@, numeric: "392"@, decimals: 0, name: "Japanese Yen"@ })
    } else if n == "410"@ {
        Some(CurrencyView { code: "KRW"@, numeric: "410"@, decimals: 0, name: "South Korean Won"@ })
    } else if n == "484"@ {
        Some(CurrencyView { code: "MXN"@, numeric: "484"@, decimals: 2, name: "Mexican Peso"@ })
    } else if n == "578"@ {
        Some(CurrencyView { code: "NOK"@, numeric: "578"@, decimals: 2, name: "Norwegian Krone"@ })
    } else if n == "554"@ {
        Some(CurrencyView { code: "NZD"@, numeric: "554"@, decimals: 2, name: "New Zealand Dollar"@ })
    } else if n == "985"@ {
        Some(CurrencyView { code: "PLN"@, numeric: "985"@, decimals: 2, name: "Polish Zloty"@ })
    } else if n == "643"@ {
        Some(CurrencyView { code: "RUB"@, numeric: "643"@, decimals: 2, name: "Russian Ruble"@ })
    } else if n == "752"@ {
        Some(CurrencyView { code: "SEK"@, numeric: "752"@, decimals: 2, name: "Swedish Krona"@ })
    } else if n == "702"@ {
        Some(CurrencyView { code: "SGD"@, numeric: "702"@, decimals: 2, name: "Singapore Dollar"@ })
    } else if n == "764"@ {
        Some(CurrencyView { code: "THB"@, numeric: "764"@, decimals: 2, name: "Thai Baht"@ })
    } else if n == "949"@ {
        Some(CurrencyView { code: "TRY"@, numeric: "949"@, decimals: 2, name: "Turkish Lira"@ })
    } else if n == "840"@ {
        Some(CurrencyView { code: "USD"@, numeric: "840"@, decimals: 2, name: "US Dollar"@ })
    } else if n == "710"@ {
        Some(CurrencyView { code: "ZAR"@, numeric: "710"@, decimals: 2, name: "South African Rand"@ })
    } else if n == "000"@ {
        Some(CurrencyView { code: "XBT"@, numeric: "000"@, decimals: 8, name: "Bitcoin"@ })
    } else {
        None
    }
}

/// The currency with alphabetic code `c`, compared exactly.
pub fn lookup_currency_chars(c: &[char]) -> (r: Option<Currency>)
    ensures
        match r {
            Some(x) => currency_by_code(c@) == Some(x@),
            None => currency_by_code(c@) is None,
        },
{
    if chars_equal_str(c, "AED") {
        return Some(Currency { code: "AED", numeric: "784", decimals: 2, name: "UAE Dirham" });
    }
    if chars_equal_str(c, "AUD") {
        return Some(Currency { code: "AUD", numeric: "036", decimals: 2, name: "Australian Dollar" });
    }
    if chars_equal_str(c, "BRL") {
        return Some(Currency { code: "BRL", numeric: "986", decimals: 2, name: "Brazilian Real" });
    }
    if chars_equal_str(c, "CAD") {
        return Some(Currency { code: "CAD", numeric: "124", decimals: 2, name: "Canadian Dollar" });
    }
    if chars_equal_str(c, "CHF") {
        return Some(Currency { code: "CHF", numeric: "756", decimals: 2, name: "Swiss Franc" });
    }
    if chars_equal_str(c, "CNY") {
        return Some(Currency { code: "CNY", numeric: "156", decimals: 2, name: "Chinese Yuan" });
    }
    if chars_equal_str(c, "EUR") {
        return Some(Currency { code: "EUR", numeric: "978", decimals: 2, name: "Euro" });
    }
    if chars_equal_str(c, "GBP") {
        return Some(Currency { code: "GBP", numeric: "826", decimals: 2, name: "British Pound" });
    }
    if chars_equal_str(c, "HKD") {
        return Some(Currency { code: "HKD", numeric: "344", decimals: 2, name: "Hong Kong Dollar" });
    }
    if chars_equal_str(c, "INR") {
        return Some(Currency { code: "INR", numeric: "356", decimals: 2, name: "Indian Rupee" });
    }
    if chars_equal_str(c, "JPY") {
        return Some(Currency { code: "JPY", numeric: "392", decimals: 0, name: "Japanese Yen" });
    }
    if chars_equal_str(c, "KRW") {
        return Some(Currency { code: "KRW", numeric: "410", decimals: 0, name: "South Korean Won" });
    }
    if chars_equal_str(c, "MXN") {
        return Some(Currency { code: "MXN", numeric: "484", decimals: 2, name: "Mexican Peso" });
    }
    if chars_equal_str(c, "NOK") {
        return Some(Currency { code: "NOK", numeric: "578", decimals: 2, name: "Norwegian Krone" });
    }
    if chars_equal_str(c, "NZD") {
        return Some(Currency { code: "NZD", numeric: "554", decimals: 2, name: "New Zealand Dollar" });
    }
    if chars_equal_str(c, "PLN") {
        return Some(Currency { code: "PLN", numeric: "985", decimals: 2, name: "Polish Zloty" });
    }
    if chars_equal_str(c, "RUB") {
        return Some(Currency { code: "RUB", numeric: "643", decimals: 2, name: "Russian Ruble" });
    }
    if chars_equal_str(c, "SEK") {
        return Some(Currency { code: "SEK", numeric: "752", decimals: 2, name: "Swedish Krona" });
    }
    if chars_equal_str(c, "SGD") {
        return Some(Currency { code: "SGD", numeric: "702", decimals: 2, name: "Singapore Dollar" });
    }
    if chars_equal_str(c, "THB") {
        return Some(Currency { code: "THB", numeric: "764", decimals: 2, name: "Thai Baht" });
    }
    if chars_equal_str(c, "TRY") {
        return Some(Currency { code: "TRY", numeric: "949", decimals: 2, name: "Turkish Lira" });
    }
    if chars_equal_str(c, "USD") {
        return Some(Currency { code: "USD", numeric: "840", decimals: 2, name: "US Dollar" });
    }
    if chars_equal_str(c, "ZAR") {
        return Some(Currency { code: "ZAR", numeric: "710", decimals: 2, name: "South African Rand" });
    }
    if chars_equal_str(c, "XBT") {
        return Some(Currency { code: "XBT", numeric: "000", decimals: 8, name: "Bitcoin" });
    }
    if chars_equal_str(c, "XET") {
        return Some(Currency { code: "XET", numeric: "000", decimals: 18, name: "Ethereum" });
    }
    None
}

/// Looks a currency up by alphabetic code, in any case.
pub fn get_currency(code: &str) -> (r: Option<Currency>)
    ensures
        match r {
            Some(x) => currency_by_code(upper_spec(code@)) == Some(x@),
            None => currency_by_code(upper_spec(code@)) is None,
        },
{
    let upper = str_to_uppercase(code);
    let chars = str_to_chars(upper.as_str());
    lookup_currency_chars(chars.as_slice())
}

/// Looks a currency up by numeric code.
pub fn get_currency_by_numeric(numeric: &str) -> (r: Option<Currency>)
    ensures
        match r {
            Some(x) => currency_by_numeric(numeric@) == Some(x@),
            None => currency_by_numeric(numeric@) is None,
        },
{
    let n = str_to_chars(numeric);
    if chars_equal_str(n.as_slice(), "784") {
        return Some(Currency { code: "AED", numeric: "784", decimals: 2, name: "UAE Dirham" });
    }
    if chars_equal_str(n.as_slice(), "036") {
        return Some(Currency { code: "AUD", numeric: "036", decimals: 2, name: "Australian Dollar" });
    }
    if chars_equal_str(n.as_slice(), "986") {
        return Some(Currency { code: "BRL", numeric: "986", decimals: 2, name: "Brazilian Real" });
    }
    if chars_equal_str(n.as_slice(), "124") {
        return Some(Currency { code: "CAD", numeric: "124", decimals: 2, name: "Canadian Dollar" });
    }
    if chars_equal_str(n.as_slice(), "756") {
        return Some(Currency { code: "CHF", numeric: "756", decimals: 2, name: "Swiss Franc" });
    }
    if chars_equal_str(n.as_slice(), "156") {
        return Some(Currency { code: "CNY", numeric: "156", decimals: 2, name: "Chinese Yuan" });
    }
    if chars_equal_str(n.as_slice(), "978") {
        return Some(Currency { code: "EUR", numeric: "978", decimals: 2, name: "Euro" });
    }
    if chars_equal_str(n.as_slice(), "826") {
        return Some(Currency { code: "GBP", numeric: "826", decimals: 2, name: "British Pound" });
    }
    if chars_equal_str(n.as_slice(), "344") {
        return Some(Currency { code: "HKD", numeric: "344", decimals: 2, name: "Hong Kong Dollar" });
    }
    if chars_equal_str(n.as_slice(), "356") {
        return Some(Currency { code: "INR", numeric: "356", decimals: 2, name: "Indian Rupee" });
    }
    if chars_equal_str(n.as_slice(), "392") {
        return Some(Currency { code: "JPY", numeric: "392", decimals: 0, name: "Japanese Yen" });
    }
    if chars_equal_str(n.as_slice(), "410") {
        return Some(Currency { code: "KRW", numeric: "410", decimals: 0, name: "South Korean Won" });
    }
    if chars_equal_str(n.as_slice(), "484") {
        return Some(Currency { code: "MXN", numeric: "484", decimals: 2, name: "Mexican Peso" });
    }
    if chars_equal_str(n.as_slice(), "578") {
        return Some(Currency { code: "NOK", numeric: "578", decimals: 2, name: "Norwegian Krone" });
    }
    if chars_equal_str(n.as_slice(), "554") {
        return Some(Currency { code: "NZD", numeric: "554", decimals: 2, name: "New Zealand Dollar" });
    }
    if chars_equal_str(n.as_slice(), "985") {
        return Some(Currency { code: "PLN", numeric: "985", decimals: 2, name: "Polish Zloty" });
    }
    if chars_equal_str(n.as_slice(), "643") {
        return Some(Currency { code: "RUB", numeric: "643", decimals: 2, name: "Russian Ruble" });
    }
    if chars_equal_str(n.as_slice(), "752") {
        return Some(Currency { code: "SEK", numeric: "752", decimals: 2, name: "Swedish Krona" });
    }
    if chars_equal_str(n.as_slice(), "702") {
        return Some(Currency { code: "SGD", numeric: "702", decimals: 2, name: "Singapore Dollar" });
    }
    if chars_equal_str(n.as_slice(), "764") {
        return Some(Currency { code: "THB", numeric: "764", decimals: 2, name: "Thai Baht" });
    }
    if chars_equal_str(n.as_slice(), "949") {
        return Some(Currency { code: "TRY", numeric: "949", decimals: 2, name: "Turkish Lira" });
    }
    if chars_equal_str(n.as_slice(), "840") {
        return Some(Currency { code: "USD", numeric: "840", decimals: 2, name: "US Dollar" });
    }
    if chars_equal_str(n.as_slice(), "710") {
        return Some(Currency { code: "ZAR", numeric: "710", decimals: 2, name: "South African Rand" });
    }
    if chars_equal_str(n.as_slice(), "000") {
        return Some(Currency { code: "XBT", numeric: "000", decimals: 8, name: "Bitcoin" });
    }
    None
}

/// Whether `code` (in any case) is a known currency.
pub fn is_valid_currency(code: &str) -> (r: bool)
    ensures r == currency_by_code(upper_spec(code@)) is Some,
{
    get_currency(code).is_some()
}

/// An amount in minor units written in major units with exactly
/// `decimals` places, then a space and the currency code.
pub open spec fn format_amount_spec(amount: int, decimals: nat, code: Seq<char>) -> Seq<char> {
    let a: nat = if amount < 0 { (-amount) as nat } else { amount as nat };
    let sign: Seq<char> = if amount < 0 { seq!['-'] } else { Seq::empty() };
    let whole = dec_digits(a / pow10(decimals));
    let frac: Seq<char> = if decimals == 0 {
        Seq::empty()
    } else {
        seq!['.'] + pad_left(dec_digits(a % pow10(decimals)), decimals, '0')
    };
    sign + whole + frac + seq![' '] + code
}

proof fn lemma_pow10_bound(k: nat)
    requires k <= 18,
    ensures 1 <= pow10(k) <= 1_000_000_000_000_000_000,
    decreases 18 - k,
{
    if k < 18 {
        lemma_pow10_bound(k + 1);
        assert(pow10(k + 1) == 10 * pow10(k));
    } else {
        reveal_with_fuel(pow10, 19);
    }
}

proof fn lemma_pow10_positive(k: nat)
    ensures pow10(k) >= 1,
    decreases k,
{
    if k > 0 {
        lemma_pow10_positive((k - 1) as nat);
    }
}

proof fn lemma_dec_digits_len(n: nat, k: nat)
    requires
        k >= 1,
        n < pow10(k),
    ensures
        dec_digits(n).len() <= k,
    decreases n,
{
    if n >= 10 {
        if k == 1 {
            assert(pow10(1) == 10 * pow10(0));
        } else {
            lemma_pow10_positive((k - 1) as nat);
            assert(n / 10 < pow10((k - 1) as nat));
            lemma_dec_digits_len(n / 10, (k - 1) as nat);
        }
    }
}

/// Writes an amount in minor units with the given number of decimals and
/// the currency code.
pub fn format_minor_units(amount: i64, decimals: u8, code: &str) -> (r: String)
    requires decimals <= 18,
    ensures r@ == format_amount_spec(amount as int, decimals as nat, code@),
{
    let a: u64 = if amount < 0 { ((-(amount as i128)) as u64) } else { amount as u64 };
    let mut p: u64 = 1;
    let mut k: u8 = 0;
    while k < decimals
        invariant
            k <= decimals <= 18,
            p == pow10(k as nat),
        decreases decimals - k,
    {
        proof {
            lemma_pow10_bound(k as nat);
        }
        p = p * 10;
        k = k + 1;
    }
    proof {
        lemma_pow10_bound(decimals as nat);
    }
    let mut out: Vec<char> = Vec::new();
    if amount < 0 {
        out.push('-');
    }
    let whole = u64_to_decimal(a / p);
    let mut i: usize = 0;
    let ghost start = out@;
    while i < whole.len()
        invariant
            i <= whole@.len(),
            out@ == start + whole@.take(i as int),
        decreases whole@.len() - i,
    {
        out.push(whole[i]);
        assert(whole@.take(i as int).push(whole@[i as int]) =~= whole@.take(i + 1));
        i = i + 1;
    }
    assert(whole@.take(whole@.len() as int) =~= whole@);
    if decimals > 0 {
        out.push('.');
        let frac = u64_to_decimal(a % p);
        proof {
            lemma_dec_digits_len((a % p) as nat, decimals as nat);
        }
        let mut z: usize = frac.len();
        let ghost before_pad = out@;
        while z < decimals as usize
            invariant
                frac@.len() <= z <= decimals,
                out@ == before_pad + Seq::new((z - frac@.len()) as nat, |j: int| '0'),
            decreases decimals - z,
        {
            out.push('0');
            assert(out@ =~= before_pad + Seq::new((z + 1 - frac@.len()) as nat, |j: int| '0'));
            z = z + 1;
        }
        let ghost before_frac = out@;
        let mut j: usize = 0;
        while j < frac.len()
            invariant
                j <= frac@.len(),
                out@ == before_frac + frac@.take(j as int),
            decreases frac@.len() - j,
        {
            out.push(frac[j]);
            assert(frac@.take(j as int).push(frac@[j as int]) =~= frac@.take(j + 1));
            j = j + 1;
        }
        assert(frac@.take(frac@.len() as int) =~= frac@);
        proof {
            let fd = dec_digits((a % p) as nat);
            if fd.len() < decimals {
                assert(pad_left(fd, decimals as nat, '0') =~= Seq::new((decimals - fd.len()) as nat, |j: int| '0') + fd);
            } else {
                assert(Seq::new((decimals - fd.len()) as nat, |j: int| '0') =~= Seq::<char>::empty());
            }
        }
    }
    out.push(' ');
    let mut s = chars_to_string(out.as_slice());
    s.append(code);
    assert(s@ =~= format_amount_spec(amount as int, decimals as nat, code@));
    s
}

/// Formats an amount in minor units of a currency (code in any case), or
/// `None` for an unknown currency.
pub fn format_amount(amount: i64, currency: &str) -> (r: Option<String>)
    ensures
        match r {
            Some(s) => currency_by_code(upper_spec(currency@)) matches Some(c)
                && s@ == format_amount_spec(amount as int, c.decimals as nat, c.code),
            None => currency_by_code(upper_spec(currency@)) is None,
        },
{
    match get_currency(currency) {
        Some(c) => {
            assert(c.decimals <= 18);
            Some(format_minor_units(amount, c.decimals, c.code))
        },
        None => None,
    }
}

} // verus!
