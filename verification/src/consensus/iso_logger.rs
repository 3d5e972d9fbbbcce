//! The audit log: JSON entries with a sequence number, a timestamp and a
//! SHA-256 hash chain, each entry carrying the hash of the one before.
use vstd::prelude::*;
use crate::primitives::hashing::{sha256_digest, sha256_spec};
use crate::primitives::text::{hex_encode, hex_lower, hex_char_lower, hex_digit_lower, dec_digits, u64_to_decimal, str_to_chars, chars_to_string};

verus! {

/// One entry of the audit log.
pub struct IsoLogEntry {
    pub seq: u64,
    pub timestamp: String,
    pub component: String,
    pub message: String,
    pub prev_hash: String,
    pub hash: String,
}

/// A character as it stands inside a JSON string: quote, backslash and
/// control characters escaped.
pub open spec fn json_escape_char(c: char) -> Seq<char> {
    if c == '"' {
        seq!['\\', '"']
    } else if c == '\\' {
        seq!['\\', '\\']
    } else if c == '\n' {
        seq!['\\', 'n']
    } else if c == '\r' {
        seq!['\\', 'r']
    } else if c == '\t' {
        seq!['\\', 't']
    } else if c == '\x08' {
        seq!['\\', 'b']
    } else if c == '\x0c' {
        seq!['\\', 'f']
    } else if (c as u32) < 0x20 {
        seq!['\\', 'u', '0', '0', hex_char_lower((c as u32) as int / 16), hex_char_lower((c as u32) as int % 16)]
    } else {
        seq![c]
    }
}

/// A text with each character escaped for JSON.
pub open spec fn json_escape(s: Seq<char>) -> Seq<char>
    decreases s.len(),
{
    if s.len() == 0 { Seq::empty() } else { json_escape(s.drop_last()) + json_escape_char(s.last()) }
}

/// A JSON string literal.
pub open spec fn json_string(s: Seq<char>) -> Seq<char> {
    seq!['"'] + json_escape(s) + seq!['"']
}

/// An entry as a JSON object, fields in declaration order.
pub open spec fn entry_json(seq: u64, timestamp: Seq<char>, component: Seq<char>, message: Seq<char>,
    prev_hash: Seq<char>, hash: Seq<char>) -> Seq<char> {
    "{\"seq\":"@ + dec_digits(seq as nat)
        + ",\"timestamp\":"@ + json_string(timestamp)
        + ",\"component\":"@ + json_string(component)
        + ",\"message\":"@ + json_string(message)
        + ",\"prev_hash\":"@ + json_string(prev_hash)
        + ",\"hash\":"@ + json_string(hash)
        + "}"@
}

/// The hash of an entry: SHA-256 of its JSON text (UTF-8) with an empty
/// hash field, in lowercase hexadecimal.
pub open spec fn entry_hash(seq: u64, timestamp: Seq<char>, component: Seq<char>, message: Seq<char>, prev_hash: Seq<char>) -> Seq<char> {
    hex_lower(sha256_spec(vstd::utf8::encode_utf8(entry_json(seq, timestamp, component, message, prev_hash, Seq::empty()))))
}

fn push_chars(out: &mut Vec<char>, s: &[char])
    ensures final(out)@ == old(out)@ + s@,
{
    let ghost start = out@;
    let mut i: usize = 0;
    while i < s.len()
        invariant i <= s@.len(), out@ == start + s@.take(i as int),
        decreases s@.len() - i,
    {
        out.push(s[i]);
        assert(out@ =~= start + s@.take(i + 1));
        i = i + 1;
    }
    assert(s@.take(i as int) =~= s@);
}

fn push_str(out: &mut Vec<char>, s: &str)
    ensures final(out)@ == old(out)@ + s@,
{
    let cs = str_to_chars(s);
    push_chars(out, cs.as_slice());
}

/// Appends `s` as a JSON string literal.
fn push_json_string(out: &mut Vec<char>, s: &str)
    ensures final(out)@ == old(out)@ + json_string(s@),
{
    let cs = str_to_chars(s);
    let ghost start = out@;
    out.push('"');
    let mut i: usize = 0;
    assert(cs@.take(0) =~= Seq::<char>::empty());
    while i < cs.len()
        invariant
            i <= cs@.len(),
            cs@ == s@,
            out@ == start + seq!['"'] + json_escape(cs@.take(i as int)),
        decreases cs@.len() - i,
    {
        let c = cs[i];
        let ghost before = out@;
        assert(cs@.take(i + 1).drop_last() =~= cs@.take(i as int));
        if c == '"' {
            out.push('\\');
            out.push('"');
        } else if c == '\\' {
            out.push('\\');
            out.push('\\');
        } else if c == '\n' {
            out.push('\\');
            out.push('n');
        } else if c == '\r' {
            out.push('\\');
            out.push('r');
        } else if c == '\t' {
            out.push('\\');
            out.push('t');
        } else if c == '\x08' {
            out.push('\\');
            out.push('b');
        } else if c == '\x0c' {
            out.push('\\');
            out.push('f');
        } else if (c as u32) < 0x20 {
            out.push('\\');
            out.push('u');
            out.push('0');
            out.push('0');
            out.push(hex_digit_lower(((c as u32) / 16) as u8));
            out.push(hex_digit_lower(((c as u32) % 16) as u8));
        } else {
            out.push(c);
        }
        assert(out@ =~= before + json_escape_char(c));
        assert(out@ =~= start + seq!['"'] + json_escape(cs@.take(i + 1)));
        i = i + 1;
    }
    assert(cs@.take(i as int) =~= cs@);
    out.push('"');
    assert(out@ =~= start + json_string(s@));
}

/// The JSON text of an entry.
fn entry_chars(entry: &IsoLogEntry) -> (r: Vec<char>)
    ensures r@ == entry_json(entry.seq, entry.timestamp@, entry.component@, entry.message@, entry.prev_hash@, entry.hash@),
{
    let mut out: Vec<char> = Vec::new();
    push_str(&mut out, "{\"seq\":");
    let d = u64_to_decimal(entry.seq);
    push_chars(&mut out, d.as_slice());
    push_str(&mut out, ",\"timestamp\":");
    push_json_string(&mut out, entry.timestamp.as_str());
    push_str(&mut out, ",\"component\":");
    push_json_string(&mut out, entry.component.as_str());
    push_str(&mut out, ",\"message\":");
    push_json_string(&mut out, entry.message.as_str());
    push_str(&mut out, ",\"prev_hash\":");
    push_json_string(&mut out, entry.prev_hash.as_str());
    push_str(&mut out, ",\"hash\":");
    push_json_string(&mut out, entry.hash.as_str());
    push_str(&mut out, "}");
    out
}

impl IsoLogEntry {
    /// The entry as one line of JSON.
    pub fn to_json(&self) -> (r: String)
        ensures r@ == entry_json(self.seq, self.timestamp@, self.component@, self.message@, self.prev_hash@, self.hash@),
    {
        let cs = entry_chars(self);
        chars_to_string(cs.as_slice())
    }
}

/// Calls `chrono::Utc::now` and renders the instant in RFC 3339; nothing is
/// promised of the time read.
#[verifier::external_body]
fn utc_now_rfc3339() -> (r: String)
{
    chrono::Utc::now().to_rfc3339()
}

/// An audit log: where its lines go, the last sequence number and the hash
/// of the last entry.
pub struct IsoLogger {
    path: String,
    seq: u64,
    prev_hash: String,
}

impl IsoLogger {
    pub closed spec fn path_spec(&self) -> Seq<char> { self.path@ }
    pub closed spec fn seq_spec(&self) -> u64 { self.seq }
    pub closed spec fn prev_hash_spec(&self) -> Seq<char> { self.prev_hash@ }

    /// A log that starts at sequence 0 with previous hash "0".
    pub fn new(path: &str) -> (r: Self)
        ensures r.path_spec() == path@, r.seq_spec() == 0, r.prev_hash_spec() == "0"@,
    {
        IsoLogger { path: path.to_owned(), seq: 0, prev_hash: "0".to_owned() }
    }

    /// Where the log's lines go.
    pub fn path(&self) -> (r: &str)
        ensures r@ == self.path_spec(),
    {
        self.path.as_str()
    }

    /// The hash of an entry, taken with its hash field empty.
    fn compute_hash(entry: &IsoLogEntry) -> (r: String)
        requires entry.hash@.len() == 0,
        ensures r@ == entry_hash(entry.seq, entry.timestamp@, entry.component@, entry.message@, entry.prev_hash@),
    {
        let text = entry.to_json();
        let digest = sha256_digest(text.as_str().as_bytes());
        hex_encode(digest.as_slice())
    }

    /// Records an entry stamped `timestamp`: the sequence number advances,
    /// the entry links to the previous hash, and its own hash becomes the
    /// previous hash; returns the line to append.
    pub fn log_at(&mut self, component: &str, message: &str, timestamp: &str) -> (line: String)
        requires old(self).seq_spec() < u64::MAX,
        ensures
            final(self).seq_spec() == old(self).seq_spec() + 1,
            final(self).path_spec() == old(self).path_spec(),
            final(self).prev_hash_spec() == entry_hash((old(self).seq_spec() + 1) as u64, timestamp@, component@, message@, old(self).prev_hash_spec()),
            line@ == entry_json((old(self).seq_spec() + 1) as u64, timestamp@, component@, message@, old(self).prev_hash_spec(),
                final(self).prev_hash_spec()),
    {
        self.seq = self.seq + 1;
        let mut entry = IsoLogEntry {
            seq: self.seq,
            timestamp: timestamp.to_owned(),
            component: component.to_owned(),
            message: message.to_owned(),
            prev_hash: self.prev_hash.clone(),
            hash: String::new(),
        };
        let hash = Self::compute_hash(&entry);
        entry.hash = hash.clone();
        let line = entry.to_json();
        self.prev_hash = hash;
        line
    }

    /// Records an entry stamped with the current time; returns the line to
    /// append.
    pub fn log(&mut self, component: &str, message: &str) -> (line: String)
        requires old(self).seq_spec() < u64::MAX,
        ensures
            final(self).seq_spec() == old(self).seq_spec() + 1,
            final(self).path_spec() == old(self).path_spec(),
            exists|ts: Seq<char>| {
                &&& final(self).prev_hash_spec() == #[trigger] entry_hash((old(self).seq_spec() + 1) as u64, ts, component@, message@, old(self).prev_hash_spec())
                &&& line@ == entry_json((old(self).seq_spec() + 1) as u64, ts, component@, message@, old(self).prev_hash_spec(),
                    final(self).prev_hash_spec())
            },
    {
        let ts = utc_now_rfc3339();
        self.log_at(component, message, ts.as_str())
    }
}

/// The hash chain: after two entries, the second links to the first's hash.
pub proof fn lemma_log_chain(l0: IsoLogger, l1: IsoLogger, l2: IsoLogger,
    c1: Seq<char>, m1: Seq<char>, t1: Seq<char>, line1: Seq<char>,
    c2: Seq<char>, m2: Seq<char>, t2: Seq<char>, line2: Seq<char>)
    requires
        l1.seq_spec() == l0.seq_spec() + 1,
        l1.prev_hash_spec() == entry_hash(l1.seq_spec(), t1, c1, m1, l0.prev_hash_spec()),
        line1 == entry_json(l1.seq_spec(), t1, c1, m1, l0.prev_hash_spec(), l1.prev_hash_spec()),
        l2.seq_spec() == l1.seq_spec() + 1,
        l2.prev_hash_spec() == entry_hash(l2.seq_spec(), t2, c2, m2, l1.prev_hash_spec()),
        line2 == entry_json(l2.seq_spec(), t2, c2, m2, l1.prev_hash_spec(), l2.prev_hash_spec()),
    ensures
        line2 == entry_json(l2.seq_spec(), t2, c2, m2, entry_hash(l1.seq_spec(), t1, c1, m1, l0.prev_hash_spec()), l2.prev_hash_spec()),
        l2.seq_spec() == l0.seq_spec() + 2,
{
}

} // verus!
