//! ISO 8583 card-transaction messages: data elements, bitmaps and the
//! binary wire format.
use vstd::prelude::*;
use vstd::string::{StringExecFns, StringSliceAdditionalSpecFns};
use crate::iso::IsoError;
use crate::primitives::types::{be_u64_at, be_byte_of, read_be_u64, lemma_be_u64_roundtrip};
use crate::primitives::text::{
    parse_u64_spec, parse_u64_radix, ascii_chars, all_ascii, ascii_window_chars,
    string_from_utf8, str_to_chars, dec_digits, pad_left, u64_to_decimal, chars_to_string,
    all_digits, digit_value, digits_value,
};

verus! {

/// ISO 8583 message type indicators.
#[derive(Clone, Copy, Debug, PartialEq, Eq, Structural)]
pub enum MessageType {
    AuthorizationRequest,
    AuthorizationResponse,
    FinancialRequest,
    FinancialResponse,
    ReversalRequest,
    ReversalResponse,
    NetworkManagementRequest,
    NetworkManagementResponse,
}

impl MessageType {
    /// The numeric message type indicator.
    pub open spec fn code_spec(self) -> u16 {
        match self {
            MessageType::AuthorizationRequest => 0x0100,
            MessageType::AuthorizationResponse => 0x0110,
            MessageType::FinancialRequest => 0x0200,
            MessageType::FinancialResponse => 0x0210,
            MessageType::ReversalRequest => 0x0400,
            MessageType::ReversalResponse => 0x0410,
            MessageType::NetworkManagementRequest => 0x0800,
            MessageType::NetworkManagementResponse => 0x0810,
        }
    }

    /// The message type with the given indicator, if there is one.
    pub open spec fn from_code_spec(code: u16) -> Option<MessageType> {
        if code == 0x0100 {
            Some(MessageType::AuthorizationRequest)
        } else if code == 0x0110 {
            Some(MessageType::AuthorizationResponse)
        } else if code == 0x0200 {
            Some(MessageType::FinancialRequest)
        } else if code == 0x0210 {
            Some(MessageType::FinancialResponse)
        } else if code == 0x0400 {
            Some(MessageType::ReversalRequest)
        } else if code == 0x0410 {
            Some(MessageType::ReversalResponse)
        } else if code == 0x0800 {
            Some(MessageType::NetworkManagementRequest)
        } else if code == 0x0810 {
            Some(MessageType::NetworkManagementResponse)
        } else {
            None
        }
    }

    pub fn from_code(code: u16) -> (r: Option<Self>)
        ensures r == Self::from_code_spec(code),
    {
        match code {
            0x0100 => Some(MessageType::AuthorizationRequest),
            0x0110 => Some(MessageType::AuthorizationResponse),
            0x0200 => Some(MessageType::FinancialRequest),
            0x0210 => Some(MessageType::FinancialResponse),
            0x0400 => Some(MessageType::ReversalRequest),
            0x0410 => Some(MessageType::ReversalResponse),
            0x0800 => Some(MessageType::NetworkManagementRequest),
            0x0810 => Some(MessageType::NetworkManagementResponse),
            _ => None,
        }
    }

    pub fn to_code(&self) -> (r: u16)
        ensures r == self.code_spec(),
    {
        match self {
            MessageType::AuthorizationRequest => 0x0100,
            MessageType::AuthorizationResponse => 0x0110,
            MessageType::FinancialRequest => 0x0200,
            MessageType::FinancialResponse => 0x0210,
            MessageType::ReversalRequest => 0x0400,
            MessageType::ReversalResponse => 0x0410,
            MessageType::NetworkManagementRequest => 0x0800,
            MessageType::NetworkManagementResponse => 0x0810,
        }
    }
}

/// Reading back the indicator of a message type gives the same type.
pub proof fn lemma_message_type_code_roundtrip(t: MessageType)
    ensures MessageType::from_code_spec(t.code_spec()) == Some(t),
{
}

/// One ISO 8583 data element.
pub struct DataElement {
    pub id: u8,
    pub value: Vec<u8>,
}

/// The abstract content of a message: its type, bitmaps, and the data
/// elements as (field number, bytes) pairs.
#[verifier::ext_equal]
pub struct Iso8583Model {
    pub mti: MessageType,
    pub primary_bitmap: u64,
    pub secondary_bitmap: Option<u64>,
    pub entries: Seq<(u8, Seq<u8>)>,
}

/// An ISO 8583 message. Its elements are kept ordered by field number,
/// each field number at most once (see `Iso8583Model::wf`).
pub struct Iso8583Message {
    pub mti: MessageType,
    pub primary_bitmap: u64,
    pub secondary_bitmap: Option<u64>,
    pub elements: Vec<DataElement>,
}

/// The (field number, bytes) pairs of a list of data elements.
pub open spec fn entries_of(els: Seq<DataElement>) -> Seq<(u8, Seq<u8>)> {
    Seq::new(els.len(), |i: int| (els[i].id, els[i].value@))
}

/// Field numbers strictly increase along the sequence.
pub open spec fn ids_increasing(s: Seq<(u8, Seq<u8>)>) -> bool {
    forall|i: int, j: int| 0 <= i < j < s.len() ==> (#[trigger] s[i]).0 < (#[trigger] s[j]).0
}

/// Some entry has field number `k`.
pub open spec fn has_id(s: Seq<(u8, Seq<u8>)>, k: u8) -> bool {
    exists|i: int| 0 <= i < s.len() && (#[trigger] s[i]).0 == k
}

/// The entries as a map from field number to bytes.
pub open spec fn entries_map(s: Seq<(u8, Seq<u8>)>) -> Map<u8, Seq<u8>> {
    Map::new(
        |k: u8| has_id(s, k),
        |k: u8| s[choose|i: int| 0 <= i < s.len() && (#[trigger] s[i]).0 == k].1,
    )
}

impl Iso8583Model {
    /// Field numbers are unique and in increasing order.
    pub open spec fn wf(self) -> bool {
        ids_increasing(self.entries)
    }

    /// The data elements by field number.
    pub open spec fn elements(self) -> Map<u8, Seq<u8>> {
        entries_map(self.entries)
    }
}

impl View for Iso8583Message {
    type V = Iso8583Model;

    open spec fn view(&self) -> Iso8583Model {
        Iso8583Model {
            mti: self.mti,
            primary_bitmap: self.primary_bitmap,
            secondary_bitmap: self.secondary_bitmap,
            entries: entries_of(self.elements@),
        }
    }
}

/// In increasing entries, each entry is what the map holds for its number.
pub proof fn lemma_entries_map_at(s: Seq<(u8, Seq<u8>)>, i: int)
    requires
        ids_increasing(s),
        0 <= i < s.len(),
    ensures
        entries_map(s).contains_key(s[i].0),
        entries_map(s)[s[i].0] == s[i].1,
{
    assert(has_id(s, s[i].0));
    let j = choose|j: int| 0 <= j < s.len() && (#[trigger] s[j]).0 == s[i].0;
    if j < i {
        assert(s[j].0 < s[i].0);
    } else if j > i {
        assert(s[i].0 < s[j].0);
    }
}

proof fn lemma_entries_update(s: Seq<(u8, Seq<u8>)>, p: int, e: (u8, Seq<u8>))
    requires
        ids_increasing(s),
        0 <= p < s.len(),
        s[p].0 == e.0,
    ensures
        ids_increasing(s.update(p, e)),
        entries_map(s.update(p, e)) == entries_map(s).insert(e.0, e.1),
{
    let t = s.update(p, e);
    assert forall|i: int, j: int| 0 <= i < j < t.len() implies (#[trigger] t[i]).0 < (#[trigger] t[j]).0 by {
        assert(s[i].0 < s[j].0);
    }
    assert forall|k: u8| #[trigger] entries_map(t).contains_key(k)
        == entries_map(s).insert(e.0, e.1).contains_key(k) by {
        if has_id(t, k) {
            let i = choose|i: int| 0 <= i < t.len() && (#[trigger] t[i]).0 == k;
            if i != p {
                assert(s[i].0 == k);
            }
        }
        if has_id(s, k) {
            let i = choose|i: int| 0 <= i < s.len() && (#[trigger] s[i]).0 == k;
            assert(t[i].0 == k);
        }
        if k == e.0 {
            assert(t[p].0 == k);
        }
    }
    assert forall|k: u8| #[trigger] entries_map(t).contains_key(k) implies
        entries_map(t)[k] == entries_map(s).insert(e.0, e.1)[k] by {
        let i = choose|i: int| 0 <= i < t.len() && (#[trigger] t[i]).0 == k;
        lemma_entries_map_at(t, i);
        if i != p {
            lemma_entries_map_at(s, i);
        }
    }
    assert(entries_map(t) =~= entries_map(s).insert(e.0, e.1));
}

proof fn lemma_entries_insert(s: Seq<(u8, Seq<u8>)>, p: int, e: (u8, Seq<u8>))
    requires
        ids_increasing(s),
        0 <= p <= s.len(),
        forall|j: int| 0 <= j < p ==> (#[trigger] s[j]).0 < e.0,
        forall|j: int| p <= j < s.len() ==> (#[trigger] s[j]).0 > e.0,
    ensures
        ids_increasing(s.insert(p, e)),
        entries_map(s.insert(p, e)) == entries_map(s).insert(e.0, e.1),
{
    let t = s.insert(p, e);
    assert forall|i: int, j: int| 0 <= i < j < t.len() implies (#[trigger] t[i]).0 < (#[trigger] t[j]).0 by {
        if i < p && j < p {
            assert(s[i].0 < s[j].0);
        } else if i < p && j == p {
            assert(s[i].0 < e.0);
        } else if i < p {
            assert(s[i].0 < s[j - 1].0);
        } else if i == p {
            assert(s[j - 1].0 > e.0);
        } else {
            assert(s[i - 1].0 < s[j - 1].0);
        }
    }
    assert forall|k: u8| #[trigger] entries_map(t).contains_key(k)
        == entries_map(s).insert(e.0, e.1).contains_key(k) by {
        if has_id(t, k) {
            let i = choose|i: int| 0 <= i < t.len() && (#[trigger] t[i]).0 == k;
            if i < p {
                assert(s[i].0 == k);
            } else if i > p {
                assert(s[i - 1].0 == k);
            }
        }
        if has_id(s, k) {
            let i = choose|i: int| 0 <= i < s.len() && (#[trigger] s[i]).0 == k;
            if i < p {
                assert(t[i].0 == k);
            } else {
                assert(t[i + 1].0 == k);
            }
        }
        if k == e.0 {
            assert(t[p].0 == k);
        }
    }
    assert forall|k: u8| #[trigger] entries_map(t).contains_key(k) implies
        entries_map(t)[k] == entries_map(s).insert(e.0, e.1)[k] by {
        let i = choose|i: int| 0 <= i < t.len() && (#[trigger] t[i]).0 == k;
        lemma_entries_map_at(t, i);
        if i < p {
            lemma_entries_map_at(s, i);
        } else if i > p {
            lemma_entries_map_at(s, i - 1);
        }
    }
    assert(entries_map(t) =~= entries_map(s).insert(e.0, e.1));
}

/// Copies a byte slice into a new vector.
fn copy_bytes(v: &[u8]) -> (r: Vec<u8>)
    ensures r@ == v@,
{
    let mut r: Vec<u8> = Vec::new();
    let mut i: usize = 0;
    while i < v.len()
        invariant
            i <= v@.len(),
            r@ == v@.take(i as int),
        decreases v@.len() - i,
    {
        r.push(v[i]);
        assert(v@.take(i as int).push(v@[i as int]) =~= v@.take(i + 1));
        i = i + 1;
    }
    assert(v@.take(v@.len() as int) =~= v@);
    r
}

/// Copies `data[from..to]` into a new vector.
fn copy_range(data: &[u8], from: usize, to: usize) -> (r: Vec<u8>)
    requires from <= to <= data@.len(),
    ensures r@ == data@.subrange(from as int, to as int),
{
    let mut r: Vec<u8> = Vec::new();
    let mut i: usize = from;
    while i < to
        invariant
            from <= i <= to <= data@.len(),
            r@ == data@.subrange(from as int, i as int),
        decreases to - i,
    {
        r.push(data[i]);
        assert(data@.subrange(from as int, i as int).push(data@[i as int])
            =~= data@.subrange(from as int, i + 1));
        i = i + 1;
    }
    r
}

impl Iso8583Message {
    pub fn new(mti: MessageType) -> (r: Self)
        ensures
            r@.mti == mti,
            r@.primary_bitmap == 0,
            r@.secondary_bitmap is None,
            r@.entries == Seq::<(u8, Seq<u8>)>::empty(),
            r@.wf(),
            framed(r@),
    {
        let r = Iso8583Message {
            mti,
            primary_bitmap: 0,
            secondary_bitmap: None,
            elements: Vec::new(),
        };
        assert(r@.entries =~= Seq::<(u8, Seq<u8>)>::empty());
        proof {
            assert(r@.entries.take(0) =~= Seq::<(u8, Seq<u8>)>::empty());
            assert(r@.entries.skip(0) =~= Seq::<(u8, Seq<u8>)>::empty());
            assert(bits_match(0u64, 64, 2, 65, r@.entries.take(0))) by {
                assert forall|b: int| 2 <= b < 65 implies (#[trigger] bit_set(0u64, 64, b) <==> has_id(r@.entries.take(0), b as u8)) by {
                    lemma_zero_bits((64 - b) as u64);
                }
            }
            lemma_zero_bits(63);
            assert(well_framed(r@, 0));
        }
        r
    }

    /// Where field `id` is (`Ok`), or where it would be inserted (`Err`).
    fn find_index(&self, id: u8) -> (r: Result<usize, usize>)
        requires self@.wf(),
        ensures
            match r {
                Ok(i) => i < self@.entries.len() && self@.entries[i as int].0 == id,
                Err(p) => {
                    &&& p <= self@.entries.len()
                    &&& forall|j: int| 0 <= j < p ==> (#[trigger] self@.entries[j]).0 < id
                    &&& forall|j: int| p <= j < self@.entries.len() ==> (#[trigger] self@.entries[j]).0 > id
                },
            },
    {
        let ghost s = self@.entries;
        let mut i: usize = 0;
        while i < self.elements.len() && self.elements[i].id < id
            invariant
                s == self@.entries,
                ids_increasing(s),
                i <= s.len(),
                s.len() == self.elements@.len(),
                forall|j: int| 0 <= j < i ==> (#[trigger] s[j]).0 < id,
            decreases s.len() - i,
        {
            assert(s[i as int].0 == self.elements@[i as int].id);
            i = i + 1;
        }
        if i < self.elements.len() && self.elements[i].id == id {
            assert(s[i as int].0 == self.elements@[i as int].id);
            Ok(i)
        } else {
            assert forall|j: int| i <= j < s.len() implies (#[trigger] s[j]).0 > id by {
                assert(s[i as int].0 == self.elements@[i as int].id);
                if j > i {
                    assert(s[i as int].0 < s[j].0);
                }
            }
            Err(i)
        }
    }

    /// Sets data element `id`, marking it in the bitmaps; an element in the
    /// secondary range creates the secondary bitmap and marks bit 1.
    pub fn set_element(&mut self, id: u8, value: Vec<u8>)
        requires
            old(self)@.wf(),
            1 <= id <= 128,
        ensures
            final(self)@.wf(),
            final(self)@.mti == old(self)@.mti,
            final(self)@.elements() == old(self)@.elements().insert(id, value@),
            id <= 64 ==> final(self)@.primary_bitmap == old(self)@.primary_bitmap | (1u64 << ((64 - id) as u64))
                && final(self)@.secondary_bitmap == old(self)@.secondary_bitmap,
            id > 64 ==> final(self)@.primary_bitmap == (match old(self)@.secondary_bitmap {
                    None => old(self)@.primary_bitmap | (1u64 << 63u64),
                    Some(_) => old(self)@.primary_bitmap,
                })
                && final(self)@.secondary_bitmap == Some(
                    old(self)@.secondary_bitmap.unwrap_or(0) | (1u64 << ((128 - id) as u64)),
                ),
            framed(old(self)@) && 2 <= id && id != 65 && field_exact(id, value@) ==> framed(final(self)@),
    {
        let ghost m0 = self@;
        if id <= 64 {
            self.primary_bitmap = self.primary_bitmap | (1u64 << ((64 - id) as u64));
        } else {
            let cur: u64 = match self.secondary_bitmap {
                None => {
                    self.primary_bitmap = self.primary_bitmap | (1u64 << 63u64);
                    0
                },
                Some(b) => b,
            };
            self.secondary_bitmap = Some(cur | (1u64 << ((128 - id) as u64)));
        }
        let ghost s = self@.entries;
        let ghost e = (id, value@);
        let el = DataElement { id, value };
        match self.find_index(id) {
            Ok(i) => {
                self.elements.set(i, el);
                proof {
                    lemma_entries_update(s, i as int, e);
                    assert(self@.entries =~= s.update(i as int, e));
                    if framed(m0) && 2 <= id && id != 65 && field_exact(id, e.1) {
                        let k = choose|k: int| well_framed(m0, k);
                        lemma_set_keeps_framed(m0, self@, id, e.1, k, i as int, true);
                    }
                }
            },
            Err(p) => {
                self.elements.insert(p, el);
                proof {
                    lemma_entries_insert(s, p as int, e);
                    assert(self@.entries =~= s.insert(p as int, e));
                    if framed(m0) && 2 <= id && id != 65 && field_exact(id, e.1) {
                        let k = choose|k: int| well_framed(m0, k);
                        lemma_set_keeps_framed(m0, self@, id, e.1, k, p as int, false);
                    }
                }
            },
        }
    }

    /// The bytes of data element `id`, if present.
    pub fn get_element(&self, id: u8) -> (r: Option<&Vec<u8>>)
        requires self@.wf(),
        ensures
            r is Some <==> self@.elements().contains_key(id),
            r matches Some(v) ==> v@ == self@.elements()[id],
    {
        match self.find_index(id) {
            Ok(i) => {
                proof {
                    lemma_entries_map_at(self@.entries, i as int);
                }
                Some(&self.elements[i].value)
            },
            Err(p) => {
                assert(!has_id(self@.entries, id));
                None
            },
        }
    }

    /// Data element `id` decoded as UTF-8 text, if present and valid.
    pub fn get_element_string(&self, id: u8) -> (r: Option<String>)
        requires self@.wf(),
        ensures text_of(r) == element_text(self@, id),
    {
        match self.get_element(id) {
            Some(v) => string_from_utf8(copy_bytes(v.as_slice())),
            None => None,
        }
    }

    /// Field 2: primary account number.
    pub fn pan(&self) -> (r: Option<String>)
        requires self@.wf(),
        ensures text_of(r) == element_text(self@, 2),
    {
        self.get_element_string(2)
    }

    /// Field 3: processing code.
    pub fn processing_code(&self) -> (r: Option<String>)
        requires self@.wf(),
        ensures text_of(r) == element_text(self@, 3),
    {
        self.get_element_string(3)
    }

    /// Field 4: transaction amount, read as a decimal number.
    pub fn amount(&self) -> (r: Option<u64>)
        requires self@.wf(),
        ensures
            r == (match element_text(self@, 4) {
                Some(s) => parse_u64_spec(s, 10),
                None => None,
            }),
    {
        match self.get_element_string(4) {
            Some(s) => {
                let chars = str_to_chars(s.as_str());
                parse_u64_radix(chars.as_slice(), 10)
            },
            None => None,
        }
    }

    /// Field 11: systems trace audit number.
    pub fn stan(&self) -> (r: Option<String>)
        requires self@.wf(),
        ensures text_of(r) == element_text(self@, 11),
    {
        self.get_element_string(11)
    }

    /// Field 12: local transaction time.
    pub fn local_time(&self) -> (r: Option<String>)
        requires self@.wf(),
        ensures text_of(r) == element_text(self@, 12),
    {
        self.get_element_string(12)
    }

    /// Field 13: local transaction date.
    pub fn local_date(&self) -> (r: Option<String>)
        requires self@.wf(),
        ensures text_of(r) == element_text(self@, 13),
    {
        self.get_element_string(13)
    }

    /// Field 14: expiration date.
    pub fn expiration_date(&self) -> (r: Option<String>)
        requires self@.wf(),
        ensures text_of(r) == element_text(self@, 14),
    {
        self.get_element_string(14)
    }

    /// Field 22: point of service entry mode.
    pub fn pos_entry_mode(&self) -> (r: Option<String>)
        requires self@.wf(),
        ensures text_of(r) == element_text(self@, 22),
    {
        self.get_element_string(22)
    }

    /// Field 23: card sequence number.
    pub fn card_sequence_number(&self) -> (r: Option<String>)
        requires self@.wf(),
        ensures text_of(r) == element_text(self@, 23),
    {
        self.get_element_string(23)
    }

    /// Field 32: acquiring institution.
    pub fn acquiring_institution_id(&self) -> (r: Option<String>)
        requires self@.wf(),
        ensures text_of(r) == element_text(self@, 32),
    {
        self.get_element_string(32)
    }

    /// Field 35: track 2 data.
    pub fn track2_data(&self) -> (r: Option<String>)
        requires self@.wf(),
        ensures text_of(r) == element_text(self@, 35),
    {
        self.get_element_string(35)
    }

    /// Field 37: retrieval reference number.
    pub fn retrieval_reference(&self) -> (r: Option<String>)
        requires self@.wf(),
        ensures text_of(r) == element_text(self@, 37),
    {
        self.get_element_string(37)
    }

    /// Field 38: authorization code.
    pub fn authorization_code(&self) -> (r: Option<String>)
        requires self@.wf(),
        ensures text_of(r) == element_text(self@, 38),
    {
        self.get_element_string(38)
    }

    /// Field 39: response code.
    pub fn response_code(&self) -> (r: Option<String>)
        requires self@.wf(),
        ensures text_of(r) == element_text(self@, 39),
    {
        self.get_element_string(39)
    }

    /// Field 41: card acceptor terminal.
    pub fn terminal_id(&self) -> (r: Option<String>)
        requires self@.wf(),
        ensures text_of(r) == element_text(self@, 41),
    {
        self.get_element_string(41)
    }

    /// Field 42: card acceptor.
    pub fn merchant_id(&self) -> (r: Option<String>)
        requires self@.wf(),
        ensures text_of(r) == element_text(self@, 42),
    {
        self.get_element_string(42)
    }

    /// Field 43: card acceptor name and location.
    pub fn merchant_name(&self) -> (r: Option<String>)
        requires self@.wf(),
        ensures text_of(r) == element_text(self@, 43),
    {
        self.get_element_string(43)
    }

    /// Field 49: transaction currency code.
    pub fn currency_code(&self) -> (r: Option<String>)
        requires self@.wf(),
        ensures text_of(r) == element_text(self@, 49),
    {
        self.get_element_string(49)
    }

    /// Field 55: EMV chip data, as bytes.
    pub fn emv_data(&self) -> (r: Option<&Vec<u8>>)
        requires self@.wf(),
        ensures
            r is Some <==> self@.elements().contains_key(55),
            r matches Some(v) ==> v@ == self@.elements()[55],
    {
        self.get_element(55)
    }
}

/// Element `id` of a message as text: present and valid UTF-8, decoded.
pub open spec fn element_text(m: Iso8583Model, id: u8) -> Option<Seq<char>> {
    if m.elements().contains_key(id) && vstd::utf8::valid_utf8(m.elements()[id]) {
        Some(vstd::utf8::decode_utf8(m.elements()[id]))
    } else {
        None
    }
}

/// The characters of an optional string.
pub open spec fn text_of(o: Option<String>) -> Option<Seq<char>> {
    match o {
        Some(s) => Some(s@),
        None => None,
    }
}

/// How a data element is laid out on the wire.
#[derive(Clone, Copy, Debug, PartialEq, Eq, Structural)]
pub enum FieldEncoding {
    /// Exactly this many bytes, padded with spaces or cut.
    Fixed(usize),
    /// Two ASCII decimal digits of length, then at most this many bytes.
    LlVar(usize),
    /// Three ASCII decimal digits of length, then at most this many bytes.
    LllVar(usize),
}

/// The layout of each field number from 1 to 128.
pub open spec fn field_encoding_spec(id: u8) -> Option<FieldEncoding> {
    if id == 1 { Some(FieldEncoding::Fixed(8)) }
    else if id == 2 { Some(FieldEncoding::LlVar(19)) }
    else if id == 3 { Some(FieldEncoding::Fixed(6)) }
    else if 4 <= id <= 6 { Some(FieldEncoding::Fixed(12)) }
    else if id == 7 { Some(FieldEncoding::Fixed(10)) }
    else if 8 <= id <= 10 { Some(FieldEncoding::Fixed(8)) }
    else if 11 <= id <= 12 { Some(FieldEncoding::Fixed(6)) }
    else if 13 <= id <= 18 { Some(FieldEncoding::Fixed(4)) }
    else if 19 <= id <= 24 { Some(FieldEncoding::Fixed(3)) }
    else if 25 <= id <= 26 { Some(FieldEncoding::Fixed(2)) }
    else if id == 27 { Some(FieldEncoding::Fixed(1)) }
    else if 28 <= id <= 31 { Some(FieldEncoding::Fixed(9)) }
    else if 32 <= id <= 33 { Some(FieldEncoding::LlVar(11)) }
    else if id == 34 { Some(FieldEncoding::LlVar(28)) }
    else if id == 35 { Some(FieldEncoding::LlVar(37)) }
    else if id == 36 { Some(FieldEncoding::LllVar(104)) }
    else if id == 37 { Some(FieldEncoding::Fixed(12)) }
    else if id == 38 { Some(FieldEncoding::Fixed(6)) }
    else if id == 39 { Some(FieldEncoding::Fixed(2)) }
    else if id == 40 { Some(FieldEncoding::Fixed(3)) }
    else if id == 41 { Some(FieldEncoding::Fixed(8)) }
    else if id == 42 { Some(FieldEncoding::Fixed(15)) }
    else if id == 43 { Some(FieldEncoding::Fixed(40)) }
    else if id == 44 { Some(FieldEncoding::LlVar(25)) }
    else if id == 45 { Some(FieldEncoding::LlVar(76)) }
    else if 46 <= id <= 48 { Some(FieldEncoding::LllVar(999)) }
    else if 49 <= id <= 51 { Some(FieldEncoding::Fixed(3)) }
    else if id == 52 { Some(FieldEncoding::Fixed(8)) }
    else if id == 53 { Some(FieldEncoding::Fixed(16)) }
    else if id == 54 { Some(FieldEncoding::LllVar(120)) }
    else if 55 <= id <= 63 { Some(FieldEncoding::LllVar(999)) }
    else if 64 <= id <= 65 { Some(FieldEncoding::Fixed(8)) }
    else if id == 66 { Some(FieldEncoding::Fixed(1)) }
    else if id == 67 { Some(FieldEncoding::Fixed(2)) }
    else if 68 <= id <= 90 { Some(FieldEncoding::Fixed(10)) }
    else if id == 91 { Some(FieldEncoding::Fixed(1)) }
    else if 92 <= id <= 95 { Some(FieldEncoding::Fixed(2)) }
    else if id == 96 { Some(FieldEncoding::Fixed(8)) }
    else if id == 97 { Some(FieldEncoding::Fixed(17)) }
    else if id == 98 { Some(FieldEncoding::Fixed(25)) }
    else if 99 <= id <= 100 { Some(FieldEncoding::LlVar(11)) }
    else if id == 101 { Some(FieldEncoding::LlVar(17)) }
    else if 102 <= id <= 103 { Some(FieldEncoding::LlVar(28)) }
    else if id == 104 { Some(FieldEncoding::LllVar(100)) }
    else if 105 <= id <= 127 { Some(FieldEncoding::LllVar(999)) }
    else if id == 128 { Some(FieldEncoding::Fixed(8)) }
    else { None }
}

/// The layout of data element `id` (1 to 128).
pub fn field_encoding(id: u8) -> (r: Option<FieldEncoding>)
    ensures r == field_encoding_spec(id),
{
    match id {
        1 => Some(FieldEncoding::Fixed(8)),
        2 => Some(FieldEncoding::LlVar(19)),
        3 => Some(FieldEncoding::Fixed(6)),
        4 => Some(FieldEncoding::Fixed(12)),
        5 => Some(FieldEncoding::Fixed(12)),
        6 => Some(FieldEncoding::Fixed(12)),
        7 => Some(FieldEncoding::Fixed(10)),
        8 => Some(FieldEncoding::Fixed(8)),
        9 => Some(FieldEncoding::Fixed(8)),
        10 => Some(FieldEncoding::Fixed(8)),
        11 => Some(FieldEncoding::Fixed(6)),
        12 => Some(FieldEncoding::Fixed(6)),
        13 => Some(FieldEncoding::Fixed(4)),
        14 => Some(FieldEncoding::Fixed(4)),
        15 => Some(FieldEncoding::Fixed(4)),
        16 => Some(FieldEncoding::Fixed(4)),
        17 => Some(FieldEncoding::Fixed(4)),
        18 => Some(FieldEncoding::Fixed(4)),
        19 => Some(FieldEncoding::Fixed(3)),
        20 => Some(FieldEncoding::Fixed(3)),
        21 => Some(FieldEncoding::Fixed(3)),
        22 => Some(FieldEncoding::Fixed(3)),
        23 => Some(FieldEncoding::Fixed(3)),
        24 => Some(FieldEncoding::Fixed(3)),
        25 => Some(FieldEncoding::Fixed(2)),
        26 => Some(FieldEncoding::Fixed(2)),
        27 => Some(FieldEncoding::Fixed(1)),
        28 => Some(FieldEncoding::Fixed(9)),
        29 => Some(FieldEncoding::Fixed(9)),
        30 => Some(FieldEncoding::Fixed(9)),
        31 => Some(FieldEncoding::Fixed(9)),
        32 => Some(FieldEncoding::LlVar(11)),
        33 => Some(FieldEncoding::LlVar(11)),
        34 => Some(FieldEncoding::LlVar(28)),
        35 => Some(FieldEncoding::LlVar(37)),
        36 => Some(FieldEncoding::LllVar(104)),
        37 => Some(FieldEncoding::Fixed(12)),
        38 => Some(FieldEncoding::Fixed(6)),
        39 => Some(FieldEncoding::Fixed(2)),
        40 => Some(FieldEncoding::Fixed(3)),
        41 => Some(FieldEncoding::Fixed(8)),
        42 => Some(FieldEncoding::Fixed(15)),
        43 => Some(FieldEncoding::Fixed(40)),
        44 => Some(FieldEncoding::LlVar(25)),
        45 => Some(FieldEncoding::LlVar(76)),
        46 => Some(FieldEncoding::LllVar(999)),
        47 => Some(FieldEncoding::LllVar(999)),
        48 => Some(FieldEncoding::LllVar(999)),
        49 => Some(FieldEncoding::Fixed(3)),
        50 => Some(FieldEncoding::Fixed(3)),
        51 => Some(FieldEncoding::Fixed(3)),
        52 => Some(FieldEncoding::Fixed(8)),
        53 => Some(FieldEncoding::Fixed(16)),
        54 => Some(FieldEncoding::LllVar(120)),
        55 => Some(FieldEncoding::LllVar(999)),
        56 => Some(FieldEncoding::LllVar(999)),
        57..=63 => Some(FieldEncoding::LllVar(999)),
        64 => Some(FieldEncoding::Fixed(8)),
        65 => Some(FieldEncoding::Fixed(8)),
        66 => Some(FieldEncoding::Fixed(1)),
        67 => Some(FieldEncoding::Fixed(2)),
        68..=75 => Some(FieldEncoding::Fixed(10)),
        76..=84 => Some(FieldEncoding::Fixed(10)),
        85..=90 => Some(FieldEncoding::Fixed(10)),
        91 => Some(FieldEncoding::Fixed(1)),
        92..=95 => Some(FieldEncoding::Fixed(2)),
        96 => Some(FieldEncoding::Fixed(8)),
        97 => Some(FieldEncoding::Fixed(17)),
        98 => Some(FieldEncoding::Fixed(25)),
        99 => Some(FieldEncoding::LlVar(11)),
        100 => Some(FieldEncoding::LlVar(11)),
        101 => Some(FieldEncoding::LlVar(17)),
        102 => Some(FieldEncoding::LlVar(28)),
        103 => Some(FieldEncoding::LlVar(28)),
        104 => Some(FieldEncoding::LllVar(100)),
        105..=107 => Some(FieldEncoding::LllVar(999)),
        108..=110 => Some(FieldEncoding::LllVar(999)),
        111..=119 => Some(FieldEncoding::LllVar(999)),
        120..=122 => Some(FieldEncoding::LllVar(999)),
        123..=125 => Some(FieldEncoding::LllVar(999)),
        126 => Some(FieldEncoding::LllVar(999)),
        127 => Some(FieldEncoding::LllVar(999)),
        128 => Some(FieldEncoding::Fixed(8)),
        _ => None,
    }
}

/// Length `n` below 100 as two ASCII decimal digits.
pub open spec fn two_digits(n: nat) -> Seq<u8> {
    seq![(48 + n / 10) as u8, (48 + n % 10) as u8]
}

/// Length `n` below 1000 as three ASCII decimal digits.
pub open spec fn three_digits(n: nat) -> Seq<u8> {
    seq![(48 + n / 100) as u8, (48 + (n / 10) % 10) as u8, (48 + n % 10) as u8]
}

/// The wire bytes of data element `id` holding `value`, or `None` when the
/// field number is unknown or the value is longer than a variable field allows.
pub open spec fn encode_field_spec(id: u8, value: Seq<u8>) -> Option<Seq<u8>> {
    match field_encoding_spec(id) {
        Some(FieldEncoding::Fixed(len)) => Some(
            Seq::new(len as nat, |i: int| if i < value.len() { value[i] } else { 32u8 }),
        ),
        Some(FieldEncoding::LlVar(max)) => if value.len() > max {
            None
        } else {
            Some(two_digits(value.len()) + value)
        },
        Some(FieldEncoding::LllVar(max)) => if value.len() > max {
            None
        } else {
            Some(three_digits(value.len()) + value)
        },
        None => None,
    }
}

/// "Field <id>: <what>".
fn unknown_field_message(id: u8) -> (r: String)
    ensures r@ == "Unknown field id: "@ + dec_digits(id as nat),
{
    let mut m = "Unknown field id: ".to_owned();
    let d = chars_to_string(u64_to_decimal(id as u64).as_slice());
    m.append(d.as_str());
    m
}

/// "Field <id>: value length <len> exceeds max <max>".
fn too_long_message(id: u8, len: usize, max: usize) -> (r: String)
    ensures r@ == "Field "@ + dec_digits(id as nat) + ": value length "@ + dec_digits(len as nat) + " exceeds max "@ + dec_digits(max as nat),
{
    let mut m = "Field ".to_owned();
    let d0 = chars_to_string(u64_to_decimal(id as u64).as_slice());
    m.append(d0.as_str());
    m.append(": value length ");
    let d1 = chars_to_string(u64_to_decimal(len as u64).as_slice());
    m.append(d1.as_str());
    m.append(" exceeds max ");
    let d2 = chars_to_string(u64_to_decimal(max as u64).as_slice());
    m.append(d2.as_str());
    m
}

fn field_message(id: u8, what: &str) -> (r: String)
    ensures r@ == "Field "@ + dec_digits(id as nat) + ": "@ + what@,
{
    let mut m = "Field ".to_owned();
    let digits = u64_to_decimal(id as u64);
    let d = chars_to_string(digits.as_slice());
    m.append(d.as_str());
    m.append(": ");
    m.append(what);
    m
}

/// Encodes one data element into its wire form.
pub fn encode_field(id: u8, value: &[u8]) -> (r: Result<Vec<u8>, IsoError>)
    ensures
        match r {
            Ok(b) => encode_field_spec(id, value@) == Some(b@),
            Err(e) => encode_field_spec(id, value@) is None && e is InvalidFormat,
        },
{
    match field_encoding(id) {
        Some(FieldEncoding::Fixed(len)) => {
            let mut buf: Vec<u8> = Vec::new();
            let mut i: usize = 0;
            while i < len
                invariant
                    i <= len,
                    buf@ == Seq::new(i as nat, |k: int| if k < value@.len() { value@[k] } else { 32u8 }),
                decreases len - i,
            {
                let b: u8 = if i < value.len() { value[i] } else { 32u8 };
                buf.push(b);
                assert(buf@ =~= Seq::new((i + 1) as nat, |k: int| if k < value@.len() { value@[k] } else { 32u8 }));
                i = i + 1;
            }
            Ok(buf)
        },
        Some(FieldEncoding::LlVar(max)) => {
            if value.len() > max {
                return Err(IsoError::InvalidFormat(too_long_message(id, value.len(), max)));
            }
            let n = value.len();
            let mut buf: Vec<u8> = Vec::new();
            buf.push((48 + n / 10) as u8);
            buf.push((48 + n % 10) as u8);
            let mut i: usize = 0;
            while i < n
                invariant
                    i <= n == value@.len(),
                    n <= 76,
                    buf@ == two_digits(n as nat) + value@.take(i as int),
                decreases n - i,
            {
                buf.push(value[i]);
                assert(value@.take(i as int).push(value@[i as int]) =~= value@.take(i + 1));
                i = i + 1;
            }
            assert(value@.take(n as int) =~= value@);
            Ok(buf)
        },
        Some(FieldEncoding::LllVar(max)) => {
            if value.len() > max {
                return Err(IsoError::InvalidFormat(too_long_message(id, value.len(), max)));
            }
            let n = value.len();
            let mut buf: Vec<u8> = Vec::new();
            buf.push((48 + n / 100) as u8);
            buf.push((48 + (n / 10) % 10) as u8);
            buf.push((48 + n % 10) as u8);
            let mut i: usize = 0;
            while i < n
                invariant
                    i <= n == value@.len(),
                    n <= 999,
                    buf@ == three_digits(n as nat) + value@.take(i as int),
                decreases n - i,
            {
                buf.push(value[i]);
                assert(value@.take(i as int).push(value@[i as int]) =~= value@.take(i + 1));
                i = i + 1;
            }
            assert(value@.take(n as int) =~= value@);
            Ok(buf)
        },
        None => Err(IsoError::InvalidFormat(unknown_field_message(id))),
    }
}

/// The number written in an ASCII decimal length prefix, as the standard
/// library parses it (an optional `+`, then digits); `None` otherwise.
pub open spec fn length_prefix_value(b: Seq<u8>) -> Option<nat> {
    if all_ascii(b) {
        match parse_u64_spec(ascii_chars(b), 10) {
            Some(v) => Some(v as nat),
            None => None,
        }
    } else {
        None
    }
}

/// The length prefix of `n` decimal digits reads back as `n`.
proof fn lemma_length_prefix_digits(n: nat, w: int)
    requires (w == 2 && n < 100) || (w == 3 && n < 1000),
    ensures length_prefix_value(if w == 2 { two_digits(n) } else { three_digits(n) }) == Some(n),
{
    let b = if w == 2 { two_digits(n) } else { three_digits(n) };
    let s = ascii_chars(b);
    assert(all_ascii(b));
    assert(s.len() > 0 && s[0] != '+');
    assert(all_digits(s, 10)) by {
        assert forall|i: int| 0 <= i < s.len() implies #[trigger] digit_value(s[i], 10) is Some by {
            assert(s[i] as int == b[i] as int);
        }
    }
    reveal_with_fuel(digits_value, 4);
    if w == 2 {
        assert(s.drop_last() =~= seq![s[0]]);
        assert(seq![s[0]].drop_last() =~= Seq::<char>::empty());
        assert(digit_value(s[0], 10) == Some(n / 10));
        assert(digit_value(s[1], 10) == Some(n % 10));
        assert(digits_value(s, 10) == n);
    } else {
        assert(s.drop_last() =~= seq![s[0], s[1]]);
        assert(seq![s[0], s[1]].drop_last() =~= seq![s[0]]);
        assert(seq![s[0]].drop_last() =~= Seq::<char>::empty());
        assert(digit_value(s[0], 10) == Some(n / 100));
        assert(digit_value(s[1], 10) == Some((n / 10) % 10));
        assert(digit_value(s[2], 10) == Some(n % 10));
        assert(digits_value(s, 10) == n) by {
            assert((n / 100) * 10 + (n / 10) % 10 == n / 10);
        }
    }
}

/// Decoding a data element just encoded, whatever bytes follow it, gives
/// the encoded field and the position right after it: for a variable field
/// the value itself, for a fixed field the value padded with spaces (or cut)
/// to the field's width.
pub proof fn lemma_field_roundtrip(id: u8, value: Seq<u8>, tail: Seq<u8>)
    requires encode_field_spec(id, value) is Some,
    ensures
        decode_field_spec(id, encode_field_spec(id, value).unwrap() + tail, 0) == Some((
            match field_encoding_spec(id) {
                Some(FieldEncoding::Fixed(_)) => encode_field_spec(id, value).unwrap(),
                _ => value,
            },
            encode_field_spec(id, value).unwrap().len() as int,
        )),
{
    let enc = encode_field_spec(id, value).unwrap();
    let data = enc + tail;
    match field_encoding_spec(id) {
        Some(FieldEncoding::Fixed(len)) => {
            assert(data.subrange(0, len as int) =~= enc);
        },
        Some(FieldEncoding::LlVar(max)) => {
            assert(max < 100);
            lemma_length_prefix_digits(value.len(), 2);
            assert(data.subrange(0, 2) =~= two_digits(value.len()));
            assert(data.subrange(2, 2 + value.len() as int) =~= value);
        },
        Some(FieldEncoding::LllVar(max)) => {
            assert(max < 1000);
            lemma_length_prefix_digits(value.len(), 3);
            assert(data.subrange(0, 3) =~= three_digits(value.len()));
            assert(data.subrange(3, 3 + value.len() as int) =~= value);
        },
        None => {},
    }
}

/// A variable field at `pos` with a `w`-digit length prefix: the value and
/// the position after it.
pub open spec fn var_field_decode(data: Seq<u8>, pos: int, w: int) -> Option<(Seq<u8>, int)> {
    if pos + w > data.len() {
        None
    } else {
        match length_prefix_value(data.subrange(pos, pos + w)) {
            None => None,
            Some(n) => if pos + w + n > data.len() {
                None
            } else {
                Some((data.subrange(pos + w, pos + w + n), pos + w + n))
            },
        }
    }
}

/// Data element `id` read from `data` at `pos`: its value and the position
/// after it, or `None` when the data does not hold one.
pub open spec fn decode_field_spec(id: u8, data: Seq<u8>, pos: int) -> Option<(Seq<u8>, int)> {
    match field_encoding_spec(id) {
        Some(FieldEncoding::Fixed(len)) => if pos + len > data.len() {
            None
        } else {
            Some((data.subrange(pos, pos + len), pos + len))
        },
        Some(FieldEncoding::LlVar(_)) => var_field_decode(data, pos, 2),
        Some(FieldEncoding::LllVar(_)) => var_field_decode(data, pos, 3),
        None => None,
    }
}

/// Reads a `w`-digit length prefix and the value after it.
fn decode_var(id: u8, data: &[u8], pos: &mut usize, w: usize) -> (r: Result<Vec<u8>, IsoError>)
    requires w == 2 || w == 3,
    ensures
        match r {
            Ok(v) => var_field_decode(data@, *old(pos) as int, w as int) == Some((v@, *final(pos) as int)),
            Err(e) => var_field_decode(data@, *old(pos) as int, w as int) is None && e is InvalidFormat,
        },
{
    if *pos > data.len() || w > data.len() - *pos {
        return Err(IsoError::InvalidFormat(field_message(id, if w == 2 { "missing LL prefix" } else { "missing LLL prefix" })));
    }
    let start = *pos;
    let chars = match ascii_window_chars(data, start, start + w) {
        Some(c) => c,
        None => {
            return Err(IsoError::InvalidFormat(field_message(id, if w == 2 { "invalid LL prefix" } else { "invalid LLL prefix" })));
        },
    };
    let len = match parse_u64_radix(chars.as_slice(), 10) {
        Some(n) => n,
        None => {
            return Err(IsoError::InvalidFormat(field_message(id, if w == 2 { "non-numeric LL prefix" } else { "non-numeric LLL prefix" })));
        },
    };
    let after = start + w;
    if len > (data.len() - after) as u64 {
        return Err(IsoError::InvalidFormat(field_message(id, "data shorter than declared length")));
    }
    let end = after + len as usize;
    let v = copy_range(data, after, end);
    *pos = end;
    Ok(v)
}

/// Decodes data element `id` at `*pos`, advancing `*pos` past it.
pub fn decode_field(id: u8, data: &[u8], pos: &mut usize) -> (r: Result<Vec<u8>, IsoError>)
    ensures
        match r {
            Ok(v) => decode_field_spec(id, data@, *old(pos) as int) == Some((v@, *final(pos) as int)),
            Err(e) => decode_field_spec(id, data@, *old(pos) as int) is None && e is InvalidFormat,
        },
{
    match field_encoding(id) {
        Some(FieldEncoding::Fixed(len)) => {
            if *pos > data.len() || len > data.len() - *pos {
                return Err(IsoError::InvalidFormat(field_message(id, "unexpected end of data")));
            }
            let start = *pos;
            let v = copy_range(data, start, start + len);
            *pos = start + len;
            Ok(v)
        },
        Some(FieldEncoding::LlVar(_)) => decode_var(id, data, pos, 2),
        Some(FieldEncoding::LllVar(_)) => decode_var(id, data, pos, 3),
        None => Err(IsoError::InvalidFormat(unknown_field_message(id))),
    }
}

/// Whether bit `bit` (numbered from 1 at the most significant end, counting
/// on from `base - 63`) is set in a 64-bit bitmap.
pub open spec fn bit_set(bitmap: u64, base: int, bit: int) -> bool {
    (bitmap >> ((base - bit) as u64)) & 1u64 == 1u64
}

/// Decoding, from `pos`, the data elements whose bits from `lo` up to (not
/// including) `hi` are set: the elements read and the position after them.
pub open spec fn decode_run(
    data: Seq<u8>,
    bitmap: u64,
    base: int,
    lo: int,
    hi: int,
    pos: int,
) -> Option<(Seq<(u8, Seq<u8>)>, int)>
    decreases hi - lo,
{
    if hi <= lo {
        Some((Seq::empty(), pos))
    } else {
        match decode_run(data, bitmap, base, lo, hi - 1, pos) {
            None => None,
            Some((acc, p)) => if bit_set(bitmap, base, hi - 1) {
                match decode_field_spec((hi - 1) as u8, data, p) {
                    None => None,
                    Some((v, p2)) => Some((acc.push(((hi - 1) as u8, v)), p2)),
                }
            } else {
                Some((acc, p))
            },
        }
    }
}

proof fn lemma_decode_run_none(data: Seq<u8>, bitmap: u64, base: int, lo: int, h1: int, h2: int, pos: int)
    requires
        lo <= h1 <= h2,
        decode_run(data, bitmap, base, lo, h1, pos) is None,
    ensures
        decode_run(data, bitmap, base, lo, h2, pos) is None,
    decreases h2 - h1,
{
    if h1 < h2 {
        lemma_decode_run_none(data, bitmap, base, lo, h1, h2 - 1, pos);
    }
}

/// Uppercase hexadecimal digit byte of a value below 16.
pub open spec fn hex_digit_byte(n: int) -> u8 {
    if n < 10 { (48 + n) as u8 } else { (55 + n) as u8 }
}

/// A message type indicator as four uppercase hexadecimal ASCII digits.
pub open spec fn mti_ascii(code: u16) -> Seq<u8> {
    seq![
        hex_digit_byte((code as int / 4096) % 16),
        hex_digit_byte((code as int / 256) % 16),
        hex_digit_byte((code as int / 16) % 16),
        hex_digit_byte(code as int % 16),
    ]
}

/// The message type indicator at the start of `data` (ASCII hexadecimal when
/// the first byte is a decimal digit, else two big-endian bytes) and the
/// position after it.
pub open spec fn mti_spec(data: Seq<u8>) -> Option<(u16, int)> {
    if 48 <= data[0] <= 57 {
        let w = data.subrange(0, 4);
        if !all_ascii(w) {
            None
        } else {
            match parse_u64_spec(ascii_chars(w), 16) {
                Some(v) => if v <= 0xffff { Some((v as u16, 4)) } else { None },
                None => None,
            }
        }
    } else {
        Some(((data[0] as int * 256 + data[1] as int) as u16, 2))
    }
}

/// Why bytes are not an ISO 8583 message.
pub enum ParseFailure {
    /// The bytes are not laid out as a message.
    Format,
    /// The message type indicator is not one of the known types.
    UnknownType(u16),
}

/// The message that `data` holds, or why it holds none.
pub open spec fn parse_spec(data: Seq<u8>) -> Result<Iso8583Model, ParseFailure> {
    if data.len() < 10 {
        Err(ParseFailure::Format)
    } else {
        match mti_spec(data) {
            None => Err(ParseFailure::Format),
            Some((code, p0)) => match MessageType::from_code_spec(code) {
                None => Err(ParseFailure::UnknownType(code)),
                Some(t) => if p0 + 8 > data.len() {
                    Err(ParseFailure::Format)
                } else {
                    let primary = be_u64_at(data, p0);
                    let has_secondary = (primary >> 63u64) & 1u64 == 1u64;
                    if has_secondary && p0 + 16 > data.len() {
                        Err(ParseFailure::Format)
                    } else {
                        let secondary = if has_secondary { Some(be_u64_at(data, p0 + 8)) } else { None };
                        let p1 = if has_secondary { p0 + 16 } else { p0 + 8 };
                        match decode_run(data, primary, 64, 2, 65, p1) {
                            None => Err(ParseFailure::Format),
                            Some((e1, p2)) => match secondary {
                                None => Ok(Iso8583Model {
                                    mti: t,
                                    primary_bitmap: primary,
                                    secondary_bitmap: None,
                                    entries: e1,
                                }),
                                Some(s) => match decode_run(data, s, 128, 66, 129, p2) {
                                    None => Err(ParseFailure::Format),
                                    Some((e2, _)) => Ok(Iso8583Model {
                                        mti: t,
                                        primary_bitmap: primary,
                                        secondary_bitmap: secondary,
                                        entries: e1 + e2,
                                    }),
                                },
                            },
                        }
                    }
                }
            },
        }
    }
}

/// An error message from a string literal.
fn message(text: &str) -> (r: String)
    ensures r@ == text@,
{
    text.to_owned()
}

/// Four uppercase hexadecimal digits of `code`.
fn hex4_upper(code: u16) -> (r: String)
    ensures r@ == ascii_chars(mti_ascii(code)),
{
    let mut b: Vec<u8> = Vec::new();
    push_mti(&mut b, code);
    let mut s = String::new();
    let mut i: usize = 0;
    while i < 4
        invariant
            i <= 4,
            b@ == mti_ascii(code),
            s@ == ascii_chars(mti_ascii(code)).take(i as int),
        decreases 4 - i,
    {
        crate::primitives::text::string_push(&mut s, b[i] as char);
        assert(s@ =~= ascii_chars(mti_ascii(code)).take(i + 1));
        i = i + 1;
    }
    assert(ascii_chars(mti_ascii(code)).take(4) =~= ascii_chars(mti_ascii(code)));
    s
}

/// Parses an ISO 8583 message from its binary form.
pub fn parse_iso8583(data: &[u8]) -> (r: Result<Iso8583Message, IsoError>)
    ensures
        match (r, parse_spec(data@)) {
            (Ok(m), Ok(mm)) => m@ == mm && m@.wf(),
            (Err(IsoError::InvalidFormat(_)), Err(ParseFailure::Format)) => true,
            (Err(IsoError::UnknownMessageType(s)), Err(ParseFailure::UnknownType(c))) =>
                s@ == ascii_chars(mti_ascii(c)),
            _ => false,
        },
{
    if data.len() < 10 {
        return Err(IsoError::InvalidFormat(message("Message too short")));
    }
    let code: u16;
    let mut pos: usize;
    if 48 <= data[0] && data[0] <= 57 {
        let chars = match ascii_window_chars(data, 0, 4) {
            Some(c) => c,
            None => {
                return Err(IsoError::InvalidFormat(message("Invalid MTI")));
            },
        };
        match parse_u64_radix(chars.as_slice(), 16) {
            Some(v) => {
                if v > 0xffff {
                    return Err(IsoError::InvalidFormat(message("Invalid MTI value")));
                }
                code = v as u16;
            },
            None => {
                return Err(IsoError::InvalidFormat(message("Invalid MTI value")));
            },
        }
        pos = 4;
    } else {
        code = ((data[0] as u16) * 256 + data[1] as u16) as u16;
        pos = 2;
    }
    assert(mti_spec(data@) == Some((code, pos as int)));
    let mti = match MessageType::from_code(code) {
        Some(t) => t,
        None => {
            return Err(IsoError::UnknownMessageType(hex4_upper(code)));
        },
    };
    if pos + 8 > data.len() {
        return Err(IsoError::InvalidFormat(message("Missing primary bitmap")));
    }
    let primary = read_be_u64(data, pos);
    pos = pos + 8;
    let has_secondary = (primary >> 63u64) & 1 == 1;
    let mut secondary: Option<u64> = None;
    if has_secondary {
        if 8 > data.len() - pos {
            return Err(IsoError::InvalidFormat(message("Missing secondary bitmap")));
        }
        secondary = Some(read_be_u64(data, pos));
        pos = pos + 8;
    }
    let ghost p1 = pos as int;
    assert(decode_run(data@, primary, 64, 2, 65, p1) is None
        ==> parse_spec(data@) == Err::<Iso8583Model, ParseFailure>(ParseFailure::Format));
    let mut elements: Vec<DataElement> = Vec::new();
    let mut bit: u8 = 2;
    while bit <= 64
        invariant
            2 <= bit <= 65,
            decode_run(data@, primary, 64, 2, 65, p1) is None
                ==> parse_spec(data@) == Err::<Iso8583Model, ParseFailure>(ParseFailure::Format),
            decode_run(data@, primary, 64, 2, bit as int, p1) == Some((entries_of(elements@), pos as int)),
            ids_increasing(entries_of(elements@)),
            forall|i: int| 0 <= i < elements@.len() ==> 2 <= (#[trigger] elements@[i]).id < bit,
        decreases 65 - bit,
    {
        if (primary >> ((64 - bit) as u64)) & 1 == 1 {
            let ghost before = elements@;
            match decode_field(bit, data, &mut pos) {
                Ok(v) => {
                    elements.push(DataElement { id: bit, value: v });
                    assert(entries_of(elements@) =~= entries_of(before).push((bit, elements@[before.len() as int].value@)));
                },
                Err(e) => {
                    proof {
                        lemma_decode_run_none(data@, primary, 64, 2, bit + 1, 65, p1);
                    }
                    return Err(e);
                },
            }
        }
        bit = bit + 1;
    }
    match secondary {
        None => {
            let m = Iso8583Message { mti, primary_bitmap: primary, secondary_bitmap: None, elements };
            Ok(m)
        },
        Some(sb) => {
            let ghost e1 = entries_of(elements@);
            let ghost p2 = pos as int;
            let ghost n1 = elements@.len();
            assert(decode_run(data@, sb, 128, 66, 129, p2) is None
                ==> parse_spec(data@) == Err::<Iso8583Model, ParseFailure>(ParseFailure::Format));
            let mut bit: u8 = 66;
            while bit <= 128
                invariant
                    66 <= bit <= 129,
                    decode_run(data@, sb, 128, 66, 129, p2) is None
                        ==> parse_spec(data@) == Err::<Iso8583Model, ParseFailure>(ParseFailure::Format),
                    n1 <= elements@.len(),
                    e1 == entries_of(elements@).take(n1 as int),
                    decode_run(data@, sb, 128, 66, bit as int, p2)
                        == Some((entries_of(elements@).skip(n1 as int), pos as int)),
                    ids_increasing(entries_of(elements@)),
                    forall|i: int| 0 <= i < elements@.len() ==> 2 <= (#[trigger] elements@[i]).id < bit,
                decreases 129 - bit,
            {
                if (sb >> ((128 - bit) as u64)) & 1 == 1 {
                    let ghost before = elements@;
                    match decode_field(bit, data, &mut pos) {
                        Ok(v) => {
                            elements.push(DataElement { id: bit, value: v });
                            assert(entries_of(elements@) =~= entries_of(before).push((bit, elements@[before.len() as int].value@)));
                            assert(entries_of(elements@).take(n1 as int) =~= entries_of(before).take(n1 as int));
                            assert(entries_of(elements@).skip(n1 as int) =~= entries_of(before).skip(n1 as int).push((bit, elements@[before.len() as int].value@)));
                        },
                        Err(e) => {
                            proof {
                                lemma_decode_run_none(data@, sb, 128, 66, bit + 1, 129, p2);
                            }
                            return Err(e);
                        },
                    }
                }
                bit = bit + 1;
            }
            assert(entries_of(elements@) =~= e1 + entries_of(elements@).skip(n1 as int));
            let m = Iso8583Message { mti, primary_bitmap: primary, secondary_bitmap: secondary, elements };
            Ok(m)
        },
    }
}

/// The eight big-endian bytes of `x`.
pub open spec fn be_bytes_u64(x: u64) -> Seq<u8> {
    Seq::new(8, |j: int| be_byte_of(x, j))
}

/// The wire bytes of a sequence of entries, in order; `None` when one of
/// them cannot be encoded.
pub open spec fn encode_entries(s: Seq<(u8, Seq<u8>)>) -> Option<Seq<u8>>
    decreases s.len(),
{
    if s.len() == 0 {
        Some(Seq::empty())
    } else {
        match encode_entries(s.drop_last()) {
            None => None,
            Some(b) => match encode_field_spec(s.last().0, s.last().1) {
                None => None,
                Some(e) => Some(b + e),
            },
        }
    }
}

proof fn lemma_encode_entries_none(s: Seq<(u8, Seq<u8>)>, i: int)
    requires
        0 <= i <= s.len(),
        encode_entries(s.take(i)) is None,
    ensures
        encode_entries(s) is None,
    decreases s.len() - i,
{
    if i < s.len() {
        assert(s.take(i + 1).drop_last() =~= s.take(i));
        lemma_encode_entries_none(s, i + 1);
    } else {
        assert(s.take(i) =~= s);
    }
}

/// The binary form of a message: indicator, bitmaps, then the elements in
/// order; `None` when an element cannot be encoded.
pub open spec fn serialize_spec(m: Iso8583Model) -> Option<Seq<u8>> {
    match encode_entries(m.entries) {
        None => None,
        Some(body) => Some(
            mti_ascii(m.mti.code_spec()) + be_bytes_u64(m.primary_bitmap) + (match m.secondary_bitmap {
                Some(s) => be_bytes_u64(s),
                None => Seq::empty(),
            }) + body,
        ),
    }
}

fn push_mti(out: &mut Vec<u8>, code: u16)
    ensures final(out)@ == old(out)@ + mti_ascii(code),
{
    let d0 = ((code / 4096) % 16) as u8;
    let d1 = ((code / 256) % 16) as u8;
    let d2 = ((code / 16) % 16) as u8;
    let d3 = (code % 16) as u8;
    out.push(if d0 < 10 { 48 + d0 } else { 55 + d0 });
    out.push(if d1 < 10 { 48 + d1 } else { 55 + d1 });
    out.push(if d2 < 10 { 48 + d2 } else { 55 + d2 });
    out.push(if d3 < 10 { 48 + d3 } else { 55 + d3 });
    assert(final(out)@ =~= old(out)@ + mti_ascii(code));
}

fn push_be_u64(out: &mut Vec<u8>, x: u64)
    ensures final(out)@ == old(out)@ + be_bytes_u64(x),
{
    let ghost start = out@;
    let mut j: u64 = 0;
    while j < 8
        invariant
            j <= 8,
            out@ == start + be_bytes_u64(x).take(j as int),
        decreases 8 - j,
    {
        out.push(((x >> (56 - 8 * j)) & 0xff) as u8);
        assert(be_bytes_u64(x).take(j as int).push(((x >> (56 - 8 * j)) & 0xff) as u8)
            =~= be_bytes_u64(x).take(j + 1));
        j = j + 1;
    }
    assert(be_bytes_u64(x).take(8) =~= be_bytes_u64(x));
}

fn append_bytes(out: &mut Vec<u8>, src: &[u8])
    ensures final(out)@ == old(out)@ + src@,
{
    let ghost start = out@;
    let mut i: usize = 0;
    while i < src.len()
        invariant
            i <= src@.len(),
            out@ == start + src@.take(i as int),
        decreases src@.len() - i,
    {
        out.push(src[i]);
        assert(src@.take(i as int).push(src@[i as int]) =~= src@.take(i + 1));
        i = i + 1;
    }
    assert(src@.take(src@.len() as int) =~= src@);
}

/// Serializes a message to its binary form.
pub fn serialize_iso8583(msg: &Iso8583Message) -> (r: Result<Vec<u8>, IsoError>)
    requires msg@.wf(),
    ensures
        match r {
            Ok(b) => serialize_spec(msg@) == Some(b@),
            Err(e) => serialize_spec(msg@) is None && e is InvalidFormat,
        },
{
    let mut data: Vec<u8> = Vec::new();
    push_mti(&mut data, msg.mti.to_code());
    push_be_u64(&mut data, msg.primary_bitmap);
    match msg.secondary_bitmap {
        Some(sb) => push_be_u64(&mut data, sb),
        None => {},
    }
    let ghost header = data@;
    assert(header =~= mti_ascii(msg@.mti.code_spec()) + be_bytes_u64(msg@.primary_bitmap) + (match msg@.secondary_bitmap {
        Some(s) => be_bytes_u64(s),
        None => Seq::<u8>::empty(),
    }));
    let ghost s = msg@.entries;
    let mut i: usize = 0;
    while i < msg.elements.len()
        invariant
            s == msg@.entries,
            i <= s.len(),
            s.len() == msg.elements@.len(),
            encode_entries(s.take(i as int)) == Some(data@.skip(header.len() as int)),
            header.len() <= data@.len(),
            data@.take(header.len() as int) == header,
        decreases s.len() - i,
    {
        assert(s.take(i + 1).drop_last() =~= s.take(i as int));
        assert(s.take(i + 1).last() == s[i as int]);
        let el = &msg.elements[i];
        match encode_field(el.id, el.value.as_slice()) {
            Ok(b) => {
                let ghost before = data@;
                append_bytes(&mut data, b.as_slice());
                assert(data@.skip(header.len() as int) =~= before.skip(header.len() as int) + b@);
                assert(data@.take(header.len() as int) =~= before.take(header.len() as int));
            },
            Err(e) => {
                proof {
                    lemma_encode_entries_none(s, i + 1);
                }
                return Err(e);
            },
        }
        i = i + 1;
    }
    assert(s.take(s.len() as int) =~= s);
    assert(data@ =~= header + data@.skip(header.len() as int));
    Ok(data)
}

/// The bytes of a string slice.
fn str_bytes(s: &str) -> (r: Vec<u8>)
    ensures r@ == s.spec_bytes(),
{
    copy_bytes(s.as_bytes())
}

/// The bytes of the decimal digits of `n`, padded with '0' to `width`.
pub open spec fn zero_padded(n: u64, width: nat) -> Seq<u8> {
    let c = pad_left(dec_digits(n as nat), width, '0');
    Seq::new(c.len(), |i: int| c[i] as u8)
}

fn zero_padded_digits(n: u64, width: usize) -> (r: Vec<u8>)
    ensures r@ == zero_padded(n, width as nat),
{
    let digits = u64_to_decimal(n);
    let ghost c = pad_left(dec_digits(n as nat), width as nat, '0');
    let mut r: Vec<u8> = Vec::new();
    let mut k: usize = digits.len();
    while k < width
        invariant
            digits.len() <= k <= width || width < digits.len() && k == digits.len(),
            r@.len() == k - digits.len(),
            forall|i: int| 0 <= i < r@.len() ==> r@[i] == 48u8,
        decreases width - k,
    {
        r.push(48u8);
        k = k + 1;
    }
    let ghost pad = r@.len();
    let mut i: usize = 0;
    while i < digits.len()
        invariant
            i <= digits@.len(),
            digits@ == dec_digits(n as nat),
            r@.len() == pad + i,
            forall|j: int| 0 <= j < pad ==> r@[j] == 48u8,
            forall|j: int| 0 <= j < i ==> #[trigger] r@[pad + j] == digits@[j] as u8,
        decreases digits@.len() - i,
    {
        let ch = digits[i];
        let b: u8 = ch as u8;
        r.push(b);
        i = i + 1;
    }
    assert(r@ =~= zero_padded(n, width as nat)) by {
        let d = dec_digits(n as nat);
        if d.len() >= width {
            assert(pad == 0);
            assert(c == d);
            assert forall|j: int| 0 <= j < r@.len() implies r@[j] == zero_padded(n, width as nat)[j] by {
                assert(r@[0 + j] == d[j] as u8);
            }
        } else {
            assert(pad == width - d.len());
            assert forall|j: int| 0 <= j < r@.len() implies r@[j] == zero_padded(n, width as nat)[j] by {
                if j >= pad {
                    assert(r@[pad + (j - pad)] == d[j - pad] as u8);
                    assert(c[j] == d[j - pad]);
                } else {
                    assert(c[j] == '0');
                }
            }
        }
    }
    r
}

/// An authorization request for a purchase.
pub fn create_auth_request(
    pan: &str,
    amount: u64,
    currency: &str,
    terminal_id: &str,
    merchant_id: &str,
) -> (r: Iso8583Message)
    ensures
        r@.wf(),
        r@.mti == MessageType::AuthorizationRequest,
        r@.secondary_bitmap is None,
        r@.primary_bitmap == 0x7020_0400_00c0_8000u64,
        r@.elements() == map![
            2u8 => pan.spec_bytes(),
            3u8 => seq![48u8, 48, 48, 48, 48, 48],
            4u8 => zero_padded(amount, 12),
            11u8 => seq![48u8, 48, 48, 48, 48, 49],
            22u8 => seq![48u8, 49, 50],
            41u8 => terminal_id.spec_bytes(),
            42u8 => merchant_id.spec_bytes(),
            49u8 => currency.spec_bytes(),
        ],
{
    let mut msg = Iso8583Message::new(MessageType::AuthorizationRequest);
    msg.set_element(2, str_bytes(pan));
    msg.set_element(3, vec![48u8, 48, 48, 48, 48, 48]);
    msg.set_element(4, zero_padded_digits(amount, 12));
    msg.set_element(11, vec![48u8, 48, 48, 48, 48, 49]);
    msg.set_element(22, vec![48u8, 49, 50]);
    msg.set_element(41, str_bytes(terminal_id));
    msg.set_element(42, str_bytes(merchant_id));
    msg.set_element(49, str_bytes(currency));
    assert(0u64 | (1u64 << 62u64) | (1u64 << 61u64) | (1u64 << 60u64) | (1u64 << 53u64)
        | (1u64 << 42u64) | (1u64 << 23u64) | (1u64 << 22u64) | (1u64 << 15u64)
        == 0x7020_0400_00c0_8000u64) by (bit_vector);
    msg
}

/// The elements of an authorization response to a request with elements
/// `req`: the card number, amount and trace number copied when present,
/// then the authorization and response codes.
pub open spec fn auth_response_elements(
    req: Map<u8, Seq<u8>>,
    response_code: Seq<u8>,
    auth_code: Seq<u8>,
) -> Map<u8, Seq<u8>> {
    let m0 = Map::<u8, Seq<u8>>::empty();
    let m1 = if req.contains_key(2) { m0.insert(2, req[2]) } else { m0 };
    let m2 = if req.contains_key(4) { m1.insert(4, req[4]) } else { m1 };
    let m3 = if req.contains_key(11) { m2.insert(11, req[11]) } else { m2 };
    m3.insert(38, auth_code).insert(39, response_code)
}

/// The primary bitmap of such a response.
pub open spec fn auth_response_bitmap(req: Map<u8, Seq<u8>>) -> u64 {
    let b1: u64 = if req.contains_key(2) { 0u64 | (1u64 << 62u64) } else { 0u64 };
    let b2: u64 = if req.contains_key(4) { b1 | (1u64 << 60u64) } else { b1 };
    let b3: u64 = if req.contains_key(11) { b2 | (1u64 << 53u64) } else { b2 };
    b3 | (1u64 << 26u64) | (1u64 << 25u64)
}

/// An authorization response to `request`.
pub fn create_auth_response(
    request: &Iso8583Message,
    response_code: &str,
    auth_code: &str,
) -> (r: Iso8583Message)
    requires request@.wf(),
    ensures
        r@.wf(),
        r@.mti == MessageType::AuthorizationResponse,
        r@.secondary_bitmap is None,
        r@.primary_bitmap == auth_response_bitmap(request@.elements()),
        r@.elements() == auth_response_elements(
            request@.elements(),
            response_code.spec_bytes(),
            auth_code.spec_bytes(),
        ),
{
    let mut msg = Iso8583Message::new(MessageType::AuthorizationResponse);
    assert(msg@.elements() =~= Map::<u8, Seq<u8>>::empty());
    match request.get_element(2) {
        Some(v) => msg.set_element(2, copy_bytes(v.as_slice())),
        None => {},
    }
    match request.get_element(4) {
        Some(v) => msg.set_element(4, copy_bytes(v.as_slice())),
        None => {},
    }
    match request.get_element(11) {
        Some(v) => msg.set_element(11, copy_bytes(v.as_slice())),
        None => {},
    }
    msg.set_element(38, str_bytes(auth_code));
    msg.set_element(39, str_bytes(response_code));
    msg
}


/// A value that encodes as data element `id` and reads back unchanged: a
/// variable field within its limit, or a fixed field of exactly its width.
pub open spec fn field_exact(id: u8, v: Seq<u8>) -> bool {
    match field_encoding_spec(id) {
        Some(FieldEncoding::Fixed(len)) => v.len() == len,
        Some(FieldEncoding::LlVar(max)) => v.len() <= max,
        Some(FieldEncoding::LllVar(max)) => v.len() <= max,
        None => false,
    }
}

/// Bits `lo` up to (not including) `hi` of a bitmap are set exactly for the
/// field numbers of the entries.
pub open spec fn bits_match(bitmap: u64, base: int, lo: int, hi: int, es: Seq<(u8, Seq<u8>)>) -> bool {
    forall|b: int| lo <= b < hi ==> (#[trigger] bit_set(bitmap, base, b) <==> has_id(es, b as u8))
}

/// Every entry has a field number from `lo` up to (not including) `hi` and
/// a value that reads back unchanged.
pub open spec fn entries_fit(es: Seq<(u8, Seq<u8>)>, lo: int, hi: int) -> bool {
    forall|i: int| 0 <= i < es.len() ==> lo <= (#[trigger] es[i]).0 < hi && field_exact(es[i].0, es[i].1)
}

/// A message laid out as the standard frames it: ordered elements, the
/// first `k` of them numbered 2 to 64 and marked in the primary bitmap, the
/// others numbered 66 to 128 and marked in the secondary one, bit 1 of the
/// primary bitmap saying whether there is a secondary bitmap, and every value
/// reading back unchanged.
pub open spec fn well_framed(m: Iso8583Model, k: int) -> bool {
    &&& m.wf()
    &&& 0 <= k <= m.entries.len()
    &&& entries_fit(m.entries.take(k), 2, 65)
    &&& entries_fit(m.entries.skip(k), 66, 129)
    &&& bits_match(m.primary_bitmap, 64, 2, 65, m.entries.take(k))
    &&& (((m.primary_bitmap >> 63u64) & 1u64 == 1u64) <==> m.secondary_bitmap is Some)
    &&& match m.secondary_bitmap {
        Some(s) => bits_match(s, 128, 66, 129, m.entries.skip(k)),
        None => k == m.entries.len(),
    }
}

proof fn lemma_field_decode_at(id: u8, v: Seq<u8>, pre: Seq<u8>, tail: Seq<u8>)
    requires field_exact(id, v),
    ensures
        encode_field_spec(id, v) is Some,
        decode_field_spec(id, pre + encode_field_spec(id, v).unwrap() + tail, pre.len() as int)
            == Some((v, pre.len() + encode_field_spec(id, v).unwrap().len() as int)),
{
    let enc = encode_field_spec(id, v).unwrap();
    let data = pre + enc + tail;
    let p = pre.len() as int;
    match field_encoding_spec(id) {
        Some(FieldEncoding::Fixed(len)) => {
            assert(enc =~= v);
            assert(data.subrange(p, p + len) =~= v);
        },
        Some(FieldEncoding::LlVar(max)) => {
            assert(max < 100);
            lemma_length_prefix_digits(v.len(), 2);
            assert(data.subrange(p, p + 2) =~= two_digits(v.len()));
            assert(data.subrange(p + 2, p + 2 + v.len()) =~= v);
        },
        Some(FieldEncoding::LllVar(max)) => {
            assert(max < 1000);
            lemma_length_prefix_digits(v.len(), 3);
            assert(data.subrange(p, p + 3) =~= three_digits(v.len()));
            assert(data.subrange(p + 3, p + 3 + v.len()) =~= v);
        },
        None => {},
    }
}

/// Entries whose last field number is `hi - 1`: the others fit below it and
/// match the bitmap there.
proof fn lemma_run_split_last(es: Seq<(u8, Seq<u8>)>, bitmap: u64, base: int, lo: int, hi: int)
    requires
        1 <= lo < hi <= 129,
        ids_increasing(es),
        entries_fit(es, lo, hi),
        bits_match(bitmap, base, lo, hi, es),
        has_id(es, (hi - 1) as u8),
    ensures
        es.len() > 0,
        es.last().0 == (hi - 1) as u8,
        field_exact(es.last().0, es.last().1),
        ids_increasing(es.drop_last()),
        entries_fit(es.drop_last(), lo, hi - 1),
        bits_match(bitmap, base, lo, hi - 1, es.drop_last()),
        bit_set(bitmap, base, hi - 1),
{
    let b = hi - 1;
    let i = choose|i: int| 0 <= i < es.len() && (#[trigger] es[i]).0 == b as u8;
    if i < es.len() - 1 { assert(es[i].0 < es[es.len() - 1].0); assert(es[es.len() - 1].0 < hi); }
    let last = es.last();
    let init = es.drop_last();
    assert(last.0 == b as u8);
    assert(ids_increasing(init));
    assert(entries_fit(init, lo, hi - 1)) by {
        assert forall|j: int| 0 <= j < init.len() implies lo <= (#[trigger] init[j]).0 < hi - 1 && field_exact(init[j].0, init[j].1) by {
            assert(init[j] == es[j]);
            assert(es[j].0 < es[es.len() - 1].0);
        }
    }
    assert(bits_match(bitmap, base, lo, hi - 1, init)) by {
        assert forall|c: int| lo <= c < hi - 1 implies (#[trigger] bit_set(bitmap, base, c) <==> has_id(init, c as u8)) by {
            assert(bit_set(bitmap, base, c) <==> has_id(es, c as u8));
            if has_id(es, c as u8) {
                let j = choose|j: int| 0 <= j < es.len() && (#[trigger] es[j]).0 == c as u8;
                assert(j != es.len() - 1);
                assert(init[j] == es[j]);
            }
            if has_id(init, c as u8) {
                let j = choose|j: int| 0 <= j < init.len() && (#[trigger] init[j]).0 == c as u8;
                assert(es[j] == init[j]);
            }
        }
    }
    assert(field_exact(last.0, last.1));
    assert(bit_set(bitmap, base, b));
}

/// Entries without field number `hi - 1` fit below it.
proof fn lemma_run_without_last(es: Seq<(u8, Seq<u8>)>, lo: int, hi: int)
    requires
        lo < hi,
        entries_fit(es, lo, hi),
        !has_id(es, (hi - 1) as u8),
    ensures
        entries_fit(es, lo, hi - 1),
{
    assert forall|j: int| 0 <= j < es.len() implies lo <= (#[trigger] es[j]).0 < hi - 1 && field_exact(es[j].0, es[j].1) by {
        if es[j].0 == (hi - 1) as u8 { assert(has_id(es, (hi - 1) as u8)); }
    }
}

#[verifier::rlimit(100)]
#[verifier::spinoff_prover]
proof fn lemma_decode_run_encoded(pre: Seq<u8>, es: Seq<(u8, Seq<u8>)>, tail: Seq<u8>, bitmap: u64, base: int, lo: int, hi: int)
    requires
        1 <= lo <= hi <= 129,
        ids_increasing(es),
        entries_fit(es, lo, hi),
        bits_match(bitmap, base, lo, hi, es),
    ensures
        encode_entries(es) is Some,
        decode_run(pre + encode_entries(es).unwrap() + tail, bitmap, base, lo, hi, pre.len() as int)
            == Some((es, pre.len() + encode_entries(es).unwrap().len() as int)),
    decreases hi - lo,
{
    if hi == lo {
        if es.len() > 0 { assert(lo <= es[0].0 < hi); }
        assert(es =~= Seq::<(u8, Seq<u8>)>::empty());
        assert(encode_entries(es) == Some(Seq::<u8>::empty()));
    } else {
        let b = hi - 1;
        if has_id(es, b as u8) {
            lemma_run_split_last(es, bitmap, base, lo, hi);
            let last = es.last();
            let init = es.drop_last();
            assert(field_exact(last.0, last.1));
            lemma_field_decode_at(last.0, last.1, pre + encode_entries(init).unwrap(), tail);
            let e_last = encode_field_spec(last.0, last.1).unwrap();
            lemma_decode_run_encoded(pre, init, e_last + tail, bitmap, base, lo, hi - 1);
            let e_init = encode_entries(init).unwrap();
            assert(encode_entries(es) == Some(e_init + e_last));
            assert(pre + e_init + (e_last + tail) =~= pre + (e_init + e_last) + tail);
            assert(pre + e_init + e_last + tail =~= pre + (e_init + e_last) + tail);
            assert(bit_set(bitmap, base, b));
            assert(init.push(last) =~= es);
        } else {
            lemma_run_without_last(es, lo, hi);
            lemma_decode_run_encoded(pre, es, tail, bitmap, base, lo, hi - 1);
            assert(!bit_set(bitmap, base, b));
        }
    }
}


proof fn lemma_encode_entries_append(a: Seq<(u8, Seq<u8>)>, b: Seq<(u8, Seq<u8>)>)
    requires encode_entries(a) is Some, encode_entries(b) is Some,
    ensures encode_entries(a + b) == Some(encode_entries(a).unwrap() + encode_entries(b).unwrap()),
    decreases b.len(),
{
    if b.len() == 0 {
        assert(a + b =~= a);
        assert(encode_entries(a).unwrap() + Seq::<u8>::empty() =~= encode_entries(a).unwrap());
    } else {
        let bi = b.drop_last();
        assert((a + b).drop_last() =~= a + bi);
        assert((a + b).last() == b.last());
        lemma_encode_entries_append(a, bi);
        let eb = encode_field_spec(b.last().0, b.last().1).unwrap();
        assert(encode_entries(a).unwrap() + encode_entries(bi).unwrap() + eb
            =~= encode_entries(a).unwrap() + (encode_entries(bi).unwrap() + eb));
    }
}

/// The four hexadecimal digits of a message type indicator read back as it.
proof fn lemma_mti_parse(t: MessageType)
    ensures
        all_ascii(mti_ascii(t.code_spec())),
        48 <= mti_ascii(t.code_spec())[0] <= 57,
        parse_u64_spec(ascii_chars(mti_ascii(t.code_spec())), 16) == Some(t.code_spec() as u64),
{
    let b = mti_ascii(t.code_spec());
    let s = ascii_chars(b);
    reveal_with_fuel(digits_value, 5);
    assert(s.drop_last() =~= seq![s[0], s[1], s[2]]);
    assert(seq![s[0], s[1], s[2]].drop_last() =~= seq![s[0], s[1]]);
    assert(seq![s[0], s[1]].drop_last() =~= seq![s[0]]);
    assert(seq![s[0]].drop_last() =~= Seq::<char>::empty());
    assert(all_digits(s, 16)) by {
        assert forall|i: int| 0 <= i < s.len() implies #[trigger] digit_value(s[i], 16) is Some by {
            assert(s[i] as int == b[i] as int);
        }
    }
    assert(s[0] as int == 48);
    assert(digit_value(s[0], 16) == Some(0nat));
    assert(digit_value(s[1], 16) == Some(((t.code_spec() as int / 256) % 16) as nat));
    assert(digit_value(s[2], 16) == Some(((t.code_spec() as int / 16) % 16) as nat));
    assert(digit_value(s[3], 16) == Some((t.code_spec() as int % 16) as nat));
}

/// Parsing the bytes that a well-framed message serializes to gives the
/// message back.
#[verifier::rlimit(100)]
#[verifier::spinoff_prover]
pub proof fn lemma_serialize_then_parse(m: Iso8583Model, k: int)
    requires well_framed(m, k),
    ensures
        serialize_spec(m) is Some,
        parse_spec(serialize_spec(m).unwrap()) == Ok::<Iso8583Model, ParseFailure>(m),
{
    let es1 = m.entries.take(k);
    let es2 = m.entries.skip(k);
    assert(es1 + es2 =~= m.entries);
    assert(ids_increasing(es1));
    assert(ids_increasing(es2)) by {
        assert forall|i: int, j: int| 0 <= i < j < es2.len() implies (#[trigger] es2[i]).0 < (#[trigger] es2[j]).0 by {
            assert(es2[i] == m.entries[i + k] && es2[j] == m.entries[j + k]);
        }
    }
    let mti = mti_ascii(m.mti.code_spec());
    let pb = be_bytes_u64(m.primary_bitmap);
    let sb: Seq<u8> = match m.secondary_bitmap { Some(s) => be_bytes_u64(s), None => Seq::empty() };
    let head = mti + pb + sb;
    let p1 = head.len() as int;
    // the elements numbered up to 64, after the bitmaps
    match m.secondary_bitmap {
        Some(s) => {
            lemma_decode_run_encoded(head, es2, Seq::<u8>::empty(), s, 128, 66, 129);
        },
        None => {
            assert(es2 =~= Seq::<(u8, Seq<u8>)>::empty());
            assert(encode_entries(es2) == Some(Seq::<u8>::empty()));
        },
    }
    let tail_after_1: Seq<u8> = encode_entries(es2).unwrap();
    lemma_decode_run_encoded(head, es1, tail_after_1, m.primary_bitmap, 64, 2, 65);
    let enc1 = encode_entries(es1).unwrap();
    lemma_encode_entries_append(es1, es2);
    let body = encode_entries(m.entries).unwrap();
    assert(body == enc1 + tail_after_1);
    let data = serialize_spec(m).unwrap();
    assert(data == head + body);
    assert(data =~= head + enc1 + tail_after_1);
    lemma_mti_parse(m.mti);
    lemma_message_type_code_roundtrip(m.mti);
    assert(data.subrange(0, 4) =~= mti);
    assert(data[0] == mti[0]);
    lemma_be_u64_roundtrip(m.primary_bitmap, data, 4);
    match m.secondary_bitmap {
        Some(s) => {
            assert forall|j: int| 0 <= j < 8 implies #[trigger] data[12 + j] == be_byte_of(s, j) by {
                assert(data[12 + j] == sb[j]);
            }
            lemma_be_u64_roundtrip(s, data, 12);
            let p2 = p1 + enc1.len();
            lemma_decode_run_encoded(head + enc1, es2, Seq::<u8>::empty(), s, 128, 66, 129);
            assert(head + enc1 + encode_entries(es2).unwrap() + Seq::<u8>::empty() =~= data);
        },
        None => {
            assert(es1 =~= m.entries);
        },
    }
}


proof fn lemma_or_bit(x: u64, s: u64, t: u64)
    requires s < 64, t < 64,
    ensures (((x | (1u64 << t)) >> s) & 1u64 == 1u64) <==> (((x >> s) & 1u64 == 1u64) || s == t),
{
    assert((((x | (1u64 << t)) >> s) & 1u64 == 1u64) <==> (((x >> s) & 1u64 == 1u64) || s == t)) by (bit_vector)
        requires s < 64, t < 64;
}

proof fn lemma_zero_bits(s: u64)
    ensures !((0u64 >> s) & 1u64 == 1u64),
{
    assert(!((0u64 >> s) & 1u64 == 1u64)) by (bit_vector);
}

/// Setting the bit of `id` in a bitmap that matched `es0` makes it match
/// `es1`, which holds the numbers of `es0` and `id`.
proof fn lemma_bits_add(bm: u64, base: int, lo: int, hi: int, es0: Seq<(u8, Seq<u8>)>, es1: Seq<(u8, Seq<u8>)>, id: u8)
    requires
        bits_match(bm, base, lo, hi, es0),
        lo <= id < hi, 0 <= base - (hi - 1), base - lo < 64, 0 <= lo, hi <= 256,
        forall|b: u8| #[trigger] has_id(es1, b) <==> (has_id(es0, b) || b == id),
    ensures bits_match(bm | (1u64 << ((base - id) as u64)), base, lo, hi, es1),
{
    assert forall|b: int| lo <= b < hi implies
        (#[trigger] bit_set(bm | (1u64 << ((base - id) as u64)), base, b) <==> has_id(es1, b as u8)) by {
        lemma_or_bit(bm, (base - b) as u64, (base - id) as u64);
        assert(has_id(es1, b as u8) <==> (has_id(es0, b as u8) || b as u8 == id));
        assert(bit_set(bm, base, b) <==> has_id(es0, b as u8));
    }
}

/// Setting a bit outside the range leaves the match.
proof fn lemma_bits_other(bm: u64, base: int, lo: int, hi: int, es: Seq<(u8, Seq<u8>)>, t: u64)
    requires
        bits_match(bm, base, lo, hi, es),
        0 <= base - (hi - 1), base - lo < 64, t < 64, !(base - (hi - 1) <= t <= base - lo),
    ensures bits_match(bm | (1u64 << t), base, lo, hi, es),
{
    assert forall|b: int| lo <= b < hi implies (#[trigger] bit_set(bm | (1u64 << t), base, b) <==> has_id(es, b as u8)) by {
        lemma_or_bit(bm, (base - b) as u64, t);
        assert(bit_set(bm, base, b) <==> has_id(es, b as u8));
    }
}

/// A message whose entries can be split at some point into the two
/// bitmap ranges as `well_framed` asks.
pub open spec fn framed(m: Iso8583Model) -> bool {
    exists|k: int| well_framed(m, k)
}

/// Setting element `id` (2 to 128 but 65) to a value that reads back
/// unchanged keeps a message framed, given what `set_element` does to the
/// entries (replacing the entry at `pos`, or inserting at `pos`) and the
/// bitmaps.
#[verifier::rlimit(100)]
#[verifier::spinoff_prover]
proof fn lemma_set_keeps_framed(m0: Iso8583Model, m1: Iso8583Model, id: u8, v: Seq<u8>, k: int, pos: int, replaced: bool)
    requires
        well_framed(m0, k),
        2 <= id <= 128, id != 65, field_exact(id, v),
        replaced ==> 0 <= pos < m0.entries.len() && m0.entries[pos].0 == id && m1.entries == m0.entries.update(pos, (id, v)),
        !replaced ==> 0 <= pos <= m0.entries.len()
            && (forall|j: int| 0 <= j < pos ==> (#[trigger] m0.entries[j]).0 < id)
            && (forall|j: int| pos <= j < m0.entries.len() ==> (#[trigger] m0.entries[j]).0 > id)
            && m1.entries == m0.entries.insert(pos, (id, v)),
        id <= 64 ==> m1.primary_bitmap == m0.primary_bitmap | (1u64 << ((64 - id) as u64)) && m1.secondary_bitmap == m0.secondary_bitmap,
        id > 64 ==> m1.primary_bitmap == (match m0.secondary_bitmap {
                None => m0.primary_bitmap | (1u64 << 63u64),
                Some(_) => m0.primary_bitmap,
            })
            && m1.secondary_bitmap == Some(m0.secondary_bitmap.unwrap_or(0) | (1u64 << ((128 - id) as u64))),
    ensures framed(m1),
{
    let e0 = m0.entries;
    let e1 = m1.entries;
    let e = (id, v);
    let lowp = e0.take(k);
    let highp = e0.skip(k);
    // where the element falls relative to the split
    if replaced {
        if pos < k { assert(lowp[pos] == e0[pos]); } else { assert(highp[pos - k] == e0[pos]); }
        assert(pos < k <==> id < 65);
        lemma_entries_update(e0, pos, e);
    } else {
        if id < 65 && pos > k { assert(highp[0] == e0[k]); assert(e0[k].0 < id); }
        if id > 65 && pos < k { assert(lowp[pos] == e0[pos]); assert(e0[pos].0 > id); }
        lemma_entries_insert(e0, pos, e);
    }
    let k2: int = if !replaced && id < 65 { k + 1 } else { k };
    let low1 = e1.take(k2);
    let high1 = e1.skip(k2);
    if replaced && id < 65 {
        assert(low1 =~= lowp.update(pos, e));
        assert(high1 =~= highp);
    } else if replaced {
        assert(low1 =~= lowp);
        assert(high1 =~= highp.update(pos - k, e));
    } else if id < 65 {
        assert(low1 =~= lowp.insert(pos, e));
        assert(high1 =~= highp);
    } else {
        assert(low1 =~= lowp);
        assert(high1 =~= highp.insert(pos - k, e));
    }
    // the part that changed holds the old numbers and `id`
    assert(entries_fit(low1, 2, 65)) by {
        assert forall|j: int| 0 <= j < low1.len() implies 2 <= (#[trigger] low1[j]).0 < 65 && field_exact(low1[j].0, low1[j].1) by {
            if id < 65 {
                if replaced { if j != pos { assert(low1[j] == lowp[j]); } }
                else if j < pos { assert(low1[j] == lowp[j]); } else if j > pos { assert(low1[j] == lowp[j - 1]); }
            } else {
                assert(low1[j] == lowp[j]);
            }
        }
    }
    assert(entries_fit(high1, 66, 129)) by {
        assert forall|j: int| 0 <= j < high1.len() implies 66 <= (#[trigger] high1[j]).0 < 129 && field_exact(high1[j].0, high1[j].1) by {
            if id > 65 {
                if replaced { if j != pos - k { assert(high1[j] == highp[j]); } }
                else if j < pos - k { assert(high1[j] == highp[j]); } else if j > pos - k { assert(high1[j] == highp[j - 1]); }
            } else {
                assert(high1[j] == highp[j]);
            }
        }
    }
    // which numbers each part holds
    let changed_low = id < 65;
    assert forall|b: u8| #[trigger] has_id(low1, b) <==> (has_id(lowp, b) || (changed_low && b == id)) by {
        if has_id(low1, b) {
            let j = choose|j: int| 0 <= j < low1.len() && (#[trigger] low1[j]).0 == b;
            if changed_low {
                if replaced { if j != pos { assert(lowp[j] == low1[j]); } }
                else if j < pos { assert(lowp[j] == low1[j]); } else if j > pos { assert(lowp[j - 1] == low1[j]); }
            } else { assert(lowp[j] == low1[j]); }
        }
        if has_id(lowp, b) {
            let j = choose|j: int| 0 <= j < lowp.len() && (#[trigger] lowp[j]).0 == b;
            if changed_low {
                if replaced { if j != pos { assert(low1[j] == lowp[j]); } else { assert(low1[pos].0 == id); } }
                else if j < pos { assert(low1[j] == lowp[j]); } else { assert(low1[j + 1] == lowp[j]); }
            } else { assert(low1[j] == lowp[j]); }
        }
        if changed_low && b == id { assert(low1[pos].0 == id); }
    }
    assert forall|b: u8| #[trigger] has_id(high1, b) <==> (has_id(highp, b) || (!changed_low && b == id)) by {
        if has_id(high1, b) {
            let j = choose|j: int| 0 <= j < high1.len() && (#[trigger] high1[j]).0 == b;
            if !changed_low {
                if replaced { if j != pos - k { assert(highp[j] == high1[j]); } }
                else if j < pos - k { assert(highp[j] == high1[j]); } else if j > pos - k { assert(highp[j - 1] == high1[j]); }
            } else { assert(highp[j] == high1[j]); }
        }
        if has_id(highp, b) {
            let j = choose|j: int| 0 <= j < highp.len() && (#[trigger] highp[j]).0 == b;
            if !changed_low {
                if replaced { if j != pos - k { assert(high1[j] == highp[j]); } else { assert(high1[pos - k].0 == id); } }
                else if j < pos - k { assert(high1[j] == highp[j]); } else { assert(high1[j + 1] == highp[j]); }
            } else { assert(high1[j] == highp[j]); }
        }
        if !changed_low && b == id { assert(high1[pos - k].0 == id); }
    }
    // the bitmaps
    if id <= 64 {
        lemma_bits_add(m0.primary_bitmap, 64, 2, 65, lowp, low1, id);
        lemma_or_bit(m0.primary_bitmap, 63, (64 - id) as u64);
        match m0.secondary_bitmap {
            Some(sb) => {
                assert forall|b: u8| #[trigger] has_id(high1, b) <==> (has_id(highp, b) || (false && b == id)) by {}
                assert(bits_match(sb, 128, 66, 129, high1)) by {
                    assert forall|b: int| 66 <= b < 129 implies (#[trigger] bit_set(sb, 128, b) <==> has_id(high1, b as u8)) by {
                        assert(bit_set(sb, 128, b) <==> has_id(highp, b as u8));
                    }
                }
            },
            None => { assert(high1.len() == 0); },
        }
    } else {
        match m0.secondary_bitmap {
            Some(sb) => {
                lemma_bits_add(sb, 128, 66, 129, highp, high1, id);
                assert(bits_match(m1.primary_bitmap, 64, 2, 65, low1)) by {
                    assert forall|b: int| 2 <= b < 65 implies (#[trigger] bit_set(m1.primary_bitmap, 64, b) <==> has_id(low1, b as u8)) by {
                        assert(bit_set(m0.primary_bitmap, 64, b) <==> has_id(lowp, b as u8));
                    }
                }
            },
            None => {
                assert(highp.len() == 0);
                lemma_bits_other(m0.primary_bitmap, 64, 2, 65, lowp, 63);
                assert(bits_match(m1.primary_bitmap, 64, 2, 65, low1)) by {
                    assert forall|b: int| 2 <= b < 65 implies (#[trigger] bit_set(m1.primary_bitmap, 64, b) <==> has_id(low1, b as u8)) by {
                        assert(bit_set(m0.primary_bitmap | (1u64 << 63u64), 64, b) <==> has_id(lowp, b as u8));
                    }
                }
                lemma_or_bit(m0.primary_bitmap, 63, 63);
                assert(bits_match(0u64, 128, 66, 129, highp)) by {
                    assert forall|b: int| 66 <= b < 129 implies (#[trigger] bit_set(0u64, 128, b) <==> has_id(highp, b as u8)) by {
                        lemma_zero_bits((128 - b) as u64);
                    }
                }
                lemma_bits_add(0u64, 128, 66, 129, highp, high1, id);
            },
        }
    }
    assert(well_framed(m1, k2));
}

/// Parsing the bytes that a framed message serializes to gives the message
/// back; `new` makes framed messages and `set_element` keeps them framed
/// (for elements 2 to 128 but 65 with values that read back unchanged).
pub proof fn lemma_framed_roundtrip(m: Iso8583Model)
    requires framed(m),
    ensures
        serialize_spec(m) is Some,
        parse_spec(serialize_spec(m).unwrap()) == Ok::<Iso8583Model, ParseFailure>(m),
{
    let k = choose|k: int| well_framed(m, k);
    lemma_serialize_then_parse(m, k);
}

/// The response code (element 39) is two bytes on the wire: every value is
/// written as exactly two bytes, and a two-byte code is written as itself,
/// reads back unchanged whatever follows it, and is the only length that
/// keeps a message framed.
pub proof fn lemma_response_code_field(v: Seq<u8>, tail: Seq<u8>)
    ensures
        encode_field_spec(39, v) is Some,
        encode_field_spec(39, v).unwrap().len() == 2,
        field_exact(39, v) <==> v.len() == 2,
        v.len() == 2 ==> encode_field_spec(39, v) == Some(v) && decode_field_spec(39, v + tail, 0) == Some((v, 2int)),
{
    if v.len() == 2 {
        assert(encode_field_spec(39, v).unwrap() =~= v);
        assert((v + tail).subrange(0, 2) =~= v);
    }
}

/// In a framed message the response code, where present, is two bytes, and
/// serializing then parsing the message gives it back.
pub proof fn lemma_framed_response_code(m: Iso8583Model)
    requires
        framed(m),
        m.elements().contains_key(39),
    ensures
        m.elements()[39].len() == 2,
        serialize_spec(m) is Some,
        parse_spec(serialize_spec(m).unwrap()) is Ok,
        parse_spec(serialize_spec(m).unwrap())->Ok_0.elements().contains_key(39),
        parse_spec(serialize_spec(m).unwrap())->Ok_0.elements()[39] == m.elements()[39],
{
    let k = choose|k: int| well_framed(m, k);
    let es = m.entries;
    let i = choose|i: int| 0 <= i < es.len() && (#[trigger] es[i]).0 == 39u8;
    lemma_entries_map_at(es, i);
    if i >= k {
        assert(es.skip(k)[i - k] == es[i]);
    }
    assert(es.take(k)[i] == es[i]);
    lemma_framed_roundtrip(m);
}

} // verus!
