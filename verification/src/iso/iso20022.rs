//! ISO 20022 payment messages (pacs.008, pacs.002, camt.053) and the
//! construction of credit transfers.
use vstd::prelude::*;
use vstd::string::StringExecFns;
use crate::primitives::text::{string_push, hex_char_lower, pad_left, dec_digits, u64_to_decimal, chars_to_string};

verus! {

/// ISO 20022 message envelope
#[derive(Clone, Debug)]
pub struct Iso20022Document {
    /// Business application header
    pub app_header: Option<AppHeader>,
    
    /// The actual message content
    pub content: Iso20022Message,
}

/// Business application header (head.001)
#[derive(Clone, Debug)]
pub struct AppHeader {
    pub from: Party,
    pub to: Party,
    pub business_message_id: String,
    pub message_definition_id: String,
    pub creation_date: String,
}

/// Party identification
#[derive(Clone, Debug)]
pub struct Party {
    pub fi_id: Option<FinancialInstitutionId>,
    pub org_id: Option<OrganizationId>,
}

/// Financial institution identification
#[derive(Clone, Debug)]
pub struct FinancialInstitutionId {
    pub bic: Option<String>,
    pub clearing_system_member_id: Option<ClearingSystemMemberId>,
    pub lei: Option<String>,
}

#[derive(Clone, Debug)]
pub struct ClearingSystemMemberId {
    pub clearing_system_id: Option<ClearingSystemId>,
    pub member_id: String,
}

#[derive(Clone, Debug)]
pub struct ClearingSystemId {
    pub code: Option<String>,
    pub proprietary: Option<String>,
}

#[derive(Clone, Debug)]
pub struct OrganizationId {
    pub name: Option<String>,
    pub lei: Option<String>,
    pub other: Option<Vec<GenericId>>,
}

#[derive(Clone, Debug)]
pub struct GenericId {
    pub id: String,
    pub scheme_name: Option<SchemeName>,
}

#[derive(Clone, Debug)]
pub struct SchemeName {
    pub code: Option<String>,
    pub proprietary: Option<String>,
}

/// ISO 20022 message types
#[derive(Clone, Debug)]
pub enum Iso20022Message {
    /// pacs.008 - FI to FI Customer Credit Transfer
    CreditTransfer(CreditTransferMessage),
    
    /// pacs.002 - Payment Status Report
    PaymentStatus(PaymentStatusMessage),
    
    /// camt.053 - Bank to Customer Statement
    Statement(StatementMessage),
}

/// pacs.008 - Credit Transfer
#[derive(Clone, Debug)]
pub struct CreditTransferMessage {
    pub group_header: GroupHeader,
    pub credit_transfer_transactions: Vec<CreditTransferTransaction>,
}

/// Group header for payment messages
#[derive(Clone, Debug)]
pub struct GroupHeader {
    pub message_id: String,
    pub creation_date_time: String,
    pub number_of_transactions: u32,
    pub total_amount: Option<Amount>,
    pub settlement_date: Option<String>,
    pub settlement_info: Option<SettlementInfo>,
    pub instructing_agent: Option<FinancialInstitutionId>,
    pub instructed_agent: Option<FinancialInstitutionId>,
}

#[derive(Clone, Debug)]
pub struct Amount {
    pub currency: String,
    pub value: String,
}

#[derive(Clone, Debug)]
pub struct SettlementInfo {
    pub settlement_method: String,
    pub settlement_account: Option<AccountId>,
}

#[derive(Clone, Debug)]
pub struct AccountId {
    pub iban: Option<String>,
    pub other: Option<GenericId>,
}

/// Credit transfer transaction information
#[derive(Clone, Debug)]
pub struct CreditTransferTransaction {
    pub payment_id: PaymentId,
    pub payment_type_info: Option<PaymentTypeInfo>,
    pub interbank_settlement_amount: Amount,
    pub instructed_amount: Option<Amount>,
    pub charge_bearer: Option<String>,
    pub debtor: PartyInfo,
    pub debtor_account: AccountId,
    pub debtor_agent: FinancialInstitutionId,
    pub creditor_agent: FinancialInstitutionId,
    pub creditor: PartyInfo,
    pub creditor_account: AccountId,
    pub remittance_info: Option<RemittanceInfo>,
}

#[derive(Clone, Debug)]
pub struct PaymentId {
    pub instruction_id: Option<String>,
    pub end_to_end_id: String,
    pub transaction_id: Option<String>,
    pub uetr: Option<String>,
}

#[derive(Clone, Debug)]
pub struct PaymentTypeInfo {
    pub instruction_priority: Option<String>,
    pub clearing_channel: Option<String>,
    pub service_level: Option<ServiceLevel>,
    pub local_instrument: Option<LocalInstrument>,
    pub category_purpose: Option<CategoryPurpose>,
}

#[derive(Clone, Debug)]
pub struct ServiceLevel {
    pub code: Option<String>,
    pub proprietary: Option<String>,
}

#[derive(Clone, Debug)]
pub struct LocalInstrument {
    pub code: Option<String>,
    pub proprietary: Option<String>,
}

#[derive(Clone, Debug)]
pub struct CategoryPurpose {
    pub code: Option<String>,
    pub proprietary: Option<String>,
}

#[derive(Clone, Debug)]
pub struct PartyInfo {
    pub name: Option<String>,
    pub postal_address: Option<PostalAddress>,
    pub id: Option<PartyIdentification>,
}

#[derive(Clone, Debug)]
pub struct PostalAddress {
    pub street_name: Option<String>,
    pub building_number: Option<String>,
    pub postal_code: Option<String>,
    pub town_name: Option<String>,
    pub country_subdivision: Option<String>,
    pub country: Option<String>,
    pub address_lines: Option<Vec<String>>,
}

#[derive(Clone, Debug)]
pub struct PartyIdentification {
    pub org_id: Option<OrganizationId>,
    pub private_id: Option<PrivateId>,
}

#[derive(Clone, Debug)]
pub struct PrivateId {
    pub date_and_place_of_birth: Option<DateAndPlaceOfBirth>,
    pub other: Option<Vec<GenericId>>,
}

#[derive(Clone, Debug)]
pub struct DateAndPlaceOfBirth {
    pub birth_date: String,
    pub city_of_birth: Option<String>,
    pub country_of_birth: Option<String>,
}

#[derive(Clone, Debug)]
pub struct RemittanceInfo {
    pub unstructured: Option<Vec<String>>,
    pub structured: Option<Vec<StructuredRemittanceInfo>>,
}

#[derive(Clone, Debug)]
pub struct StructuredRemittanceInfo {
    pub referred_document_info: Option<ReferredDocumentInfo>,
    pub referred_document_amount: Option<ReferredDocumentAmount>,
    pub creditor_reference_info: Option<CreditorReferenceInfo>,
}

#[derive(Clone, Debug)]
pub struct ReferredDocumentInfo {
    pub doc_type: Option<ReferredDocumentType>,
    pub number: Option<String>,
    pub related_date: Option<String>,
}

#[derive(Clone, Debug)]
pub struct ReferredDocumentType {
    pub code_or_proprietary: CodeOrProprietary,
}

#[derive(Clone, Debug)]
pub struct CodeOrProprietary {
    pub code: Option<String>,
    pub proprietary: Option<String>,
}

#[derive(Clone, Debug)]
pub struct ReferredDocumentAmount {
    pub due_payable_amount: Option<Amount>,
    pub remitted_amount: Option<Amount>,
}

#[derive(Clone, Debug)]
pub struct CreditorReferenceInfo {
    pub ref_type: Option<CreditorReferenceType>,
    pub reference: Option<String>,
}

#[derive(Clone, Debug)]
pub struct CreditorReferenceType {
    pub code_or_proprietary: CodeOrProprietary,
}

/// pacs.002 - Payment Status Report
#[derive(Clone, Debug)]
pub struct PaymentStatusMessage {
    pub group_header: StatusGroupHeader,
    pub original_group_info: Option<OriginalGroupInfo>,
    pub transaction_info_and_status: Option<Vec<TransactionStatus>>,
}

#[derive(Clone, Debug)]
pub struct StatusGroupHeader {
    pub message_id: String,
    pub creation_date_time: String,
    pub instructing_agent: Option<FinancialInstitutionId>,
    pub instructed_agent: Option<FinancialInstitutionId>,
}

#[derive(Clone, Debug)]
pub struct OriginalGroupInfo {
    pub original_message_id: String,
    pub original_message_name_id: String,
    pub original_creation_date_time: Option<String>,
    pub group_status: Option<String>,
    pub status_reason_info: Option<Vec<StatusReasonInfo>>,
}

#[derive(Clone, Debug)]
pub struct TransactionStatus {
    pub original_instruction_id: Option<String>,
    pub original_end_to_end_id: Option<String>,
    pub original_transaction_id: Option<String>,
    pub transaction_status: Option<String>,
    pub status_reason_info: Option<Vec<StatusReasonInfo>>,
}

#[derive(Clone, Debug)]
pub struct StatusReasonInfo {
    pub reason: Option<StatusReason>,
    pub additional_info: Option<Vec<String>>,
}

#[derive(Clone, Debug)]
pub struct StatusReason {
    pub code: Option<String>,
    pub proprietary: Option<String>,
}

/// camt.053 - Bank to Customer Statement
#[derive(Clone, Debug)]
pub struct StatementMessage {
    pub group_header: StatementGroupHeader,
    pub statements: Vec<Statement>,
}

#[derive(Clone, Debug)]
pub struct StatementGroupHeader {
    pub message_id: String,
    pub creation_date_time: String,
    pub message_recipient: Option<PartyInfo>,
}

#[derive(Clone, Debug)]
pub struct Statement {
    pub id: String,
    pub pagination: Option<Pagination>,
    pub electronic_sequence_number: Option<u64>,
    pub creation_date_time: String,
    pub from_to_date: Option<FromToDate>,
    pub account: CashAccount,
    pub balances: Vec<Balance>,
    pub transactions_summary: Option<TransactionsSummary>,
    pub entries: Option<Vec<Entry>>,
}

#[derive(Clone, Debug)]
pub struct Pagination {
    pub page_number: String,
    pub last_page_indicator: bool,
}

#[derive(Clone, Debug)]
pub struct FromToDate {
    pub from_date_time: String,
    pub to_date_time: String,
}

#[derive(Clone, Debug)]
pub struct CashAccount {
    pub id: AccountId,
    pub account_type: Option<AccountType>,
    pub currency: Option<String>,
    pub name: Option<String>,
    pub owner: Option<PartyInfo>,
    pub servicer: Option<FinancialInstitutionId>,
}

#[derive(Clone, Debug)]
pub struct AccountType {
    pub code: Option<String>,
    pub proprietary: Option<String>,
}

#[derive(Clone, Debug)]
pub struct Balance {
    pub balance_type: BalanceType,
    pub amount: Amount,
    pub credit_debit_indicator: String,
    pub date: BalanceDate,
}

#[derive(Clone, Debug)]
pub struct BalanceType {
    pub code_or_proprietary: CodeOrProprietary,
}

#[derive(Clone, Debug)]
pub struct BalanceDate {
    pub date: Option<String>,
    pub date_time: Option<String>,
}

#[derive(Clone, Debug)]
pub struct TransactionsSummary {
    pub total_entries: Option<TotalEntries>,
    pub total_credit_entries: Option<TotalEntries>,
    pub total_debit_entries: Option<TotalEntries>,
}

#[derive(Clone, Debug)]
pub struct TotalEntries {
    pub number_of_entries: Option<u64>,
    pub sum: Option<String>,
}

#[derive(Clone, Debug)]
pub struct Entry {
    pub amount: Amount,
    pub credit_debit_indicator: String,
    pub status: Option<EntryStatus>,
    pub booking_date: Option<BalanceDate>,
    pub value_date: Option<BalanceDate>,
    pub bank_transaction_code: Option<BankTransactionCode>,
    pub entry_details: Option<Vec<EntryDetails>>,
}

#[derive(Clone, Debug)]
pub struct EntryStatus {
    pub code: Option<String>,
    pub proprietary: Option<String>,
}

#[derive(Clone, Debug)]
pub struct BankTransactionCode {
    pub domain: Option<Domain>,
    pub proprietary: Option<ProprietaryCode>,
}

#[derive(Clone, Debug)]
pub struct Domain {
    pub code: String,
    pub family: DomainFamily,
}

#[derive(Clone, Debug)]
pub struct DomainFamily {
    pub code: String,
    pub sub_family_code: String,
}

#[derive(Clone, Debug)]
pub struct ProprietaryCode {
    pub code: String,
    pub issuer: Option<String>,
}

#[derive(Clone, Debug)]
pub struct EntryDetails {
    pub transaction_details: Option<Vec<TransactionDetails>>,
}

#[derive(Clone, Debug)]
pub struct TransactionDetails {
    pub references: Option<TransactionReferences>,
    pub amount: Option<Amount>,
    pub related_parties: Option<RelatedParties>,
    pub remittance_info: Option<RemittanceInfo>,
}

#[derive(Clone, Debug)]
pub struct TransactionReferences {
    pub message_id: Option<String>,
    pub end_to_end_id: Option<String>,
    pub transaction_id: Option<String>,
    pub uetr: Option<String>,
}

#[derive(Clone, Debug)]
pub struct RelatedParties {
    pub debtor: Option<PartyInfo>,
    pub debtor_account: Option<AccountId>,
    pub creditor: Option<PartyInfo>,
    pub creditor_account: Option<AccountId>,
}



/// Calls `chrono::Utc::now` and reads the instant's calendar fields
/// through `Datelike` and `Timelike`: year, month (1 to 12), day (1 to 31),
/// hour (0 to 23), minute (0 to 59), second (0 to 59) and nanosecond (below
/// two billion, a leap second counting from one billion). Nothing is
/// promised of which instant is read.
#[verifier::external_body]
fn utc_now_fields() -> (r: (i32, u32, u32, u32, u32, u32, u32))
    ensures 1 <= r.1 <= 12, 1 <= r.2 <= 31, r.3 < 24, r.4 < 60, r.5 < 60, r.6 < 2_000_000_000,
{
    let now = chrono::Utc::now();
    (chrono::Datelike::year(&now), chrono::Datelike::month(&now), chrono::Datelike::day(&now),
        chrono::Timelike::hour(&now), chrono::Timelike::minute(&now), chrono::Timelike::second(&now),
        chrono::Timelike::nanosecond(&now))
}

/// A number as decimal digits, zero-padded on the left to `w`.
pub open spec fn padded(n: nat, w: nat) -> Seq<char> {
    pad_left(dec_digits(n), w, '0')
}

/// A year as `%Y` writes it: four digits from 0 to 9999, otherwise a sign
/// and at least four digits.
pub open spec fn year_text(y: int) -> Seq<char> {
    if 0 <= y <= 9999 { padded(y as nat, 4) }
    else if y < 0 { seq!['-'] + padded((-y) as nat, 4) }
    else { seq!['+'] + padded(y as nat, 4) }
}

/// `%Y-%m-%d`.
pub open spec fn date_text(y: int, mo: nat, d: nat) -> Seq<char> {
    year_text(y) + seq!['-'] + padded(mo, 2) + seq!['-'] + padded(d, 2)
}

/// `%Y-%m-%dT%H:%M:%S`, a leap second written as second 60.
pub open spec fn date_time_text(y: int, mo: nat, d: nat, h: nat, mi: nat, sec: nat, nano: nat) -> Seq<char> {
    date_text(y, mo, d) + seq!['T'] + padded(h, 2) + seq![':'] + padded(mi, 2) + seq![':']
        + padded(sec + nano / 1_000_000_000, 2)
}

fn push_padded(out: &mut Vec<char>, n: u64, w: usize)
    ensures final(out)@ == old(out)@ + padded(n as nat, w as nat),
{
    let d = u64_to_decimal(n);
    let ghost start = out@;
    if d.len() < w {
        let zeros = w - d.len();
        let mut i: usize = 0;
        while i < zeros
            invariant i <= zeros, out@ == start + Seq::new(i as nat, |j: int| '0'),
            decreases zeros - i,
        {
            out.push('0');
            assert(out@ =~= start + Seq::new((i + 1) as nat, |j: int| '0'));
            i = i + 1;
        }
    }
    let ghost mid = out@;
    let mut k: usize = 0;
    while k < d.len()
        invariant k <= d@.len(), out@ == mid + d@.take(k as int),
        decreases d@.len() - k,
    {
        out.push(d[k]);
        assert(out@ =~= mid + d@.take(k + 1));
        k = k + 1;
    }
    assert(d@.take(d@.len() as int) =~= d@);
    assert(out@ =~= start + padded(n as nat, w as nat));
}

fn push_year(out: &mut Vec<char>, y: i32)
    ensures final(out)@ == old(out)@ + year_text(y as int),
{
    if 0 <= y && y <= 9999 {
        push_padded(out, y as u64, 4);
    } else if y < 0 {
        let ghost start = out@;
        out.push('-');
        let a: u64 = (-(y as i64)) as u64;
        push_padded(out, a, 4);
        assert(out@ =~= start + (seq!['-'] + padded((-y) as nat, 4)));
    } else {
        let ghost start = out@;
        out.push('+');
        push_padded(out, y as u64, 4);
        assert(out@ =~= start + (seq!['+'] + padded(y as nat, 4)));
    }
}

/// The current UTC time as `%Y-%m-%dT%H:%M:%S` and `%Y-%m-%d`, with the
/// calendar fields it was read as.
fn utc_now_texts() -> (r: (String, String, Ghost<(int, nat, nat, nat, nat, nat, nat)>))
    ensures
        ({
            let (y, mo, d, h, mi, sec, nano) = r.2@;
            &&& r.0@ == date_time_text(y, mo, d, h, mi, sec, nano)
            &&& r.1@ == date_text(y, mo, d)
            &&& 1 <= mo <= 12 && 1 <= d <= 31 && h < 24 && mi < 60 && sec < 60 && nano < 2_000_000_000
        }),
{
    let (y, mo, d, h, mi, sec, nano) = utc_now_fields();
    let mut v: Vec<char> = Vec::new();
    push_year(&mut v, y);
    v.push('-');
    push_padded(&mut v, mo as u64, 2);
    v.push('-');
    push_padded(&mut v, d as u64, 2);
    let ghost date = v@;
    assert(date =~= date_text(y as int, mo as nat, d as nat));
    let settled = chars_to_string(v.as_slice());
    v.push('T');
    push_padded(&mut v, h as u64, 2);
    v.push(':');
    push_padded(&mut v, mi as u64, 2);
    v.push(':');
    let s2: u64 = (sec as u64) + (nano / 1_000_000_000) as u64;
    push_padded(&mut v, s2, 2);
    assert(v@ =~= date_time_text(y as int, mo as nat, d as nat, h as nat, mi as nat, sec as nat, nano as nat));
    let created = chars_to_string(v.as_slice());
    (created, settled, Ghost((y as int, mo as nat, d as nat, h as nat, mi as nat, sec as nat, nano as nat)))
}

/// The `w` lowercase hexadecimal digits of `v` (which has at most `w`).
pub open spec fn hex_fixed(v: int, w: nat) -> Seq<char>
    decreases w,
{
    if w == 0 {
        Seq::empty()
    } else {
        hex_fixed(v / 16, (w - 1) as nat).push(hex_char_lower(v % 16))
    }
}

/// A version-4-shaped identifier made from a 128-bit timestamp: five groups
/// of hexadecimal digits, the third starting with '4' and the fourth with
/// its top bit set.
pub open spec fn uuid_from_nanos_spec(now: u128) -> Seq<char> {
    let a: int = (now as int / 0x1_0000_0000_0000_0000_0000_0000) % 0x1_0000_0000;
    let b: int = (now as int / 0x1_0000_0000_0000_0000_0000) % 0x1_0000;
    let c: int = (now as int / 0x10_0000_0000_0000_0000) % 0x1000;
    let d: int = (now as int / 0x10_0000_0000_0000) % 0x4000 + 0x8000;
    let e: int = now as int % 0x1_0000_0000_0000;
    hex_fixed(a, 8) + seq!['-'] + hex_fixed(b, 4) + seq!['-', '4'] + hex_fixed(c, 3) + seq!['-']
        + hex_fixed(d, 4) + seq!['-'] + hex_fixed(e, 12)
}

/// Appends the `w` lowercase hexadecimal digits of `v`.
fn push_hex_fixed(s: &mut String, v: u64, w: u32)
    requires
        w <= 16,
    ensures
        final(s)@ == old(s)@ + hex_fixed(v as int, w as nat),
{
    let mut k: u32 = w;
    let ghost start = old(s)@;
    assert(s@ =~= start + hex_fixed((v as nat / pow16(k as nat)) as int, (w - k) as nat));
    while k > 0
        invariant
            k <= w <= 16,
            s@ == start + hex_fixed((v as nat / pow16(k as nat)) as int, (w - k) as nat),
        decreases k,
    {
        k = k - 1;
        let shifted: u64 = shift_hex(v, k);
        proof {
            lemma_pow16_step(k as nat);
            lemma_hex_fixed_step(v as nat, k as nat, (w - k - 1) as nat);
        }
        let digit = (shifted % 16) as u8;
        string_push(s, crate::primitives::text::hex_digit_lower(digit));
    }
    proof {
        assert(pow16(0) == 1);
        assert(v as nat / 1 == v as nat);
    }
}

/// 16 to the power `k`.
pub open spec fn pow16(k: nat) -> nat
    decreases k,
{
    if k == 0 { 1 } else { 16 * pow16((k - 1) as nat) }
}

proof fn lemma_pow16_step(k: nat)
    ensures
        pow16(k + 1) == 16 * pow16(k),
        pow16(k) >= 1,
    decreases k,
{
    if k > 0 {
        lemma_pow16_step((k - 1) as nat);
    }
}

proof fn lemma_hex_fixed_step(v: nat, k: nat, n: nat)
    ensures
        hex_fixed((v / pow16(k)) as int, n + 1) == hex_fixed((v / pow16(k + 1)) as int, n).push(hex_char_lower(((v / pow16(k)) % 16) as int)),
{
    lemma_pow16_step(k);
    vstd::arithmetic::div_mod::lemma_div_denominator(v as int, pow16(k) as int, 16);
    assert(v / pow16(k) / 16 == v / pow16(k + 1)) by {
        assert(pow16(k) * 16 == pow16(k + 1));
    }
}

/// `v / 16^k`.
fn shift_hex(v: u64, k: u32) -> (r: u64)
    requires k < 16,
    ensures r == v as nat / pow16(k as nat),
{
    let mut r: u64 = v;
    let mut i: u32 = 0;
    assert(pow16(0) == 1);
    assert(v as nat / 1 == v as nat);
    while i < k
        invariant
            i <= k < 16,
            r == v as nat / pow16(i as nat),
        decreases k - i,
    {
        proof {
            lemma_pow16_step(i as nat);
            vstd::arithmetic::div_mod::lemma_div_denominator(v as int, pow16(i as nat) as int, 16);
        }
        r = r / 16;
        i = i + 1;
    }
    r
}

/// A version-4-shaped identifier from a timestamp in nanoseconds.
pub fn uuid_from_nanos(now: u128) -> (r: String)
    ensures r@ == uuid_from_nanos_spec(now),
{
    let a: u64 = ((now >> 96u128) as u64) % 0x1_0000_0000;
    let b: u64 = ((now >> 80u128) & 0xFFFF) as u64;
    let c: u64 = ((now >> 68u128) & 0x0FFF) as u64;
    let d: u64 = (((now >> 52u128) & 0x3FFF) | 0x8000) as u64;
    let e: u64 = (now & 0xFFFF_FFFF_FFFF) as u64;
    proof {
        assert((now >> 96u128) == now / 0x1_0000_0000_0000_0000_0000_0000) by (bit_vector);
        assert((now >> 80u128) & 0xFFFF == (now / 0x1_0000_0000_0000_0000_0000) % 0x1_0000) by (bit_vector);
        assert((now >> 68u128) & 0x0FFF == (now / 0x10_0000_0000_0000_0000) % 0x1000) by (bit_vector);
        assert(((now >> 52u128) & 0x3FFF) | 0x8000 == (now / 0x10_0000_0000_0000) % 0x4000 + 0x8000) by (bit_vector);
        assert(now & 0xFFFF_FFFF_FFFF == now % 0x1_0000_0000_0000) by (bit_vector);
    }
    let mut s = String::new();
    push_hex_fixed(&mut s, a, 8);
    string_push(&mut s, '-');
    push_hex_fixed(&mut s, b, 4);
    string_push(&mut s, '-');
    string_push(&mut s, '4');
    push_hex_fixed(&mut s, c, 3);
    string_push(&mut s, '-');
    push_hex_fixed(&mut s, d, 4);
    string_push(&mut s, '-');
    push_hex_fixed(&mut s, e, 12);
    assert(s@ =~= uuid_from_nanos_spec(now));
    s
}

/// A version-4-shaped identifier from the system clock.
pub fn uuid_v4() -> (r: String)
    ensures exists|now: u128| r@ == uuid_from_nanos_spec(now),
{
    uuid_from_nanos(crate::primitives::clock::unix_time_nanos())
}

/// The identification of an agent by its BIC alone.
pub open spec fn agent_by_bic(f: FinancialInstitutionId, bic: Seq<char>) -> bool {
    &&& f.bic matches Some(b) && b@ == bic
    &&& f.clearing_system_member_id is None
    &&& f.lei is None
}

/// A pacs.008 credit transfer of one transaction, at the given creation time
/// and settlement date, with the given end-to-end transaction reference.
pub open spec fn credit_transfer_built(
    m: CreditTransferMessage,
    message_id: Seq<char>,
    debtor_name: Seq<char>,
    debtor_iban: Seq<char>,
    debtor_bic: Seq<char>,
    creditor_name: Seq<char>,
    creditor_iban: Seq<char>,
    creditor_bic: Seq<char>,
    amount: Seq<char>,
    currency: Seq<char>,
    reference: Seq<char>,
    creation_date_time: Seq<char>,
    settlement_date: Seq<char>,
    uetr: Seq<char>,
) -> bool {
    let h = m.group_header;
    &&& h.message_id@ == message_id
    &&& h.creation_date_time@ == creation_date_time
    &&& h.number_of_transactions == 1
    &&& h.total_amount matches Some(a) && a.currency@ == currency && a.value@ == amount
    &&& h.settlement_date matches Some(d) && d@ == settlement_date
    &&& h.settlement_info matches Some(si) && si.settlement_method@ == "INDA"@ && si.settlement_account is None
    &&& h.instructing_agent matches Some(f) && agent_by_bic(f, debtor_bic)
    &&& h.instructed_agent matches Some(f) && agent_by_bic(f, creditor_bic)
    &&& m.credit_transfer_transactions@.len() == 1
    &&& {
        let t = m.credit_transfer_transactions@[0];
        &&& t.payment_id.instruction_id matches Some(x) && x@ == message_id + "-001"@
        &&& t.payment_id.end_to_end_id@ == reference
        &&& t.payment_id.transaction_id matches Some(x) && x@ == message_id + "-TX001"@
        &&& t.payment_id.uetr matches Some(x) && x@ == uetr
        &&& t.payment_type_info is None
        &&& t.interbank_settlement_amount.currency@ == currency
        &&& t.interbank_settlement_amount.value@ == amount
        &&& t.instructed_amount is None
        &&& t.charge_bearer matches Some(x) && x@ == "SHAR"@
        &&& t.debtor.name matches Some(x) && x@ == debtor_name
        &&& t.debtor.postal_address is None && t.debtor.id is None
        &&& t.debtor_account.iban matches Some(x) && x@ == debtor_iban
        &&& t.debtor_account.other is None
        &&& agent_by_bic(t.debtor_agent, debtor_bic)
        &&& agent_by_bic(t.creditor_agent, creditor_bic)
        &&& t.creditor.name matches Some(x) && x@ == creditor_name
        &&& t.creditor.postal_address is None && t.creditor.id is None
        &&& t.creditor_account.iban matches Some(x) && x@ == creditor_iban
        &&& t.creditor_account.other is None
        &&& t.remittance_info matches Some(ri) && (ri.structured is None
            && (ri.unstructured matches Some(u) && u@.len() == 1 && u@[0]@ == reference))
    }
}

fn bic_agent(bic: &str) -> (r: FinancialInstitutionId)
    ensures agent_by_bic(r, bic@),
{
    FinancialInstitutionId { bic: Some(bic.to_owned()), clearing_system_member_id: None, lei: None }
}

fn with_suffix(s: &str, suffix: &str) -> (r: String)
    ensures r@ == s@ + suffix@,
{
    let mut r = s.to_owned();
    r.append(suffix);
    r
}

/// Builds a pacs.008 credit transfer of one transaction with the given
/// creation time, settlement date and end-to-end transaction reference.
pub fn build_credit_transfer(
    message_id: &str,
    debtor_name: &str,
    debtor_iban: &str,
    debtor_bic: &str,
    creditor_name: &str,
    creditor_iban: &str,
    creditor_bic: &str,
    amount: &str,
    currency: &str,
    reference: &str,
    creation_date_time: String,
    settlement_date: String,
    uetr: String,
) -> (r: CreditTransferMessage)
    ensures
        credit_transfer_built(r, message_id@, debtor_name@, debtor_iban@, debtor_bic@, creditor_name@,
            creditor_iban@, creditor_bic@, amount@, currency@, reference@, creation_date_time@,
            settlement_date@, uetr@),
{
    let r = CreditTransferMessage {
        group_header: GroupHeader {
            message_id: message_id.to_owned(),
            creation_date_time,
            number_of_transactions: 1,
            total_amount: Some(Amount { currency: currency.to_owned(), value: amount.to_owned() }),
            settlement_date: Some(settlement_date),
            settlement_info: Some(SettlementInfo { settlement_method: "INDA".to_owned(), settlement_account: None }),
            instructing_agent: Some(bic_agent(debtor_bic)),
            instructed_agent: Some(bic_agent(creditor_bic)),
        },
        credit_transfer_transactions: vec![CreditTransferTransaction {
            payment_id: PaymentId {
                instruction_id: Some(with_suffix(message_id, "-001")),
                end_to_end_id: reference.to_owned(),
                transaction_id: Some(with_suffix(message_id, "-TX001")),
                uetr: Some(uetr),
            },
            payment_type_info: None,
            interbank_settlement_amount: Amount { currency: currency.to_owned(), value: amount.to_owned() },
            instructed_amount: None,
            charge_bearer: Some("SHAR".to_owned()),
            debtor: PartyInfo { name: Some(debtor_name.to_owned()), postal_address: None, id: None },
            debtor_account: AccountId { iban: Some(debtor_iban.to_owned()), other: None },
            debtor_agent: bic_agent(debtor_bic),
            creditor_agent: bic_agent(creditor_bic),
            creditor: PartyInfo { name: Some(creditor_name.to_owned()), postal_address: None, id: None },
            creditor_account: AccountId { iban: Some(creditor_iban.to_owned()), other: None },
            remittance_info: Some(RemittanceInfo { unstructured: Some(vec![reference.to_owned()]), structured: None }),
        }],
    };
    r
}

/// Creates a pacs.008 credit transfer of one transaction, stamped with the
/// current time and a fresh transaction reference.
pub fn create_credit_transfer(
    message_id: &str,
    debtor_name: &str,
    debtor_iban: &str,
    debtor_bic: &str,
    creditor_name: &str,
    creditor_iban: &str,
    creditor_bic: &str,
    amount: &str,
    currency: &str,
    reference: &str,
) -> (r: CreditTransferMessage)
    ensures
        exists|y: int, mo: nat, d: nat, h: nat, mi: nat, sec: nat, nano: nat, now: u128|
            1 <= mo <= 12 && 1 <= d <= 31 && h < 24 && mi < 60 && sec < 60 && nano < 2_000_000_000
            && #[trigger] credit_transfer_built(r, message_id@, debtor_name@, debtor_iban@, debtor_bic@, creditor_name@,
                creditor_iban@, creditor_bic@, amount@, currency@, reference@,
                date_time_text(y, mo, d, h, mi, sec, nano), date_text(y, mo, d),
                uuid_from_nanos_spec(now)),
{
    let (created, settled, fields) = utc_now_texts();
    let nanos = crate::primitives::clock::unix_time_nanos();
    let uetr = uuid_from_nanos(nanos);
    let r = build_credit_transfer(message_id, debtor_name, debtor_iban, debtor_bic, creditor_name,
        creditor_iban, creditor_bic, amount, currency, reference, created, settled, uetr);
    r
}

} // verus!
