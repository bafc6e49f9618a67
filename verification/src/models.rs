//! Shared domain types: document statuses, pagination, the allowed VAT rates and payment
//! means codes, the licence and in-app notifications.

use vstd::prelude::*;
use crate::text::{str_eq};
use crate::decimal::{Dec, parse_or_zero, spec_parse_or_zero};

verus! {

/// Status of an issued invoice in its e-Factura life cycle.
#[derive(Clone, Copy, Debug, PartialEq, Eq, Structural)]
pub enum InvoiceStatus {
    Draft,
    Queued,
    Submitted,
    Validated,
    Rejected,
    Storned,
}

pub open spec fn spec_invoice_status_text(s: InvoiceStatus) -> Seq<char> {
    match s {
        InvoiceStatus::Draft => "DRAFT"@,
        InvoiceStatus::Queued => "QUEUED"@,
        InvoiceStatus::Submitted => "SUBMITTED"@,
        InvoiceStatus::Validated => "VALIDATED"@,
        InvoiceStatus::Rejected => "REJECTED"@,
        InvoiceStatus::Storned => "STORNED"@,
    }
}

impl InvoiceStatus {
    /// The stored (upper-case) text of the status.
    pub fn as_str(&self) -> (r: &'static str)
        ensures
            r@ == spec_invoice_status_text(*self),
    {
        match self {
            InvoiceStatus::Draft => "DRAFT",
            InvoiceStatus::Queued => "QUEUED",
            InvoiceStatus::Submitted => "SUBMITTED",
            InvoiceStatus::Validated => "VALIDATED",
            InvoiceStatus::Rejected => "REJECTED",
            InvoiceStatus::Storned => "STORNED",
        }
    }

    /// The status stored under a text, if any.
    pub fn from_text(s: &str) -> (r: Option<InvoiceStatus>)
        ensures
            r matches Some(st) ==> spec_invoice_status_text(st) == s@,
            r is None ==> forall|st: InvoiceStatus| spec_invoice_status_text(st) != s@,
    {
        if str_eq(s, "DRAFT") {
            Some(InvoiceStatus::Draft)
        } else if str_eq(s, "QUEUED") {
            Some(InvoiceStatus::Queued)
        } else if str_eq(s, "SUBMITTED") {
            Some(InvoiceStatus::Submitted)
        } else if str_eq(s, "VALIDATED") {
            Some(InvoiceStatus::Validated)
        } else if str_eq(s, "REJECTED") {
            Some(InvoiceStatus::Rejected)
        } else if str_eq(s, "STORNED") {
            Some(InvoiceStatus::Storned)
        } else {
            None
        }
    }
}

/// Reading a status back from its text gives the same status.
pub proof fn lemma_invoice_status_text_injective(a: InvoiceStatus, b: InvoiceStatus)
    ensures
        spec_invoice_status_text(a) == spec_invoice_status_text(b) ==> a == b,
{
    reveal_strlit("DRAFT");
    reveal_strlit("QUEUED");
    reveal_strlit("SUBMITTED");
    reveal_strlit("VALIDATED");
    reveal_strlit("REJECTED");
    reveal_strlit("STORNED");
    if spec_invoice_status_text(a) == spec_invoice_status_text(b) {
        let ta = spec_invoice_status_text(a);
        let tb = spec_invoice_status_text(b);
        assert(ta.len() == tb.len());
        assert(ta[0] == tb[0]);
        assert(ta[1] == tb[1]);
    }
}

/// Status of a received invoice.
#[derive(Clone, Copy, Debug, PartialEq, Eq, Structural)]
pub enum ReceivedStatus {
    New,
    Reviewed,
    Approved,
    Rejected,
    Archived,
}

/// Kind of a contact.
#[derive(Clone, Copy, Debug, PartialEq, Eq, Structural)]
pub enum ContactType {
    Customer,
    Supplier,
    Both,
}

/// A page request: offset and limit.
#[derive(Clone, Debug)]
pub struct Page {
    pub offset: i64,
    pub limit: i64,
}

impl Default for Page {
    /// The first 500 items.
    fn default() -> (r: Page)
        ensures
            r.offset == 0,
            r.limit == 500,
    {
        Page { offset: 0, limit: 500 }
    }
}

/// One page of items with the total count.
#[derive(Clone, Debug)]
pub struct Paginated<T> {
    pub items: Vec<T>,
    pub total: i64,
    pub offset: i64,
    pub limit: i64,
}

/// The page a request asks for: the given one, else the default one.
pub fn page_or_default(p: Option<Page>) -> (r: Page)
    ensures
        p matches Some(q) ==> r.offset == q.offset && r.limit == q.limit,
        p is None ==> r.offset == 0 && r.limit == 500,
{
    match p {
        Some(q) => q,
        None => Page::default(),
    }
}

/// The VAT rates in force (2025 and after), in percent.
pub open spec fn spec_valid_vat_rates() -> Seq<i64> {
    seq![0i64, 5, 9, 11, 19, 21]
}

pub fn valid_vat_rates() -> (r: Vec<i64>)
    ensures
        r@ == spec_valid_vat_rates(),
{
    let v: Vec<i64> = vec![0, 5, 9, 11, 19, 21];
    assert(v@ =~= spec_valid_vat_rates());
    v
}

/// The UNCL4461 payment means codes accepted by ANAF.
pub open spec fn spec_valid_payment_means_codes() -> Seq<Seq<char>> {
    seq!["10"@, "20"@, "30"@, "42"@, "48"@, "49"@, "57"@, "58"@, "59"@]
}

pub fn valid_payment_means_codes() -> (r: Vec<&'static str>)
    ensures
        r@.map_values(|s: &'static str| s@) == spec_valid_payment_means_codes(),
{
    let v: Vec<&'static str> = vec!["10", "20", "30", "42", "48", "49", "57", "58", "59"];
    assert(v@.map_values(|s: &'static str| s@) =~= spec_valid_payment_means_codes());
    v
}

/// A payment means code is accepted exactly when it is in the list.
pub fn is_valid_payment_means_code(code: &str) -> (r: bool)
    ensures
        r == spec_valid_payment_means_codes().contains(code@),
{
    let codes = valid_payment_means_codes();
    let n = codes.len();
    let mut i: usize = 0;
    while i < n
        invariant
            n == codes@.len(),
            codes@.map_values(|s: &'static str| s@) == spec_valid_payment_means_codes(),
            i <= n,
            forall|j: int| 0 <= j < i ==> spec_valid_payment_means_codes()[j] != code@,
        decreases n - i,
    {
        proof {
            assert(spec_valid_payment_means_codes()[i as int] == codes@[i as int]@);
        }
        if str_eq(codes[i], code) {
            return true;
        }
        i = i + 1;
    }
    false
}

/// The licence record.
#[derive(Clone, Debug)]
pub struct License {
    pub id: i64,
    pub license_key: Option<String>,
    pub tier: String,
    pub activated_at: Option<i64>,
    pub expires_at: i64,
    pub machine_id: String,
    pub email: Option<String>,
    pub last_validated_at: Option<i64>,
}

/// The expiry of a trial started at `now` for `days` days: `now + days × 86 400`.
pub fn trial_expiry(now: i64, days: i64) -> (r: i64)
    requires
        i64::MIN <= days * 86400 <= i64::MAX,
        i64::MIN <= now + days * 86400 <= i64::MAX,
    ensures
        r == now + days * 86400,
{
    now + days * 86400
}

/// An in-app notification.
#[derive(Clone, Debug)]
pub struct Notification {
    pub id: String,
    pub notification_type: String,
    pub title: String,
    pub body: String,
    pub data: Option<String>,
    pub is_read: bool,
    pub read_at: Option<i64>,
    pub os_notification_shown: bool,
    pub created_at: i64,
}

/// A new notification.
#[derive(Clone, Debug)]
pub struct CreateNotificationInput {
    pub notification_type: String,
    pub title: String,
    pub body: String,
    pub data: Option<String>,
}

/// Reads a stored money text: the trimmed text as a decimal, zero when it is empty or not a
/// number. `context` names the field being read, for the caller's diagnostics.
pub fn dec_logged(context: &str, s: &str) -> (r: Dec)
    ensures
        r == spec_parse_or_zero(s@),
        r.wf(),
{
    parse_or_zero(s)
}

} // verus!
