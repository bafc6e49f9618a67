//! Commercial orders (no accounting): their status machine, deletion rule and numbering.

use vstd::prelude::*;
use crate::text::{
    owned, str_eq, concat_str, push_str, fmt_04, spec_fmt_04,
};

verus! {

/// An order as stored.
#[derive(Clone, Debug)]
pub struct Order {
    pub id: String,
    pub company_id: String,
    pub contact_id: Option<String>,
    pub series: Option<String>,
    pub number: i64,
    pub full_number: Option<String>,
    pub order_date: String,
    pub expected_delivery: Option<String>,
    pub currency: String,
    pub exchange_rate: Option<String>,
    pub subtotal_amount: String,
    pub vat_amount: String,
    pub total_amount: String,
    pub status: String,
    pub notes: Option<String>,
    pub converted_invoice_id: Option<String>,
    pub created_at: i64,
    pub updated_at: i64,
}

/// A stored order line.
#[derive(Clone, Debug)]
pub struct OrderLine {
    pub id: String,
    pub order_id: String,
    pub position: i64,
    pub name: String,
    pub description: Option<String>,
    pub quantity: String,
    pub unit: Option<String>,
    pub unit_price: String,
    pub vat_rate: String,
    pub vat_category: Option<String>,
    pub subtotal_amount: String,
    pub vat_amount: String,
    pub total_amount: String,
    pub revenue_kind: Option<String>,
    pub qty_reserved: String,
}

/// An order with its lines.
#[derive(Clone, Debug)]
pub struct OrderWithLines {
    pub order: Order,
    pub lines: Vec<OrderLine>,
}

/// Why an order operation was refused.
#[derive(Clone, Debug)]
pub enum OrderError {
    /// The status change is not allowed (from, to).
    InvalidTransition(String, String),
    /// Only draft or cancelled orders can be deleted.
    NotDeletable(String),
    /// Only draft orders can be modified.
    NotEditable(String),
    /// Only accepted orders can become invoices.
    NotAccepted(String),
    /// The order was already turned into an invoice.
    AlreadyConverted,
}

/// The statuses an order may move to from `from`: draft → sent, accepted, cancelled;
/// sent → accepted, cancelled; accepted → cancelled; none from any other status.
pub open spec fn spec_allowed_transition(from: Seq<char>, to: Seq<char>) -> bool {
    if from == "draft"@ {
        to == "sent"@ || to == "accepted"@ || to == "cancelled"@
    } else if from == "sent"@ {
        to == "accepted"@ || to == "cancelled"@
    } else if from == "accepted"@ {
        to == "cancelled"@
    } else {
        false
    }
}

/// Checks a status change of an order.
pub fn check_transition(from: &str, to: &str) -> (r: Result<(), OrderError>)
    ensures
        r is Ok <==> spec_allowed_transition(from@, to@),
        r matches Err(e) ==> (e matches OrderError::InvalidTransition(a, b) && a@ == from@ && b@ == to@),
{
    let ok = if str_eq(from, "draft") {
        str_eq(to, "sent") || str_eq(to, "accepted") || str_eq(to, "cancelled")
    } else if str_eq(from, "sent") {
        str_eq(to, "accepted") || str_eq(to, "cancelled")
    } else if str_eq(from, "accepted") {
        str_eq(to, "cancelled")
    } else {
        false
    };
    if ok {
        Ok(())
    } else {
        Err(OrderError::InvalidTransition(owned(from), owned(to)))
    }
}

/// No status change leads back to draft, and nothing leaves a cancelled order: the life
/// cycle only moves forward.
pub proof fn lemma_transitions_forward(from: Seq<char>, to: Seq<char>)
    ensures
        spec_allowed_transition(from, to) ==> to != "draft"@,
        spec_allowed_transition("cancelled"@, to) == false,
{
    reveal_strlit("draft");
    reveal_strlit("sent");
    reveal_strlit("accepted");
    reveal_strlit("cancelled");
    assert("cancelled"@[0] != "draft"@[0]);
    assert("cancelled"@[0] != "sent"@[0]);
    assert("cancelled"@[0] != "accepted"@[0]);
    if spec_allowed_transition(from, to) {
        assert(to[0] != 'd');
    }
}

/// Only draft or cancelled orders can be deleted.
pub fn check_deletable(status: &str) -> (r: Result<(), OrderError>)
    ensures
        r is Ok <==> (status@ == "draft"@ || status@ == "cancelled"@),
        r matches Err(e) ==> (e matches OrderError::NotDeletable(s) && s@ == status@),
{
    if str_eq(status, "draft") || str_eq(status, "cancelled") {
        Ok(())
    } else {
        Err(OrderError::NotDeletable(owned(status)))
    }
}

/// Only draft orders can be modified.
pub fn check_editable(status: &str) -> (r: Result<(), OrderError>)
    ensures
        r is Ok <==> status@ == "draft"@,
        r matches Err(e) ==> (e matches OrderError::NotEditable(s) && s@ == status@),
{
    if str_eq(status, "draft") {
        Ok(())
    } else {
        Err(OrderError::NotEditable(owned(status)))
    }
}

/// An order can become an invoice once, from status accepted.
pub fn check_convertible(status: &str, converted_invoice_id: &Option<String>) -> (r: Result<(), OrderError>)
    ensures
        r is Ok <==> (converted_invoice_id is None && status@ != "invoiced"@ && status@ == "accepted"@),
        r matches Err(e) ==> (e matches OrderError::AlreadyConverted <==> (converted_invoice_id is Some || status@ == "invoiced"@)),
        r matches Err(e) ==> (!(e matches OrderError::AlreadyConverted) ==> (e matches OrderError::NotAccepted(s) && s@ == status@)),
{
    if converted_invoice_id.is_some() || str_eq(status, "invoiced") {
        return Err(OrderError::AlreadyConverted);
    }
    if !str_eq(status, "accepted") {
        return Err(OrderError::NotAccepted(owned(status)));
    }
    Ok(())
}

/// The series of an order: the given one unless empty, else `CMD`.
pub open spec fn spec_order_series(series: Option<Seq<char>>) -> Seq<char> {
    match series {
        Some(s) => if s.len() > 0 { s } else { "CMD"@ },
        None => "CMD"@,
    }
}

/// The full number of an order: series, dash, number padded to four digits.
pub fn order_full_number(series: &Option<String>, number: i64) -> (r: String)
    ensures
        r@ == spec_order_series(crate::payment_instruments::opt_str(*series)) + "-"@ + spec_fmt_04(number as int),
{
    let s: &str = match series {
        Some(x) => if x.as_str().unicode_len() > 0 { x.as_str() } else { "CMD" },
        None => "CMD",
    };
    let mut out = concat_str(s, "-");
    push_str(&mut out, fmt_04(number).as_str());
    out
}

/// The text of `chrono::DateTime::from_timestamp(secs, 0)` formatted as `%Y-%m-%d` (a UTC
/// date), or `None` when the timestamp is out of chrono's range.
pub uninterp spec fn utc_date_text(secs: i64) -> Option<Seq<char>>;

/// Calls chrono's `DateTime::from_timestamp(secs, 0)` and formats the result with
/// `%Y-%m-%d`; the answer is named by `utc_date_text`.
#[verifier::external_body]
fn utc_date(secs: i64) -> (r: Option<String>)
    ensures
        crate::payment_instruments::opt_str(r) == utc_date_text(secs),
{
    chrono::DateTime::from_timestamp(secs, 0).map(|dt| dt.format("%Y-%m-%d").to_string())
}

/// The issue date of an invoice converted from an order at time `now`: today's UTC date,
/// or the order's date when the clock is out of range.
pub fn conversion_issue_date(now: i64, order_date: &str) -> (r: String)
    ensures
        r@ == (match utc_date_text(now) {
            Some(t) => t,
            None => order_date@,
        }),
{
    match utc_date(now) {
        Some(t) => t,
        None => owned(order_date),
    }
}

} // verus!
