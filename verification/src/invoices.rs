//! Issued invoices: validation of a new invoice, the amounts of its lines and totals
//! (commercial rounding to two decimals), numbering, and the rules of the status events.

use vstd::prelude::*;
use crate::decimal::{
    Dec, dec_add, dec_sub, dec_mul, dec_lt, spec_dec_add, spec_dec_mul, lemma_spec_add,
    lemma_spec_sub, lemma_val_sign, lemma_zero_val, round_dp_away, spec_round_dp_away, abs_int,
    pow10, checked_div, decimal_checked_div, round2,
};
use crate::models::{
    InvoiceStatus, spec_invoice_status_text, spec_valid_vat_rates, valid_vat_rates,
    is_valid_payment_means_code, spec_valid_payment_means_codes,
};
use crate::text::{
    owned, str_eq, concat_str, push_str, fmt_04, spec_fmt_04,
};

verus! {

/// An issued invoice as stored.
#[derive(Clone, Debug)]
pub struct Invoice {
    pub id: String,
    pub company_id: String,
    pub contact_id: String,
    pub series: String,
    pub number: i64,
    pub full_number: String,
    pub issue_date: String,
    pub due_date: String,
    pub currency: String,
    pub subtotal_amount: String,
    pub vat_amount: String,
    pub total_amount: String,
    pub status: String,
    pub anaf_upload_id: Option<String>,
    pub anaf_index: Option<String>,
    pub anaf_submitted_at: Option<i64>,
    pub anaf_validated_at: Option<i64>,
    pub anaf_rejected_at: Option<i64>,
    pub xml_path: Option<String>,
    pub pdf_path: Option<String>,
    pub signature_xml_path: Option<String>,
    pub rejection_reason: Option<String>,
    pub rejection_code: Option<String>,
    pub notes: Option<String>,
    pub payment_means_code: String,
    pub storno_of_invoice_id: Option<String>,
    pub created_at: i64,
    pub updated_at: i64,
}

/// One stored line of an invoice.
#[derive(Clone, Debug)]
pub struct LineItem {
    pub id: String,
    pub invoice_id: String,
    pub position: i64,
    pub name: String,
    pub description: Option<String>,
    pub quantity: String,
    pub unit: String,
    pub unit_price: String,
    pub vat_rate: String,
    pub vat_category: String,
    pub subtotal_amount: String,
    pub vat_amount: String,
    pub total_amount: String,
    pub cpv_code: Option<String>,
    pub art331_code: Option<String>,
    pub revenue_kind: String,
}

/// One entry of an invoice's history.
#[derive(Clone, Debug)]
pub struct InvoiceEvent {
    pub id: String,
    pub invoice_id: String,
    pub event_type: String,
    pub message: String,
    pub metadata: Option<String>,
    pub created_at: i64,
}

/// An invoice with its lines and its history, as the detail page shows it.
#[derive(Clone, Debug)]
pub struct InvoiceWithLines {
    pub invoice: Invoice,
    pub lines: Vec<LineItem>,
    pub events: Vec<InvoiceEvent>,
}

/// A filter for listing invoices.
#[derive(Clone, Debug)]
pub struct InvoiceFilter {
    pub company_id: Option<String>,
    pub statuses: Option<Vec<InvoiceStatus>>,
    pub date_from: Option<String>,
    pub date_to: Option<String>,
    pub query: Option<String>,
    pub page: Option<crate::models::Page>,
}

/// The numbers of one entered line: quantity, unit price and nominal VAT rate (percent).
#[derive(Clone, Debug)]
pub struct LineNumbers {
    pub name: String,
    pub quantity: Dec,
    pub unit_price: Dec,
    pub vat_rate: Dec,
    pub vat_category: String,
}

/// Why a new invoice was refused.
#[derive(Clone, Debug)]
pub enum InvoiceError {
    /// An invoice needs at least one line.
    NoLines,
    /// A line's VAT rate is not one of the rates in force.
    InvalidVatRate(Dec),
    /// A line has a negative quantity (corrections go through a credit note).
    NegativeQuantity(String),
    /// The payment means code is not in the UNCL4461 list.
    InvalidPaymentMeans(String),
}

/// A rate is valid when it is within 0.001 of one of the rates in force.
pub open spec fn spec_vat_rate_ok(rate: Dec) -> bool {
    exists|i: int| 0 <= i < spec_valid_vat_rates().len()
        && abs_int(spec_valid_vat_rates()[i] * pow10(28) - rate.val()) < pow10(25)
}

pub fn validate_vat_rate(rate: Dec) -> (r: bool)
    requires
        rate.wf(),
    ensures
        r == spec_vat_rate_ok(rate),
{
    let rates = valid_vat_rates();
    let tol = Dec { mant: 1, scale: 3 };
    proof {
        assert(tol.val() == 1 * pow10(25));
    }
    let n = rates.len();
    let mut i: usize = 0;
    while i < n
        invariant
            n == rates@.len(),
            rates@ == spec_valid_vat_rates(),
            rate.wf(),
            tol.val() == pow10(25),
            tol.wf(),
            i <= n,
            forall|j: int| 0 <= j < i ==> abs_int(spec_valid_vat_rates()[j] * pow10(28) - rate.val()) >= pow10(25),
        decreases n - i,
    {
        let r = Dec::from_int(rates[i]);
        proof {
            crate::decimal::lemma_spec_sub(r, rate);
            reveal_with_fuel(pow10, 1);
            crate::decimal::lemma_pow10_28();
            assert(r.val() == rates@[i as int] * pow10(28));
            crate::decimal::lemma_sub_none_large(r, rate);
            crate::decimal::lemma_pow10_mono(25, 28);
        }
        let d = match dec_sub(r, rate) {
            Some(x) => x,
            None => {
                i = i + 1;
                continue;
            },
        };
        if dec_lt(d.abs(), tol) {
            return true;
        }
        i = i + 1;
    }
    false
}

/// The rate charged on a line: the nominal rate for the standard category `S`, zero for
/// every other category.
pub open spec fn spec_effective_rate(raw: Dec, category: Seq<char>) -> Dec {
    if category == "S"@ { raw } else { Dec { mant: 0, scale: 0 } }
}

pub fn effective_vat_rate(raw: Dec, category: &str) -> (r: Dec)
    ensures
        r == spec_effective_rate(raw, category@),
{
    if str_eq(category, "S") { raw } else { Dec::zero() }
}

/// The amounts of one line.
#[derive(Clone, Copy, Debug)]
pub struct LineAmounts {
    pub subtotal: Dec,
    pub vat: Dec,
    pub total: Dec,
}

/// The amounts of a line: subtotal `qty × price` and VAT `subtotal × rate / 100`, each
/// rounded to two decimals (midpoints away from zero), total = subtotal + VAT. The division
/// is `Decimal`'s; `None` when an amount leaves the decimal range.
pub open spec fn spec_line_amounts(qty: Dec, price: Dec, raw_rate: Dec, category: Seq<char>) -> Option<LineAmounts> {
    let rate = spec_effective_rate(raw_rate, category);
    match spec_dec_mul(qty, price) {
        Some(p) => {
            let ls = spec_round_dp_away(p, 2);
            match spec_dec_mul(ls, rate) {
                Some(x) => match decimal_checked_div(x.mant, x.scale, 100, 0) {
                    Some((m, s)) => {
                        let lv = spec_round_dp_away(Dec { mant: m, scale: s }, 2);
                        match spec_dec_add(ls, lv) {
                            Some(lt) => Some(LineAmounts { subtotal: ls, vat: lv, total: lt }),
                            None => None,
                        }
                    },
                    None => None,
                },
                None => None,
            }
        },
        None => None,
    }
}

pub fn line_amounts(qty: Dec, price: Dec, raw_rate: Dec, category: &str) -> (r: Option<LineAmounts>)
    requires
        qty.wf(),
        price.wf(),
        raw_rate.wf(),
    ensures
        r == spec_line_amounts(qty, price, raw_rate, category@),
        r matches Some(a) ==> a.subtotal.wf() && a.vat.wf() && a.total.wf() && a.subtotal.scale <= 2
            && a.vat.scale <= 2 && a.total.val() == a.subtotal.val() + a.vat.val(),
        category@ != "S"@ ==> (r matches Some(a) ==> a.vat.val() == 0 && a.total.val() == a.subtotal.val()),
{
    let rate = effective_vat_rate(raw_rate, category);
    proof {
        lemma_zero_val(0);
    }
    let p = match dec_mul(qty, price) {
        Some(x) => x,
        None => return None,
    };
    let ls = round_dp_away(p, 2);
    proof {
        assert(rate.wf());
    }
    let x = match dec_mul(ls, rate) {
        Some(v) => v,
        None => return None,
    };
    let q = match checked_div(x, Dec { mant: 100, scale: 0 }) {
        Some(v) => v,
        None => return None,
    };
    let lv = round_dp_away(q, 2);
    proof {
        lemma_spec_add(ls, lv);
        if category@ != "S"@ {
            assert(rate.mant == 0);
            assert(x.mant == 0) by (nonlinear_arith)
                requires
                    x.mant == ls.mant * rate.mant,
                    rate.mant == 0,
            ;
            assert(q == Dec { mant: 0, scale: 0 });
            lemma_zero_val(lv.scale);
        }
    }
    let lt = match dec_add(ls, lv) {
        Some(v) => v,
        None => return None,
    };
    Some(LineAmounts { subtotal: ls, vat: lv, total: lt })
}

/// The invoice totals: Σ subtotals and Σ VAT, then each and their sum rounded to two
/// decimals (midpoints away from zero).
pub struct InvoiceTotals {
    pub subtotal: Dec,
    pub vat: Dec,
    pub total: Dec,
}

pub open spec fn spec_sum_pair(ls: Seq<LineAmounts>) -> Option<(Dec, Dec)>
    decreases ls.len(),
{
    if ls.len() == 0 {
        Some((Dec { mant: 0, scale: 0 }, Dec { mant: 0, scale: 0 }))
    } else {
        match spec_sum_pair(ls.drop_last()) {
            Some((s, v)) => match (spec_dec_add(s, ls.last().subtotal), spec_dec_add(v, ls.last().vat)) {
                (Some(s2), Some(v2)) => Some((s2, v2)),
                _ => None,
            },
            None => None,
        }
    }
}

pub open spec fn spec_invoice_totals(ls: Seq<LineAmounts>) -> Option<InvoiceTotals> {
    match spec_sum_pair(ls) {
        Some((s, v)) => match spec_dec_add(s, v) {
            Some(t) => Some(InvoiceTotals { subtotal: spec_round_dp_away(s, 2), vat: spec_round_dp_away(v, 2), total: spec_round_dp_away(t, 2) }),
            None => None,
        },
        None => None,
    }
}

pub open spec fn lines_two_dp(ls: Seq<LineAmounts>) -> bool {
    forall|i: int| 0 <= i < ls.len() ==> (#[trigger] ls[i]).subtotal.wf() && ls[i].vat.wf() && ls[i].subtotal.scale <= 2
        && ls[i].vat.scale <= 2
}

proof fn lemma_sum_pair(ls: Seq<LineAmounts>)
    requires
        lines_two_dp(ls),
    ensures
        spec_sum_pair(ls) matches Some((s, v)) ==> s.wf() && v.wf() && s.scale <= 2 && v.scale <= 2,
    decreases ls.len(),
{
    if ls.len() > 0 {
        let pre = ls.drop_last();
        assert(lines_two_dp(pre)) by {
            assert forall|i: int| 0 <= i < pre.len() implies (#[trigger] pre[i]).subtotal.wf() && pre[i].vat.wf()
                && pre[i].subtotal.scale <= 2 && pre[i].vat.scale <= 2 by {
                assert(pre[i] == ls[i]);
            }
        }
        lemma_sum_pair(pre);
        assert(ls.last() == ls[ls.len() - 1]);
        if let Some((s, v)) = spec_sum_pair(pre) {
            lemma_spec_add(s, ls.last().subtotal);
            lemma_spec_add(v, ls.last().vat);
        }
    }
}

proof fn lemma_sum_pair_none(ls: Seq<LineAmounts>, k: int)
    requires
        0 <= k <= ls.len(),
        spec_sum_pair(ls.subrange(0, k)) is None,
    ensures
        spec_sum_pair(ls) is None,
    decreases ls.len() - k,
{
    if k < ls.len() {
        assert(ls.subrange(0, k + 1).drop_last() =~= ls.subrange(0, k));
        lemma_sum_pair_none(ls, k + 1);
    } else {
        assert(ls.subrange(0, k) =~= ls);
    }
}

/// The totals of an invoice whose line amounts have at most two decimals reconcile:
/// total = subtotal + VAT exactly.
pub proof fn lemma_totals_reconcile(ls: Seq<LineAmounts>)
    requires
        lines_two_dp(ls),
    ensures
        spec_invoice_totals(ls) matches Some(t) ==> t.total.val() == t.subtotal.val() + t.vat.val(),
{
    lemma_sum_pair(ls);
    if let Some((s, v)) = spec_sum_pair(ls) {
        lemma_spec_add(s, v);
    }
}

/// Totals of an invoice from its line amounts; `None` when a sum leaves the decimal range.
pub fn invoice_totals(lines: &Vec<LineAmounts>) -> (r: Option<InvoiceTotals>)
    requires
        lines_two_dp(lines@),
    ensures
        r matches Some(t) ==> Some(t) == spec_invoice_totals(lines@) && t.total.val() == t.subtotal.val() + t.vat.val(),
        r is None <==> spec_invoice_totals(lines@) is None,
{
    let n = lines.len();
    let mut s = Dec::zero();
    let mut v = Dec::zero();
    let mut i: usize = 0;
    proof {
        assert(lines@.subrange(0, 0) =~= Seq::<LineAmounts>::empty());
    }
    while i < n
        invariant
            n == lines@.len(),
            i <= n,
            lines_two_dp(lines@),
            spec_sum_pair(lines@.subrange(0, i as int)) == Some((s, v)),
            s.wf(),
            v.wf(),
        decreases n - i,
    {
        let l = lines[i];
        proof {
            assert(lines@.subrange(0, i + 1).drop_last() =~= lines@.subrange(0, i as int));
            assert(lines@.subrange(0, i + 1).last() == lines@[i as int]);
            assert(lines@[i as int].subtotal.wf());
            lemma_spec_add(s, l.subtotal);
            lemma_spec_add(v, l.vat);
        }
        match (dec_add(s, l.subtotal), dec_add(v, l.vat)) {
            (Some(a), Some(b)) => {
                s = a;
                v = b;
            },
            _ => {
                proof { lemma_sum_pair_none(lines@, i + 1); }
                return None;
            },
        }
        i = i + 1;
    }
    proof {
        assert(lines@.subrange(0, n as int) =~= lines@);
        lemma_totals_reconcile(lines@);
        lemma_spec_add(s, v);
    }
    let t = match dec_add(s, v) {
        Some(x) => x,
        None => return None,
    };
    Some(InvoiceTotals { subtotal: round2(s), vat: round2(v), total: round2(t) })
}

/// The first refusal of a new invoice, in the order of the checks: no lines; then per line
/// an invalid VAT rate or a negative quantity; then the payment means code (default "30").
pub open spec fn spec_line_error(l: LineNumbers) -> Option<InvoiceError> {
    if !spec_vat_rate_ok(l.vat_rate) {
        Some(InvoiceError::InvalidVatRate(l.vat_rate))
    } else if l.quantity.val() < 0 {
        Some(InvoiceError::NegativeQuantity(l.name))
    } else {
        None
    }
}

/// Line `k` is the first line of `lines` that is refused.
pub open spec fn spec_first_bad_line(lines: Seq<LineNumbers>, k: int) -> bool {
    &&& 0 <= k < lines.len()
    &&& spec_line_error(lines[k]) is Some
    &&& forall|j: int| 0 <= j < k ==> spec_line_error(#[trigger] lines[j]) is None
}

pub open spec fn spec_pmc(pmc: Option<Seq<char>>) -> Seq<char> {
    match pmc {
        Some(c) => c,
        None => "30"@,
    }
}

/// Validates a new invoice and gives its payment means code.
pub fn validate_new_invoice(lines: &Vec<LineNumbers>, payment_means_code: Option<&str>) -> (r: Result<String, InvoiceError>)
    requires
        forall|i: int| 0 <= i < lines@.len() ==> (#[trigger] lines@[i]).vat_rate.wf() && lines@[i].quantity.wf(),
    ensures
        r is Ok <==> (lines@.len() > 0 && (forall|i: int| 0 <= i < lines@.len() ==> spec_line_error(#[trigger] lines@[i]) is None)
            && spec_valid_payment_means_codes().contains(spec_pmc(crate::payment_instruments::opt_view(payment_means_code)))),
        r matches Ok(c) ==> c@ == spec_pmc(crate::payment_instruments::opt_view(payment_means_code)),
        lines@.len() == 0 ==> r matches Err(InvoiceError::NoLines),
        forall|k: int| #[trigger] spec_first_bad_line(lines@, k) ==> {
            &&& !spec_vat_rate_ok(lines@[k].vat_rate) ==> r == Err::<String, InvoiceError>(
                InvoiceError::InvalidVatRate(lines@[k].vat_rate),
            )
            &&& spec_vat_rate_ok(lines@[k].vat_rate) ==> (r matches Err(InvoiceError::NegativeQuantity(s))
                && s@ == lines@[k].name@)
        },
        (lines@.len() > 0 && (forall|i: int| 0 <= i < lines@.len() ==> spec_line_error(#[trigger] lines@[i]) is None)
            && !spec_valid_payment_means_codes().contains(spec_pmc(crate::payment_instruments::opt_view(payment_means_code))))
            ==> (r matches Err(InvoiceError::InvalidPaymentMeans(s))
                && s@ == spec_pmc(crate::payment_instruments::opt_view(payment_means_code))),
{
    let n = lines.len();
    if n == 0 {
        return Err(InvoiceError::NoLines);
    }
    let mut i: usize = 0;
    while i < n
        invariant
            n == lines@.len(),
            i <= n,
            forall|k: int| 0 <= k < lines@.len() ==> (#[trigger] lines@[k]).vat_rate.wf() && lines@[k].quantity.wf(),
            forall|k: int| 0 <= k < i ==> spec_line_error(#[trigger] lines@[k]) is None,
        decreases n - i,
    {
        let l = &lines[i];
        proof {
            assert forall|k: int| spec_first_bad_line(lines@, k) && spec_line_error(lines@[i as int]) is Some
                implies k == i by {
                if k < i {
                    assert(spec_line_error(lines@[k]) is None);
                } else if k > i {
                    assert(spec_line_error(lines@[i as int]) is None);
                }
            }
        }
        if !validate_vat_rate(l.vat_rate) {
            return Err(InvoiceError::InvalidVatRate(l.vat_rate));
        }
        proof {
            lemma_val_sign(l.quantity);
        }
        if l.quantity.is_negative() {
            return Err(InvoiceError::NegativeQuantity(l.name.clone()));
        }
        i = i + 1;
    }
    let pmc = match payment_means_code {
        Some(c) => c,
        None => "30",
    };
    if !is_valid_payment_means_code(pmc) {
        return Err(InvoiceError::InvalidPaymentMeans(owned(pmc)));
    }
    Ok(owned(pmc))
}

/// The full number of an invoice: the series, a dash and the number padded to four digits.
pub fn full_number(series: &str, number: i64) -> (r: String)
    ensures
        r@ == series@ + "-"@ + spec_fmt_04(number as int),
{
    let mut s = concat_str(series, "-");
    push_str(&mut s, fmt_04(number).as_str());
    s
}

/// Only drafts can be deleted.
pub fn can_delete(status: &str) -> (r: bool)
    ensures
        r == (status@ == "DRAFT"@),
{
    str_eq(status, "DRAFT")
}

/// The history entry of a status change: its type `STATUS_<status>` and its message (the
/// given one, else "Status schimbat în <status>").
pub fn status_event(status: InvoiceStatus, message: Option<String>) -> (r: (String, String))
    ensures
        r.0@ == "STATUS_"@ + spec_invoice_status_text(status),
        r.1@ == (match message { Some(m) => m@, None => "Status schimbat în "@ + spec_invoice_status_text(status) }),
{
    let t = concat_str("STATUS_", status.as_str());
    let m = match message {
        Some(m) => m,
        None => concat_str("Status schimbat în ", status.as_str()),
    };
    (t, m)
}

/// Whether every line has its amounts.
pub open spec fn all_lines_priced(lines: Seq<LineNumbers>) -> bool {
    forall|i: int| 0 <= i < lines.len() ==> (#[trigger] spec_line_amounts(
        lines[i].quantity,
        lines[i].unit_price,
        lines[i].vat_rate,
        lines[i].vat_category@,
    )) is Some
}

/// The amounts of each line, in order.
pub open spec fn spec_priced(lines: Seq<LineNumbers>) -> Seq<LineAmounts> {
    Seq::new(
        lines.len(),
        |i: int| spec_line_amounts(lines[i].quantity, lines[i].unit_price, lines[i].vat_rate, lines[i].vat_category@).unwrap(),
    )
}

/// The amounts of each line (in order) and the invoice totals over them. `None` when a
/// line's amounts or the totals leave the decimal range.
pub fn price_lines(lines: &Vec<LineNumbers>) -> (r: Option<(Vec<LineAmounts>, InvoiceTotals)>)
    requires
        forall|i: int| 0 <= i < lines@.len() ==> (#[trigger] lines@[i]).quantity.wf() && lines@[i].unit_price.wf()
            && lines@[i].vat_rate.wf(),
    ensures
        r is None <==> !all_lines_priced(lines@) || spec_invoice_totals(spec_priced(lines@)) is None,
        r matches Some((a, t)) ==> {
            &&& a@ == spec_priced(lines@)
            &&& Some(t) == spec_invoice_totals(a@)
            &&& t.total.val() == t.subtotal.val() + t.vat.val()
        },
{
    let n = lines.len();
    let mut amounts: Vec<LineAmounts> = Vec::new();
    let mut i: usize = 0;
    while i < n
        invariant
            n == lines@.len(),
            i <= n,
            forall|k: int| 0 <= k < lines@.len() ==> (#[trigger] lines@[k]).quantity.wf() && lines@[k].unit_price.wf()
                && lines@[k].vat_rate.wf(),
            amounts@.len() == i,
            forall|k: int| 0 <= k < i ==> Some(#[trigger] amounts@[k]) == spec_line_amounts(
                lines@[k].quantity,
                lines@[k].unit_price,
                lines@[k].vat_rate,
                lines@[k].vat_category@,
            ),
            lines_two_dp(amounts@),
        decreases n - i,
    {
        let l = &lines[i];
        match line_amounts(l.quantity, l.unit_price, l.vat_rate, l.vat_category.as_str()) {
            Some(a) => {
                amounts.push(a);
                proof {
                    assert forall|k: int| 0 <= k < i + 1 implies Some(#[trigger] amounts@[k]) == spec_line_amounts(
                        lines@[k].quantity,
                        lines@[k].unit_price,
                        lines@[k].vat_rate,
                        lines@[k].vat_category@,
                    ) by {}
                    assert forall|k: int| 0 <= k < amounts@.len() implies (#[trigger] amounts@[k]).subtotal.wf()
                        && amounts@[k].vat.wf() && amounts@[k].subtotal.scale <= 2 && amounts@[k].vat.scale <= 2 by {
                    }
                }
            },
            None => {
                proof {
                    assert(spec_line_amounts(lines@[i as int].quantity, lines@[i as int].unit_price, lines@[i as int].vat_rate, lines@[i as int].vat_category@) is None);
                }
                return None;
            },
        }
        i = i + 1;
    }
    proof {
        assert forall|k: int| 0 <= k < lines@.len() implies (#[trigger] spec_line_amounts(
            lines@[k].quantity,
            lines@[k].unit_price,
            lines@[k].vat_rate,
            lines@[k].vat_category@,
        )) is Some by {
            assert(Some(amounts@[k]) == spec_line_amounts(lines@[k].quantity, lines@[k].unit_price, lines@[k].vat_rate, lines@[k].vat_category@));
        }
        assert(amounts@ =~= spec_priced(lines@));
    }
    match invoice_totals(&amounts) {
        Some(t) => Some((amounts, t)),
        None => None,
    }
}

} // verus!
