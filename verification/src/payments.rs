//! Payments received against issued invoices: validation of an amount and the payment
//! summary of an invoice (paid amount and status).

use vstd::prelude::*;
use crate::decimal::{
    Dec, dec_add, dec_le, spec_dec_add, lemma_spec_add, lemma_val_sign, lemma_zero_val, round2,
    spec_round_dp_away, parse_or_zero, spec_parse_or_zero, parse_decimal,
};
use crate::payment_instruments::spec_parse_amount;
use crate::text::{owned, trim, str_eq};

verus! {

/// A payment as stored.
#[derive(Clone, Debug)]
pub struct Payment {
    pub id: String,
    pub invoice_id: String,
    pub company_id: String,
    pub amount: String,
    pub currency: String,
    pub paid_at: String,
    pub method: String,
    pub reference: Option<String>,
    pub notes: Option<String>,
    pub created_at: i64,
}

/// A new payment as entered (the payment-date exchange rate, a float, is read by the caller).
#[derive(Clone, Debug)]
pub struct CreatePaymentInput {
    pub invoice_id: String,
    pub company_id: String,
    pub amount: String,
    pub currency: Option<String>,
    pub paid_at: String,
    pub method: Option<String>,
    pub reference: Option<String>,
    pub notes: Option<String>,
}

/// What is paid of an invoice.
#[derive(Clone, Debug)]
pub struct PaymentSummary {
    pub invoice_id: String,
    pub total_amount: String,
    pub paid_amount: String,
    pub payment_status: String,
    pub payments: Vec<Payment>,
}

/// Why a payment was refused.
#[derive(Clone, Copy, Debug, PartialEq, Eq, Structural)]
pub enum PaymentError {
    /// The amount is not a decimal number.
    InvalidAmount,
    /// The amount is zero or negative.
    NonPositiveAmount,
}

/// Accepts an amount that reads (trimmed) as a number above zero.
pub fn validate_payment_amount(amount: &str) -> (r: Result<Dec, PaymentError>)
    ensures
        spec_parse_amount(amount@) is None ==> r == Err::<Dec, PaymentError>(PaymentError::InvalidAmount),
        spec_parse_amount(amount@) matches Some(d) ==> if d.val() > 0 { r == Ok::<Dec, PaymentError>(d) } else { r == Err::<Dec, PaymentError>(PaymentError::NonPositiveAmount) },
{
    match parse_decimal(trim(amount)) {
        Some(d) => {
            proof {
                lemma_val_sign(d);
            }
            if d.is_positive() {
                Ok(d)
            } else {
                Err(PaymentError::NonPositiveAmount)
            }
        },
        None => Err(PaymentError::InvalidAmount),
    }
}

/// The status of an invoice from what is paid: nothing paid (or a non-positive sum) is
/// UNPAID, at least the total is PAID, anything between is PARTIAL.
pub open spec fn spec_payment_status(paid: Dec, total: Dec) -> Seq<char> {
    if paid.val() <= 0 {
        "UNPAID"@
    } else if paid.val() >= total.val() {
        "PAID"@
    } else {
        "PARTIAL"@
    }
}

pub fn payment_status(paid: Dec, total: Dec) -> (r: &'static str)
    requires
        paid.wf(),
        total.wf(),
    ensures
        r@ == spec_payment_status(paid, total),
{
    proof {
        lemma_val_sign(paid);
    }
    if !paid.is_positive() {
        "UNPAID"
    } else if dec_le(total, paid) {
        "PAID"
    } else {
        "PARTIAL"
    }
}

/// Σ of the stored amounts (each read trimmed, zero when not a number), left to right.
pub open spec fn spec_paid_sum(amounts: Seq<Seq<char>>) -> Option<Dec>
    decreases amounts.len(),
{
    if amounts.len() == 0 {
        Some(Dec { mant: 0, scale: 0 })
    } else {
        match spec_paid_sum(amounts.drop_last()) {
            Some(t) => spec_dec_add(t, spec_parse_or_zero(amounts.last())),
            None => None,
        }
    }
}

proof fn lemma_paid_sum_none(a: Seq<Seq<char>>, k: int)
    requires
        0 <= k <= a.len(),
        spec_paid_sum(a.subrange(0, k)) is None,
    ensures
        spec_paid_sum(a) is None,
    decreases a.len() - k,
{
    if k < a.len() {
        assert(a.subrange(0, k + 1).drop_last() =~= a.subrange(0, k));
        lemma_paid_sum_none(a, k + 1);
    } else {
        assert(a.subrange(0, k) =~= a);
    }
}

/// The summary of an invoice from its stored total and its payments: paid = Σ amounts
/// rounded to two decimals (midpoints away from zero), compared with the total rounded
/// likewise. `None` when the sum leaves the decimal range.
pub fn payment_summary(invoice_id: &str, total_amount: &str, payments: Vec<Payment>) -> (r: Option<PaymentSummary>)
    ensures
        ({
            let amounts = payments@.map_values(|p: Payment| p.amount@);
            &&& r is None <==> spec_paid_sum(amounts) is None
            &&& r matches Some(s) ==> {
                let paid = spec_round_dp_away(spec_paid_sum(amounts).unwrap(), 2);
                let total = spec_round_dp_away(spec_parse_or_zero(total_amount@), 2);
                &&& s.invoice_id@ == invoice_id@
                &&& s.total_amount@ == total_amount@
                &&& s.paid_amount@ == crate::decimal::decimal_to_string(spec_round_dp_away(paid, 2).mant, spec_round_dp_away(paid, 2).scale)
                &&& s.payment_status@ == spec_payment_status(paid, total)
                &&& s.payments@ == payments@
            }
        }),
{
    let ghost amounts = payments@.map_values(|p: Payment| p.amount@);
    let mut t = Dec::zero();
    let n = payments.len();
    let mut i: usize = 0;
    proof {
        assert(amounts.subrange(0, 0) =~= Seq::<Seq<char>>::empty());
        lemma_zero_val(0);
    }
    while i < n
        invariant
            n == payments@.len(),
            amounts == payments@.map_values(|p: Payment| p.amount@),
            i <= n,
            spec_paid_sum(amounts.subrange(0, i as int)) == Some(t),
            t.wf(),
        decreases n - i,
    {
        let a = parse_or_zero(payments[i].amount.as_str());
        proof {
            assert(amounts.subrange(0, i + 1).drop_last() =~= amounts.subrange(0, i as int));
            assert(amounts.subrange(0, i + 1).last() == payments@[i as int].amount@);
            lemma_spec_add(t, a);
        }
        t = match dec_add(t, a) {
            Some(x) => x,
            None => {
                proof { lemma_paid_sum_none(amounts, i + 1); }
                return None;
            },
        };
        i = i + 1;
    }
    proof {
        assert(amounts.subrange(0, n as int) =~= amounts);
    }
    let paid = round2(t);
    let total = round2(parse_or_zero(total_amount));
    let status = payment_status(paid, total);
    Some(PaymentSummary {
        invoice_id: owned(invoice_id),
        total_amount: owned(total_amount),
        paid_amount: round2(paid).to_text(),
        payment_status: owned(status),
        payments,
    })
}

/// The payments of one invoice, in the order of `payments`.
pub open spec fn spec_invoice_payments(payments: Seq<Payment>, invoice_id: Seq<char>) -> Seq<Payment>
    decreases payments.len(),
{
    if payments.len() == 0 {
        Seq::empty()
    } else {
        let pre = spec_invoice_payments(payments.drop_last(), invoice_id);
        if payments.last().invoice_id@ == invoice_id {
            pre.push(payments.last())
        } else {
            pre
        }
    }
}

/// No earlier invoice of the list has the id of invoice `j`.
pub open spec fn spec_first_with_id(ids: Seq<String>, j: int) -> bool {
    forall|h: int| 0 <= h < j ==> ids[h]@ != ids[j]@
}

fn first_with_id(ids: &Vec<String>, id: &String) -> (r: Option<usize>)
    ensures
        r matches Some(j) ==> j < ids@.len() && ids@[j as int]@ == id@ && spec_first_with_id(ids@, j as int),
        r is None ==> forall|h: int| 0 <= h < ids@.len() ==> ids@[h]@ != id@,
{
    let n = ids.len();
    let mut j: usize = 0;
    while j < n
        invariant
            n == ids@.len(),
            j <= n,
            forall|h: int| 0 <= h < j ==> ids@[h]@ != id@,
        decreases n - j,
    {
        if str_eq(ids[j].as_str(), id.as_str()) {
            return Some(j);
        }
        j = j + 1;
    }
    None
}

/// The payments of each invoice of `invoice_ids`, each list in the order of `payments`.
/// An id met again further down the list gets no payments there, and payments of an
/// invoice not in the list are left out.
pub fn payments_by_invoice(invoice_ids: &Vec<String>, payments: Vec<Payment>) -> (r: Vec<Vec<Payment>>)
    ensures
        r@.len() == invoice_ids@.len(),
        forall|j: int| 0 <= j < invoice_ids@.len() ==> (#[trigger] r@[j])@ == (if spec_first_with_id(invoice_ids@, j) {
            spec_invoice_payments(payments@, invoice_ids@[j]@)
        } else {
            Seq::empty()
        }),
{
    let ghost ps = payments@;
    let m = invoice_ids.len();
    let mut buckets: Vec<Vec<Payment>> = Vec::new();
    let mut j: usize = 0;
    while j < m
        invariant
            m == invoice_ids@.len(),
            j <= m,
            buckets@.len() == j,
            forall|h: int| 0 <= h < j ==> (#[trigger] buckets@[h])@ == Seq::<Payment>::empty(),
        decreases m - j,
    {
        buckets.push(Vec::new());
        j = j + 1;
    }
    proof {
        assert(ps.subrange(0, 0) =~= Seq::<Payment>::empty());
    }
    let n = payments.len();
    let mut src = payments;
    let mut rest: Vec<Payment> = Vec::new();
    while src.len() > 0
        invariant
            n == ps.len(),
            src@ == ps.subrange(0, n - rest@.len()),
            rest@.len() <= n,
            forall|t: int| 0 <= t < rest@.len() ==> #[trigger] rest@[t] == ps[n - 1 - t],
        decreases src@.len(),
    {
        let p = src.pop().unwrap();
        rest.push(p);
    }
    let mut k: usize = 0;
    while k < n
        invariant
            n == ps.len(),
            k <= n,
            rest@.len() == n - k,
            forall|t: int| 0 <= t < n - k ==> #[trigger] rest@[t] == ps[n - 1 - t],
            m == invoice_ids@.len(),
            buckets@.len() == m,
            forall|h: int| 0 <= h < m ==> (#[trigger] buckets@[h])@ == (if spec_first_with_id(invoice_ids@, h) {
                spec_invoice_payments(ps.subrange(0, k as int), invoice_ids@[h]@)
            } else {
                Seq::empty()
            }),
        decreases n - k,
    {
        let p = rest.pop().unwrap();
        let ghost pre = ps.subrange(0, k as int);
        let ghost post = ps.subrange(0, k + 1);
        proof {
            assert(p == ps[k as int]);
            assert(post.drop_last() =~= pre);
            assert(post.last() == p);
        }
        let ghost old_buckets = buckets@;
        match first_with_id(invoice_ids, &p.invoice_id) {
            Some(h) => {
                let mut b = buckets.remove(h);
                b.push(p);
                buckets.insert(h, b);
                proof {
                    assert(buckets@ =~= old_buckets.update(h as int, b));
                    assert forall|g: int| 0 <= g < m implies (#[trigger] buckets@[g])@ == (if spec_first_with_id(invoice_ids@, g) {
                        spec_invoice_payments(post, invoice_ids@[g]@)
                    } else {
                        Seq::empty()
                    }) by {
                        if g != h {
                            assert(buckets@[g] == old_buckets[g]);
                            if spec_first_with_id(invoice_ids@, g) && invoice_ids@[g]@ == p.invoice_id@ {
                                if g < h {
                                    assert(invoice_ids@[g]@ == invoice_ids@[h as int]@);
                                } else {
                                    assert(!spec_first_with_id(invoice_ids@, g)) by {
                                        assert(invoice_ids@[h as int]@ == invoice_ids@[g]@);
                                    }
                                }
                            }
                        }
                    }
                }
            },
            None => {
                proof {
                    assert forall|g: int| 0 <= g < m implies (#[trigger] buckets@[g])@ == (if spec_first_with_id(invoice_ids@, g) {
                        spec_invoice_payments(post, invoice_ids@[g]@)
                    } else {
                        Seq::empty()
                    }) by {
                        assert(invoice_ids@[g]@ != p.invoice_id@);
                    }
                }
            },
        }
        k = k + 1;
    }
    proof {
        assert(ps.subrange(0, n as int) =~= ps);
    }
    buckets
}

} // verus!
