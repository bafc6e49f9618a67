//! Cheques (CEC) and promissory notes (BO): validation of a new instrument and the life
//! cycle of an instrument as a state machine. Each event takes the stored instrument and
//! gives the next status and the accounting notes to post:
//!
//! received: registration D 413 / C 4111; deposit D 5112|5113 / C 413; collection
//! D 5121 / C 5112|5113; dishonour D 4111 / C 5112|5113; discounting of a BO
//! (D 5114 / C 413, then D 5121 net + D 667 discount [+ D 627 fee] / C 5114).
//! issued: acceptance D 401 / C 403; payment at maturity D 403 / C 5121.

use vstd::prelude::*;
use crate::decimal::{
    Dec, dec_add, dec_sub, dec_le, spec_dec_add, spec_dec_sub, lemma_spec_add, lemma_spec_sub,
    lemma_val_sign, lemma_zero_val, parse_decimal, decimal_from_str,
};
use crate::gl::{
    GlLine, GlLineView, views, balanced, total_debit, total_credit, plain_line, account_debit, account_credit,
    lemma_account_sides_small, lemma_account_sides_concat,
};
use crate::closing::{pline, zero_dec};
use crate::text::{owned, str_eq, trim, spec_trim};

verus! {

/// A payment instrument as stored.
#[derive(Clone, Debug)]
pub struct PaymentInstrument {
    pub id: String,
    pub company_id: String,
    pub kind: String,
    pub direction: String,
    pub partner_id: Option<String>,
    pub partner_cui: Option<String>,
    pub number: Option<String>,
    pub amount: String,
    pub currency: String,
    pub issue_date: String,
    pub scadenta: Option<String>,
    pub status: String,
    pub discount_amount: Option<String>,
    pub commission_amount: Option<String>,
    pub notes: Option<String>,
    pub created_at: i64,
    pub updated_at: i64,
}

/// A new instrument as entered.
#[derive(Clone, Debug)]
pub struct CreatePaymentInstrumentInput {
    pub company_id: String,
    pub kind: String,
    pub direction: String,
    pub partner_id: Option<String>,
    pub partner_cui: Option<String>,
    pub number: Option<String>,
    pub amount: String,
    pub currency: Option<String>,
    pub issue_date: String,
    pub scadenta: Option<String>,
    pub notes: Option<String>,
}

/// New descriptive fields of a registered instrument.
#[derive(Clone, Debug)]
pub struct UpdatePaymentInstrumentInput {
    pub partner_id: Option<String>,
    pub partner_cui: Option<String>,
    pub number: Option<String>,
    pub amount: String,
    pub currency: Option<String>,
    pub issue_date: String,
    pub scadenta: Option<String>,
    pub notes: Option<String>,
}

/// Why an instrument or an event was refused.
#[derive(Clone, Debug)]
pub enum InstrumentError {
    /// The kind is neither CEC nor BO.
    InvalidKind(String),
    /// The direction is neither received nor issued.
    InvalidDirection(String),
    /// A cheque is payable at sight and takes no maturity.
    CecWithMaturity,
    /// A promissory note needs a maturity.
    BoWithoutMaturity,
    /// The amount is not a decimal number.
    InvalidAmount(String),
    /// The amount is zero or negative.
    NonPositiveAmount,
    /// A stored amount is not a decimal number.
    InvalidStoredAmount(String),
    /// The event needs another status (action, expected status, current status).
    WrongStatus(String, String, String),
    /// The event is only for the other direction (action, expected direction).
    WrongDirection(String, String),
    /// Only promissory notes can be discounted.
    DiscountNotBo,
    /// Discounting needs status registered or deposited.
    DiscountStatus,
    /// Discount plus fee reach the amount of the instrument.
    DiscountTooLarge,
    /// Only a registered instrument can be edited.
    NotEditable,
}

pub open spec fn spec_kind_ok(kind: Seq<char>) -> bool {
    kind == "CEC"@ || kind == "BO"@
}

/// Accepts the kinds CEC and BO.
pub fn validate_kind(kind: &str) -> (r: Result<(), InstrumentError>)
    ensures
        r is Ok <==> spec_kind_ok(kind@),
        r matches Err(e) ==> e matches InstrumentError::InvalidKind(k) && k@ == kind@,
{
    if str_eq(kind, "CEC") || str_eq(kind, "BO") {
        Ok(())
    } else {
        Err(InstrumentError::InvalidKind(owned(kind)))
    }
}

pub open spec fn spec_direction_ok(dir: Seq<char>) -> bool {
    dir == "received"@ || dir == "issued"@
}

/// Accepts the directions received and issued.
pub fn validate_direction(dir: &str) -> (r: Result<(), InstrumentError>)
    ensures
        r is Ok <==> spec_direction_ok(dir@),
        r matches Err(e) ==> e matches InstrumentError::InvalidDirection(k) && k@ == dir@,
{
    if str_eq(dir, "received") || str_eq(dir, "issued") {
        Ok(())
    } else {
        Err(InstrumentError::InvalidDirection(owned(dir)))
    }
}

/// A cheque must not carry a maturity (an empty text counts as none); a promissory note
/// must carry one that is not blank. Other kinds are not checked here.
pub open spec fn spec_scadenta_error(kind: Seq<char>, scadenta: Option<Seq<char>>) -> Option<InstrumentError> {
    if kind == "CEC"@ && (scadenta matches Some(s) && s.len() > 0) {
        Some(InstrumentError::CecWithMaturity)
    } else if kind == "BO"@ && (scadenta matches Some(s) ==> spec_trim(s).len() == 0) {
        Some(InstrumentError::BoWithoutMaturity)
    } else {
        None
    }
}

pub open spec fn opt_view(o: Option<&str>) -> Option<Seq<char>> {
    match o {
        Some(s) => Some(s@),
        None => None,
    }
}

pub fn validate_scadenta(kind: &str, scadenta: Option<&str>) -> (r: Result<(), InstrumentError>)
    ensures
        r is Ok <==> spec_scadenta_error(kind@, opt_view(scadenta)) is None,
        r matches Err(e) ==> Some(e) == spec_scadenta_error(kind@, opt_view(scadenta)),
{
    proof {
        reveal_strlit("CEC");
        reveal_strlit("BO");
    }
    let cec_bad = str_eq(kind, "CEC") && match scadenta {
        Some(s) => s.unicode_len() > 0,
        None => false,
    };
    if cec_bad {
        return Err(InstrumentError::CecWithMaturity);
    }
    let bo_bad = str_eq(kind, "BO") && match scadenta {
        Some(s) => trim(s).unicode_len() == 0,
        None => true,
    };
    if bo_bad {
        return Err(InstrumentError::BoWithoutMaturity);
    }
    Ok(())
}

/// A stored amount: the trimmed text as a decimal number.
pub open spec fn spec_parse_amount(s: Seq<char>) -> Option<Dec> {
    match decimal_from_str(spec_trim(s)) {
        Some((m, sc)) => if (Dec { mant: m, scale: sc }).wf() { Some(Dec { mant: m, scale: sc }) } else { None },
        None => None,
    }
}

/// Reads a stored amount; refuses a text that is not a decimal number.
pub fn parse_amount(s: &str) -> (r: Result<Dec, InstrumentError>)
    ensures
        r is Ok <==> spec_parse_amount(s@) is Some,
        r matches Ok(d) ==> Some(d) == spec_parse_amount(s@) && d.wf(),
        r matches Err(e) ==> e matches InstrumentError::InvalidStoredAmount(t) && t@ == s@,
{
    match parse_decimal(trim(s)) {
        Some(d) => Ok(d),
        None => Err(InstrumentError::InvalidStoredAmount(owned(s))),
    }
}

/// Accepts an entered amount that is a decimal number above zero.
pub fn validate_amount(amount: &str) -> (r: Result<Dec, InstrumentError>)
    ensures
        r is Ok <==> (spec_parse_amount(amount@) matches Some(d) && d.val() > 0),
        r matches Ok(d) ==> Some(d) == spec_parse_amount(amount@) && d.wf(),
        spec_parse_amount(amount@) is None ==> (r matches Err(InstrumentError::InvalidAmount(t)) && t@ == amount@),
        (spec_parse_amount(amount@) matches Some(d) && d.val() <= 0) ==> (r matches Err(
            InstrumentError::NonPositiveAmount,
        )),
{
    match parse_decimal(trim(amount)) {
        Some(d) => {
            proof {
                lemma_val_sign(d);
            }
            if d.is_positive() {
                Ok(d)
            } else {
                Err(InstrumentError::NonPositiveAmount)
            }
        },
        None => Err(InstrumentError::InvalidAmount(owned(amount))),
    }
}

/// Refuses an event whose required status differs from the current one.
pub fn guard_status(current: &str, expected: &str, action: &str) -> (r: Result<(), InstrumentError>)
    ensures
        r is Ok <==> current@ == expected@,
        r matches Err(e) ==> e matches InstrumentError::WrongStatus(a, x, c) && a@ == action@ && x@ == expected@ && c@
            == current@,
{
    if str_eq(current, expected) {
        Ok(())
    } else {
        Err(InstrumentError::WrongStatus(owned(action), owned(expected), owned(current)))
    }
}

/// Refuses an event meant for the other direction.
pub fn guard_direction(current: &str, expected: &str, action: &str) -> (r: Result<(), InstrumentError>)
    ensures
        r is Ok <==> current@ == expected@,
        r matches Err(e) ==> e matches InstrumentError::WrongDirection(a, x) && a@ == action@ && x@ == expected@,
{
    if str_eq(current, expected) {
        Ok(())
    } else {
        Err(InstrumentError::WrongDirection(owned(action), owned(expected)))
    }
}

/// Validates a new instrument (kind, direction, maturity, amount — in this order) and
/// gives its registration note: received D 413 / C 4111, issued D 401 / C 403.
pub fn validate_new(input: &CreatePaymentInstrumentInput) -> (r: Result<Vec<GlLine>, InstrumentError>)
    ensures
        r is Ok <==> (spec_kind_ok(input.kind@) && spec_direction_ok(input.direction@)
            && spec_scadenta_error(input.kind@, opt_str(input.scadenta)) is None
            && (spec_parse_amount(input.amount@) matches Some(d) && d.val() > 0)),
        r matches Ok(ls) ==> views(ls@) == spec_receive_lines(input.direction@, spec_parse_amount(input.amount@).unwrap())
            && balanced(views(ls@)),
        !spec_kind_ok(input.kind@) ==> (r matches Err(InstrumentError::InvalidKind(k)) && k@ == input.kind@),
        spec_kind_ok(input.kind@) && !spec_direction_ok(input.direction@) ==> (r matches Err(
            InstrumentError::InvalidDirection(k),
        ) && k@ == input.direction@),
        spec_kind_ok(input.kind@) && spec_direction_ok(input.direction@) ==> (spec_scadenta_error(
            input.kind@,
            opt_str(input.scadenta),
        ) matches Some(e) ==> r == Err::<Vec<GlLine>, InstrumentError>(e)),
        spec_kind_ok(input.kind@) && spec_direction_ok(input.direction@) && spec_scadenta_error(
            input.kind@,
            opt_str(input.scadenta),
        ) is None ==> {
            &&& spec_parse_amount(input.amount@) is None ==> (r matches Err(InstrumentError::InvalidAmount(t))
                && t@ == input.amount@)
            &&& (spec_parse_amount(input.amount@) matches Some(d) && d.val() <= 0) ==> (r matches Err(
                InstrumentError::NonPositiveAmount,
            ))
        },
{
    if let Err(e) = validate_kind(input.kind.as_str()) {
        return Err(e);
    }
    if let Err(e) = validate_direction(input.direction.as_str()) {
        return Err(e);
    }
    let sc: Option<&str> = match &input.scadenta {
        Some(s) => Some(s.as_str()),
        None => None,
    };
    if let Err(e) = validate_scadenta(input.kind.as_str(), sc) {
        return Err(e);
    }
    match validate_amount(input.amount.as_str()) {
        Ok(d) => Ok(receive_lines(input.direction.as_str(), d)),
        Err(e) => Err(e),
    }
}

pub open spec fn opt_str(o: Option<String>) -> Option<Seq<char>> {
    match o {
        Some(s) => Some(s@),
        None => None,
    }
}

/// The registration (received) or acceptance (issued) note: C 4111 / D 413, or C 403 / D 401.
pub open spec fn spec_receive_lines(direction: Seq<char>, d: Dec) -> Seq<GlLineView> {
    if direction == "received"@ {
        seq![pline("4111"@, zero_dec(), d), pline("413"@, d, zero_dec())]
    } else {
        seq![pline("403"@, zero_dec(), d), pline("401"@, d, zero_dec())]
    }
}

proof fn lemma_pair_balanced(s: Seq<GlLineView>)
    requires
        s.len() == 2,
        s[0].debit.val() + s[1].debit.val() == s[0].credit.val() + s[1].credit.val(),
    ensures
        balanced(s),
{
    reveal_with_fuel(total_debit, 3);
    reveal_with_fuel(total_credit, 3);
    assert(s.drop_last().drop_last() =~= Seq::<GlLineView>::empty());
}

fn two_lines(a1: &str, d1: Dec, c1: Dec, a2: &str, d2: Dec, c2: Dec) -> (r: Vec<GlLine>)
    ensures
        views(r@) == seq![pline(a1@, d1, c1), pline(a2@, d2, c2)],
{
    let mut v: Vec<GlLine> = Vec::new();
    v.push(plain_line(a1, d1, c1));
    v.push(plain_line(a2, d2, c2));
    assert(views(v@) =~= seq![pline(a1@, d1, c1), pline(a2@, d2, c2)]);
    v
}

fn receive_lines(direction: &str, d: Dec) -> (r: Vec<GlLine>)
    ensures
        views(r@) == spec_receive_lines(direction@, d),
        balanced(views(r@)),
{
    proof {
        lemma_zero_val(0);
        lemma_pair_balanced(spec_receive_lines(direction@, d));
    }
    if str_eq(direction, "received") {
        two_lines("4111", Dec::zero(), d, "413", d, Dec::zero())
    } else {
        two_lines("403", Dec::zero(), d, "401", d, Dec::zero())
    }
}

/// The transit account of a received instrument at the bank: 5112 for a cheque, else 5113.
pub open spec fn spec_transit(kind: Seq<char>) -> Seq<char> {
    if kind == "CEC"@ { "5112"@ } else { "5113"@ }
}

fn transit(kind: &str) -> (r: &'static str)
    ensures
        r@ == spec_transit(kind@),
{
    if str_eq(kind, "CEC") { "5112" } else { "5113" }
}

/// One note of an event, with the suffix that identifies it among the instrument's notes.
pub struct InstrumentNote {
    pub event: String,
    pub lines: Vec<GlLine>,
}

/// What an event does: the instrument's next status and the notes to post, in order.
pub struct InstrumentTransition {
    pub new_status: String,
    pub notes: Vec<InstrumentNote>,
}

pub open spec fn note_views(ns: Seq<InstrumentNote>) -> Seq<(Seq<char>, Seq<GlLineView>)> {
    ns.map_values(|n: InstrumentNote| (n.event@, views(n.lines@)))
}

/// The kinds of events of the life cycle.
#[derive(Clone, Copy, Debug, PartialEq, Eq, Structural)]
pub enum InstrumentEvent {
    Deposit,
    Collect,
    Dishonor,
    Pay,
}

/// An event other than discounting: its required status and direction, the status it
/// leads to, the note's suffix and lines.
/// - deposit: registered, received → deposited; D transit / C 413
/// - collect: deposited, received → collected; D 5121 / C transit
/// - dishonor: deposited, received → dishonored; D 4111 / C transit
/// - pay: registered, issued → paid; D 403 / C 5121
pub open spec fn spec_event_rule(ev: InstrumentEvent, kind: Seq<char>, amount: Dec) -> (Seq<char>, Seq<char>, Seq<char>, Seq<char>, Seq<GlLineView>) {
    let t = spec_transit(kind);
    match ev {
        InstrumentEvent::Deposit => ("registered"@, "received"@, "deposited"@, "deposit"@,
            seq![pline("413"@, zero_dec(), amount), pline(t, amount, zero_dec())]),
        InstrumentEvent::Collect => ("deposited"@, "received"@, "collected"@, "collect"@,
            seq![pline(t, zero_dec(), amount), pline("5121"@, amount, zero_dec())]),
        InstrumentEvent::Dishonor => ("deposited"@, "received"@, "dishonored"@, "dishonor"@,
            seq![pline(t, zero_dec(), amount), pline("4111"@, amount, zero_dec())]),
        InstrumentEvent::Pay => ("registered"@, "issued"@, "paid"@, "pay"@,
            seq![pline("403"@, amount, zero_dec()), pline("5121"@, zero_dec(), amount)]),
    }
}

/// The name of an event in the messages that refuse it.
pub open spec fn spec_event_action(ev: InstrumentEvent) -> Seq<char> {
    match ev {
        InstrumentEvent::Deposit => "depunere"@,
        InstrumentEvent::Collect => "încasare"@,
        InstrumentEvent::Dishonor => "refuz/protest"@,
        InstrumentEvent::Pay => "plată la scadență"@,
    }
}

/// Applies an event (other than discounting) to an instrument: the status is checked first,
/// then the direction, then the stored amount is read.
pub fn apply_event(pi: &PaymentInstrument, ev: InstrumentEvent) -> (r: Result<InstrumentTransition, InstrumentError>)
    ensures
        ({
            let (need_status, need_dir, next, suffix, _ls) = spec_event_rule(ev, pi.kind@, zero_dec());
            &&& r is Ok <==> (pi.status@ == need_status && pi.direction@ == need_dir && spec_parse_amount(pi.amount@) is Some)
            &&& r matches Ok(t) ==> {
                let amount = spec_parse_amount(pi.amount@).unwrap();
                &&& t.new_status@ == next
                &&& note_views(t.notes@) == seq![(suffix, spec_event_rule(ev, pi.kind@, amount).4)]
                &&& balanced(spec_event_rule(ev, pi.kind@, amount).4)
            }
            &&& pi.status@ != need_status ==> (r matches Err(InstrumentError::WrongStatus(a, x, c))
                && a@ == spec_event_action(ev) && x@ == need_status && c@ == pi.status@)
            &&& pi.status@ == need_status && pi.direction@ != need_dir ==> (r matches Err(
                InstrumentError::WrongDirection(a, x),
            ) && a@ == spec_event_action(ev) && x@ == need_dir)
            &&& pi.status@ == need_status && pi.direction@ == need_dir && spec_parse_amount(pi.amount@) is None ==> (
            r matches Err(InstrumentError::InvalidStoredAmount(t)) && t@ == pi.amount@)
        }),
{
    let (need_status, need_dir, next, suffix, action) = match ev {
        InstrumentEvent::Deposit => ("registered", "received", "deposited", "deposit", "depunere"),
        InstrumentEvent::Collect => ("deposited", "received", "collected", "collect", "încasare"),
        InstrumentEvent::Dishonor => ("deposited", "received", "dishonored", "dishonor", "refuz/protest"),
        InstrumentEvent::Pay => ("registered", "issued", "paid", "pay", "plată la scadență"),
    };
    guard_status(pi.status.as_str(), need_status, action)?;
    guard_direction(pi.direction.as_str(), need_dir, action)?;
    let amount = parse_amount(pi.amount.as_str())?;
    let t = transit(pi.kind.as_str());
    let z = Dec::zero();
    proof {
        lemma_zero_val(0);
        lemma_pair_balanced(spec_event_rule(ev, pi.kind@, amount).4);
    }
    let lines = match ev {
        InstrumentEvent::Deposit => two_lines("413", z, amount, t, amount, z),
        InstrumentEvent::Collect => two_lines(t, z, amount, "5121", amount, z),
        InstrumentEvent::Dishonor => two_lines(t, z, amount, "4111", amount, z),
        InstrumentEvent::Pay => two_lines("403", amount, z, "5121", z, amount),
    };
    let mut notes: Vec<InstrumentNote> = Vec::new();
    notes.push(InstrumentNote { event: owned(suffix), lines });
    proof {
        assert(note_views(notes@) =~= seq![(suffix@, spec_event_rule(ev, pi.kind@, amount).4)]);
    }
    Ok(InstrumentTransition { new_status: owned(next), notes })
}

/// The settlement note of a discounted BO: C 5114 total, D 5121 net, D 667 discount and,
/// when the fee is positive, D 627 fee.
pub open spec fn spec_discount_settlement(total: Dec, net: Dec, scont: Dec, comision: Dec) -> Seq<GlLineView> {
    seq![pline("5114"@, zero_dec(), total), pline("5121"@, net, zero_dec()), pline("667"@, scont, zero_dec())]
        + if comision.val() > 0 { seq![pline("627"@, comision, zero_dec())] } else { seq![] }
}

/// The notes of a discounting: for a deposited BO first the reversal of the deposit
/// (D 413 / C transit), then the remittance D 5114 / C 413, then the settlement.
pub open spec fn spec_discount_notes(deposited: bool, kind: Seq<char>, total: Dec, net: Dec, scont: Dec, comision: Dec) -> Seq<(Seq<char>, Seq<GlLineView>)> {
    (if deposited {
        seq![("deposit_reverse"@, seq![pline(spec_transit(kind), zero_dec(), total), pline("413"@, total, zero_dec())])]
    } else {
        seq![]
    }) + seq![
        ("discount_remit"@, seq![pline("413"@, zero_dec(), total), pline("5114"@, total, zero_dec())]),
        ("collect"@, spec_discount_settlement(total, net, scont, comision)),
    ]
}

/// The fee of a discounting: the stored text read as a decimal, zero when absent.
pub open spec fn spec_fee(commission: Option<Seq<char>>) -> Option<Dec> {
    match commission {
        Some(c) => spec_parse_amount(c),
        None => Some(zero_dec()),
    }
}

/// When a discounting is accepted: a received BO in status registered or deposited whose
/// amount, discount and fee read as numbers, with discount + fee below the amount.
pub open spec fn spec_discount_ok(pi: PaymentInstrument, discount: Seq<char>, commission: Option<Seq<char>>) -> bool {
    &&& pi.kind@ == "BO"@
    &&& (pi.status@ == "registered"@ || pi.status@ == "deposited"@)
    &&& pi.direction@ == "received"@
    &&& spec_parse_amount(pi.amount@) is Some
    &&& spec_parse_amount(discount) is Some
    &&& spec_fee(commission) is Some
    &&& ({
        let total = spec_parse_amount(pi.amount@).unwrap();
        let scont = spec_parse_amount(discount).unwrap();
        let fee = spec_fee(commission).unwrap();
        &&& (spec_dec_add(scont, fee) matches Some(s) && s.val() < total.val())
        &&& (spec_dec_sub(total, scont) matches Some(x) && spec_dec_sub(x, fee) is Some)
    })
}

/// Discounts a received BO at the bank (status → discounted), giving the notes of
/// `spec_discount_notes` with `net = total − discount − fee`.
pub fn event_discount(pi: &PaymentInstrument, discount_amount: &str, commission_amount: Option<&str>) -> (r: Result<InstrumentTransition, InstrumentError>)
    ensures
        r is Ok <==> spec_discount_ok(*pi, discount_amount@, opt_view(commission_amount)),
        r matches Ok(t) ==> {
            let total = spec_parse_amount(pi.amount@).unwrap();
            let scont = spec_parse_amount(discount_amount@).unwrap();
            let fee = spec_fee(opt_view(commission_amount)).unwrap();
            let net = spec_dec_sub(spec_dec_sub(total, scont).unwrap(), fee).unwrap();
            &&& t.new_status@ == "discounted"@
            &&& note_views(t.notes@) == spec_discount_notes(pi.status@ == "deposited"@, pi.kind@, total, net, scont, fee)
            &&& net.val() == total.val() - scont.val() - fee.val()
            &&& net.val() > 0
        },
        pi.kind@ != "BO"@ ==> (r matches Err(InstrumentError::DiscountNotBo)),
        pi.kind@ == "BO"@ && pi.status@ != "registered"@ && pi.status@ != "deposited"@ ==> (r matches Err(
            InstrumentError::DiscountStatus,
        )),
        pi.kind@ == "BO"@ && (pi.status@ == "registered"@ || pi.status@ == "deposited"@) ==> {
            &&& pi.direction@ != "received"@ ==> (r matches Err(InstrumentError::WrongDirection(a, x)) && a@
                == "scontare"@ && x@ == "received"@)
            &&& pi.direction@ == "received"@ ==> {
                &&& spec_parse_amount(pi.amount@) is None ==> (r matches Err(InstrumentError::InvalidStoredAmount(t))
                    && t@ == pi.amount@)
                &&& spec_parse_amount(pi.amount@) is Some && spec_parse_amount(discount_amount@) is None ==> (
                r matches Err(InstrumentError::InvalidStoredAmount(t)) && t@ == discount_amount@)
                &&& spec_parse_amount(pi.amount@) is Some && spec_parse_amount(discount_amount@) is Some && (
                commission_amount matches Some(c) && spec_parse_amount(c@) is None) ==> (r matches Err(
                    InstrumentError::InvalidStoredAmount(t),
                ) && t@ == commission_amount.unwrap()@)
                &&& spec_parse_amount(pi.amount@) is Some && spec_parse_amount(discount_amount@) is Some
                    && spec_fee(opt_view(commission_amount)) is Some && !spec_discount_ok(
                    *pi,
                    discount_amount@,
                    opt_view(commission_amount),
                ) ==> (r matches Err(InstrumentError::DiscountTooLarge))
            }
        },
{
    if !str_eq(pi.kind.as_str(), "BO") {
        return Err(InstrumentError::DiscountNotBo);
    }
    let deposited = str_eq(pi.status.as_str(), "deposited");
    if !str_eq(pi.status.as_str(), "registered") && !deposited {
        return Err(InstrumentError::DiscountStatus);
    }
    guard_direction(pi.direction.as_str(), "received", "scontare")?;
    let total = parse_amount(pi.amount.as_str())?;
    let scont = parse_amount(discount_amount)?;
    let fee = match commission_amount {
        Some(c) => parse_amount(c)?,
        None => Dec::zero(),
    };
    proof {
        lemma_spec_add(scont, fee);
        lemma_spec_sub(total, scont);
        lemma_zero_val(0);
    }
    let s = match dec_add(scont, fee) {
        Some(x) => x,
        None => return Err(InstrumentError::DiscountTooLarge),
    };
    if dec_le(total, s) {
        return Err(InstrumentError::DiscountTooLarge);
    }
    let x = match dec_sub(total, scont) {
        Some(v) => v,
        None => return Err(InstrumentError::DiscountTooLarge),
    };
    proof {
        lemma_spec_sub(x, fee);
    }
    let net = match dec_sub(x, fee) {
        Some(v) => v,
        None => return Err(InstrumentError::DiscountTooLarge),
    };
    let z = Dec::zero();
    let mut notes: Vec<InstrumentNote> = Vec::new();
    if deposited {
        notes.push(InstrumentNote { event: owned("deposit_reverse"), lines: two_lines(transit(pi.kind.as_str()), z, total, "413", total, z) });
    }
    notes.push(InstrumentNote { event: owned("discount_remit"), lines: two_lines("413", z, total, "5114", total, z) });
    let mut settle = Vec::new();
    settle.push(plain_line("5114", z, total));
    settle.push(plain_line("5121", net, z));
    settle.push(plain_line("667", scont, z));
    proof {
        lemma_val_sign(fee);
    }
    if fee.is_positive() {
        settle.push(plain_line("627", fee, z));
    }
    proof {
        assert(views(settle@) =~= spec_discount_settlement(total, net, scont, fee));
    }
    notes.push(InstrumentNote { event: owned("collect"), lines: settle });
    proof {
        assert(note_views(notes@) =~= spec_discount_notes(deposited, pi.kind@, total, net, scont, fee));
    }
    Ok(InstrumentTransition { new_status: owned("discounted"), notes })
}

/// The balance an account keeps after a run of notes (Σ debit − Σ credit).
pub open spec fn net_on(s: Seq<GlLineView>, acc: Seq<char>) -> int {
    account_debit(s, acc) - account_credit(s, acc)
}

spec fn piece_net(b: Seq<GlLineView>, acc: Seq<char>) -> int {
    (if b[0].account == acc { b[0].debit.val() - b[0].credit.val() } else { 0 })
        + (if b[1].account == acc { b[1].debit.val() - b[1].credit.val() } else { 0 })
}

proof fn lemma_net_on_pair(a: Seq<GlLineView>, b: Seq<GlLineView>, acc: Seq<char>)
    requires
        b.len() == 2,
    ensures
        net_on(a + b, acc) == net_on(a, acc) + piece_net(b, acc),
{
    lemma_account_sides_concat(a, b, acc);
    lemma_account_sides_small(b, acc);
}

proof fn lemma_instrument_account_names(kind: Seq<char>)
    ensures
        spec_transit(kind) != "4111"@, spec_transit(kind) != "413"@, spec_transit(kind) != "5121"@,
        "4111"@ != "413"@, "4111"@ != "5121"@, "413"@ != "5121"@,
        "403"@ != "401"@, "403"@ != "5121"@, "401"@ != "5121"@,
{
    reveal_strlit("5112");
    reveal_strlit("5113");
    reveal_strlit("4111");
    reveal_strlit("413");
    reveal_strlit("5121");
    reveal_strlit("403");
    reveal_strlit("401");
    assert("5112"@[3] != "5121"@[3]);
    assert("5113"@[3] != "5121"@[3]);
    assert("5112"@[0] != "4111"@[0]);
    assert("5113"@[0] != "4111"@[0]);
    assert("5112"@.len() != "413"@.len());
    assert("4111"@.len() != "413"@.len());
    assert("4111"@[0] != "5121"@[0]);
    assert("413"@.len() != "5121"@.len());
    assert("403"@[2] != "401"@[2]);
    assert("403"@.len() != "5121"@.len());
    assert("401"@.len() != "5121"@.len());
}

/// The life of an instrument through its notes. A received one that is registered,
/// deposited and collected leaves its amount in the bank (5121) in place of the receivable
/// (4111), with 413 and the transit account back at zero; one that is dishonored instead
/// goes back to the receivable, all other accounts at zero. An issued one that is registered
/// and paid moves its amount from the bank to the supplier (401), with 403 at zero.
pub proof fn lemma_instrument_lifecycle(kind: Seq<char>, d: Dec)
    ensures
        ({
            let collected = spec_receive_lines("received"@, d) + spec_event_rule(InstrumentEvent::Deposit, kind, d).4
                + spec_event_rule(InstrumentEvent::Collect, kind, d).4;
            &&& net_on(collected, "4111"@) == -d.val()
            &&& net_on(collected, "5121"@) == d.val()
            &&& net_on(collected, "413"@) == 0
            &&& net_on(collected, spec_transit(kind)) == 0
        }),
        ({
            let dishonored = spec_receive_lines("received"@, d) + spec_event_rule(InstrumentEvent::Deposit, kind, d).4
                + spec_event_rule(InstrumentEvent::Dishonor, kind, d).4;
            &&& net_on(dishonored, "4111"@) == 0
            &&& net_on(dishonored, "5121"@) == 0
            &&& net_on(dishonored, "413"@) == 0
            &&& net_on(dishonored, spec_transit(kind)) == 0
        }),
        ({
            let paid = spec_receive_lines("issued"@, d) + spec_event_rule(InstrumentEvent::Pay, kind, d).4;
            &&& net_on(paid, "401"@) == d.val()
            &&& net_on(paid, "5121"@) == -d.val()
            &&& net_on(paid, "403"@) == 0
        }),
{
    lemma_zero_val(0);
    lemma_instrument_account_names(kind);
    reveal_strlit("received");
    reveal_strlit("issued");
    assert("received"@.len() != "issued"@.len());
    let r1 = spec_receive_lines("received"@, d);
    let dep = spec_event_rule(InstrumentEvent::Deposit, kind, d).4;
    let col = spec_event_rule(InstrumentEvent::Collect, kind, d).4;
    let dis = spec_event_rule(InstrumentEvent::Dishonor, kind, d).4;
    let r2 = spec_receive_lines("issued"@, d);
    let pay = spec_event_rule(InstrumentEvent::Pay, kind, d).4;
    let e = Seq::<GlLineView>::empty();
    assert(e + r1 =~= r1);
    assert(e + r2 =~= r2);
    reveal_with_fuel(account_debit, 1);
    reveal_with_fuel(account_credit, 1);
    let accs = seq!["4111"@, "5121"@, "413"@, spec_transit(kind), "401"@, "403"@];
    assert forall|k: int| 0 <= k < 6 implies {
        let acc = #[trigger] accs[k];
        &&& net_on(r1 + dep + col, acc) == net_on(e + r1, acc) + net_on(e + dep, acc) + net_on(e + col, acc)
        &&& net_on(r1 + dep + dis, acc) == net_on(e + r1, acc) + net_on(e + dep, acc) + net_on(e + dis, acc)
        &&& net_on(r2 + pay, acc) == net_on(e + r2, acc) + net_on(e + pay, acc)
        &&& net_on(e + r1, acc) == piece_net(r1, acc)
        &&& net_on(e + dep, acc) == piece_net(dep, acc)
        &&& net_on(e + col, acc) == piece_net(col, acc)
        &&& net_on(e + dis, acc) == piece_net(dis, acc)
        &&& net_on(e + r2, acc) == piece_net(r2, acc)
        &&& net_on(e + pay, acc) == piece_net(pay, acc)
    } by {
        let acc = accs[k];
        lemma_net_on_pair(e, r1, acc);
        lemma_net_on_pair(e, dep, acc);
        lemma_net_on_pair(e, col, acc);
        lemma_net_on_pair(e, dis, acc);
        lemma_net_on_pair(e, r2, acc);
        lemma_net_on_pair(e, pay, acc);
        lemma_net_on_pair(r1, dep, acc);
        lemma_net_on_pair(r1 + dep, col, acc);
        lemma_net_on_pair(r1 + dep, dis, acc);
        lemma_net_on_pair(r2, pay, acc);
    }
    assert(accs[0] == "4111"@ && accs[1] == "5121"@ && accs[2] == "413"@ && accs[3] == spec_transit(kind));
    assert(accs[4] == "401"@ && accs[5] == "403"@);
}

/// The settlement of a discounted BO: the bill leaves 5114 for its total (credit), the bank
/// 5121 receives the net, the discount is an expense on 667 and a positive fee one on 627.
pub proof fn lemma_discount_settlement_accounts(total: Dec, net: Dec, scont: Dec, fee: Dec)
    ensures
        account_credit(spec_discount_settlement(total, net, scont, fee), "5114"@) == total.val(),
        account_debit(spec_discount_settlement(total, net, scont, fee), "5121"@) == net.val(),
        account_debit(spec_discount_settlement(total, net, scont, fee), "667"@) == scont.val(),
        account_debit(spec_discount_settlement(total, net, scont, fee), "627"@) == if fee.val() > 0 { fee.val() } else { 0 },
        account_debit(spec_discount_settlement(total, net, scont, fee), "5114"@) == 0,
        account_credit(spec_discount_settlement(total, net, scont, fee), "667"@) == 0,
        account_credit(spec_discount_settlement(total, net, scont, fee), "627"@) == 0,
{
    lemma_zero_val(0);
    reveal_strlit("5114");
    reveal_strlit("5121");
    reveal_strlit("667");
    reveal_strlit("627");
    assert("5114"@[3] != "5121"@[3]);
    assert("5114"@.len() != "667"@.len());
    assert("5114"@.len() != "627"@.len());
    assert("5121"@.len() != "667"@.len());
    assert("5121"@.len() != "627"@.len());
    assert("667"@[1] != "627"@[1]);
    let st = spec_discount_settlement(total, net, scont, fee);
    let accs = seq!["5114"@, "5121"@, "667"@, "627"@];
    assert forall|k: int| 0 <= k < 4 implies {
        let acc = #[trigger] accs[k];
        &&& account_debit(st, acc) == (if acc == "5121"@ { net.val() } else { 0 }) + (if acc == "667"@ { scont.val() } else { 0 })
            + (if fee.val() > 0 && acc == "627"@ { fee.val() } else { 0 })
        &&& account_credit(st, acc) == (if acc == "5114"@ { total.val() } else { 0 })
    } by {
        let acc = accs[k];
        if fee.val() > 0 {
            reveal_with_fuel(account_debit, 5);
            reveal_with_fuel(account_credit, 5);
            assert(st.drop_last() =~= st.subrange(0, 3));
            assert(st.subrange(0, 3).drop_last() =~= st.subrange(0, 2));
            assert(st.subrange(0, 2).drop_last() =~= st.subrange(0, 1));
            assert(st.subrange(0, 1).drop_last() =~= Seq::<GlLineView>::empty());
        } else {
            lemma_account_sides_small(st, acc);
        }
    }
    assert(accs[0] == "5114"@ && accs[1] == "5121"@ && accs[2] == "667"@ && accs[3] == "627"@);
}

/// Every note of a discounting is balanced when the fee is not negative (a negative fee is
/// subtracted from the net but gets no 627 line).
pub proof fn lemma_discount_balanced(deposited: bool, kind: Seq<char>, total: Dec, net: Dec, scont: Dec, fee: Dec)
    requires
        net.val() == total.val() - scont.val() - fee.val(),
        fee.val() >= 0,
    ensures
        forall|k: int| 0 <= k < spec_discount_notes(deposited, kind, total, net, scont, fee).len()
            ==> balanced(#[trigger] spec_discount_notes(deposited, kind, total, net, scont, fee)[k].1),
{
    lemma_zero_val(0);
    let ns = spec_discount_notes(deposited, kind, total, net, scont, fee);
    let st = spec_discount_settlement(total, net, scont, fee);
    reveal_with_fuel(total_debit, 5);
    reveal_with_fuel(total_credit, 5);
    lemma_pair_balanced(seq![pline(spec_transit(kind), zero_dec(), total), pline("413"@, total, zero_dec())]);
    lemma_pair_balanced(seq![pline("413"@, zero_dec(), total), pline("5114"@, total, zero_dec())]);
    let s3 = seq![pline("5114"@, zero_dec(), total), pline("5121"@, net, zero_dec()), pline("667"@, scont, zero_dec())];
    assert(s3.drop_last().drop_last().drop_last() =~= Seq::<GlLineView>::empty());
    assert(s3.drop_last().drop_last() =~= seq![pline("5114"@, zero_dec(), total)]);
    assert(s3.drop_last() =~= seq![pline("5114"@, zero_dec(), total), pline("5121"@, net, zero_dec())]);
    if fee.val() > 0 {
        assert(st.drop_last() =~= s3);
    } else {
        assert(st =~= s3);
    }
    assert(balanced(st));
}

/// An instrument can be edited only while registered; the new maturity and amount are
/// checked as for a new one. Gives the re-posted registration note.
pub fn validate_update(pi: &PaymentInstrument, input: &UpdatePaymentInstrumentInput) -> (r: Result<Vec<GlLine>, InstrumentError>)
    ensures
        r is Ok <==> (pi.status@ == "registered"@ && spec_scadenta_error(pi.kind@, opt_str(input.scadenta)) is None
            && (spec_parse_amount(input.amount@) matches Some(d) && d.val() > 0)),
        r matches Ok(ls) ==> views(ls@) == spec_receive_lines(pi.direction@, spec_parse_amount(input.amount@).unwrap()),
        pi.status@ != "registered"@ ==> (r matches Err(InstrumentError::NotEditable)),
        pi.status@ == "registered"@ ==> (spec_scadenta_error(pi.kind@, opt_str(input.scadenta)) matches Some(e)
            ==> r == Err::<Vec<GlLine>, InstrumentError>(e)),
        pi.status@ == "registered"@ && spec_scadenta_error(pi.kind@, opt_str(input.scadenta)) is None ==> {
            &&& spec_parse_amount(input.amount@) is None ==> (r matches Err(InstrumentError::InvalidAmount(t))
                && t@ == input.amount@)
            &&& (spec_parse_amount(input.amount@) matches Some(d) && d.val() <= 0) ==> (r matches Err(
                InstrumentError::NonPositiveAmount,
            ))
        },
{
    if !str_eq(pi.status.as_str(), "registered") {
        return Err(InstrumentError::NotEditable);
    }
    let sc: Option<&str> = match &input.scadenta {
        Some(s) => Some(s.as_str()),
        None => None,
    };
    if let Err(e) = validate_scadenta(pi.kind.as_str(), sc) {
        return Err(e);
    }
    match validate_amount(input.amount.as_str()) {
        Ok(d) => Ok(receive_lines(pi.direction.as_str(), d)),
        Err(e) => Err(e),
    }
}

/// The suffixes of all the notes an instrument can have (all removed with it).
pub fn note_suffixes() -> (r: Vec<&'static str>)
    ensures
        r@.map_values(|x: &'static str| x@) == seq!["receive"@, "deposit"@, "collect"@, "discount"@,
            "discount_remit"@, "deposit_reverse"@, "dishonor"@, "pay"@],
{
    let mut v = Vec::new();
    v.push("receive");
    v.push("deposit");
    v.push("collect");
    v.push("discount");
    v.push("discount_remit");
    v.push("deposit_reverse");
    v.push("dishonor");
    v.push("pay");
    assert(v@.map_values(|x: &'static str| x@) =~= seq!["receive"@, "deposit"@, "collect"@, "discount"@,
        "discount_remit"@, "deposit_reverse"@, "dishonor"@, "pay"@]);
    v
}

} // verus!
