//! Monthly revaluation of foreign-currency receivables, payables and treasury (OMFP
//! 1802/2014 art. 322 and pct. 304(3)): the last banking day of a month, the revaluation of
//! one open invoice or one treasury account, and the revaluation note, which is proved
//! balanced.

use vstd::prelude::*;
use crate::decimal::{
    Dec, dec_add, dec_sub, dec_mul, dec_le, dec_lt, spec_dec_add, spec_dec_sub, spec_dec_mul,
    lemma_spec_add, lemma_spec_sub, lemma_val_sign, lemma_zero_val, lemma_neg_val, round_dp_away,
    spec_round_dp_away, abs_int, pow10,
};
use crate::gl::{
    GlLine, GlLineView, views, balanced, total_debit, total_credit, lemma_views_push,
    lemma_totals_push, plain_line, opt_str_view, clone_opt_string, account_debit, account_credit,
    lemma_account_sides_concat, lemma_account_sides_small,
};
use crate::closing::{pline, zero_dec, neg_dec};
use crate::text::{owned, int_text, spec_int_text, zero_pad, spec_zero_pad, concat_str, push_str};

verus! {

// ─── Calendar ───────────────────────────────────────────────────────────────────

/// The value of a string of ASCII digits (most significant first).
pub open spec fn digits_value(s: Seq<char>) -> int
    decreases s.len(),
{
    if s.len() == 0 {
        0
    } else {
        digits_value(s.drop_last()) * 10 + (s.last() as int - '0' as int)
    }
}

pub open spec fn all_digits(s: Seq<char>) -> bool {
    forall|i: int| 0 <= i < s.len() ==> '0' <= #[trigger] s[i] <= '9'
}

/// `str::parse::<u32>`: an optional `+`, then one or more ASCII digits, with a value that
/// fits `u32`.
pub open spec fn spec_parse_u32(s: Seq<char>) -> Option<u32> {
    let body = if s.len() > 0 && s[0] == '+' { s.drop_first() } else { s };
    if body.len() > 0 && all_digits(body) && digits_value(body) <= u32::MAX {
        Some(digits_value(body) as u32)
    } else {
        None
    }
}

proof fn lemma_digits_value_nonneg(s: Seq<char>)
    requires
        all_digits(s),
    ensures
        digits_value(s) >= 0,
        s.len() > 0 ==> digits_value(s) >= digits_value(s.drop_last()),
    decreases s.len(),
{
    if s.len() > 0 {
        assert(all_digits(s.drop_last())) by {
            assert forall|i: int| 0 <= i < s.drop_last().len() implies '0' <= #[trigger] s.drop_last()[i] <= '9' by {
                assert(s.drop_last()[i] == s[i]);
            }
        }
        lemma_digits_value_nonneg(s.drop_last());
        assert(s.last() == s[s.len() - 1]);
    }
}

/// Parses an unsigned decimal integer as `str::parse::<u32>` does.
pub fn parse_u32(s: &str) -> (r: Option<u32>)
    ensures
        r == spec_parse_u32(s@),
{
    let n = s.unicode_len();
    let mut start: usize = 0;
    if n > 0 && s.get_char(0) == '+' {
        start = 1;
    }
    let ghost body = if s@.len() > 0 && s@[0] == '+' { s@.drop_first() } else { s@ };
    proof {
        assert(body =~= s@.subrange(start as int, n as int));
    }
    if start >= n {
        return None;
    }
    let mut v: u64 = 0;
    let mut i: usize = start;
    while i < n
        invariant
            start <= i <= n,
            n == s@.len(),
            start < n,
            body == s@.subrange(start as int, n as int),
            body == (if s@.len() > 0 && s@[0] == '+' { s@.drop_first() } else { s@ }),
            all_digits(s@.subrange(start as int, i as int)),
            v as int == digits_value(s@.subrange(start as int, i as int)),
            v <= u32::MAX,
        decreases n - i,
    {
        let c = s.get_char(i);
        let ghost pre = s@.subrange(start as int, i as int);
        let ghost next = s@.subrange(start as int, i + 1);
        proof {
            assert(next.drop_last() =~= pre);
            assert(next.last() == c);
        }
        if !('0' <= c && c <= '9') {
            proof {
                assert(body[i - start] == s@[i as int]);
                assert(!all_digits(body));
            }
            return None;
        }
        let d = (c as u32 - '0' as u32) as u64;
        v = v * 10 + d;
        proof {
            assert(all_digits(next)) by {
                assert forall|k: int| 0 <= k < next.len() implies '0' <= #[trigger] next[k] <= '9' by {
                    if k < pre.len() {
                        assert(next[k] == pre[k]);
                    }
                }
            }
        }
        if v > 4294967295u64 {
            proof {
                // every further digit keeps the value at least this large
                assert(body.subrange(0, (i + 1 - start) as int) =~= next);
                lemma_prefix_value_bound(body, (i + 1 - start) as int);
            }
            return None;
        }
        i = i + 1;
    }
    proof {
        assert(s@.subrange(start as int, n as int) =~= body);
    }
    Some(v as u32)
}

proof fn lemma_prefix_value_bound(s: Seq<char>, k: int)
    requires
        0 < k <= s.len(),
        all_digits(s.subrange(0, k)),
    ensures
        all_digits(s) ==> digits_value(s) >= digits_value(s.subrange(0, k)),
    decreases s.len() - k,
{
    if k < s.len() {
        if all_digits(s) {
            assert(all_digits(s.subrange(0, k + 1))) by {
                assert forall|i: int| 0 <= i < k + 1 implies '0' <= #[trigger] s.subrange(0, k + 1)[i] <= '9' by {
                    assert(s.subrange(0, k + 1)[i] == s[i]);
                }
            }
            lemma_prefix_value_bound(s, k + 1);
            assert(s.subrange(0, k + 1).drop_last() =~= s.subrange(0, k));
            lemma_digits_value_nonneg(s.subrange(0, k));
            assert(s.subrange(0, k + 1).last() == s[k]);
        }
    } else {
        assert(s.subrange(0, k) =~= s);
    }
}

/// The day of the week by Sakamoto's method (0 = Sunday … 6 = Saturday).
#[verifier::opaque]
pub open spec fn spec_weekday(y: int, m: int, d: int) -> int {
    let t: int = if m == 1 { 0 } else if m == 2 { 3 } else if m == 3 { 2 } else if m == 4 { 5 }
        else if m == 5 { 0 } else if m == 6 { 3 } else if m == 7 { 5 } else if m == 8 { 1 }
        else if m == 9 { 4 } else if m == 10 { 6 } else if m == 11 { 2 } else { 4 };
    let yy = if m < 3 { y - 1 } else { y };
    (yy + yy / 4 - yy / 100 + yy / 400 + t + d) % 7
}

pub fn weekday(y: u32, m: u32, d: u32) -> (r: u32)
    requires
        1 <= y <= 10000,
        1 <= m <= 12,
        d <= 31,
    ensures
        r == spec_weekday(y as int, m as int, d as int),
{
    proof {
        reveal(spec_weekday);
    }
    let t: u32 = if m == 1 { 0 } else if m == 2 { 3 } else if m == 3 { 2 } else if m == 4 { 5 }
        else if m == 5 { 0 } else if m == 6 { 3 } else if m == 7 { 5 } else if m == 8 { 1 }
        else if m == 9 { 4 } else if m == 10 { 6 } else if m == 11 { 2 } else { 4 };
    let yy: u32 = if m < 3 { y - 1 } else { y };
    (yy + yy / 4 - yy / 100 + yy / 400 + t + d) % 7
}

/// The Gregorian leap years.
pub open spec fn is_leap(y: int) -> bool {
    (y % 4 == 0 && y % 100 != 0) || y % 400 == 0
}

pub open spec fn days_in_month(y: int, m: int) -> int {
    if m == 2 {
        if is_leap(y) { 29 } else { 28 }
    } else if m == 4 || m == 6 || m == 9 || m == 11 {
        30
    } else {
        31
    }
}

/// The last day not later than `d` that is neither a Saturday nor a Sunday, going back to
/// the first of the month at most.
pub open spec fn spec_banking_day(y: int, m: int, d: int) -> Option<int>
    decreases d,
{
    if d <= 0 {
        None
    } else {
        let wd = spec_weekday(y, m, d);
        if wd != 0 && wd != 6 {
            Some(d)
        } else if d == 1 {
            None
        } else {
            spec_banking_day(y, m, d - 1)
        }
    }
}

/// The banking day found is a weekday, and every later day up to the start is a weekend day.
pub proof fn lemma_banking_day(y: int, m: int, d: int)
    ensures
        spec_banking_day(y, m, d) matches Some(b) ==> 1 <= b <= d && spec_weekday(y, m, b) != 0
            && spec_weekday(y, m, b) != 6 && forall|k: int| b < k <= d ==> (#[trigger] spec_weekday(y, m, k) == 0
            || spec_weekday(y, m, k) == 6),
    decreases d,
{
    if d > 1 {
        lemma_banking_day(y, m, d - 1);
    }
}

/// Every month has a banking day, and it is one of its last three days: of three
/// consecutive days at most two fall on a weekend.
pub proof fn lemma_banking_day_in_last_three(y: int, m: int)
    requires
        1 <= m <= 12,
    ensures
        spec_banking_day(y, m, days_in_month(y, m)) matches Some(b) && days_in_month(y, m) - 2 <= b
            <= days_in_month(y, m),
{
    reveal(spec_weekday);
    let d = days_in_month(y, m);
    let t: int = if m == 1 { 0 } else if m == 2 { 3 } else if m == 3 { 2 } else if m == 4 { 5 }
        else if m == 5 { 0 } else if m == 6 { 3 } else if m == 7 { 5 } else if m == 8 { 1 }
        else if m == 9 { 4 } else if m == 10 { 6 } else if m == 11 { 2 } else { 4 };
    let yy = if m < 3 { y - 1 } else { y };
    let c = yy + yy / 4 - yy / 100 + yy / 400 + t;
    assert(spec_weekday(y, m, d) == (c + d) % 7);
    assert(spec_weekday(y, m, d - 1) == (c + d - 1) % 7);
    assert(spec_weekday(y, m, d - 2) == (c + d - 2) % 7);
    reveal_with_fuel(spec_banking_day, 3);
}

/// Why a period could not be read.
#[derive(Clone, Debug)]
pub enum PeriodError {
    /// Not of the form `YYYY-MM`.
    Format(String),
    /// The year is not a number.
    Year(String),
    /// The month is not a number.
    Month(String),
    /// Year outside 1900–2100 or month outside 1–12.
    Range(String),
    /// The month has no weekday.
    NoBankingDay(String),
}

pub open spec fn first_dash(s: Seq<char>) -> int {
    choose|i: int| 0 <= i < s.len() && s[i] == '-' && forall|j: int| 0 <= j < i ==> s[j] != '-'
}

pub open spec fn has_dash(s: Seq<char>) -> bool {
    exists|i: int| 0 <= i < s.len() && s[i] == '-'
}

/// The last banking day of a period `YYYY-MM` as `YYYY-MM-DD`: the text is split at its
/// first `-`, both parts read as `u32`, the year must be in 1900–2100 and the month in 1–12;
/// the day is the last day of the month not falling on a weekend.
pub open spec fn spec_last_banking_day(period: Seq<char>) -> Option<Seq<char>> {
    if !has_dash(period) {
        None
    } else {
        let i = first_dash(period);
        match (spec_parse_u32(period.subrange(0, i)), spec_parse_u32(period.subrange(i + 1, period.len() as int))) {
            (Some(y), Some(m)) => if 1 <= m <= 12 && 1900 <= y <= 2100 {
                match spec_banking_day(y as int, m as int, days_in_month(y as int, m as int)) {
                    Some(d) => Some(spec_zero_pad(spec_int_text(y as int), 4) + "-"@ + spec_zero_pad(spec_int_text(m as int), 2)
                        + "-"@ + spec_zero_pad(spec_int_text(d), 2)),
                    None => None,
                }
            } else {
                None
            },
            _ => None,
        }
    }
}

fn find_dash(s: &str) -> (r: Option<usize>)
    ensures
        r is None <==> !has_dash(s@),
        r matches Some(i) ==> i < s@.len() && s@[i as int] == '-' && forall|j: int| 0 <= j < i ==> s@[j] != '-',
{
    let n = s.unicode_len();
    let mut i: usize = 0;
    while i < n
        invariant
            n == s@.len(),
            i <= n,
            forall|j: int| 0 <= j < i ==> s@[j] != '-',
        decreases n - i,
    {
        if s.get_char(i) == '-' {
            return Some(i);
        }
        i = i + 1;
    }
    None
}

/// The last banking day of the month `period` ("YYYY-MM"), as "YYYY-MM-DD".
pub fn last_banking_day(period: &str) -> (r: Result<String, PeriodError>)
    ensures
        r is Ok <==> spec_last_banking_day(period@) is Some,
        r matches Ok(s) ==> Some(s@) == spec_last_banking_day(period@),
        !has_dash(period@) ==> (r matches Err(PeriodError::Format(t)) && t@ == period@),
        has_dash(period@) ==> ({
            let i = first_dash(period@);
            let ys = period@.subrange(0, i);
            let ms = period@.subrange(i + 1, period@.len() as int);
            &&& spec_parse_u32(ys) is None ==> (r matches Err(PeriodError::Year(t)) && t@ == ys)
            &&& spec_parse_u32(ys) is Some && spec_parse_u32(ms) is None ==> (r matches Err(PeriodError::Month(t))
                && t@ == ms)
            &&& (spec_parse_u32(ys) matches Some(y) && spec_parse_u32(ms) matches Some(m) && !(1 <= m <= 12
                && 1900 <= y <= 2100)) ==> (r matches Err(PeriodError::Range(t)) && t@ == period@)
            &&& (spec_parse_u32(ys) matches Some(y) && spec_parse_u32(ms) matches Some(m) && 1 <= m <= 12 && 1900
                <= y <= 2100 && spec_last_banking_day(period@) is None) ==> (r matches Err(
                PeriodError::NoBankingDay(t),
            ) && t@ == period@)
            &&& (spec_parse_u32(ys) matches Some(y) && spec_parse_u32(ms) matches Some(m) && 1 <= m <= 12 && 1900
                <= y <= 2100) ==> r is Ok
        }),
{
    let i = match find_dash(period) {
        Some(i) => i,
        None => return Err(PeriodError::Format(owned(period))),
    };
    proof {
        let k = first_dash(period@);
        assert(0 <= i < period@.len() && period@[i as int] == '-' && forall|j: int| 0 <= j < i ==> period@[j] != '-');
        assert(k == i as int) by {
            if k < i { assert(period@[k] != '-'); }
            if k > i { assert(period@[i as int] != '-'); }
        }
    }
    let n = period.unicode_len();
    let ys = period.substring_char(0, i);
    let ms = period.substring_char(i + 1, n);
    assert(first_dash(period@) == i as int);
    let year = match parse_u32(ys) {
        Some(y) => y,
        None => return Err(PeriodError::Year(owned(ys))),
    };
    let month = match parse_u32(ms) {
        Some(m) => m,
        None => return Err(PeriodError::Month(owned(ms))),
    };
    if !(1 <= month && month <= 12) || !(1900 <= year && year <= 2100) {
        return Err(PeriodError::Range(owned(period)));
    }
    let last: u32 = if month == 2 {
        if (year % 4 == 0 && year % 100 != 0) || year % 400 == 0 { 29 } else { 28 }
    } else if month == 4 || month == 6 || month == 9 || month == 11 {
        30
    } else {
        31
    };
    proof {
        lemma_banking_day_in_last_three(year as int, month as int);
    }
    let mut day: u32 = last;
    assert(spec_last_banking_day(period@) is Some <==> spec_banking_day(year as int, month as int, last as int) is Some);
    loop
        invariant
            1 <= day <= last,
            last == days_in_month(year as int, month as int),
            1 <= month <= 12,
            1900 <= year <= 2100,
            spec_banking_day(year as int, month as int, last as int) == spec_banking_day(year as int, month as int, day as int),
            spec_last_banking_day(period@) is Some <==> spec_banking_day(year as int, month as int, last as int) is Some,
            has_dash(period@),
            first_dash(period@) == i as int,
            spec_parse_u32(period@.subrange(0, i as int)) == Some(year),
            spec_parse_u32(period@.subrange(i + 1, period@.len() as int)) == Some(month),
            spec_banking_day(year as int, month as int, last as int) is Some,
        ensures
            spec_banking_day(year as int, month as int, last as int) == Some(day as int),
            1 <= day <= 31,
        decreases day,
    {
        let wd = weekday(year, month, day);
        if wd != 0 && wd != 6 {
            break;
        }
        if day == 1 {
            return Err(PeriodError::NoBankingDay(owned(period)));
        }
        day = day - 1;
    }
    let mut s = zero_pad(int_text(year as i64).as_str(), 4);
    push_str(&mut s, "-");
    push_str(&mut s, zero_pad(int_text(month as i64).as_str(), 2).as_str());
    push_str(&mut s, "-");
    push_str(&mut s, zero_pad(int_text(day as i64).as_str(), 2).as_str());
    Ok(s)
}

/// Rounding of an exchange rate to four decimals (midpoints away from zero).
pub fn round4(d: Dec) -> (r: Dec)
    requires
        d.wf(),
    ensures
        r == spec_round_dp_away(d, 4),
        r.wf(),
{
    round_dp_away(d, 4)
}


// ─── Revaluation of one invoice or treasury account ─────────────────────────────

pub open spec fn cent() -> Dec {
    Dec { mant: 1, scale: 2 }
}

/// The figures of a revalued open invoice (foreign outstanding, rates and lei amounts).
#[derive(Clone, Copy, Debug)]
pub struct InvoiceRevaluation {
    pub foreign_outstanding: Dec,
    pub month_end_rate: Dec,
    pub prior_rate: Dec,
    pub prior_lei: Dec,
    pub revalued_lei: Dec,
    pub diff_lei: Dec,
}

/// Revaluation of an open foreign-currency invoice. The outstanding is `total − paid`
/// rounded to two decimals (midpoints away from zero); an invoice with at most 0.01
/// outstanding, or without a positive booking rate, is skipped. The base rate is the last
/// revaluation rate, else the booking rate; `prior_lei` and `revalued_lei` are the
/// outstanding at the base and month-end rates, rounded to two decimals, and a difference
/// below 0.01 in absolute value is skipped. `Some(None)` is a skipped invoice; `None` an
/// amount outside the decimal range.
pub open spec fn spec_revalue_invoice(total: Dec, paid: Dec, booking_rate: Dec, last_rate: Option<Dec>, month_end_rate: Dec) -> Option<Option<InvoiceRevaluation>> {
    match spec_dec_sub(total, paid) {
        None => None,
        Some(x) => {
            let out = spec_round_dp_away(x, 2);
            if out.val() <= cent().val() || booking_rate.val() <= 0 {
                Some(None)
            } else {
                let pr = match last_rate { Some(r) => r, None => booking_rate };
                match (spec_dec_mul(out, pr), spec_dec_mul(out, month_end_rate)) {
                    (Some(p), Some(q)) => {
                        let prior_lei = spec_round_dp_away(p, 2);
                        let revalued = spec_round_dp_away(q, 2);
                        match spec_dec_sub(revalued, prior_lei) {
                            Some(diff) => if abs_int(diff.val()) < cent().val() {
                                Some(None)
                            } else {
                                Some(Some(InvoiceRevaluation {
                                    foreign_outstanding: out,
                                    month_end_rate,
                                    prior_rate: pr,
                                    prior_lei,
                                    revalued_lei: revalued,
                                    diff_lei: diff,
                                }))
                            },
                            None => None,
                        }
                    },
                    _ => None,
                }
            }
        },
    }
}

#[verifier::spinoff_prover]
proof fn lemma_cent()
    ensures
        cent().val() == pow10(26),
        cent().wf(),
{
    reveal_with_fuel(pow10, 3);
    crate::decimal::lemma_pow10_add(24, 2);
}

pub fn revalue_invoice(total: Dec, paid: Dec, booking_rate: Dec, last_rate: Option<Dec>, month_end_rate: Dec) -> (r: Option<Option<InvoiceRevaluation>>)
    requires
        total.wf(),
        paid.wf(),
        booking_rate.wf(),
        month_end_rate.wf(),
        last_rate matches Some(x) ==> x.wf(),
    ensures
        r == spec_revalue_invoice(total, paid, booking_rate, last_rate, month_end_rate),
        r matches Some(Some(v)) ==> v.diff_lei.wf() && v.diff_lei.val() == v.revalued_lei.val() - v.prior_lei.val(),
{
    proof {
        lemma_cent();
        lemma_spec_sub(total, paid);
        lemma_zero_val(0);
    }
    let x = match dec_sub(total, paid) {
        Some(v) => v,
        None => return None,
    };
    let out = round_dp_away(x, 2);
    proof {
        lemma_val_sign(booking_rate);
    }
    if dec_le(out, Dec { mant: 1, scale: 2 }) || !booking_rate.is_positive() {
        return Some(None);
    }
    let pr = match last_rate {
        Some(r) => r,
        None => booking_rate,
    };
    let (p, q) = match (dec_mul(out, pr), dec_mul(out, month_end_rate)) {
        (Some(p), Some(q)) => (p, q),
        _ => return None,
    };
    let prior_lei = round_dp_away(p, 2);
    let revalued = round_dp_away(q, 2);
    proof {
        lemma_spec_sub(revalued, prior_lei);
    }
    let diff = match dec_sub(revalued, prior_lei) {
        Some(v) => v,
        None => return None,
    };
    if dec_lt(diff.abs(), Dec { mant: 1, scale: 2 }) {
        return Some(None);
    }
    Some(Some(InvoiceRevaluation { foreign_outstanding: out, month_end_rate, prior_rate: pr, prior_lei, revalued_lei: revalued, diff_lei: diff }))
}

/// The figures of a revalued treasury account.
#[derive(Clone, Copy, Debug)]
pub struct TreasuryRevaluation {
    pub foreign_balance: Dec,
    pub month_end_rate: Dec,
    pub prior_lei: Dec,
    pub revalued_lei: Dec,
    pub diff_lei: Dec,
}

/// Revaluation of a foreign-currency treasury account: a foreign balance below 0.01 in
/// absolute value is skipped (`Some(None)`); otherwise the balance at the month-end rate,
/// rounded to two decimals, against the lei value it was carried at; a difference below
/// 0.01 in absolute value is skipped (`Some(None)`).
pub open spec fn spec_revalue_treasury(foreign_balance: Dec, prior_lei: Dec, month_end_rate: Dec) -> Option<Option<TreasuryRevaluation>> {
    if abs_int(foreign_balance.val()) < cent().val() {
        Some(None)
    } else {
    match spec_dec_mul(foreign_balance, month_end_rate) {
        Some(q) => {
            let revalued = spec_round_dp_away(q, 2);
            match spec_dec_sub(revalued, prior_lei) {
                Some(diff) => if abs_int(diff.val()) < cent().val() {
                    Some(None)
                } else {
                    Some(Some(TreasuryRevaluation { foreign_balance, month_end_rate, prior_lei, revalued_lei: revalued, diff_lei: diff }))
                },
                None => None,
            }
        },
        None => None,
    }
    }
}

pub fn revalue_treasury(foreign_balance: Dec, prior_lei: Dec, month_end_rate: Dec) -> (r: Option<Option<TreasuryRevaluation>>)
    requires
        foreign_balance.wf(),
        prior_lei.wf(),
        month_end_rate.wf(),
    ensures
        r == spec_revalue_treasury(foreign_balance, prior_lei, month_end_rate),
        r matches Some(Some(v)) ==> v.diff_lei.wf(),
{
    proof {
        lemma_cent();
    }
    if dec_lt(foreign_balance.abs(), Dec { mant: 1, scale: 2 }) {
        return Some(None);
    }
    let q = match dec_mul(foreign_balance, month_end_rate) {
        Some(v) => v,
        None => return None,
    };
    let revalued = round_dp_away(q, 2);
    proof {
        lemma_spec_sub(revalued, prior_lei);
    }
    let diff = match dec_sub(revalued, prior_lei) {
        Some(v) => v,
        None => return None,
    };
    if dec_lt(diff.abs(), Dec { mant: 1, scale: 2 }) {
        return Some(None);
    }
    Some(Some(TreasuryRevaluation { foreign_balance, month_end_rate, prior_lei, revalued_lei: revalued, diff_lei: diff }))
}

/// The foreign balance of a treasury account estimated from its lei balance when the
/// ledger holds no foreign amounts: `lei / rate`, rounded to two decimals (midpoints away
/// from zero), zero when the rate is not positive; `None` when the division fails.
pub fn estimate_foreign_balance(gl_balance_lei: Dec, month_end_rate: Dec) -> (r: Option<Dec>)
    requires
        gl_balance_lei.wf(),
        month_end_rate.wf(),
    ensures
        month_end_rate.val() <= 0 ==> r == Some(Dec { mant: 0, scale: 0 }),
        month_end_rate.val() > 0 ==> (r matches Some(d) ==> d.wf() && (crate::decimal::decimal_checked_div(gl_balance_lei.mant, gl_balance_lei.scale, month_end_rate.mant, month_end_rate.scale) matches Some((m, sc)) && d == spec_round_dp_away(Dec { mant: m, scale: sc }, 2))),
        month_end_rate.val() > 0 ==> (r is None <==> crate::decimal::decimal_checked_div(gl_balance_lei.mant, gl_balance_lei.scale, month_end_rate.mant, month_end_rate.scale) is None),
{
    proof {
        crate::decimal::lemma_val_sign(month_end_rate);
    }
    if !month_end_rate.is_positive() {
        return Some(Dec::zero());
    }
    match crate::decimal::checked_div(gl_balance_lei, month_end_rate) {
        Some(q) => Some(round_dp_away(q, 2)),
        None => None,
    }
}

// ─── The revaluation note ───────────────────────────────────────────────────────

/// A revalued invoice as it enters the note: receivable (issued) or payable, the partner
/// and the lei difference.
#[derive(Clone, Debug)]
pub struct RevalNoteItem {
    pub issued: bool,
    pub partner_cui: Option<String>,
    pub diff_lei: Dec,
}

/// A revalued treasury account as it enters the note.
#[derive(Clone, Debug)]
pub struct TreasuryNoteItem {
    pub gl_account: String,
    pub diff_lei: Dec,
}

/// The running state of the note: lines so far, the pending 665 and 765 amounts, and the
/// favourable / unfavourable totals of invoices and of treasury.
pub struct FxAcc {
    pub lines: Seq<GlLineView>,
    pub d665: Dec,
    pub c765: Dec,
    pub fav: Dec,
    pub unfav: Dec,
    pub tfav: Dec,
    pub tunfav: Dec,
}

pub open spec fn fx_acc_wf(a: FxAcc) -> bool {
    &&& a.d665.wf() && a.c765.wf() && a.fav.wf() && a.unfav.wf() && a.tfav.wf() && a.tunfav.wf()
    &&& a.d665.val() >= 0 && a.c765.val() >= 0
    &&& a.fav.val() >= 0 && a.unfav.val() >= 0 && a.tfav.val() >= 0 && a.tunfav.val() >= 0
    &&& total_debit(a.lines) + a.d665.val() == total_credit(a.lines) + a.c765.val()
}

pub open spec fn fx_acc_init() -> FxAcc {
    FxAcc { lines: seq![], d665: zero_dec(), c765: zero_dec(), fav: zero_dec(), unfav: zero_dec(), tfav: zero_dec(), tunfav: zero_dec() }
}

/// One invoice: receivable up → D 4111 / (C 765), receivable down → (D 665) / C 4111,
/// payable up → (D 665) / C 401, payable down → D 401 / (C 765); the 665/765 sides are
/// pooled into one line each at the end.
pub open spec fn spec_fx_item_step(a: FxAcc, it: RevalNoteItem) -> Option<FxAcc> {
    let d = it.diff_lei;
    let cui = opt_str_view(it.partner_cui);
    if d.val() > 0 {
        if it.issued {
            match (spec_dec_add(a.c765, d), spec_dec_add(a.fav, d)) {
                (Some(c), Some(f)) => Some(FxAcc { lines: a.lines.push(GlLineView { account: "4111"@, debit: d, credit: zero_dec(), partner_cui: cui, tax: None }), c765: c, fav: f, ..a }),
                _ => None,
            }
        } else {
            match (spec_dec_add(a.d665, d), spec_dec_add(a.unfav, d)) {
                (Some(x), Some(u)) => Some(FxAcc { lines: a.lines.push(GlLineView { account: "401"@, debit: zero_dec(), credit: d, partner_cui: cui, tax: None }), d665: x, unfav: u, ..a }),
                _ => None,
            }
        }
    } else {
        let m = neg_dec(d);
        if it.issued {
            match (spec_dec_add(a.d665, m), spec_dec_add(a.unfav, m)) {
                (Some(x), Some(u)) => Some(FxAcc { lines: a.lines.push(GlLineView { account: "4111"@, debit: zero_dec(), credit: m, partner_cui: cui, tax: None }), d665: x, unfav: u, ..a }),
                _ => None,
            }
        } else {
            match (spec_dec_add(a.c765, m), spec_dec_add(a.fav, m)) {
                (Some(c), Some(f)) => Some(FxAcc { lines: a.lines.push(GlLineView { account: "401"@, debit: m, credit: zero_dec(), partner_cui: cui, tax: None }), c765: c, fav: f, ..a }),
                _ => None,
            }
        }
    }
}

/// One treasury account: up → D account / (C 765), down → (D 665) / C account.
pub open spec fn spec_fx_treasury_step(a: FxAcc, it: TreasuryNoteItem) -> Option<FxAcc> {
    let d = it.diff_lei;
    if d.val() > 0 {
        match (spec_dec_add(a.c765, d), spec_dec_add(a.tfav, d)) {
            (Some(c), Some(f)) => Some(FxAcc { lines: a.lines.push(pline(it.gl_account@, d, zero_dec())), c765: c, tfav: f, ..a }),
            _ => None,
        }
    } else {
        let m = neg_dec(d);
        match (spec_dec_add(a.d665, m), spec_dec_add(a.tunfav, m)) {
            (Some(x), Some(u)) => Some(FxAcc { lines: a.lines.push(pline(it.gl_account@, zero_dec(), m)), d665: x, tunfav: u, ..a }),
            _ => None,
        }
    }
}

pub open spec fn spec_fx_items(a: FxAcc, items: Seq<RevalNoteItem>) -> Option<FxAcc>
    decreases items.len(),
{
    if items.len() == 0 {
        Some(a)
    } else {
        match spec_fx_items(a, items.drop_last()) {
            Some(b) => spec_fx_item_step(b, items.last()),
            None => None,
        }
    }
}

pub open spec fn spec_fx_treasury(a: FxAcc, ts: Seq<TreasuryNoteItem>) -> Option<FxAcc>
    decreases ts.len(),
{
    if ts.len() == 0 {
        Some(a)
    } else {
        match spec_fx_treasury(a, ts.drop_last()) {
            Some(b) => spec_fx_treasury_step(b, ts.last()),
            None => None,
        }
    }
}

/// The whole note: invoice lines, treasury lines, then D 665 and C 765 (each when positive).
pub open spec fn spec_fx_final_lines(a: FxAcc) -> Seq<GlLineView> {
    a.lines
        + (if a.d665.val() > 0 { seq![pline("665"@, a.d665, zero_dec())] } else { seq![] })
        + (if a.c765.val() > 0 { seq![pline("765"@, zero_dec(), a.c765)] } else { seq![] })
}

proof fn lemma_fx_item_step(a: FxAcc, it: RevalNoteItem)
    requires
        fx_acc_wf(a),
        it.diff_lei.wf(),
    ensures
        spec_fx_item_step(a, it) matches Some(b) ==> fx_acc_wf(b),
{
    let d = it.diff_lei;
    lemma_neg_val(d);
    lemma_val_sign(d);
    lemma_zero_val(0);
    lemma_spec_add(a.c765, d);
    lemma_spec_add(a.fav, d);
    lemma_spec_add(a.d665, d);
    lemma_spec_add(a.unfav, d);
    lemma_spec_add(a.d665, neg_dec(d));
    lemma_spec_add(a.unfav, neg_dec(d));
    lemma_spec_add(a.c765, neg_dec(d));
    lemma_spec_add(a.fav, neg_dec(d));
    if let Some(b) = spec_fx_item_step(a, it) {
        lemma_totals_push(a.lines, b.lines.last());
        assert(b.lines == a.lines.push(b.lines.last()));
    }
}

proof fn lemma_fx_treasury_step(a: FxAcc, it: TreasuryNoteItem)
    requires
        fx_acc_wf(a),
        it.diff_lei.wf(),
    ensures
        spec_fx_treasury_step(a, it) matches Some(b) ==> fx_acc_wf(b),
{
    let d = it.diff_lei;
    lemma_neg_val(d);
    lemma_val_sign(d);
    lemma_zero_val(0);
    lemma_spec_add(a.c765, d);
    lemma_spec_add(a.tfav, d);
    lemma_spec_add(a.d665, neg_dec(d));
    lemma_spec_add(a.tunfav, neg_dec(d));
    if let Some(b) = spec_fx_treasury_step(a, it) {
        lemma_totals_push(a.lines, b.lines.last());
        assert(b.lines == a.lines.push(b.lines.last()));
    }
}

/// The revaluation note is balanced: every partner or treasury line is matched by the same
/// amount pooled on 665 or 765.
pub proof fn lemma_fx_note_balanced(a: FxAcc)
    requires
        fx_acc_wf(a),
    ensures
        balanced(spec_fx_final_lines(a)),
{
    lemma_zero_val(0);
    let x = if a.d665.val() > 0 { seq![pline("665"@, a.d665, zero_dec())] } else { seq![] };
    let y = if a.c765.val() > 0 { seq![pline("765"@, zero_dec(), a.c765)] } else { seq![] };
    reveal_with_fuel(total_debit, 2);
    reveal_with_fuel(total_credit, 2);
    if x.len() == 1 {
        assert(x.drop_last() =~= Seq::<GlLineView>::empty());
    }
    if y.len() == 1 {
        assert(y.drop_last() =~= Seq::<GlLineView>::empty());
    }
    crate::gl::lemma_totals_concat(a.lines, x);
    crate::gl::lemma_totals_concat(a.lines + x, y);
}


struct FxAccExec {
    lines: Vec<GlLine>,
    d665: Dec,
    c765: Dec,
    fav: Dec,
    unfav: Dec,
    tfav: Dec,
    tunfav: Dec,
}

impl FxAccExec {
    spec fn acc(&self) -> FxAcc {
        FxAcc { lines: views(self.lines@), d665: self.d665, c765: self.c765, fav: self.fav, unfav: self.unfav, tfav: self.tfav, tunfav: self.tunfav }
    }
}

fn add2(a: Dec, b: Dec, c: Dec, d: Dec) -> (r: Option<(Dec, Dec)>)
    requires
        a.wf(),
        b.wf(),
        c.wf(),
        d.wf(),
    ensures
        r is Some <==> (spec_dec_add(a, b) is Some && spec_dec_add(c, d) is Some),
        r matches Some((x, y)) ==> Some(x) == spec_dec_add(a, b) && Some(y) == spec_dec_add(c, d) && x.wf() && y.wf(),
{
    proof {
        lemma_spec_add(a, b);
        lemma_spec_add(c, d);
    }
    match (dec_add(a, b), dec_add(c, d)) {
        (Some(x), Some(y)) => Some((x, y)),
        _ => None,
    }
}

fn fx_item_step(acc: &mut FxAccExec, it: &RevalNoteItem) -> (ok: bool)
    requires
        fx_acc_wf(old(acc).acc()),
        it.diff_lei.wf(),
    ensures
        ok == spec_fx_item_step(old(acc).acc(), *it) is Some,
        ok ==> final(acc).acc() == spec_fx_item_step(old(acc).acc(), *it).unwrap(),
{
    let d = it.diff_lei;
    proof {
        lemma_val_sign(d);
        lemma_neg_val(d);
        lemma_fx_item_step(acc.acc(), *it);
    }
    let ghost a = acc.acc();
    let l: GlLine;
    if d.is_positive() {
        if it.issued {
            match add2(acc.c765, d, acc.fav, d) {
                Some((c, f)) => { acc.c765 = c; acc.fav = f; },
                None => return false,
            }
            l = GlLine { account: owned("4111"), debit: d, credit: Dec::zero(), partner_cui: clone_opt_string(&it.partner_cui), tax: None };
        } else {
            match add2(acc.d665, d, acc.unfav, d) {
                Some((x, u)) => { acc.d665 = x; acc.unfav = u; },
                None => return false,
            }
            l = GlLine { account: owned("401"), debit: Dec::zero(), credit: d, partner_cui: clone_opt_string(&it.partner_cui), tax: None };
        }
    } else {
        let m = d.neg();
        if it.issued {
            match add2(acc.d665, m, acc.unfav, m) {
                Some((x, u)) => { acc.d665 = x; acc.unfav = u; },
                None => return false,
            }
            l = GlLine { account: owned("4111"), debit: Dec::zero(), credit: m, partner_cui: clone_opt_string(&it.partner_cui), tax: None };
        } else {
            match add2(acc.c765, m, acc.fav, m) {
                Some((c, f)) => { acc.c765 = c; acc.fav = f; },
                None => return false,
            }
            l = GlLine { account: owned("401"), debit: m, credit: Dec::zero(), partner_cui: clone_opt_string(&it.partner_cui), tax: None };
        }
    }
    proof {
        lemma_views_push(acc.lines@, l);
    }
    acc.lines.push(l);
    true
}

fn fx_treasury_step(acc: &mut FxAccExec, it: &TreasuryNoteItem) -> (ok: bool)
    requires
        fx_acc_wf(old(acc).acc()),
        it.diff_lei.wf(),
    ensures
        ok == spec_fx_treasury_step(old(acc).acc(), *it) is Some,
        ok ==> final(acc).acc() == spec_fx_treasury_step(old(acc).acc(), *it).unwrap(),
{
    let d = it.diff_lei;
    proof {
        lemma_val_sign(d);
        lemma_neg_val(d);
    }
    let l: GlLine;
    if d.is_positive() {
        match add2(acc.c765, d, acc.tfav, d) {
            Some((c, f)) => { acc.c765 = c; acc.tfav = f; },
            None => return false,
        }
        l = plain_line(it.gl_account.as_str(), d, Dec::zero());
    } else {
        let m = d.neg();
        match add2(acc.d665, m, acc.tunfav, m) {
            Some((x, u)) => { acc.d665 = x; acc.tunfav = u; },
            None => return false,
        }
        l = plain_line(it.gl_account.as_str(), Dec::zero(), m);
    }
    proof {
        lemma_views_push(acc.lines@, l);
    }
    acc.lines.push(l);
    true
}

proof fn lemma_fx_items_wf(items: Seq<RevalNoteItem>)
    requires
        forall|k: int| 0 <= k < items.len() ==> (#[trigger] items[k]).diff_lei.wf(),
    ensures
        spec_fx_items(fx_acc_init(), items) matches Some(a) ==> fx_acc_wf(a),
    decreases items.len(),
{
    lemma_zero_val(0);
    if items.len() > 0 {
        let pre = items.drop_last();
        assert forall|k: int| 0 <= k < pre.len() implies (#[trigger] pre[k]).diff_lei.wf() by {
            assert(pre[k] == items[k]);
        }
        lemma_fx_items_wf(pre);
        if let Some(b) = spec_fx_items(fx_acc_init(), pre) {
            assert(items.last() == items[items.len() - 1]);
            lemma_fx_item_step(b, items.last());
        }
    } else {
        reveal_with_fuel(total_debit, 1);
        reveal_with_fuel(total_credit, 1);
    }
}

/// Σ of the lei differences of the issued (receivable) invoices.
pub open spec fn receivable_diff_sum(items: Seq<RevalNoteItem>) -> int
    decreases items.len(),
{
    if items.len() == 0 {
        0
    } else {
        receivable_diff_sum(items.drop_last()) + if items.last().issued { items.last().diff_lei.val() } else { 0 }
    }
}

/// Σ of the lei differences of the received (payable) invoices.
pub open spec fn payable_diff_sum(items: Seq<RevalNoteItem>) -> int
    decreases items.len(),
{
    if items.len() == 0 {
        0
    } else {
        payable_diff_sum(items.drop_last()) + if items.last().issued { 0 } else { items.last().diff_lei.val() }
    }
}

/// The loss of an invoice's revaluation: a receivable that went down or a payable that went up.
pub open spec fn item_loss(it: RevalNoteItem) -> int {
    let d = it.diff_lei.val();
    if it.issued { if d < 0 { -d } else { 0 } } else { if d > 0 { d } else { 0 } }
}

/// The gain of an invoice's revaluation: a receivable that went up or a payable that went down.
pub open spec fn item_gain(it: RevalNoteItem) -> int {
    let d = it.diff_lei.val();
    if it.issued { if d > 0 { d } else { 0 } } else { if d < 0 { -d } else { 0 } }
}

pub open spec fn loss_sum(items: Seq<RevalNoteItem>) -> int
    decreases items.len(),
{
    if items.len() == 0 { 0 } else { loss_sum(items.drop_last()) + item_loss(items.last()) }
}

pub open spec fn gain_sum(items: Seq<RevalNoteItem>) -> int
    decreases items.len(),
{
    if items.len() == 0 { 0 } else { gain_sum(items.drop_last()) + item_gain(items.last()) }
}

/// The invoice part of a revaluation note. Receivables (4111) move by the Σ of their
/// differences and payables (401) by the Σ of theirs, on the credit side; the pending loss
/// (to be debited to 665) is the Σ of the receivables that went down and the payables that
/// went up, and the pending gain (to be credited to 765) the Σ of the others.
pub proof fn lemma_fx_items_accounts(items: Seq<RevalNoteItem>)
    requires
        forall|k: int| 0 <= k < items.len() ==> (#[trigger] items[k]).diff_lei.wf(),
    ensures
        spec_fx_items(fx_acc_init(), items) matches Some(a) ==> {
            &&& account_debit(a.lines, "4111"@) - account_credit(a.lines, "4111"@) == receivable_diff_sum(items)
            &&& account_credit(a.lines, "401"@) - account_debit(a.lines, "401"@) == payable_diff_sum(items)
            &&& a.d665.val() == loss_sum(items)
            &&& a.c765.val() == gain_sum(items)
            &&& a.unfav.val() == loss_sum(items)
            &&& a.fav.val() == gain_sum(items)
        },
    decreases items.len(),
{
    lemma_zero_val(0);
    reveal_strlit("4111");
    reveal_strlit("401");
    assert("4111"@.len() != "401"@.len());
    if items.len() == 0 {
        reveal_with_fuel(account_debit, 1);
        reveal_with_fuel(account_credit, 1);
    } else {
        let pre = items.drop_last();
        assert forall|k: int| 0 <= k < pre.len() implies (#[trigger] pre[k]).diff_lei.wf() by {
            assert(pre[k] == items[k]);
        }
        lemma_fx_items_accounts(pre);
        lemma_fx_items_wf(pre);
        if let Some(b) = spec_fx_items(fx_acc_init(), pre) {
            let it = items.last();
            assert(it == items[items.len() - 1]);
            let d = it.diff_lei;
            lemma_neg_val(d);
            lemma_val_sign(d);
            lemma_spec_add(b.c765, d);
            lemma_spec_add(b.fav, d);
            lemma_spec_add(b.d665, d);
            lemma_spec_add(b.unfav, d);
            lemma_spec_add(b.d665, neg_dec(d));
            lemma_spec_add(b.unfav, neg_dec(d));
            lemma_spec_add(b.c765, neg_dec(d));
            lemma_spec_add(b.fav, neg_dec(d));
            if let Some(c) = spec_fx_item_step(b, it) {
                let x = seq![c.lines.last()];
                assert(c.lines =~= b.lines + x);
                lemma_account_sides_concat(b.lines, x, "4111"@);
                lemma_account_sides_concat(b.lines, x, "401"@);
                lemma_account_sides_small(x, "4111"@);
                lemma_account_sides_small(x, "401"@);
            }
        }
    }
}

proof fn lemma_fx_treasury_wf(a: FxAcc, ts: Seq<TreasuryNoteItem>)
    requires
        fx_acc_wf(a),
        forall|k: int| 0 <= k < ts.len() ==> (#[trigger] ts[k]).diff_lei.wf(),
    ensures
        spec_fx_treasury(a, ts) matches Some(b) ==> fx_acc_wf(b),
    decreases ts.len(),
{
    if ts.len() > 0 {
        let pre = ts.drop_last();
        assert forall|k: int| 0 <= k < pre.len() implies (#[trigger] pre[k]).diff_lei.wf() by {
            assert(pre[k] == ts[k]);
        }
        lemma_fx_treasury_wf(a, pre);
        if let Some(b) = spec_fx_treasury(a, pre) {
            assert(ts.last() == ts[ts.len() - 1]);
            lemma_fx_treasury_step(b, ts.last());
        }
    }
}

proof fn lemma_fx_items_none(items: Seq<RevalNoteItem>, k: int)
    requires
        0 <= k <= items.len(),
        spec_fx_items(fx_acc_init(), items.subrange(0, k)) is None,
    ensures
        spec_fx_items(fx_acc_init(), items) is None,
    decreases items.len() - k,
{
    if k < items.len() {
        assert(items.subrange(0, k + 1).drop_last() =~= items.subrange(0, k));
        lemma_fx_items_none(items, k + 1);
    } else {
        assert(items.subrange(0, k) =~= items);
    }
}

proof fn lemma_fx_treasury_none(a: FxAcc, ts: Seq<TreasuryNoteItem>, k: int)
    requires
        0 <= k <= ts.len(),
        spec_fx_treasury(a, ts.subrange(0, k)) is None,
    ensures
        spec_fx_treasury(a, ts) is None,
    decreases ts.len() - k,
{
    if k < ts.len() {
        assert(ts.subrange(0, k + 1).drop_last() =~= ts.subrange(0, k));
        lemma_fx_treasury_none(a, ts, k + 1);
    } else {
        assert(ts.subrange(0, k) =~= ts);
    }
}

/// The revaluation note and its totals.
pub struct FxNote {
    pub lines: Vec<GlLine>,
    pub total_favorable: Dec,
    pub total_unfavorable: Dec,
    pub net_diff: Dec,
    pub treasury_favorable: Dec,
    pub treasury_unfavorable: Dec,
}

/// The state of the note after all invoices, then all treasury accounts.
pub open spec fn spec_fx_state(items: Seq<RevalNoteItem>, treasury: Seq<TreasuryNoteItem>) -> Option<FxAcc> {
    match spec_fx_items(fx_acc_init(), items) {
        Some(a) => spec_fx_treasury(a, treasury),
        None => None,
    }
}

/// Builds the revaluation note (see `spec_fx_item_step`, `spec_fx_treasury_step`,
/// `spec_fx_final_lines`); it is balanced. `None` when a total leaves the decimal range.
pub fn fx_revaluation_note(items: &Vec<RevalNoteItem>, treasury: &Vec<TreasuryNoteItem>) -> (r: Option<FxNote>)
    requires
        forall|k: int| 0 <= k < items@.len() ==> (#[trigger] items@[k]).diff_lei.wf(),
        forall|k: int| 0 <= k < treasury@.len() ==> (#[trigger] treasury@[k]).diff_lei.wf(),
    ensures
        r is Some <==> (spec_fx_state(items@, treasury@) is Some && spec_dec_sub(
            spec_fx_state(items@, treasury@).unwrap().fav,
            spec_fx_state(items@, treasury@).unwrap().unfav,
        ) is Some),
        r matches Some(n) ==> {
            let a = spec_fx_state(items@, treasury@).unwrap();
            &&& views(n.lines@) == spec_fx_final_lines(a)
            &&& balanced(views(n.lines@))
            &&& n.total_favorable == a.fav
            &&& n.total_unfavorable == a.unfav
            &&& n.treasury_favorable == a.tfav
            &&& n.treasury_unfavorable == a.tunfav
            &&& Some(n.net_diff) == spec_dec_sub(a.fav, a.unfav)
            &&& n.total_favorable.val() >= 0
            &&& n.total_unfavorable.val() >= 0
            &&& n.treasury_favorable.val() >= 0
            &&& n.treasury_unfavorable.val() >= 0
            &&& n.net_diff.val() == n.total_favorable.val() - n.total_unfavorable.val()
        },
{
    let z = Dec::zero();
    let mut acc = FxAccExec { lines: Vec::new(), d665: z, c765: z, fav: z, unfav: z, tfav: z, tunfav: z };
    proof {
        lemma_zero_val(0);
        reveal_with_fuel(total_debit, 1);
        reveal_with_fuel(total_credit, 1);
        assert(views(acc.lines@) =~= Seq::<GlLineView>::empty());
        assert(acc.acc() == fx_acc_init());
        assert(items@.subrange(0, 0) =~= Seq::<RevalNoteItem>::empty());
        lemma_fx_items_wf(items@);
    }
    let n = items.len();
    let mut i: usize = 0;
    while i < n
        invariant
            n == items@.len(),
            i <= n,
            forall|k: int| 0 <= k < items@.len() ==> (#[trigger] items@[k]).diff_lei.wf(),
            spec_fx_items(fx_acc_init(), items@.subrange(0, i as int)) == Some(acc.acc()),
            fx_acc_wf(acc.acc()),
        decreases n - i,
    {
        proof {
            assert(items@.subrange(0, i + 1).drop_last() =~= items@.subrange(0, i as int));
            assert(items@.subrange(0, i + 1).last() == items@[i as int]);
            lemma_fx_item_step(acc.acc(), items@[i as int]);
        }
        if !fx_item_step(&mut acc, &items[i]) {
            proof { lemma_fx_items_none(items@, i + 1); }
            return None;
        }
        i = i + 1;
    }
    proof {
        assert(items@.subrange(0, n as int) =~= items@);
        assert(treasury@.subrange(0, 0) =~= Seq::<TreasuryNoteItem>::empty());
    }
    let ghost a0 = acc.acc();
    let m = treasury.len();
    let mut j: usize = 0;
    while j < m
        invariant
            m == treasury@.len(),
            j <= m,
            forall|k: int| 0 <= k < treasury@.len() ==> (#[trigger] treasury@[k]).diff_lei.wf(),
            spec_fx_treasury(a0, treasury@.subrange(0, j as int)) == Some(acc.acc()),
            spec_fx_items(fx_acc_init(), items@) == Some(a0),
            fx_acc_wf(acc.acc()),
        decreases m - j,
    {
        proof {
            assert(treasury@.subrange(0, j + 1).drop_last() =~= treasury@.subrange(0, j as int));
            assert(treasury@.subrange(0, j + 1).last() == treasury@[j as int]);
            lemma_fx_treasury_step(acc.acc(), treasury@[j as int]);
        }
        if !fx_treasury_step(&mut acc, &treasury[j]) {
            proof { lemma_fx_treasury_none(a0, treasury@, j + 1); }
            return None;
        }
        j = j + 1;
    }
    proof {
        assert(treasury@.subrange(0, m as int) =~= treasury@);
        lemma_fx_note_balanced(acc.acc());
        lemma_spec_sub(acc.fav, acc.unfav);
        lemma_val_sign(acc.d665);
        lemma_val_sign(acc.c765);
    }
    let net = match dec_sub(acc.fav, acc.unfav) {
        Some(x) => x,
        None => return None,
    };
    let ghost before = views(acc.lines@);
    if acc.d665.is_positive() {
        let l = plain_line("665", acc.d665, Dec::zero());
        proof { lemma_views_push(acc.lines@, l); }
        acc.lines.push(l);
    }
    if acc.c765.is_positive() {
        let l = plain_line("765", Dec::zero(), acc.c765);
        proof { lemma_views_push(acc.lines@, l); }
        acc.lines.push(l);
    }
    proof {
        assert(views(acc.lines@) =~= spec_fx_final_lines(spec_fx_state(items@, treasury@).unwrap()));
    }
    Some(FxNote {
        lines: acc.lines,
        total_favorable: acc.fav,
        total_unfavorable: acc.unfav,
        net_diff: net,
        treasury_favorable: acc.tfav,
        treasury_unfavorable: acc.tunfav,
    })
}

/// Outcome of a monthly revaluation.
pub struct FxRevaluationResult {
    pub period: String,
    pub rows_posted: usize,
    pub total_favorable: String,
    pub total_unfavorable: String,
    pub net_diff: String,
    pub gl_source_id: String,
    pub month_end_date: String,
    pub treasury_rows_posted: usize,
    pub treasury_favorable: String,
    pub treasury_unfavorable: String,
}

/// The outcome of a revaluation from its note: amounts as `Decimal::to_string`, the note
/// identified as `FX_REVAL-{period}`.
pub fn fx_revaluation_result(period: &str, month_end_date: &str, rows_posted: usize, treasury_rows_posted: usize, note: &FxNote) -> (r: FxRevaluationResult)
    requires
        note.total_favorable.wf(),
        note.total_unfavorable.wf(),
        note.net_diff.wf(),
        note.treasury_favorable.wf(),
        note.treasury_unfavorable.wf(),
    ensures
        r.period@ == period@,
        r.rows_posted == rows_posted,
        r.treasury_rows_posted == treasury_rows_posted,
        r.month_end_date@ == month_end_date@,
        r.gl_source_id@ == "FX_REVAL-"@ + period@,
        r.total_favorable@ == crate::decimal::decimal_to_string(note.total_favorable.mant, note.total_favorable.scale),
        r.total_unfavorable@ == crate::decimal::decimal_to_string(note.total_unfavorable.mant, note.total_unfavorable.scale),
        r.net_diff@ == crate::decimal::decimal_to_string(note.net_diff.mant, note.net_diff.scale),
        r.treasury_favorable@ == crate::decimal::decimal_to_string(note.treasury_favorable.mant, note.treasury_favorable.scale),
        r.treasury_unfavorable@ == crate::decimal::decimal_to_string(note.treasury_unfavorable.mant, note.treasury_unfavorable.scale),
{
    FxRevaluationResult {
        period: owned(period),
        rows_posted,
        total_favorable: note.total_favorable.to_text(),
        total_unfavorable: note.total_unfavorable.to_text(),
        net_diff: note.net_diff.to_text(),
        gl_source_id: concat_str("FX_REVAL-", period),
        month_end_date: owned(month_end_date),
        treasury_rows_posted,
        treasury_favorable: note.treasury_favorable.to_text(),
        treasury_unfavorable: note.treasury_unfavorable.to_text(),
    }
}


/// A stored revaluation of one invoice.
#[derive(Clone, Debug)]
pub struct FxRevaluationRow {
    pub id: String,
    pub company_id: String,
    pub period: String,
    pub invoice_id: String,
    pub invoice_kind: String,
    pub currency: String,
    pub foreign_outstanding: String,
    pub month_end_rate: String,
    pub prior_rate: String,
    pub revalued_lei: String,
    pub prior_lei: String,
    pub diff_lei: String,
    pub created_at: i64,
}

/// A stored revaluation of one treasury account.
#[derive(Clone, Debug)]
pub struct FxTreasuryRevaluationRow {
    pub id: String,
    pub company_id: String,
    pub period: String,
    pub treasury_kind: String,
    pub account_ref: String,
    pub gl_account: String,
    pub currency: String,
    pub foreign_balance: String,
    pub month_end_rate: String,
    pub prior_lei: String,
    pub revalued_lei: String,
    pub diff_lei: String,
    pub created_at: i64,
}

/// The base rate of an invoice's revaluation: the rate stored by the last earlier
/// revaluation when it reads (trimmed) as a number, else the booking rate.
pub fn prior_rate(stored: &Option<String>, booking_rate: Dec) -> (r: Dec)
    ensures
        r == (match *stored {
            Some(s) => match crate::payment_instruments::spec_parse_amount(s@) {
                Some(x) => x,
                None => booking_rate,
            },
            None => booking_rate,
        }),
{
    match stored {
        Some(s) => match crate::payment_instruments::parse_amount(s.as_str()) {
            Ok(x) => x,
            Err(_) => booking_rate,
        },
        None => booking_rate,
    }
}

} // verus!
