//! Period-end notes: the balance guard, VAT settlement (4426/4427 → 4423/4424), the
//! closing of classes 6/7 into 121, the income-tax expense, the annual 121 → 117 transfer
//! and the monthly payroll note. Each builds the lines of one note from balances that the
//! caller read from the ledger; every note is proved balanced.

use vstd::prelude::*;
use crate::decimal::{
    Dec, dec_add, dec_sub, dec_mul, dec_lt, spec_dec_add, spec_dec_sub, spec_dec_mul,
    lemma_spec_add, lemma_spec_sub, lemma_val_sign, lemma_zero_val, lemma_neg_val, max_zero,
    spec_max_zero, round_dp_even, spec_round_dp_even, round_dp_away, spec_round_dp_away, fmt2,
    spec_fmt2, parse_untrimmed_or_zero, spec_parse_untrimmed_or_zero, abs_int, pow10,
};
use crate::gl::{
    GlLine, GlLineView, views, total_debit, total_credit, balanced, account_net, plain_line,
    lemma_views_push, lemma_totals_concat, account_debit, account_credit,
    lemma_account_sides_concat, lemma_account_sides_small,
};
use crate::text::{owned, str_eq, int_text, spec_int_text, concat_str};

verus! {

// ─── Balance guard ──────────────────────────────────────────────────────────────

/// Σ of the debit amounts of the lines, accumulated left to right; `None` when a partial sum
/// leaves the decimal range.
pub open spec fn spec_sum_debits(s: Seq<GlLineView>) -> Option<Dec>
    decreases s.len(),
{
    if s.len() == 0 {
        Some(Dec { mant: 0, scale: 0 })
    } else {
        match spec_sum_debits(s.drop_last()) {
            Some(t) => spec_dec_add(t, s.last().debit),
            None => None,
        }
    }
}

/// Σ of the credit amounts, as `spec_sum_debits`.
pub open spec fn spec_sum_credits(s: Seq<GlLineView>) -> Option<Dec>
    decreases s.len(),
{
    if s.len() == 0 {
        Some(Dec { mant: 0, scale: 0 })
    } else {
        match spec_sum_credits(s.drop_last()) {
            Some(t) => spec_dec_add(t, s.last().credit),
            None => None,
        }
    }
}

pub open spec fn lines_wf(s: Seq<GlLineView>) -> bool {
    forall|i: int| 0 <= i < s.len() ==> (#[trigger] s[i]).debit.wf() && s[i].credit.wf()
}

proof fn lemma_sums(s: Seq<GlLineView>)
    requires
        lines_wf(s),
    ensures
        spec_sum_debits(s) matches Some(t) ==> t.wf() && t.val() == total_debit(s),
        spec_sum_credits(s) matches Some(t) ==> t.wf() && t.val() == total_credit(s),
    decreases s.len(),
{
    lemma_zero_val(0);
    if s.len() > 0 {
        lemma_sums(s.drop_last());
        assert(s.last() == s[s.len() - 1]);
        if let Some(t) = spec_sum_debits(s.drop_last()) {
            lemma_spec_add(t, s.last().debit);
        }
        if let Some(t) = spec_sum_credits(s.drop_last()) {
            lemma_spec_add(t, s.last().credit);
        }
    }
}

proof fn lemma_sums_none_extend(s: Seq<GlLineView>, k: int)
    requires
        0 <= k <= s.len(),
    ensures
        spec_sum_debits(s.subrange(0, k)) is None ==> spec_sum_debits(s) is None,
        spec_sum_credits(s.subrange(0, k)) is None ==> spec_sum_credits(s) is None,
    decreases s.len() - k,
{
    if k < s.len() {
        lemma_sums_none_extend(s, k + 1);
        assert(s.subrange(0, k + 1).drop_last() =~= s.subrange(0, k));
    } else {
        assert(s.subrange(0, k) =~= s);
    }
}

/// The tolerance of the balance guard: 0.005.
pub open spec fn balance_tolerance() -> int {
    5 * pow10(25)
}

/// Why a note was refused by the balance guard.
#[derive(Clone, Copy, Debug, PartialEq, Eq, Structural)]
pub enum BalanceError {
    /// |Σ debit − Σ credit| exceeds 0.005.
    Unbalanced,
    /// A sum does not fit the decimal range.
    Overflow,
}

/// When the balance guard accepts a note: both sums and their difference are representable
/// and differ by at most 0.005.
pub open spec fn spec_guard_ok(s: Seq<GlLineView>) -> bool {
    &&& spec_sum_debits(s) is Some
    &&& spec_sum_credits(s) is Some
    &&& spec_dec_sub(spec_sum_debits(s).unwrap(), spec_sum_credits(s).unwrap()) is Some
    &&& abs_int(total_debit(s) - total_credit(s)) <= balance_tolerance()
}

/// Refuses a note whose Σ debit and Σ credit differ by more than 0.005 (or whose sums do not
/// fit the decimal range).
pub fn assert_balanced(lines: &Vec<GlLine>) -> (r: Result<(), BalanceError>)
    requires
        lines_wf(views(lines@)),
    ensures
        r is Ok <==> spec_guard_ok(views(lines@)),
        r matches Err(e) ==> (e == BalanceError::Overflow <==> !(spec_sum_debits(views(lines@)) is Some
            && spec_sum_credits(views(lines@)) is Some && spec_dec_sub(
            spec_sum_debits(views(lines@)).unwrap(),
            spec_sum_credits(views(lines@)).unwrap(),
        ) is Some)),
{
    let ghost vs = views(lines@);
    let n = lines.len();
    let mut td = Dec::zero();
    let mut tc = Dec::zero();
    let mut i: usize = 0;
    while i < n
        invariant
            n == lines@.len(),
            vs == views(lines@),
            lines_wf(vs),
            i <= n,
            spec_sum_debits(vs.subrange(0, i as int)) == Some(td),
            spec_sum_credits(vs.subrange(0, i as int)) == Some(tc),
            td.wf(),
            tc.wf(),
        decreases n - i,
    {
        let l = &lines[i];
        proof {
            assert(vs[i as int] == l@);
            assert(vs.subrange(0, i + 1).drop_last() =~= vs.subrange(0, i as int));
            assert(vs.subrange(0, i + 1).last() == vs[i as int]);
            lemma_spec_add(td, l.debit);
            lemma_spec_add(tc, l.credit);
        }
        let nd = dec_add(td, l.debit);
        let nc = dec_add(tc, l.credit);
        match (nd, nc) {
            (Some(a), Some(b)) => {
                td = a;
                tc = b;
            },
            _ => {
                proof {
                    lemma_sums_none_extend(vs, i + 1);
                }
                return Err(BalanceError::Overflow);
            },
        }
        i = i + 1;
    }
    proof {
        assert(vs.subrange(0, n as int) =~= vs);
        lemma_sums(vs);
        lemma_spec_sub(td, tc);
    }
    let diff = match dec_sub(td, tc) {
        Some(d) => d,
        None => return Err(BalanceError::Overflow),
    };
    let tol = Dec { mant: 5, scale: 3 };
    proof {
        reveal_with_fuel(pow10, 4);
        crate::decimal::lemma_pow10_add(22, 3);
    }
    let a = diff.abs();
    if dec_lt(tol, a) {
        Err(BalanceError::Unbalanced)
    } else {
        Ok(())
    }
}

/// A RON amount in bani: `d × 100` rounded half away from zero, `0` when that does not fit
/// an `i64` (or the product does not fit the decimal range).
pub open spec fn spec_to_bani(d: Dec) -> i64 {
    match spec_dec_mul(d, Dec { mant: 100, scale: 0 }) {
        Some(p) => {
            let r = spec_round_dp_away(p, 0);
            if i64::MIN <= r.mant <= i64::MAX && r.scale == 0 {
                r.mant as i64
            } else {
                0
            }
        },
        None => 0,
    }
}

pub fn to_bani(d: Dec) -> (r: i64)
    requires
        d.wf(),
    ensures
        r == spec_to_bani(d),
{
    match dec_mul(d, Dec { mant: 100, scale: 0 }) {
        Some(p) => {
            let r = round_dp_away(p, 0);
            if i64::MIN as i128 <= r.mant && r.mant <= i64::MAX as i128 && r.scale == 0 {
                r.mant as i64
            } else {
                0
            }
        },
        None => 0,
    }
}

// ─── VAT settlement ─────────────────────────────────────────────────────────────

pub open spec fn zero_dec() -> Dec {
    Dec { mant: 0, scale: 0 }
}

pub open spec fn pline(account: Seq<char>, debit: Dec, credit: Dec) -> GlLineView {
    GlLineView { account, debit, credit, partner_cui: None, tax: None }
}

/// The settlement note for the exigible balances `collected` (credit of 4427) and
/// `deductible` (debit of 4426), with `net = collected − deductible`: D 4427 collected,
/// C 4426 deductible (each only when non-zero), then C 4423 net when positive or D 4424 −net
/// when negative.
pub open spec fn spec_vat_settlement_lines(collected: Dec, deductible: Dec, net: Dec) -> Seq<GlLineView> {
    let a = if collected.val() != 0 { seq![pline("4427"@, collected, zero_dec())] } else { seq![] };
    let b = if deductible.val() != 0 { seq![pline("4426"@, zero_dec(), deductible)] } else { seq![] };
    let c = if net.val() > 0 {
        seq![pline("4423"@, zero_dec(), net)]
    } else if net.val() < 0 {
        seq![pline("4424"@, Dec { mant: -net.mant as i128, scale: net.scale }, zero_dec())]
    } else {
        seq![]
    };
    a + b + c
}

/// Outcome of a VAT settlement: the amounts (two decimals) and whether a note was posted.
pub struct VatSettlementResult {
    pub collected: String,
    pub deductible: String,
    pub net_vat: String,
    pub de_plata: String,
    pub de_recuperat: String,
    pub entry_date: String,
    pub posted: bool,
}

proof fn lemma_pline_totals(s: Seq<GlLineView>)
    requires
        s.len() <= 1,
    ensures
        s.len() == 0 ==> total_debit(s) == 0 && total_credit(s) == 0,
        s.len() == 1 ==> total_debit(s) == s[0].debit.val() && total_credit(s) == s[0].credit.val(),
        forall|acc: Seq<char>| #[trigger] account_net(s, acc) == if s.len() == 1 && s[0].account == acc {
            s[0].debit.val() - s[0].credit.val()
        } else {
            0
        },
{
    reveal_with_fuel(total_debit, 2);
    reveal_with_fuel(total_credit, 2);
    reveal_with_fuel(account_net, 2);
    if s.len() == 1 {
        assert(s.drop_last() =~= Seq::<GlLineView>::empty());
    }
}

/// The VAT settlement note is balanced, brings 4427 and 4426 to zero (it debits 4427 by the
/// collected balance and credits 4426 by the deductible one), and leaves the difference on
/// 4423 (payable) or 4424 (recoverable).
pub proof fn lemma_vat_settlement(collected: Dec, deductible: Dec, net: Dec)
    requires
        collected.wf(),
        deductible.wf(),
        net.wf(),
        net.val() == collected.val() - deductible.val(),
    ensures
        balanced(spec_vat_settlement_lines(collected, deductible, net)),
        account_net(spec_vat_settlement_lines(collected, deductible, net), "4427"@) == collected.val(),
        account_net(spec_vat_settlement_lines(collected, deductible, net), "4426"@) == -deductible.val(),
        account_net(spec_vat_settlement_lines(collected, deductible, net), "4423"@) == -spec_max_zero(net).val(),
        account_net(spec_vat_settlement_lines(collected, deductible, net), "4424"@) == if net.val() < 0 { -net.val() } else { 0 },
{
    lemma_zero_val(0);
    lemma_neg_val(net);
    lemma_val_sign(net);
    let a = if collected.val() != 0 { seq![pline("4427"@, collected, zero_dec())] } else { seq![] };
    let b = if deductible.val() != 0 { seq![pline("4426"@, zero_dec(), deductible)] } else { seq![] };
    let c = if net.val() > 0 {
        seq![pline("4423"@, zero_dec(), net)]
    } else if net.val() < 0 {
        seq![pline("4424"@, Dec { mant: -net.mant as i128, scale: net.scale }, zero_dec())]
    } else {
        seq![]
    };
    lemma_pline_totals(a);
    lemma_pline_totals(b);
    lemma_pline_totals(c);
    lemma_totals_concat(a, b);
    lemma_totals_concat(a + b, c);
    reveal_strlit("4427");
    reveal_strlit("4426");
    reveal_strlit("4423");
    reveal_strlit("4424");
    assert("4427"@[3] != "4426"@[3]);
    assert("4427"@[3] != "4423"@[3]);
    assert("4427"@[3] != "4424"@[3]);
    assert("4426"@[3] != "4423"@[3]);
    assert("4426"@[3] != "4424"@[3]);
    assert("4423"@[3] != "4424"@[3]);
    assert(account_net(a, "4427"@) == collected.val());
    assert(account_net(b, "4426"@) == -deductible.val());
}

fn push_line(lines: &mut Vec<GlLine>, account: &str, debit: Dec, credit: Dec)
    ensures
        views(final(lines)@) == views(old(lines)@).push(pline(account@, debit, credit)),
{
    let l = plain_line(account, debit, credit);
    proof {
        lemma_views_push(lines@, l);
    }
    lines.push(l);
}

/// Settles VAT for a period from the exigible balances read from the ledger: both are first
/// rounded to two decimals (midpoints to even). No note when both are zero. `None` when the
/// difference does not fit the decimal range.
pub fn post_vat_settlement(
    collected_raw: Dec,
    deductible_raw: Dec,
    period_to: &str,
) -> (r: Option<(VatSettlementResult, Vec<GlLine>)>)
    requires
        collected_raw.wf(),
        deductible_raw.wf(),
    ensures
        ({
            let c = spec_round_dp_even(collected_raw, 2);
            let d = spec_round_dp_even(deductible_raw, 2);
            &&& r is None <==> spec_dec_sub(c, d) is None
            &&& r matches Some((res, ls)) ==> {
                let net = spec_dec_sub(c, d).unwrap();
                &&& res.posted == !(c.val() == 0 && d.val() == 0)
                &&& res.posted ==> views(ls@) == spec_vat_settlement_lines(c, d, net)
                &&& !res.posted ==> ls@.len() == 0
                &&& res.collected@ == spec_fmt2(c)
                &&& res.deductible@ == spec_fmt2(d)
                &&& res.net_vat@ == spec_fmt2(net)
                &&& res.de_plata@ == spec_fmt2(spec_max_zero(net))
                &&& res.de_recuperat@ == spec_fmt2(spec_max_zero(Dec { mant: -net.mant as i128, scale: net.scale }))
                &&& res.entry_date@ == period_to@
                &&& balanced(views(ls@))
            }
        }),
{
    let c = round_dp_even(collected_raw, 2);
    let d = round_dp_even(deductible_raw, 2);
    proof {
        lemma_spec_sub(c, d);
        lemma_val_sign(c);
        lemma_val_sign(d);
        lemma_zero_val(0);
    }
    let net = match dec_sub(c, d) {
        Some(x) => x,
        None => return None,
    };
    proof {
        lemma_val_sign(net);
        lemma_vat_settlement(c, d, net);
    }
    let neg = net.neg();
    let res = VatSettlementResult {
        collected: fmt2(c),
        deductible: fmt2(d),
        net_vat: fmt2(net),
        de_plata: fmt2(max_zero(net)),
        de_recuperat: fmt2(max_zero(neg)),
        entry_date: owned(period_to),
        posted: !(c.is_zero() && d.is_zero()),
    };
    let mut lines: Vec<GlLine> = Vec::new();
    if !res.posted {
        proof {
            reveal_with_fuel(total_debit, 1);
            reveal_with_fuel(total_credit, 1);
        }
        return Some((res, lines));
    }
    if !c.is_zero() {
        push_line(&mut lines, "4427", c, Dec::zero());
    }
    if !d.is_zero() {
        push_line(&mut lines, "4426", Dec::zero(), d);
    }
    if net.is_positive() {
        push_line(&mut lines, "4423", Dec::zero(), net);
    } else if net.is_negative() {
        push_line(&mut lines, "4424", neg, Dec::zero());
    }
    assert(views(lines@) =~= spec_vat_settlement_lines(c, d, net));
    Some((res, lines))
}


// ─── Closing classes 6/7 into 121 ───────────────────────────────────────────────

/// The net balance (debit − credit) of one class 6/7 account for the period.
pub struct AccountBalance {
    pub code: String,
    pub net_debit: Dec,
}

pub open spec fn neg_dec(n: Dec) -> Dec {
    Dec { mant: -n.mant as i128, scale: n.scale }
}

/// The line that brings one account to zero: a debit balance is credited, anything else
/// (a credit balance) is debited.
pub open spec fn spec_close_line(b: AccountBalance) -> GlLineView {
    if b.net_debit.val() > 0 {
        pline(b.code@, zero_dec(), b.net_debit)
    } else {
        pline(b.code@, neg_dec(b.net_debit), zero_dec())
    }
}

pub open spec fn spec_close_account_lines(bs: Seq<AccountBalance>) -> Seq<GlLineView> {
    Seq::new(bs.len(), |i: int| spec_close_line(bs[i]))
}

/// The expenses swept into 121 (Σ of the debit balances) and the revenue swept (Σ of the
/// credit balances, as positive numbers); `None` when a sum leaves the decimal range.
pub open spec fn spec_close_sums(bs: Seq<AccountBalance>) -> Option<(Dec, Dec)>
    decreases bs.len(),
{
    if bs.len() == 0 {
        Some((zero_dec(), zero_dec()))
    } else {
        match spec_close_sums(bs.drop_last()) {
            Some((d, c)) => {
                let n = bs.last().net_debit;
                if n.val() > 0 {
                    match spec_dec_add(d, n) {
                        Some(d2) => Some((d2, c)),
                        None => None,
                    }
                } else {
                    match spec_dec_add(c, neg_dec(n)) {
                        Some(c2) => Some((d, c2)),
                        None => None,
                    }
                }
            },
            None => None,
        }
    }
}

/// The whole closing note: one zeroing line per account, then C 121 for the revenue and
/// D 121 for the expenses (each only when non-zero).
pub open spec fn spec_close_lines(bs: Seq<AccountBalance>, debit_121: Dec, credit_121: Dec) -> Seq<GlLineView> {
    spec_close_account_lines(bs)
        + (if credit_121.val() != 0 { seq![pline("121"@, zero_dec(), credit_121)] } else { seq![] })
        + (if debit_121.val() != 0 { seq![pline("121"@, debit_121, zero_dec())] } else { seq![] })
}

pub open spec fn balances_wf(bs: Seq<AccountBalance>) -> bool {
    forall|i: int| 0 <= i < bs.len() ==> (#[trigger] bs[i]).net_debit.wf()
}

proof fn lemma_close_sums(bs: Seq<AccountBalance>)
    requires
        balances_wf(bs),
    ensures
        spec_close_sums(bs) matches Some((d, c)) ==> d.wf() && c.wf() && d.val() >= 0 && c.val() >= 0
            && total_credit(spec_close_account_lines(bs)) == d.val()
            && total_debit(spec_close_account_lines(bs)) == c.val(),
    decreases bs.len(),
{
    lemma_zero_val(0);
    reveal_with_fuel(total_debit, 1);
    reveal_with_fuel(total_credit, 1);
    if bs.len() > 0 {
        let pre = bs.drop_last();
        assert(balances_wf(pre)) by {
            assert forall|i: int| 0 <= i < pre.len() implies (#[trigger] pre[i]).net_debit.wf() by {
                assert(pre[i] == bs[i]);
            }
        }
        lemma_close_sums(pre);
        assert(spec_close_account_lines(bs).drop_last() =~= spec_close_account_lines(pre));
        assert(bs.last() == bs[bs.len() - 1]);
        let n = bs.last().net_debit;
        lemma_neg_val(n);
        lemma_val_sign(n);
        if let Some((d, c)) = spec_close_sums(pre) {
            lemma_spec_add(d, n);
            lemma_spec_add(c, neg_dec(n));
        }
    } else {
        assert(spec_close_account_lines(bs) =~= Seq::<GlLineView>::empty());
    }
}

proof fn lemma_close_sums_none_extend(bs: Seq<AccountBalance>, k: int)
    requires
        0 <= k <= bs.len(),
        spec_close_sums(bs.subrange(0, k)) is None,
    ensures
        spec_close_sums(bs) is None,
    decreases bs.len() - k,
{
    if k < bs.len() {
        assert(bs.subrange(0, k + 1).drop_last() =~= bs.subrange(0, k));
        lemma_close_sums_none_extend(bs, k + 1);
    } else {
        assert(bs.subrange(0, k) =~= bs);
    }
}

/// The closing note of classes 6/7 is balanced, and its 121 legs carry exactly the swept
/// revenue (credit) and expenses (debit).
pub proof fn lemma_period_close_balanced(bs: Seq<AccountBalance>)
    requires
        balances_wf(bs),
    ensures
        spec_close_sums(bs) matches Some((d, c)) ==> balanced(spec_close_lines(bs, d, c))
            && account_net(spec_close_lines(bs, d, c), "121"@) == account_net(spec_close_account_lines(bs), "121"@) + d.val() - c.val(),
{
    lemma_close_sums(bs);
    if let Some((d, c)) = spec_close_sums(bs) {
        lemma_zero_val(0);
        let a = spec_close_account_lines(bs);
        let x = if c.val() != 0 { seq![pline("121"@, zero_dec(), c)] } else { seq![] };
        let y = if d.val() != 0 { seq![pline("121"@, d, zero_dec())] } else { seq![] };
        lemma_pline_totals(x);
        lemma_pline_totals(y);
        lemma_totals_concat(a, x);
        lemma_totals_concat(a + x, y);
    }
}

/// Each closing line brings its account to zero: its debit − credit is the opposite of the
/// account's net debit balance.
pub proof fn lemma_close_line_zeroes(bs: Seq<AccountBalance>, i: int)
    requires
        balances_wf(bs),
        0 <= i < bs.len(),
    ensures
        spec_close_account_lines(bs)[i].account == bs[i].code@,
        spec_close_account_lines(bs)[i].debit.val() - spec_close_account_lines(bs)[i].credit.val() == -bs[i].net_debit.val(),
{
    lemma_zero_val(0);
    lemma_neg_val(bs[i].net_debit);
}

/// Outcome of closing classes 6/7.
pub struct ClosePeriodResult {
    pub total_revenue: String,
    pub total_expense: String,
    pub result: String,
    pub entries_count: i64,
    pub posted: bool,
    pub entry_date: String,
}

/// Closes the period's class 6/7 balances into 121. No note when there is no balance.
/// `None` when a sum does not fit the decimal range.
pub fn post_period_close(balances: &Vec<AccountBalance>, period_to: &str) -> (r: Option<(ClosePeriodResult, Vec<GlLine>)>)
    requires
        balances_wf(balances@),
        balances@.len() + 2 <= i64::MAX,
    ensures
        r is None <==> (spec_close_sums(balances@) is None || spec_dec_sub(
            spec_close_sums(balances@).unwrap().1,
            spec_close_sums(balances@).unwrap().0,
        ) is None),
        r matches Some((res, ls)) ==> {
            let (d, c) = spec_close_sums(balances@).unwrap();
            &&& res.total_revenue@ == spec_fmt2(c)
            &&& res.total_expense@ == spec_fmt2(d)
            &&& res.result@ == spec_fmt2(spec_dec_sub(c, d).unwrap())
            &&& res.posted == (balances@.len() > 0)
            &&& res.posted ==> views(ls@) == spec_close_lines(balances@, d, c)
            &&& !res.posted ==> ls@.len() == 0
            &&& res.entries_count == ls@.len()
            &&& res.entry_date@ == period_to@
            &&& balanced(views(ls@))
        },
{
    let n = balances.len();
    let mut lines: Vec<GlLine> = Vec::new();
    let mut d = Dec::zero();
    let mut c = Dec::zero();
    let mut i: usize = 0;
    while i < n
        invariant
            n == balances@.len(),
            balances_wf(balances@),
            i <= n,
            spec_close_sums(balances@.subrange(0, i as int)) == Some((d, c)),
            views(lines@) == spec_close_account_lines(balances@.subrange(0, i as int)),
            d.wf(),
            c.wf(),
        decreases n - i,
    {
        let b = &balances[i];
        let ghost sub = balances@.subrange(0, i + 1);
        proof {
            assert(sub.drop_last() =~= balances@.subrange(0, i as int));
            assert(sub.last() == balances@[i as int]);
            assert(b.net_debit.wf());
            lemma_val_sign(b.net_debit);
            lemma_neg_val(b.net_debit);
            lemma_spec_add(d, b.net_debit);
            lemma_spec_add(c, neg_dec(b.net_debit));
        }
        let ghost before = views(lines@);
        if b.net_debit.is_positive() {
            let l = GlLine { account: b.code.clone(), debit: Dec::zero(), credit: b.net_debit, partner_cui: None, tax: None };
            proof { lemma_views_push(lines@, l); }
            lines.push(l);
            match dec_add(d, b.net_debit) {
                Some(x) => d = x,
                None => {
                    proof { lemma_close_sums_none_extend(balances@, i + 1); }
                    return None;
                },
            }
        } else {
            let l = GlLine { account: b.code.clone(), debit: b.net_debit.neg(), credit: Dec::zero(), partner_cui: None, tax: None };
            proof { lemma_views_push(lines@, l); }
            lines.push(l);
            match dec_add(c, b.net_debit.neg()) {
                Some(x) => c = x,
                None => {
                    proof { lemma_close_sums_none_extend(balances@, i + 1); }
                    return None;
                },
            }
        }
        proof {
            assert(views(lines@) =~= spec_close_account_lines(sub));
        }
        i = i + 1;
    }
    proof {
        assert(balances@.subrange(0, n as int) =~= balances@);
        lemma_spec_sub(c, d);
        lemma_val_sign(c);
        lemma_val_sign(d);
        lemma_period_close_balanced(balances@);
    }
    let result = match dec_sub(c, d) {
        Some(x) => x,
        None => return None,
    };
    if n == 0 {
        proof {
            reveal_with_fuel(total_debit, 1);
            reveal_with_fuel(total_credit, 1);
        }
        let res = ClosePeriodResult {
            total_revenue: fmt2(c),
            total_expense: fmt2(d),
            result: fmt2(result),
            entries_count: 0,
            posted: false,
            entry_date: owned(period_to),
        };
        assert(views(lines@).len() == 0);
        return Some((res, lines));
    }
    if !c.is_zero() {
        push_line(&mut lines, "121", Dec::zero(), c);
    }
    if !d.is_zero() {
        push_line(&mut lines, "121", d, Dec::zero());
    }
    assert(views(lines@) =~= spec_close_lines(balances@, d, c));
    let count = lines.len() as i64;
    let res = ClosePeriodResult {
        total_revenue: fmt2(c),
        total_expense: fmt2(d),
        result: fmt2(result),
        entries_count: count,
        posted: true,
        entry_date: owned(period_to),
    };
    Some((res, lines))
}

// ─── Income tax ─────────────────────────────────────────────────────────────────

/// The income-tax amount and whether it is an estimate: an explicit amount is taken (not
/// below zero, rounded to two decimals); otherwise micro pays 1% of the revenue and profit
/// 16% of the positive gross result, rounded to two decimals (midpoints to even). `None`
/// when a product leaves the decimal range.
pub open spec fn spec_income_tax_amount(
    micro: bool,
    explicit: Option<Dec>,
    total_revenue: Seq<char>,
    gross_result: Seq<char>,
) -> Option<(Dec, bool)> {
    match explicit {
        Some(a) => Some((spec_round_dp_even(spec_max_zero(a), 2), false)),
        None => {
            let v = if micro {
                spec_dec_mul(spec_parse_untrimmed_or_zero(total_revenue), Dec { mant: 1, scale: 2 })
            } else {
                spec_dec_mul(spec_max_zero(spec_parse_untrimmed_or_zero(gross_result)), Dec { mant: 16, scale: 2 })
            };
            match v {
                Some(x) => Some((spec_round_dp_even(x, 2), true)),
                None => None,
            }
        },
    }
}

/// Outcome of posting the income-tax expense.
pub struct IncomeTaxResult {
    pub tax_regime: String,
    pub expense_account: String,
    pub payable_account: String,
    pub amount: String,
    pub estimated: bool,
    pub posted: bool,
    pub entry_date: String,
}

/// Books the income tax: micro D 698 / C 4418, otherwise D 691 / C 4411; the estimate is
/// taken from the period's P&L texts (`total_revenue`, `gross_result`). No note for a zero
/// amount.
pub fn post_income_tax(
    tax_regime: &str,
    amount: Option<Dec>,
    total_revenue: &str,
    gross_result: &str,
    period_to: &str,
) -> (r: Option<(IncomeTaxResult, Vec<GlLine>)>)
    requires
        amount matches Some(a) ==> a.wf(),
    ensures
        ({
            let micro = tax_regime@ == "micro"@;
            let (exp, pay) = if micro { ("698"@, "4418"@) } else { ("691"@, "4411"@) };
            &&& r is None <==> spec_income_tax_amount(micro, amount, total_revenue@, gross_result@) is None
            &&& r matches Some((res, ls)) ==> {
                let (a, est) = spec_income_tax_amount(micro, amount, total_revenue@, gross_result@).unwrap();
                &&& res.amount@ == spec_fmt2(a)
                &&& res.estimated == est
                &&& res.posted == (a.val() != 0)
                &&& res.expense_account@ == exp
                &&& res.payable_account@ == pay
                &&& res.tax_regime@ == tax_regime@
                &&& res.entry_date@ == period_to@
                &&& res.posted ==> views(ls@) == seq![pline(exp, a, zero_dec()), pline(pay, zero_dec(), a)]
                &&& !res.posted ==> ls@.len() == 0
                &&& balanced(views(ls@))
            }
        }),
{
    let micro = str_eq(tax_regime, "micro");
    let (exp, pay) = if micro { ("698", "4418") } else { ("691", "4411") };
    let (a, est) = match amount {
        Some(x) => (round_dp_even(max_zero(x), 2), false),
        None => {
            let v = if micro {
                dec_mul(parse_untrimmed_or_zero(total_revenue), Dec { mant: 1, scale: 2 })
            } else {
                dec_mul(max_zero(parse_untrimmed_or_zero(gross_result)), Dec { mant: 16, scale: 2 })
            };
            match v {
                Some(x) => (round_dp_even(x, 2), true),
                None => return None,
            }
        },
    };
    proof {
        lemma_val_sign(a);
        lemma_zero_val(0);
        reveal_with_fuel(total_debit, 3);
        reveal_with_fuel(total_credit, 3);
    }
    let posted = !a.is_zero();
    let res = IncomeTaxResult {
        tax_regime: owned(tax_regime),
        expense_account: owned(exp),
        payable_account: owned(pay),
        amount: fmt2(a),
        estimated: est,
        posted,
        entry_date: owned(period_to),
    };
    let mut lines: Vec<GlLine> = Vec::new();
    if posted {
        push_line(&mut lines, exp, a, Dec::zero());
        push_line(&mut lines, pay, Dec::zero(), a);
        proof {
            let v = views(lines@);
            assert(v.drop_last().drop_last() =~= Seq::<GlLineView>::empty());
        }
    }
    Some((res, lines))
}

// ─── Annual transfer 121 → 117 ──────────────────────────────────────────────────

/// Outcome of the annual transfer of the result.
pub struct AnnualCloseResult {
    pub year: i32,
    pub result_121: String,
    pub kind: String,
    pub posted: bool,
    pub entry_date: String,
}

/// The annual note for the 121 credit balance `net` (profit when positive): profit
/// D 121 / C 117, loss D 117 / C 121; nothing for zero.
pub open spec fn spec_annual_close_lines(net: Dec) -> Seq<GlLineView> {
    if net.val() > 0 {
        seq![pline("121"@, net, zero_dec()), pline("117"@, zero_dec(), net)]
    } else if net.val() < 0 {
        seq![pline("117"@, neg_dec(net), zero_dec()), pline("121"@, zero_dec(), neg_dec(net))]
    } else {
        seq![]
    }
}

/// The annual note empties 121 into 117: for a 121 credit balance `net` it moves `net` to
/// 117 (121 debited by a profit, credited by a loss), so 121 nets to `net` and 117 to
/// `−net`.
pub proof fn lemma_annual_close_accounts(net: Dec)
    requires
        net.wf(),
    ensures
        account_net(spec_annual_close_lines(net), "121"@) == net.val(),
        account_net(spec_annual_close_lines(net), "117"@) == -net.val(),
{
    lemma_zero_val(0);
    lemma_neg_val(net);
    reveal_strlit("121");
    reveal_strlit("117");
    assert("121"@[1] != "117"@[1]);
    let s = spec_annual_close_lines(net);
    if s.len() == 2 {
        lemma_two_lines(s);
    } else {
        reveal_with_fuel(account_net, 1);
    }
}

/// Transfers the year's result from 121 to 117, dated the first day of the next year. The
/// 121 balance is rounded to two decimals first.
pub fn post_annual_close(year: i32, net_credit_raw: Dec) -> (r: (AnnualCloseResult, Vec<GlLine>))
    requires
        net_credit_raw.wf(),
        year < i32::MAX,
    ensures
        ({
            let net = spec_round_dp_even(net_credit_raw, 2);
            &&& r.0.year == year
            &&& r.0.result_121@ == spec_fmt2(net)
            &&& r.0.kind@ == (if net.val() > 0 { "profit"@ } else if net.val() < 0 { "loss"@ } else { "zero"@ })
            &&& r.0.posted == (net.val() != 0)
            &&& r.0.entry_date@ == spec_int_text(year + 1) + "-01-01"@
            &&& views(r.1@) == spec_annual_close_lines(net)
            &&& balanced(views(r.1@))
            &&& account_net(views(r.1@), "121"@) == net.val()
            &&& account_net(views(r.1@), "117"@) == -net.val()
        }),
{
    let net = round_dp_even(net_credit_raw, 2);
    proof {
        lemma_val_sign(net);
        lemma_neg_val(net);
        lemma_zero_val(0);
        reveal_with_fuel(total_debit, 3);
        reveal_with_fuel(total_credit, 3);
    }
    let y1: i64 = year as i64 + 1;
    let entry_date = concat_str(int_text(y1).as_str(), "-01-01");
    let mut lines: Vec<GlLine> = Vec::new();
    let kind = if net.is_positive() {
        push_line(&mut lines, "121", net, Dec::zero());
        push_line(&mut lines, "117", Dec::zero(), net);
        "profit"
    } else if net.is_negative() {
        push_line(&mut lines, "117", net.neg(), Dec::zero());
        push_line(&mut lines, "121", Dec::zero(), net.neg());
        "loss"
    } else {
        "zero"
    };
    proof {
        let v = views(lines@);
        assert(v =~= spec_annual_close_lines(net));
        if v.len() == 2 {
            assert(v.drop_last().drop_last() =~= Seq::<GlLineView>::empty());
        }
        lemma_annual_close_accounts(net);
    }
    let res = AnnualCloseResult {
        year,
        result_121: fmt2(net),
        kind: owned(kind),
        posted: !net.is_zero(),
        entry_date,
    };
    (res, lines)
}

// ─── Payroll ────────────────────────────────────────────────────────────────────

/// Outcome of posting a month's payroll.
pub struct PayrollPostResult {
    pub gross: String,
    pub net: String,
    pub posted: bool,
    pub entry_date: String,
}

/// The payroll note: D 641 / C 421 gross; D 421 the withholdings (when non-zero) with
/// C 4315 CAS, C 4316 CASS, C 444 income tax (each when non-zero); D 646 / C 436 the
/// employer's CAM (when non-zero).
pub open spec fn spec_payroll_lines(gross: Dec, cas: Dec, cass: Dec, impozit: Dec, cam: Dec, withholding: Dec) -> Seq<GlLineView> {
    seq![pline("641"@, gross, zero_dec()), pline("421"@, zero_dec(), gross)]
        + (if withholding.val() != 0 { seq![pline("421"@, withholding, zero_dec())] } else { seq![] })
        + (if cas.val() != 0 { seq![pline("4315"@, zero_dec(), cas)] } else { seq![] })
        + (if cass.val() != 0 { seq![pline("4316"@, zero_dec(), cass)] } else { seq![] })
        + (if impozit.val() != 0 { seq![pline("444"@, zero_dec(), impozit)] } else { seq![] })
        + (if cam.val() != 0 { seq![pline("646"@, cam, zero_dec()), pline("436"@, zero_dec(), cam)] } else { seq![] })
}

/// `cas + cass + impozit`, left to right.
pub open spec fn spec_withholding(cas: Dec, cass: Dec, impozit: Dec) -> Option<Dec> {
    match spec_dec_add(cas, cass) {
        Some(x) => spec_dec_add(x, impozit),
        None => None,
    }
}

/// `gross − cas − cass − impozit`, left to right.
pub open spec fn spec_net_pay(gross: Dec, cas: Dec, cass: Dec, impozit: Dec) -> Option<Dec> {
    match spec_dec_sub(gross, cas) {
        Some(x) => match spec_dec_sub(x, cass) {
            Some(y) => spec_dec_sub(y, impozit),
            None => None,
        },
        None => None,
    }
}

proof fn lemma_two_lines(s: Seq<GlLineView>)
    requires
        s.len() == 2,
    ensures
        total_debit(s) == s[0].debit.val() + s[1].debit.val(),
        total_credit(s) == s[0].credit.val() + s[1].credit.val(),
        forall|acc: Seq<char>| #[trigger] account_net(s, acc) == (if s[0].account == acc { s[0].debit.val() - s[0].credit.val() } else { 0 })
            + (if s[1].account == acc { s[1].debit.val() - s[1].credit.val() } else { 0 }),
{
    reveal_with_fuel(total_debit, 3);
    reveal_with_fuel(total_credit, 3);
    reveal_with_fuel(account_net, 3);
    assert(s.drop_last() =~= seq![s[0]]);
    assert(seq![s[0]].drop_last() =~= Seq::<GlLineView>::empty());
}

/// The payroll note is balanced and leaves on 421 exactly the net pay owed to the employees
/// (a credit of `gross − cas − cass − impozit`).
pub proof fn lemma_payroll(gross: Dec, cas: Dec, cass: Dec, impozit: Dec, cam: Dec, withholding: Dec)
    requires
        gross.wf(),
        cas.wf(),
        cass.wf(),
        impozit.wf(),
        cam.wf(),
        withholding.wf(),
        withholding.val() == cas.val() + cass.val() + impozit.val(),
    ensures
        balanced(spec_payroll_lines(gross, cas, cass, impozit, cam, withholding)),
        account_net(spec_payroll_lines(gross, cas, cass, impozit, cam, withholding), "421"@)
            == -(gross.val() - cas.val() - cass.val() - impozit.val()),
{
    lemma_zero_val(0);
    lemma_val_sign(withholding);
    lemma_val_sign(cas);
    lemma_val_sign(cass);
    lemma_val_sign(impozit);
    lemma_val_sign(cam);
    reveal_strlit("421");
    reveal_strlit("641");
    reveal_strlit("4315");
    reveal_strlit("4316");
    reveal_strlit("444");
    reveal_strlit("646");
    reveal_strlit("436");
    let h = seq![pline("641"@, gross, zero_dec()), pline("421"@, zero_dec(), gross)];
    let w = if withholding.val() != 0 { seq![pline("421"@, withholding, zero_dec())] } else { seq![] };
    let a = if cas.val() != 0 { seq![pline("4315"@, zero_dec(), cas)] } else { seq![] };
    let b = if cass.val() != 0 { seq![pline("4316"@, zero_dec(), cass)] } else { seq![] };
    let c = if impozit.val() != 0 { seq![pline("444"@, zero_dec(), impozit)] } else { seq![] };
    let m = if cam.val() != 0 { seq![pline("646"@, cam, zero_dec()), pline("436"@, zero_dec(), cam)] } else { seq![] };
    lemma_two_lines(h);
    if m.len() == 2 {
        lemma_two_lines(m);
    }
    if m.len() == 0 {
        reveal_with_fuel(total_debit, 1);
        reveal_with_fuel(total_credit, 1);
        reveal_with_fuel(account_net, 1);
    }
    lemma_pline_totals(w);
    lemma_pline_totals(a);
    lemma_pline_totals(b);
    lemma_pline_totals(c);
    lemma_totals_concat(h, w);
    lemma_totals_concat(h + w, a);
    lemma_totals_concat(h + w + a, b);
    lemma_totals_concat(h + w + a + b, c);
    lemma_totals_concat(h + w + a + b + c, m);
    assert("641"@[1] != "421"@[1]);
    assert("4315"@.len() != "421"@.len());
    assert("4316"@.len() != "421"@.len());
    assert("444"@[1] != "421"@[1]);
    assert("646"@[1] != "421"@[1]);
    assert("436"@[1] != "421"@[1]);
    assert(account_net(m, "421"@) == 0);
}

proof fn lemma_payroll_account_names()
    ensures
        "641"@ != "421"@, "641"@ != "4315"@, "641"@ != "4316"@, "641"@ != "444"@, "641"@ != "646"@, "641"@ != "436"@,
        "421"@ != "4315"@, "421"@ != "4316"@, "421"@ != "444"@, "421"@ != "646"@, "421"@ != "436"@,
        "4315"@ != "4316"@, "4315"@ != "444"@, "4315"@ != "646"@, "4315"@ != "436"@,
        "4316"@ != "444"@, "4316"@ != "646"@, "4316"@ != "436"@,
        "444"@ != "646"@, "444"@ != "436"@,
        "646"@ != "436"@,
{
    reveal_strlit("421");
    reveal_strlit("641");
    reveal_strlit("4315");
    reveal_strlit("4316");
    reveal_strlit("444");
    reveal_strlit("646");
    reveal_strlit("436");
    assert("641"@[0] != "421"@[0]);
    assert("641"@.len() != "4315"@.len());
    assert("641"@.len() != "4316"@.len());
    assert("641"@[2] != "444"@[2]);
    assert("641"@[2] != "646"@[2]);
    assert("641"@[0] != "436"@[0]);
    assert("421"@.len() != "4315"@.len());
    assert("421"@.len() != "4316"@.len());
    assert("421"@[1] != "444"@[1]);
    assert("421"@[0] != "646"@[0]);
    assert("421"@[1] != "436"@[1]);
    assert("4315"@[3] != "4316"@[3]);
    assert("4315"@.len() != "444"@.len());
    assert("4315"@.len() != "646"@.len());
    assert("4315"@.len() != "436"@.len());
    assert("4316"@.len() != "444"@.len());
    assert("4316"@.len() != "646"@.len());
    assert("4316"@.len() != "436"@.len());
    assert("444"@[0] != "646"@[0]);
    assert("444"@[1] != "436"@[1]);
    assert("646"@[0] != "436"@[0]);
}

proof fn lemma_payroll_sides(gross: Dec, cas: Dec, cass: Dec, impozit: Dec, cam: Dec, withholding: Dec, acc: Seq<char>)
    ensures
        account_debit(spec_payroll_lines(gross, cas, cass, impozit, cam, withholding), acc)
            == (if acc == "641"@ { gross.val() } else { 0 })
            + (if withholding.val() != 0 && acc == "421"@ { withholding.val() } else { 0 })
            + (if cam.val() != 0 && acc == "646"@ { cam.val() } else { 0 }),
        account_credit(spec_payroll_lines(gross, cas, cass, impozit, cam, withholding), acc)
            == (if acc == "421"@ { gross.val() } else { 0 })
            + (if cas.val() != 0 && acc == "4315"@ { cas.val() } else { 0 })
            + (if cass.val() != 0 && acc == "4316"@ { cass.val() } else { 0 })
            + (if impozit.val() != 0 && acc == "444"@ { impozit.val() } else { 0 })
            + (if cam.val() != 0 && acc == "436"@ { cam.val() } else { 0 }),
{
    lemma_zero_val(0);
    lemma_payroll_account_names();
    let h = seq![pline("641"@, gross, zero_dec()), pline("421"@, zero_dec(), gross)];
    let w = if withholding.val() != 0 { seq![pline("421"@, withholding, zero_dec())] } else { seq![] };
    let a = if cas.val() != 0 { seq![pline("4315"@, zero_dec(), cas)] } else { seq![] };
    let b = if cass.val() != 0 { seq![pline("4316"@, zero_dec(), cass)] } else { seq![] };
    let c = if impozit.val() != 0 { seq![pline("444"@, zero_dec(), impozit)] } else { seq![] };
    let m = if cam.val() != 0 { seq![pline("646"@, cam, zero_dec()), pline("436"@, zero_dec(), cam)] } else { seq![] };
    assert(spec_payroll_lines(gross, cas, cass, impozit, cam, withholding) == h + w + a + b + c + m);
    lemma_account_sides_small(h, acc);
    lemma_account_sides_small(w, acc);
    lemma_account_sides_small(a, acc);
    lemma_account_sides_small(b, acc);
    lemma_account_sides_small(c, acc);
    lemma_account_sides_small(m, acc);
    lemma_account_sides_concat(h, w, acc);
    lemma_account_sides_concat(h + w, a, acc);
    lemma_account_sides_concat(h + w + a, b, acc);
    lemma_account_sides_concat(h + w + a + b, c, acc);
    lemma_account_sides_concat(h + w + a + b + c, m, acc);
}

/// Each amount of the payroll note lands on its own account: 4315 is credited the CAS
/// withheld and 4316 the CASS withheld (neither is debited), 444 the income tax, 436 the
/// employer's CAM with 646 debited as much; 641 is debited and 421 credited the gross, and
/// 421 is debited the withholdings.
pub proof fn lemma_payroll_accounts(gross: Dec, cas: Dec, cass: Dec, impozit: Dec, cam: Dec, withholding: Dec)
    ensures
        account_credit(spec_payroll_lines(gross, cas, cass, impozit, cam, withholding), "4315"@) == cas.val(),
        account_debit(spec_payroll_lines(gross, cas, cass, impozit, cam, withholding), "4315"@) == 0,
        account_credit(spec_payroll_lines(gross, cas, cass, impozit, cam, withholding), "4316"@) == cass.val(),
        account_debit(spec_payroll_lines(gross, cas, cass, impozit, cam, withholding), "4316"@) == 0,
        account_credit(spec_payroll_lines(gross, cas, cass, impozit, cam, withholding), "444"@) == impozit.val(),
        account_debit(spec_payroll_lines(gross, cas, cass, impozit, cam, withholding), "444"@) == 0,
        account_debit(spec_payroll_lines(gross, cas, cass, impozit, cam, withholding), "646"@) == cam.val(),
        account_credit(spec_payroll_lines(gross, cas, cass, impozit, cam, withholding), "436"@) == cam.val(),
        account_debit(spec_payroll_lines(gross, cas, cass, impozit, cam, withholding), "641"@) == gross.val(),
        account_credit(spec_payroll_lines(gross, cas, cass, impozit, cam, withholding), "421"@) == gross.val(),
        account_debit(spec_payroll_lines(gross, cas, cass, impozit, cam, withholding), "421"@) == withholding.val(),
{
    lemma_payroll_account_names();
    lemma_payroll_sides(gross, cas, cass, impozit, cam, withholding, "4315"@);
    lemma_payroll_sides(gross, cas, cass, impozit, cam, withholding, "4316"@);
    lemma_payroll_sides(gross, cas, cass, impozit, cam, withholding, "444"@);
    lemma_payroll_sides(gross, cas, cass, impozit, cam, withholding, "646"@);
    lemma_payroll_sides(gross, cas, cass, impozit, cam, withholding, "436"@);
    lemma_payroll_sides(gross, cas, cass, impozit, cam, withholding, "641"@);
    lemma_payroll_sides(gross, cas, cass, impozit, cam, withholding, "421"@);
}

/// Posts the month's payroll. No note when the gross is zero. `None` when the net pay or
/// the withholdings leave the decimal range.
pub fn post_payroll(
    gross: Dec,
    cas: Dec,
    cass: Dec,
    impozit: Dec,
    cam: Dec,
    period_to: &str,
) -> (r: Option<(PayrollPostResult, Vec<GlLine>)>)
    requires
        gross.wf(),
        cas.wf(),
        cass.wf(),
        impozit.wf(),
        cam.wf(),
    ensures
        r is None <==> (spec_net_pay(gross, cas, cass, impozit) is None || (gross.val() != 0
            && spec_withholding(cas, cass, impozit) is None)),
        r matches Some((res, ls)) ==> {
            &&& res.gross@ == spec_fmt2(gross)
            &&& res.net@ == spec_fmt2(spec_net_pay(gross, cas, cass, impozit).unwrap())
            &&& res.posted == (gross.val() != 0)
            &&& res.entry_date@ == period_to@
            &&& res.posted ==> views(ls@) == spec_payroll_lines(
                gross,
                cas,
                cass,
                impozit,
                cam,
                spec_withholding(cas, cass, impozit).unwrap(),
            )
            &&& !res.posted ==> ls@.len() == 0
            &&& balanced(views(ls@))
            &&& account_credit(views(ls@), "4315"@) == (if res.posted { cas.val() } else { 0 })
            &&& account_credit(views(ls@), "4316"@) == (if res.posted { cass.val() } else { 0 })
            &&& account_credit(views(ls@), "444"@) == (if res.posted { impozit.val() } else { 0 })
            &&& account_credit(views(ls@), "436"@) == (if res.posted { cam.val() } else { 0 })
        },
{
    proof {
        lemma_val_sign(gross);
        lemma_val_sign(cas);
        lemma_val_sign(cass);
        lemma_val_sign(impozit);
        lemma_val_sign(cam);
        lemma_spec_sub(gross, cas);
        lemma_spec_add(cas, cass);
    }
    let x = match dec_sub(gross, cas) {
        Some(v) => v,
        None => return None,
    };
    proof { lemma_spec_sub(x, cass); }
    let y = match dec_sub(x, cass) {
        Some(v) => v,
        None => return None,
    };
    proof { lemma_spec_sub(y, impozit); }
    let net = match dec_sub(y, impozit) {
        Some(v) => v,
        None => return None,
    };
    let mut lines: Vec<GlLine> = Vec::new();
    if gross.is_zero() {
        proof {
            reveal_with_fuel(total_debit, 1);
            reveal_with_fuel(total_credit, 1);
        }
        proof {
            reveal_with_fuel(account_debit, 1);
            reveal_with_fuel(account_credit, 1);
        }
        let res = PayrollPostResult { gross: fmt2(gross), net: fmt2(net), posted: false, entry_date: owned(period_to) };
        return Some((res, lines));
    }
    let s1 = match dec_add(cas, cass) {
        Some(v) => v,
        None => return None,
    };
    proof { lemma_spec_add(s1, impozit); }
    let w = match dec_add(s1, impozit) {
        Some(v) => v,
        None => return None,
    };
    proof {
        lemma_val_sign(w);
        lemma_payroll(gross, cas, cass, impozit, cam, w);
    }
    push_line(&mut lines, "641", gross, Dec::zero());
    push_line(&mut lines, "421", Dec::zero(), gross);
    if !w.is_zero() {
        push_line(&mut lines, "421", w, Dec::zero());
    }
    if !cas.is_zero() {
        push_line(&mut lines, "4315", Dec::zero(), cas);
    }
    if !cass.is_zero() {
        push_line(&mut lines, "4316", Dec::zero(), cass);
    }
    if !impozit.is_zero() {
        push_line(&mut lines, "444", Dec::zero(), impozit);
    }
    if !cam.is_zero() {
        push_line(&mut lines, "646", cam, Dec::zero());
        push_line(&mut lines, "436", Dec::zero(), cam);
    }
    assert(views(lines@) =~= spec_payroll_lines(gross, cas, cass, impozit, cam, w));
    proof {
        lemma_payroll_accounts(gross, cas, cass, impozit, cam, w);
    }
    let res = PayrollPostResult { gross: fmt2(gross), net: fmt2(net), posted: true, entry_date: owned(period_to) };
    Some((res, lines))
}

} // verus!
