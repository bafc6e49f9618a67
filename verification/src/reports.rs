//! Statutory reports built from trial-balance rows: the profit and loss account (with the
//! preview of the 6/7 → 121 closing) and the synthetic balance sheet.

use vstd::prelude::*;
use crate::decimal::{
    Dec, dec_add, dec_sub, dec_mul, dec_lt, dec_le, spec_dec_add, spec_dec_sub, spec_dec_mul,
    lemma_spec_add, lemma_spec_sub, lemma_val_sign, lemma_zero_val, lemma_neg_val, max_zero,
    spec_max_zero, round_dp_even, spec_round_dp_even, fmt2, spec_fmt2, parse_untrimmed_or_zero,
    spec_parse_untrimmed_or_zero, abs_int, pow10,
};
use crate::closing::{neg_dec, zero_dec};
use crate::text::{owned, str_eq, starts_with, spec_starts_with, str_views};

verus! {

/// One account row of the trial balance; all amounts are two-decimal texts.
#[derive(Clone, Debug)]
pub struct TrialBalanceRow {
    pub account_code: String,
    pub account_name: String,
    pub opening_debit: String,
    pub opening_credit: String,
    pub period_debit: String,
    pub period_credit: String,
    pub total_debit: String,
    pub total_credit: String,
    pub closing_debit: String,
    pub closing_credit: String,
}

/// One revenue or expense line of the P&L.
#[derive(Clone, Debug)]
pub struct PnlLine {
    pub code: String,
    pub name: String,
    pub amount: String,
}

/// One closing entry of the preview (D account / C 121, or D 121 / C account).
#[derive(Clone, Debug)]
pub struct ClosingEntry {
    pub debit_account: String,
    pub credit_account: String,
    pub amount: String,
}

impl View for PnlLine {
    type V = (Seq<char>, Seq<char>, Seq<char>);

    open spec fn view(&self) -> (Seq<char>, Seq<char>, Seq<char>) {
        (self.code@, self.name@, self.amount@)
    }
}

impl View for ClosingEntry {
    type V = (Seq<char>, Seq<char>, Seq<char>);

    open spec fn view(&self) -> (Seq<char>, Seq<char>, Seq<char>) {
        (self.debit_account@, self.credit_account@, self.amount@)
    }
}

/// The profit and loss account of a period.
pub struct ProfitLoss {
    pub period_from: String,
    pub period_to: String,
    pub tax_regime: String,
    pub revenue_lines: Vec<PnlLine>,
    pub expense_lines: Vec<PnlLine>,
    pub operating_revenue: String,
    pub financial_revenue: String,
    pub total_revenue: String,
    pub operating_expense: String,
    pub financial_expense: String,
    pub total_expense: String,
    pub gross_result: String,
    pub income_tax: String,
    pub income_tax_estimated: bool,
    pub net_result: String,
    pub closing_entries: Vec<ClosingEntry>,
}

/// The running figures of the P&L while the rows are read.
pub struct PnlAcc {
    pub op_rev: Dec,
    pub fin_rev: Dec,
    pub op_exp: Dec,
    pub fin_exp: Dec,
    pub tax_booked: Dec,
    pub revenue: Seq<(Seq<char>, Seq<char>, Seq<char>)>,
    pub expense: Seq<(Seq<char>, Seq<char>, Seq<char>)>,
    pub closing: Seq<(Seq<char>, Seq<char>, Seq<char>)>,
}

pub open spec fn pnl_acc_init() -> PnlAcc {
    PnlAcc {
        op_rev: zero_dec(),
        fin_rev: zero_dec(),
        op_exp: zero_dec(),
        fin_exp: zero_dec(),
        tax_booked: zero_dec(),
        revenue: seq![],
        expense: seq![],
        closing: seq![],
    }
}

pub open spec fn pnl_acc_wf(a: PnlAcc) -> bool {
    a.op_rev.wf() && a.fin_rev.wf() && a.op_exp.wf() && a.fin_exp.wf() && a.tax_booked.wf()
}

/// The net credit balance of a row (closing credit − closing debit, as read by
/// `str::parse`); `None` when the difference leaves the decimal range.
pub open spec fn spec_row_net_credit(r: TrialBalanceRow) -> Option<Dec> {
    spec_dec_sub(
        spec_parse_untrimmed_or_zero(r.closing_credit@),
        spec_parse_untrimmed_or_zero(r.closing_debit@),
    )
}

/// How one row changes the P&L: a class-7 account with a non-zero balance is revenue
/// (financial for 76x/78x, else operating) with a closing entry D account / C 121; a class-6
/// account with a non-zero balance is an expense (financial for 66x and 686, else operating)
/// with D 121 / C account, except 691/698 which are the booked income tax; other rows are
/// ignored.
pub open spec fn spec_pnl_step(a: PnlAcc, r: TrialBalanceRow) -> Option<PnlAcc> {
    let code = r.account_code@;
    match spec_row_net_credit(r) {
        None => None,
        Some(nc) => if spec_starts_with(code, "7"@) {
            if nc.val() == 0 {
                Some(a)
            } else {
                let fin = spec_starts_with(code, "76"@) || spec_starts_with(code, "78"@);
                match spec_dec_add(if fin { a.fin_rev } else { a.op_rev }, nc) {
                    None => None,
                    Some(x) => Some(PnlAcc {
                        op_rev: if fin { a.op_rev } else { x },
                        fin_rev: if fin { x } else { a.fin_rev },
                        op_exp: a.op_exp,
                        fin_exp: a.fin_exp,
                        tax_booked: a.tax_booked,
                        revenue: a.revenue.push((code, r.account_name@, spec_fmt2(nc))),
                        expense: a.expense,
                        closing: a.closing.push((code, "121"@, spec_fmt2(nc))),
                    }),
                }
            }
        } else if spec_starts_with(code, "6"@) {
            let nd = neg_dec(nc);
            if nd.val() == 0 {
                Some(a)
            } else if code == "691"@ || code == "698"@ {
                match spec_dec_add(a.tax_booked, nd) {
                    None => None,
                    Some(t) => Some(PnlAcc {
                        op_rev: a.op_rev,
                        fin_rev: a.fin_rev,
                        op_exp: a.op_exp,
                        fin_exp: a.fin_exp,
                        tax_booked: t,
                        revenue: a.revenue,
                        expense: a.expense,
                        closing: a.closing,
                    }),
                }
            } else {
                let fin = spec_starts_with(code, "66"@) || code == "686"@;
                match spec_dec_add(if fin { a.fin_exp } else { a.op_exp }, nd) {
                    None => None,
                    Some(x) => Some(PnlAcc {
                        op_rev: a.op_rev,
                        fin_rev: a.fin_rev,
                        op_exp: if fin { a.op_exp } else { x },
                        fin_exp: if fin { x } else { a.fin_exp },
                        tax_booked: a.tax_booked,
                        revenue: a.revenue,
                        expense: a.expense.push((code, r.account_name@, spec_fmt2(nd))),
                        closing: a.closing.push(("121"@, code, spec_fmt2(nd))),
                    }),
                }
            }
        } else {
            Some(a)
        },
    }
}

/// The P&L figures after reading all rows in order.
pub open spec fn spec_pnl_fold(rows: Seq<TrialBalanceRow>) -> Option<PnlAcc>
    decreases rows.len(),
{
    if rows.len() == 0 {
        Some(pnl_acc_init())
    } else {
        match spec_pnl_fold(rows.drop_last()) {
            Some(a) => spec_pnl_step(a, rows.last()),
            None => None,
        }
    }
}

/// Totals of a P&L: (total revenue, total expense, gross result, income tax, estimated, net
/// result). The tax is the booked 691/698 when non-zero, else micro 1% of revenue or profit
/// 16% of the positive gross result, rounded to two decimals (midpoints to even).
pub open spec fn spec_pnl_totals(a: PnlAcc, micro: bool) -> Option<(Dec, Dec, Dec, Dec, bool, Dec)> {
    match (spec_dec_add(a.op_rev, a.fin_rev), spec_dec_add(a.op_exp, a.fin_exp)) {
        (Some(tr), Some(te)) => match spec_dec_sub(tr, te) {
            Some(g) => {
                let t = if a.tax_booked.val() != 0 {
                    Some((a.tax_booked, false))
                } else if micro {
                    match spec_dec_mul(tr, Dec { mant: 1, scale: 2 }) {
                        Some(x) => Some((spec_round_dp_even(x, 2), true)),
                        None => None,
                    }
                } else {
                    match spec_dec_mul(spec_max_zero(g), Dec { mant: 16, scale: 2 }) {
                        Some(x) => Some((spec_round_dp_even(x, 2), true)),
                        None => None,
                    }
                };
                match t {
                    Some((tax, est)) => match spec_dec_sub(g, tax) {
                        Some(n) => Some((tr, te, g, tax, est, n)),
                        None => None,
                    },
                    None => None,
                }
            },
            None => None,
        },
        _ => None,
    }
}

struct PnlAccExec {
    op_rev: Dec,
    fin_rev: Dec,
    op_exp: Dec,
    fin_exp: Dec,
    tax_booked: Dec,
    revenue: Vec<PnlLine>,
    expense: Vec<PnlLine>,
    closing: Vec<ClosingEntry>,
}

impl PnlAccExec {
    spec fn view_acc(&self) -> PnlAcc {
        PnlAcc {
            op_rev: self.op_rev,
            fin_rev: self.fin_rev,
            op_exp: self.op_exp,
            fin_exp: self.fin_exp,
            tax_booked: self.tax_booked,
            revenue: self.revenue@.map_values(|l: PnlLine| l@),
            expense: self.expense@.map_values(|l: PnlLine| l@),
            closing: self.closing@.map_values(|l: ClosingEntry| l@),
        }
    }
}

fn pnl_step(acc: &mut PnlAccExec, r: &TrialBalanceRow) -> (ok: bool)
    requires
        pnl_acc_wf(old(acc).view_acc()),
    ensures
        ok == spec_pnl_step(old(acc).view_acc(), *r) is Some,
        ok ==> final(acc).view_acc() == spec_pnl_step(old(acc).view_acc(), *r).unwrap() && pnl_acc_wf(final(acc).view_acc()),
{
    let ghost a = acc.view_acc();
    let cc = parse_untrimmed_or_zero(r.closing_credit.as_str());
    let cd = parse_untrimmed_or_zero(r.closing_debit.as_str());
    proof {
        lemma_spec_sub(cc, cd);
    }
    let nc = match dec_sub(cc, cd) {
        Some(x) => x,
        None => return false,
    };
    proof {
        lemma_val_sign(nc);
        lemma_neg_val(nc);
        lemma_spec_add(acc.fin_rev, nc);
        lemma_spec_add(acc.op_rev, nc);
    }
    let code = r.account_code.as_str();
    if starts_with(code, "7") {
        if nc.is_zero() {
            return true;
        }
        let fin = starts_with(code, "76") || starts_with(code, "78");
        if fin {
            match dec_add(acc.fin_rev, nc) {
                Some(x) => acc.fin_rev = x,
                None => return false,
            }
        } else {
            match dec_add(acc.op_rev, nc) {
                Some(x) => acc.op_rev = x,
                None => return false,
            }
        }
        acc.revenue.push(PnlLine { code: r.account_code.clone(), name: r.account_name.clone(), amount: fmt2(nc) });
        acc.closing.push(ClosingEntry { debit_account: r.account_code.clone(), credit_account: owned("121"), amount: fmt2(nc) });
        proof {
            assert(acc.view_acc().revenue =~= a.revenue.push((r.account_code@, r.account_name@, spec_fmt2(nc))));
            assert(acc.view_acc().closing =~= a.closing.push((r.account_code@, "121"@, spec_fmt2(nc))));
            assert(acc.view_acc().expense =~= a.expense);
        }
        true
    } else if starts_with(code, "6") {
        let nd = nc.neg();
        proof {
            lemma_val_sign(nd);
            lemma_spec_add(acc.tax_booked, nd);
            lemma_spec_add(acc.fin_exp, nd);
            lemma_spec_add(acc.op_exp, nd);
        }
        if nd.is_zero() {
            return true;
        }
        if str_eq(code, "691") || str_eq(code, "698") {
            match dec_add(acc.tax_booked, nd) {
                Some(x) => acc.tax_booked = x,
                None => return false,
            }
            proof {
                assert(acc.view_acc().revenue =~= a.revenue);
                assert(acc.view_acc().expense =~= a.expense);
                assert(acc.view_acc().closing =~= a.closing);
            }
            return true;
        }
        let fin = starts_with(code, "66") || str_eq(code, "686");
        if fin {
            match dec_add(acc.fin_exp, nd) {
                Some(x) => acc.fin_exp = x,
                None => return false,
            }
        } else {
            match dec_add(acc.op_exp, nd) {
                Some(x) => acc.op_exp = x,
                None => return false,
            }
        }
        acc.expense.push(PnlLine { code: r.account_code.clone(), name: r.account_name.clone(), amount: fmt2(nd) });
        acc.closing.push(ClosingEntry { debit_account: owned("121"), credit_account: r.account_code.clone(), amount: fmt2(nd) });
        proof {
            assert(acc.view_acc().expense =~= a.expense.push((r.account_code@, r.account_name@, spec_fmt2(nd))));
            assert(acc.view_acc().closing =~= a.closing.push(("121"@, r.account_code@, spec_fmt2(nd))));
            assert(acc.view_acc().revenue =~= a.revenue);
        }
        true
    } else {
        true
    }
}

/// The P&L figure an account feeds: 0 operating revenue (7x but 76x/78x), 1 financial
/// revenue (76x, 78x), 2 booked income tax (691, 698), 3 financial expenses (66x, 686), 4
/// operating expenses (other 6x); −1 for accounts outside classes 6 and 7.
pub open spec fn pnl_group(code: Seq<char>) -> int {
    if spec_starts_with(code, "7"@) {
        if spec_starts_with(code, "76"@) || spec_starts_with(code, "78"@) { 1 } else { 0 }
    } else if spec_starts_with(code, "6"@) {
        if code == "691"@ || code == "698"@ {
            2
        } else if spec_starts_with(code, "66"@) || code == "686"@ {
            3
        } else {
            4
        }
    } else {
        -1
    }
}

/// The net credit balance of a row as a number (zero when it does not fit the decimal range).
pub open spec fn row_credit_val(r: TrialBalanceRow) -> int {
    match spec_row_net_credit(r) {
        Some(nc) => nc.val(),
        None => 0,
    }
}

/// What a row adds to its figure: revenue takes the credit balance, expenses and the tax
/// the debit balance.
pub open spec fn pnl_row_amount(r: TrialBalanceRow) -> int {
    if pnl_group(r.account_code@) <= 1 { row_credit_val(r) } else { -row_credit_val(r) }
}

/// Σ of what the rows of figure `g` add to it.
pub open spec fn pnl_group_sum(rows: Seq<TrialBalanceRow>, g: int) -> int
    decreases rows.len(),
{
    if rows.len() == 0 {
        0
    } else {
        pnl_group_sum(rows.drop_last(), g) + if pnl_group(rows.last().account_code@) == g {
            pnl_row_amount(rows.last())
        } else {
            0
        }
    }
}

/// The running value of figure `g`.
pub open spec fn pnl_field(a: PnlAcc, g: int) -> int {
    if g == 0 { a.op_rev.val() }
    else if g == 1 { a.fin_rev.val() }
    else if g == 2 { a.tax_booked.val() }
    else if g == 3 { a.fin_exp.val() }
    else { a.op_exp.val() }
}

proof fn lemma_pnl_step_groups(a: PnlAcc, r: TrialBalanceRow)
    requires
        pnl_acc_wf(a),
    ensures
        spec_pnl_step(a, r) matches Some(b) ==> pnl_acc_wf(b) && forall|g: int| 0 <= g < 5 ==> #[trigger] pnl_field(b, g)
            == pnl_field(a, g) + if pnl_group(r.account_code@) == g { pnl_row_amount(r) } else { 0 },
{
    let code = r.account_code@;
    crate::decimal::lemma_parse_wf(r.closing_debit@);
    crate::decimal::lemma_parse_wf(r.closing_credit@);
    lemma_spec_sub(spec_parse_untrimmed_or_zero(r.closing_credit@), spec_parse_untrimmed_or_zero(r.closing_debit@));
    if let Some(nc) = spec_row_net_credit(r) {
        lemma_neg_val(nc);
        let nd = neg_dec(nc);
        assert(row_credit_val(r) == nc.val());
        let k = pnl_group(code);
        if k == 0 {
            lemma_spec_add(a.op_rev, nc);
        } else if k == 1 {
            lemma_spec_add(a.fin_rev, nc);
        } else if k == 2 {
            lemma_spec_add(a.tax_booked, nd);
        } else if k == 3 {
            lemma_spec_add(a.fin_exp, nd);
        } else if k == 4 {
            lemma_spec_add(a.op_exp, nd);
        }
        if let Some(b) = spec_pnl_step(a, r) {
            assert forall|g: int| 0 <= g < 5 implies #[trigger] pnl_field(b, g)
                == pnl_field(a, g) + if k == g { pnl_row_amount(r) } else { 0 } by {}
        }
    }
}

/// Each row of class 6 or 7 feeds exactly one figure of the P&L, chosen by its account
/// code: operating revenue (7x but 76x/78x) and financial revenue (76x, 78x) hold the Σ of
/// their credit balances; the booked income tax (691, 698), financial expenses (66x, 686) and
/// operating expenses (other 6x) the Σ of their debit balances.
pub proof fn lemma_pnl_groups(rows: Seq<TrialBalanceRow>)
    ensures
        spec_pnl_fold(rows) matches Some(a) ==> pnl_acc_wf(a) && forall|g: int| 0 <= g < 5 ==> #[trigger] pnl_field(a, g)
            == pnl_group_sum(rows, g),
    decreases rows.len(),
{
    lemma_zero_val(0);
    if rows.len() > 0 {
        lemma_pnl_groups(rows.drop_last());
        if let Some(a) = spec_pnl_fold(rows.drop_last()) {
            lemma_pnl_step_groups(a, rows.last());
        }
    }
}

proof fn lemma_pnl_fold_none_extend(rows: Seq<TrialBalanceRow>, k: int)
    requires
        0 <= k <= rows.len(),
        spec_pnl_fold(rows.subrange(0, k)) is None,
    ensures
        spec_pnl_fold(rows) is None,
    decreases rows.len() - k,
{
    if k < rows.len() {
        assert(rows.subrange(0, k + 1).drop_last() =~= rows.subrange(0, k));
        lemma_pnl_fold_none_extend(rows, k + 1);
    } else {
        assert(rows.subrange(0, k) =~= rows);
    }
}

/// Builds the P&L from trial-balance rows (`tax_regime` is "micro" or "profit"). `None`
/// when an amount leaves the decimal range.
pub fn compute_pnl(
    rows: &Vec<TrialBalanceRow>,
    tax_regime: &str,
    period_from: &str,
    period_to: &str,
) -> (r: Option<ProfitLoss>)
    ensures
        ({
            let micro = tax_regime@ == "micro"@;
            &&& r is Some <==> (spec_pnl_fold(rows@) is Some && spec_pnl_totals(spec_pnl_fold(rows@).unwrap(), micro) is Some)
            &&& r matches Some(p) ==> {
                let a = spec_pnl_fold(rows@).unwrap();
                let (tr, te, g, tax, est, n) = spec_pnl_totals(a, micro).unwrap();
                &&& p.revenue_lines@.map_values(|l: PnlLine| l@) == a.revenue
                &&& p.expense_lines@.map_values(|l: PnlLine| l@) == a.expense
                &&& p.closing_entries@.map_values(|l: ClosingEntry| l@) == a.closing
                &&& p.operating_revenue@ == spec_fmt2(a.op_rev)
                &&& p.financial_revenue@ == spec_fmt2(a.fin_rev)
                &&& p.operating_expense@ == spec_fmt2(a.op_exp)
                &&& p.financial_expense@ == spec_fmt2(a.fin_exp)
                &&& p.total_revenue@ == spec_fmt2(tr)
                &&& p.total_expense@ == spec_fmt2(te)
                &&& p.gross_result@ == spec_fmt2(g)
                &&& p.income_tax@ == spec_fmt2(tax)
                &&& p.income_tax_estimated == est
                &&& p.net_result@ == spec_fmt2(n)
                &&& p.period_from@ == period_from@
                &&& p.period_to@ == period_to@
                &&& p.tax_regime@ == tax_regime@
                &&& forall|k: int| 0 <= k < 5 ==> #[trigger] pnl_field(a, k) == pnl_group_sum(rows@, k)
            }
        }),
{
    let mut acc = PnlAccExec {
        op_rev: Dec::zero(),
        fin_rev: Dec::zero(),
        op_exp: Dec::zero(),
        fin_exp: Dec::zero(),
        tax_booked: Dec::zero(),
        revenue: Vec::new(),
        expense: Vec::new(),
        closing: Vec::new(),
    };
    proof {
        assert(acc.view_acc().revenue =~= Seq::<(Seq<char>, Seq<char>, Seq<char>)>::empty());
        assert(acc.view_acc().expense =~= Seq::<(Seq<char>, Seq<char>, Seq<char>)>::empty());
        assert(acc.view_acc().closing =~= Seq::<(Seq<char>, Seq<char>, Seq<char>)>::empty());
        assert(rows@.subrange(0, 0) =~= Seq::<TrialBalanceRow>::empty());
    }
    let n = rows.len();
    let mut i: usize = 0;
    while i < n
        invariant
            n == rows@.len(),
            i <= n,
            spec_pnl_fold(rows@.subrange(0, i as int)) == Some(acc.view_acc()),
            pnl_acc_wf(acc.view_acc()),
        decreases n - i,
    {
        proof {
            assert(rows@.subrange(0, i + 1).drop_last() =~= rows@.subrange(0, i as int));
            assert(rows@.subrange(0, i + 1).last() == rows@[i as int]);
        }
        if !pnl_step(&mut acc, &rows[i]) {
            proof {
                lemma_pnl_fold_none_extend(rows@, i + 1);
            }
            return None;
        }
        i = i + 1;
    }
    proof {
        assert(rows@.subrange(0, n as int) =~= rows@);
        lemma_pnl_groups(rows@);
        lemma_spec_add(acc.op_rev, acc.fin_rev);
        lemma_spec_add(acc.op_exp, acc.fin_exp);
        lemma_val_sign(acc.tax_booked);
    }
    let micro = str_eq(tax_regime, "micro");
    let tr = match dec_add(acc.op_rev, acc.fin_rev) {
        Some(x) => x,
        None => return None,
    };
    let te = match dec_add(acc.op_exp, acc.fin_exp) {
        Some(x) => x,
        None => return None,
    };
    proof {
        lemma_spec_sub(tr, te);
    }
    let g = match dec_sub(tr, te) {
        Some(x) => x,
        None => return None,
    };
    let (tax, est) = if !acc.tax_booked.is_zero() {
        (acc.tax_booked, false)
    } else if micro {
        match dec_mul(tr, Dec { mant: 1, scale: 2 }) {
            Some(x) => (round_dp_even(x, 2), true),
            None => return None,
        }
    } else {
        match dec_mul(max_zero(g), Dec { mant: 16, scale: 2 }) {
            Some(x) => (round_dp_even(x, 2), true),
            None => return None,
        }
    };
    proof {
        lemma_spec_sub(g, tax);
    }
    let net = match dec_sub(g, tax) {
        Some(x) => x,
        None => return None,
    };
    Some(
        ProfitLoss {
            period_from: owned(period_from),
            period_to: owned(period_to),
            tax_regime: owned(tax_regime),
            operating_revenue: fmt2(acc.op_rev),
            financial_revenue: fmt2(acc.fin_rev),
            total_revenue: fmt2(tr),
            operating_expense: fmt2(acc.op_exp),
            financial_expense: fmt2(acc.fin_exp),
            total_expense: fmt2(te),
            gross_result: fmt2(g),
            income_tax: fmt2(tax),
            income_tax_estimated: est,
            net_result: fmt2(net),
            revenue_lines: acc.revenue,
            expense_lines: acc.expense,
            closing_entries: acc.closing,
        },
    )
}


// ─── Balance sheet ──────────────────────────────────────────────────────────────

/// The synthetic balance sheet.
pub struct BilantReport {
    pub period_to: String,
    pub immobilized_assets: String,
    pub inventory: String,
    pub receivables: String,
    pub short_investments: String,
    pub cash_bank: String,
    pub prepaid_expenses: String,
    pub total_assets: String,
    pub equity: String,
    pub current_result: String,
    pub provisions: String,
    pub long_term_debt: String,
    pub current_liabilities: String,
    pub deferred_revenue: String,
    pub total_equity_liabilities: String,
    pub balanced: bool,
    pub entity_size_note: String,
}

/// The running groups of the balance sheet.
#[derive(Clone, Copy)]
pub struct BilantAcc {
    pub immob: Dec,
    pub inv: Dec,
    pub recv: Dec,
    pub shinv: Dec,
    pub cash: Dec,
    pub prepaid: Dec,
    pub equity: Dec,
    pub provisions: Dec,
    pub ltd: Dec,
    pub curr_liab: Dec,
    pub def_rev: Dec,
    pub rev7: Dec,
    pub exp6: Dec,
}

pub open spec fn bilant_acc_wf(a: BilantAcc) -> bool {
    &&& a.immob.wf() && a.inv.wf() && a.recv.wf() && a.shinv.wf() && a.cash.wf() && a.prepaid.wf()
    &&& a.equity.wf() && a.provisions.wf() && a.ltd.wf() && a.curr_liab.wf() && a.def_rev.wf()
    &&& a.rev7.wf() && a.exp6.wf()
}

/// Assets minus equity and liabilities (with the period result), as an integer of
/// `10^-28` units.
pub open spec fn bilant_gap(a: BilantAcc) -> int {
    (a.immob.val() + a.inv.val() + a.recv.val() + a.shinv.val() + a.cash.val() + a.prepaid.val())
        - (a.equity.val() + (a.rev7.val() - a.exp6.val()) + a.provisions.val() + a.ltd.val()
        + a.curr_liab.val() + a.def_rev.val())
}

/// The net debit balance of a row (closing debit − closing credit).
pub open spec fn spec_row_net_debit(r: TrialBalanceRow) -> Option<Dec> {
    spec_dec_sub(
        spec_parse_untrimmed_or_zero(r.closing_debit@),
        spec_parse_untrimmed_or_zero(r.closing_credit@),
    )
}

/// Where a row goes, by the first digit of its account: 2 fixed assets, 3 inventory;
/// 4: 471 prepaid expenses, 472/475x deferred revenue, otherwise receivables when in debit
/// and current liabilities when in credit; 5: 50x/59x short-term investments, otherwise
/// cash when in debit and current liabilities when in credit; 1: 15x provisions, 16x
/// long-term debt, else equity; 6 expenses and 7 revenue (the period result); other rows
/// are ignored.
pub open spec fn spec_bilant_step(a: BilantAcc, r: TrialBalanceRow) -> Option<BilantAcc> {
    let code = r.account_code@;
    match spec_row_net_debit(r) {
        None => None,
        Some(nd) => {
            let nc = neg_dec(nd);
            if spec_starts_with(code, "2"@) {
                match spec_dec_add(a.immob, nd) { Some(x) => Some(BilantAcc { immob: x, ..a }), None => None }
            } else if spec_starts_with(code, "3"@) {
                match spec_dec_add(a.inv, nd) { Some(x) => Some(BilantAcc { inv: x, ..a }), None => None }
            } else if spec_starts_with(code, "4"@) {
                if code == "471"@ {
                    match spec_dec_add(a.prepaid, nd) { Some(x) => Some(BilantAcc { prepaid: x, ..a }), None => None }
                } else if code == "472"@ || spec_starts_with(code, "475"@) {
                    match spec_dec_add(a.def_rev, nc) { Some(x) => Some(BilantAcc { def_rev: x, ..a }), None => None }
                } else if nd.val() > 0 {
                    match spec_dec_add(a.recv, nd) { Some(x) => Some(BilantAcc { recv: x, ..a }), None => None }
                } else {
                    match spec_dec_add(a.curr_liab, nc) { Some(x) => Some(BilantAcc { curr_liab: x, ..a }), None => None }
                }
            } else if spec_starts_with(code, "5"@) {
                if spec_starts_with(code, "50"@) || spec_starts_with(code, "59"@) {
                    match spec_dec_add(a.shinv, nd) { Some(x) => Some(BilantAcc { shinv: x, ..a }), None => None }
                } else if nd.val() > 0 {
                    match spec_dec_add(a.cash, nd) { Some(x) => Some(BilantAcc { cash: x, ..a }), None => None }
                } else {
                    match spec_dec_add(a.curr_liab, nc) { Some(x) => Some(BilantAcc { curr_liab: x, ..a }), None => None }
                }
            } else if spec_starts_with(code, "1"@) {
                if spec_starts_with(code, "15"@) {
                    match spec_dec_add(a.provisions, nc) { Some(x) => Some(BilantAcc { provisions: x, ..a }), None => None }
                } else if spec_starts_with(code, "16"@) {
                    match spec_dec_add(a.ltd, nc) { Some(x) => Some(BilantAcc { ltd: x, ..a }), None => None }
                } else {
                    match spec_dec_add(a.equity, nc) { Some(x) => Some(BilantAcc { equity: x, ..a }), None => None }
                }
            } else if spec_starts_with(code, "6"@) {
                match spec_dec_add(a.exp6, nd) { Some(x) => Some(BilantAcc { exp6: x, ..a }), None => None }
            } else if spec_starts_with(code, "7"@) {
                match spec_dec_add(a.rev7, nc) { Some(x) => Some(BilantAcc { rev7: x, ..a }), None => None }
            } else {
                Some(a)
            }
        },
    }
}

pub open spec fn bilant_acc_init() -> BilantAcc {
    let z = zero_dec();
    BilantAcc {
        immob: z, inv: z, recv: z, shinv: z, cash: z, prepaid: z, equity: z, provisions: z,
        ltd: z, curr_liab: z, def_rev: z, rev7: z, exp6: z,
    }
}

pub open spec fn spec_bilant_fold(rows: Seq<TrialBalanceRow>) -> Option<BilantAcc>
    decreases rows.len(),
{
    if rows.len() == 0 {
        Some(bilant_acc_init())
    } else {
        match spec_bilant_fold(rows.drop_last()) {
            Some(a) => spec_bilant_step(a, rows.last()),
            None => None,
        }
    }
}

/// A row of one of the classes 1 to 7.
pub open spec fn in_classes_1_to_7(code: Seq<char>) -> bool {
    spec_starts_with(code, "1"@) || spec_starts_with(code, "2"@) || spec_starts_with(code, "3"@)
        || spec_starts_with(code, "4"@) || spec_starts_with(code, "5"@) || spec_starts_with(code, "6"@)
        || spec_starts_with(code, "7"@)
}

/// Σ of the net debit balances of the rows of classes 1 to 7 (in `10^-28` units); rows
/// whose balance does not fit count zero.
pub open spec fn class_net_sum(rows: Seq<TrialBalanceRow>) -> int
    decreases rows.len(),
{
    if rows.len() == 0 {
        0
    } else {
        class_net_sum(rows.drop_last()) + row_class_net(rows.last())
    }
}

/// The share of one row in the gap: its net debit balance when it is of classes 1 to 7.
pub open spec fn row_class_net(r: TrialBalanceRow) -> int {
    match spec_row_net_debit(r) {
        Some(nd) => if in_classes_1_to_7(r.account_code@) { nd.val() } else { 0 },
        None => 0,
    }
}

proof fn lemma_bilant_step(a: BilantAcc, r: TrialBalanceRow)
    requires
        bilant_acc_wf(a),
    ensures
        spec_bilant_step(a, r) matches Some(b) ==> bilant_acc_wf(b) && bilant_gap(b) == bilant_gap(a) + row_class_net(r),
{
    let code = r.account_code@;
    crate::decimal::lemma_parse_wf(r.closing_debit@);
    crate::decimal::lemma_parse_wf(r.closing_credit@);
    lemma_spec_sub(spec_parse_untrimmed_or_zero(r.closing_debit@), spec_parse_untrimmed_or_zero(r.closing_credit@));
    if let Some(nd) = spec_row_net_debit(r) {
        lemma_neg_val(nd);
        let nc = neg_dec(nd);
        if spec_starts_with(code, "2"@) {
            lemma_spec_add(a.immob, nd);
        } else if spec_starts_with(code, "3"@) {
            lemma_spec_add(a.inv, nd);
        } else if spec_starts_with(code, "4"@) {
            lemma_spec_add(a.prepaid, nd);
            lemma_spec_add(a.def_rev, nc);
            lemma_spec_add(a.recv, nd);
            lemma_spec_add(a.curr_liab, nc);
        } else if spec_starts_with(code, "5"@) {
            lemma_spec_add(a.shinv, nd);
            lemma_spec_add(a.cash, nd);
            lemma_spec_add(a.curr_liab, nc);
        } else if spec_starts_with(code, "1"@) {
            lemma_spec_add(a.provisions, nc);
            lemma_spec_add(a.ltd, nc);
            lemma_spec_add(a.equity, nc);
        } else if spec_starts_with(code, "6"@) {
            lemma_spec_add(a.exp6, nd);
        } else if spec_starts_with(code, "7"@) {
            lemma_spec_add(a.rev7, nc);
        }
    }
}

/// Reading rows keeps the groups well formed, and the gap between assets and equity plus
/// liabilities is exactly the Σ of the net debit balances of classes 1 to 7 read so far.
proof fn lemma_bilant_fold(rows: Seq<TrialBalanceRow>)
    ensures
        spec_bilant_fold(rows) matches Some(a) ==> bilant_acc_wf(a) && bilant_gap(a) == class_net_sum(rows),
    decreases rows.len(),
{
    lemma_zero_val(0);
    if rows.len() > 0 {
        lemma_bilant_fold(rows.drop_last());
        if let Some(a) = spec_bilant_fold(rows.drop_last()) {
            lemma_bilant_step(a, rows.last());
        }
    }
}

/// The net debit balance of a row as a number (zero when it does not fit the decimal range).
pub open spec fn row_net_val(r: TrialBalanceRow) -> int {
    match spec_row_net_debit(r) {
        Some(nd) => nd.val(),
        None => 0,
    }
}

/// Σ of the net debit balances of the rows of account 471 (prepaid expenses).
pub open spec fn prepaid_sum(rows: Seq<TrialBalanceRow>) -> int
    decreases rows.len(),
{
    if rows.len() == 0 {
        0
    } else {
        prepaid_sum(rows.drop_last()) + if rows.last().account_code@ == "471"@ { row_net_val(rows.last()) } else { 0 }
    }
}

/// A class-4 row in debit that is a receivable: neither 471 (prepaid expenses) nor 472/475x
/// (deferred revenue).
pub open spec fn receivable_row(r: TrialBalanceRow) -> bool {
    let c = r.account_code@;
    &&& spec_starts_with(c, "4"@)
    &&& c != "471"@
    &&& c != "472"@
    &&& !spec_starts_with(c, "475"@)
    &&& row_net_val(r) > 0
}

/// Σ of the net debit balances of the receivable rows.
pub open spec fn receivables_sum(rows: Seq<TrialBalanceRow>) -> int
    decreases rows.len(),
{
    if rows.len() == 0 {
        0
    } else {
        receivables_sum(rows.drop_last()) + if receivable_row(rows.last()) { row_net_val(rows.last()) } else { 0 }
    }
}

proof fn lemma_first_digits(c: Seq<char>)
    ensures
        c == "471"@ ==> spec_starts_with(c, "4"@),
        spec_starts_with(c, "4"@) ==> !spec_starts_with(c, "2"@) && !spec_starts_with(c, "3"@),
{
    reveal_strlit("471");
    reveal_strlit("4");
    reveal_strlit("3");
    reveal_strlit("2");
    if c == "471"@ {
        assert(c.subrange(0, 1) =~= "4"@);
    }
    if spec_starts_with(c, "4"@) {
        assert(c[0] == "4"@[0]);
        if spec_starts_with(c, "2"@) {
            assert(c[0] == "2"@[0]);
        }
        if spec_starts_with(c, "3"@) {
            assert(c[0] == "3"@[0]);
        }
    }
}

proof fn lemma_bilant_step_prepaid(a: BilantAcc, r: TrialBalanceRow)
    requires
        bilant_acc_wf(a),
    ensures
        spec_bilant_step(a, r) matches Some(b) ==> {
            &&& b.prepaid.val() == a.prepaid.val() + if r.account_code@ == "471"@ { row_net_val(r) } else { 0 }
            &&& b.recv.val() == a.recv.val() + if receivable_row(r) { row_net_val(r) } else { 0 }
        },
{
    let code = r.account_code@;
    lemma_first_digits(code);
    crate::decimal::lemma_parse_wf(r.closing_debit@);
    crate::decimal::lemma_parse_wf(r.closing_credit@);
    lemma_spec_sub(spec_parse_untrimmed_or_zero(r.closing_debit@), spec_parse_untrimmed_or_zero(r.closing_credit@));
    if let Some(nd) = spec_row_net_debit(r) {
        lemma_neg_val(nd);
        let nc = neg_dec(nd);
        lemma_spec_add(a.prepaid, nd);
        lemma_spec_add(a.recv, nd);
    }
}

/// The prepaid-expenses group of the balance sheet is exactly the net debit balance of
/// account 471, and the receivables group is the Σ of the class-4 debit balances other than
/// 471, 472 and 475x: prepaid expenses are never counted as receivables.
pub proof fn lemma_bilant_prepaid_and_receivables(rows: Seq<TrialBalanceRow>)
    ensures
        spec_bilant_fold(rows) matches Some(a) ==> {
            &&& a.prepaid.val() == prepaid_sum(rows)
            &&& a.recv.val() == receivables_sum(rows)
        },
    decreases rows.len(),
{
    lemma_zero_val(0);
    if rows.len() > 0 {
        lemma_bilant_prepaid_and_receivables(rows.drop_last());
        lemma_bilant_fold(rows.drop_last());
        if let Some(a) = spec_bilant_fold(rows.drop_last()) {
            lemma_bilant_step_prepaid(a, rows.last());
        }
    }
}

/// The balance-sheet group of an account with net debit balance `nd`: 0 fixed assets (2x),
/// 1 inventory (3x), 2 prepaid expenses (471), 3 deferred revenue (472, 475x), 4
/// receivables (other 4x in debit), 5 current liabilities (other 4x and 5x in credit), 6
/// short-term investments (50x, 59x), 7 cash (other 5x in debit), 8 provisions (15x), 9
/// long-term debt (16x), 10 equity (other 1x), 11 expenses (6x), 12 revenue (7x); −1 for
/// accounts outside classes 1 to 7.
pub open spec fn bilant_group(code: Seq<char>, nd: int) -> int {
    if spec_starts_with(code, "2"@) {
        0
    } else if spec_starts_with(code, "3"@) {
        1
    } else if spec_starts_with(code, "4"@) {
        if code == "471"@ {
            2
        } else if code == "472"@ || spec_starts_with(code, "475"@) {
            3
        } else if nd > 0 {
            4
        } else {
            5
        }
    } else if spec_starts_with(code, "5"@) {
        if spec_starts_with(code, "50"@) || spec_starts_with(code, "59"@) {
            6
        } else if nd > 0 {
            7
        } else {
            5
        }
    } else if spec_starts_with(code, "1"@) {
        if spec_starts_with(code, "15"@) {
            8
        } else if spec_starts_with(code, "16"@) {
            9
        } else {
            10
        }
    } else if spec_starts_with(code, "6"@) {
        11
    } else if spec_starts_with(code, "7"@) {
        12
    } else {
        -1
    }
}

/// Groups shown on the equity-and-liabilities side (and revenue), which take credit
/// balances as positive amounts.
pub open spec fn credit_side_group(g: int) -> bool {
    g == 3 || g == 5 || g == 8 || g == 9 || g == 10 || g == 12
}

/// What a row adds to its group: the net debit balance, negated on the credit side.
pub open spec fn bilant_row_amount(r: TrialBalanceRow) -> int {
    if credit_side_group(bilant_group(r.account_code@, row_net_val(r))) {
        -row_net_val(r)
    } else {
        row_net_val(r)
    }
}

/// Σ of what the rows of group `g` add to it.
pub open spec fn bilant_group_sum(rows: Seq<TrialBalanceRow>, g: int) -> int
    decreases rows.len(),
{
    if rows.len() == 0 {
        0
    } else {
        bilant_group_sum(rows.drop_last(), g) + if bilant_group(rows.last().account_code@, row_net_val(rows.last())) == g {
            bilant_row_amount(rows.last())
        } else {
            0
        }
    }
}

/// The running value of group `g`.
pub open spec fn bilant_field(a: BilantAcc, g: int) -> int {
    if g == 0 { a.immob.val() }
    else if g == 1 { a.inv.val() }
    else if g == 2 { a.prepaid.val() }
    else if g == 3 { a.def_rev.val() }
    else if g == 4 { a.recv.val() }
    else if g == 5 { a.curr_liab.val() }
    else if g == 6 { a.shinv.val() }
    else if g == 7 { a.cash.val() }
    else if g == 8 { a.provisions.val() }
    else if g == 9 { a.ltd.val() }
    else if g == 10 { a.equity.val() }
    else if g == 11 { a.exp6.val() }
    else { a.rev7.val() }
}

#[verifier::spinoff_prover]
#[verifier::rlimit(30)]
proof fn lemma_bilant_step_groups(a: BilantAcc, r: TrialBalanceRow)
    requires
        bilant_acc_wf(a),
    ensures
        spec_bilant_step(a, r) matches Some(b) ==> forall|g: int| 0 <= g < 13 ==> #[trigger] bilant_field(b, g)
            == bilant_field(a, g) + if bilant_group(r.account_code@, row_net_val(r)) == g { bilant_row_amount(r) } else { 0 },
{
    let code = r.account_code@;
    crate::decimal::lemma_parse_wf(r.closing_debit@);
    crate::decimal::lemma_parse_wf(r.closing_credit@);
    lemma_spec_sub(spec_parse_untrimmed_or_zero(r.closing_debit@), spec_parse_untrimmed_or_zero(r.closing_credit@));
    if let Some(nd) = spec_row_net_debit(r) {
        lemma_neg_val(nd);
        let nc = neg_dec(nd);
        assert(row_net_val(r) == nd.val());
        let k = bilant_group(code, nd.val());
        if k == 0 {
            lemma_spec_add(a.immob, nd);
        } else if k == 1 {
            lemma_spec_add(a.inv, nd);
        } else if k == 2 {
            lemma_spec_add(a.prepaid, nd);
        } else if k == 3 {
            lemma_spec_add(a.def_rev, nc);
        } else if k == 4 {
            lemma_spec_add(a.recv, nd);
        } else if k == 5 {
            lemma_spec_add(a.curr_liab, nc);
        } else if k == 6 {
            lemma_spec_add(a.shinv, nd);
        } else if k == 7 {
            lemma_spec_add(a.cash, nd);
        } else if k == 8 {
            lemma_spec_add(a.provisions, nc);
        } else if k == 9 {
            lemma_spec_add(a.ltd, nc);
        } else if k == 10 {
            lemma_spec_add(a.equity, nc);
        } else if k == 11 {
            lemma_spec_add(a.exp6, nd);
        } else if k == 12 {
            lemma_spec_add(a.rev7, nc);
        }
        if let Some(b) = spec_bilant_step(a, r) {
            assert forall|g: int| 0 <= g < 13 implies #[trigger] bilant_field(b, g)
                == bilant_field(a, g) + if k == g { bilant_row_amount(r) } else { 0 } by {}
        }
    }
}

/// Every row of the trial balance lands in exactly one group of the balance sheet, chosen
/// by its account code (and, for the mixed accounts of classes 4 and 5, by the side of its
/// balance): each group holds the Σ of the balances of its rows, debit balances on the
/// asset side and credit balances on the equity-and-liabilities side.
pub proof fn lemma_bilant_groups(rows: Seq<TrialBalanceRow>)
    ensures
        spec_bilant_fold(rows) matches Some(a) ==> forall|g: int| 0 <= g < 13 ==> #[trigger] bilant_field(a, g)
            == bilant_group_sum(rows, g),
    decreases rows.len(),
{
    lemma_zero_val(0);
    if rows.len() > 0 {
        lemma_bilant_groups(rows.drop_last());
        lemma_bilant_fold(rows.drop_last());
        if let Some(a) = spec_bilant_fold(rows.drop_last()) {
            lemma_bilant_step_groups(a, rows.last());
        }
    }
}

proof fn lemma_bilant_fold_none_extend(rows: Seq<TrialBalanceRow>, k: int)
    requires
        0 <= k <= rows.len(),
        spec_bilant_fold(rows.subrange(0, k)) is None,
    ensures
        spec_bilant_fold(rows) is None,
    decreases rows.len() - k,
{
    if k < rows.len() {
        assert(rows.subrange(0, k + 1).drop_last() =~= rows.subrange(0, k));
        lemma_bilant_fold_none_extend(rows, k + 1);
    } else {
        assert(rows.subrange(0, k) =~= rows);
    }
}

fn add_to(x: &mut Dec, d: Dec) -> (ok: bool)
    requires
        old(x).wf(),
        d.wf(),
    ensures
        ok == spec_dec_add(*old(x), d) is Some,
        ok ==> *final(x) == spec_dec_add(*old(x), d).unwrap() && final(x).wf() && final(x).val() == old(x).val() + d.val(),
{
    proof {
        lemma_spec_add(*x, d);
    }
    match dec_add(*x, d) {
        Some(v) => {
            *x = v;
            true
        },
        None => false,
    }
}

fn bilant_step(a: &mut BilantAcc, r: &TrialBalanceRow) -> (ok: bool)
    requires
        bilant_acc_wf(*old(a)),
    ensures
        ok == spec_bilant_step(*old(a), *r) is Some,
        ok ==> *final(a) == spec_bilant_step(*old(a), *r).unwrap() && bilant_acc_wf(*final(a)),
{
    let cd = parse_untrimmed_or_zero(r.closing_debit.as_str());
    let cc = parse_untrimmed_or_zero(r.closing_credit.as_str());
    proof {
        lemma_spec_sub(cd, cc);
    }
    let nd = match dec_sub(cd, cc) {
        Some(x) => x,
        None => return false,
    };
    proof {
        lemma_val_sign(nd);
        lemma_neg_val(nd);
    }
    let nc = nd.neg();
    let code = r.account_code.as_str();
    if starts_with(code, "2") {
        add_to(&mut a.immob, nd)
    } else if starts_with(code, "3") {
        add_to(&mut a.inv, nd)
    } else if starts_with(code, "4") {
        if str_eq(code, "471") {
            add_to(&mut a.prepaid, nd)
        } else if str_eq(code, "472") || starts_with(code, "475") {
            add_to(&mut a.def_rev, nc)
        } else if nd.is_positive() {
            add_to(&mut a.recv, nd)
        } else {
            add_to(&mut a.curr_liab, nc)
        }
    } else if starts_with(code, "5") {
        if starts_with(code, "50") || starts_with(code, "59") {
            add_to(&mut a.shinv, nd)
        } else if nd.is_positive() {
            add_to(&mut a.cash, nd)
        } else {
            add_to(&mut a.curr_liab, nc)
        }
    } else if starts_with(code, "1") {
        if starts_with(code, "15") {
            add_to(&mut a.provisions, nc)
        } else if starts_with(code, "16") {
            add_to(&mut a.ltd, nc)
        } else {
            add_to(&mut a.equity, nc)
        }
    } else if starts_with(code, "6") {
        add_to(&mut a.exp6, nd)
    } else if starts_with(code, "7") {
        add_to(&mut a.rev7, nc)
    } else {
        true
    }
}

/// The totals of the balance sheet: (period result, equity with the result, total assets,
/// total equity and liabilities), each sum taken left to right.
pub open spec fn spec_bilant_totals(a: BilantAcc) -> Option<(Dec, Dec, Dec, Dec)> {
    match spec_dec_sub(a.rev7, a.exp6) {
        None => None,
        Some(cr) => match spec_dec_add(a.equity, cr) {
            None => None,
            Some(eq) => {
                let ta = match spec_dec_add(a.immob, a.inv) {
                    Some(x1) => match spec_dec_add(x1, a.recv) {
                        Some(x2) => match spec_dec_add(x2, a.shinv) {
                            Some(x3) => match spec_dec_add(x3, a.cash) {
                                Some(x4) => spec_dec_add(x4, a.prepaid),
                                None => None,
                            },
                            None => None,
                        },
                        None => None,
                    },
                    None => None,
                };
                let tl = match spec_dec_add(eq, a.provisions) {
                    Some(y1) => match spec_dec_add(y1, a.ltd) {
                        Some(y2) => match spec_dec_add(y2, a.curr_liab) {
                            Some(y3) => spec_dec_add(y3, a.def_rev),
                            None => None,
                        },
                        None => None,
                    },
                    None => None,
                };
                match (ta, tl) {
                    (Some(t1), Some(t2)) => Some((cr, eq, t1, t2)),
                    _ => None,
                }
            },
        },
    }
}

/// The entity-size hint by total assets (lei): up to 2 250 000 micro (S1005), up to
/// 25 000 000 small (S1003), else medium or large (S1002).
pub open spec fn spec_size_class(total_assets: Dec) -> int {
    if total_assets.val() <= 2250000 * pow10(28) {
        0
    } else if total_assets.val() <= 25000000 * pow10(28) {
        1
    } else {
        2
    }
}

/// The entity-size note for a size class.
pub open spec fn size_note(k: int) -> Seq<char> {
    if k == 0 {
        "Probabil microîntreprindere (active ≤ 2.250.000 lei) → bilanț prescurtat, formular S1005. Încadrarea finală cere 2 din 3 criterii (active, cifră de afaceri, nr. salariați)."@
    } else if k == 1 {
        "Probabil entitate mică → bilanț prescurtat, formular S1003."@
    } else {
        "Probabil entitate mijlocie/mare → bilanț dezvoltat, formular S1002."@
    }
}

fn size_note_text(total_assets: Dec) -> (r: String)
    requires
        total_assets.wf(),
    ensures
        r@ == size_note(spec_size_class(total_assets)),
{
    proof {
        reveal_with_fuel(pow10, 1);
        lemma_zero_val(0);
        assert((Dec { mant: 2250000, scale: 0 }).val() == 2250000 * pow10(28));
        assert((Dec { mant: 25000000, scale: 0 }).val() == 25000000 * pow10(28));
    }
    if dec_le(total_assets, Dec { mant: 2250000, scale: 0 }) {
        owned("Probabil microîntreprindere (active ≤ 2.250.000 lei) → bilanț prescurtat, formular S1005. Încadrarea finală cere 2 din 3 criterii (active, cifră de afaceri, nr. salariați).")
    } else if dec_le(total_assets, Dec { mant: 25000000, scale: 0 }) {
        owned("Probabil entitate mică → bilanț prescurtat, formular S1003.")
    } else {
        owned("Probabil entitate mijlocie/mare → bilanț dezvoltat, formular S1002.")
    }
}

/// Builds the balance sheet from the trial-balance rows (classes 1–5 by code and balance
/// side, the class 6/7 net result folded into equity). `None` when an amount leaves the
/// decimal range.
pub fn compute_bilant(rows: &Vec<TrialBalanceRow>, period_to: &str) -> (r: Option<BilantReport>)
    ensures
        r is Some <==> (spec_bilant_fold(rows@) is Some && spec_bilant_totals(spec_bilant_fold(rows@).unwrap()) is Some
            && spec_dec_sub(spec_bilant_totals(spec_bilant_fold(rows@).unwrap()).unwrap().2,
                spec_bilant_totals(spec_bilant_fold(rows@).unwrap()).unwrap().3) is Some),
        r matches Some(b) ==> {
            let a = spec_bilant_fold(rows@).unwrap();
            let (cr, eq, ta, tl) = spec_bilant_totals(a).unwrap();
            &&& b.immobilized_assets@ == spec_fmt2(a.immob)
            &&& b.inventory@ == spec_fmt2(a.inv)
            &&& b.receivables@ == spec_fmt2(a.recv)
            &&& b.short_investments@ == spec_fmt2(a.shinv)
            &&& b.cash_bank@ == spec_fmt2(a.cash)
            &&& b.prepaid_expenses@ == spec_fmt2(a.prepaid)
            &&& b.total_assets@ == spec_fmt2(ta)
            &&& b.equity@ == spec_fmt2(eq)
            &&& b.current_result@ == spec_fmt2(cr)
            &&& b.provisions@ == spec_fmt2(a.provisions)
            &&& b.long_term_debt@ == spec_fmt2(a.ltd)
            &&& b.current_liabilities@ == spec_fmt2(a.curr_liab)
            &&& b.deferred_revenue@ == spec_fmt2(a.def_rev)
            &&& b.total_equity_liabilities@ == spec_fmt2(tl)
            &&& b.balanced == (abs_int(ta.val() - tl.val()) < pow10(26))
            &&& b.period_to@ == period_to@
            &&& b.entity_size_note@ == size_note(spec_size_class(ta))
            &&& ta.val() - tl.val() == class_net_sum(rows@)
            &&& a.prepaid.val() == prepaid_sum(rows@)
            &&& a.recv.val() == receivables_sum(rows@)
            &&& forall|g: int| 0 <= g < 13 ==> #[trigger] bilant_field(a, g) == bilant_group_sum(rows@, g)
        },
{
    let z = Dec::zero();
    let mut a = BilantAcc {
        immob: z, inv: z, recv: z, shinv: z, cash: z, prepaid: z, equity: z, provisions: z,
        ltd: z, curr_liab: z, def_rev: z, rev7: z, exp6: z,
    };
    proof {
        assert(rows@.subrange(0, 0) =~= Seq::<TrialBalanceRow>::empty());
    }
    let n = rows.len();
    let mut i: usize = 0;
    while i < n
        invariant
            n == rows@.len(),
            i <= n,
            spec_bilant_fold(rows@.subrange(0, i as int)) == Some(a),
            bilant_acc_wf(a),
        decreases n - i,
    {
        proof {
            assert(rows@.subrange(0, i + 1).drop_last() =~= rows@.subrange(0, i as int));
            assert(rows@.subrange(0, i + 1).last() == rows@[i as int]);
        }
        if !bilant_step(&mut a, &rows[i]) {
            proof {
                lemma_bilant_fold_none_extend(rows@, i + 1);
            }
            return None;
        }
        i = i + 1;
    }
    proof {
        assert(rows@.subrange(0, n as int) =~= rows@);
        lemma_bilant_fold(rows@);
        lemma_bilant_prepaid_and_receivables(rows@);
        lemma_bilant_groups(rows@);
        lemma_spec_sub(a.rev7, a.exp6);
    }
    let cr = match dec_sub(a.rev7, a.exp6) {
        Some(x) => x,
        None => return None,
    };
    let mut eq = a.equity;
    if !add_to(&mut eq, cr) {
        return None;
    }
    let mut ta = a.immob;
    if !add_to(&mut ta, a.inv) { return None; }
    if !add_to(&mut ta, a.recv) { return None; }
    if !add_to(&mut ta, a.shinv) { return None; }
    if !add_to(&mut ta, a.cash) { return None; }
    if !add_to(&mut ta, a.prepaid) { return None; }
    let mut tl = eq;
    if !add_to(&mut tl, a.provisions) { return None; }
    if !add_to(&mut tl, a.ltd) { return None; }
    if !add_to(&mut tl, a.curr_liab) { return None; }
    if !add_to(&mut tl, a.def_rev) { return None; }
    proof {
        lemma_spec_add(a.immob, a.inv);
        lemma_spec_sub(ta, tl);
    }
    let diff = match dec_sub(ta, tl) {
        Some(x) => x,
        None => return None,
    };
    proof {
        reveal_with_fuel(pow10, 3);
        crate::decimal::lemma_pow10_add(24, 2);
    }
    let balanced = dec_lt(diff.abs(), Dec { mant: 1, scale: 2 });
    let note = size_note_text(ta);
    Some(
        BilantReport {
            period_to: owned(period_to),
            immobilized_assets: fmt2(a.immob),
            inventory: fmt2(a.inv),
            receivables: fmt2(a.recv),
            short_investments: fmt2(a.shinv),
            cash_bank: fmt2(a.cash),
            prepaid_expenses: fmt2(a.prepaid),
            total_assets: fmt2(ta),
            equity: fmt2(eq),
            current_result: fmt2(cr),
            provisions: fmt2(a.provisions),
            long_term_debt: fmt2(a.ltd),
            current_liabilities: fmt2(a.curr_liab),
            deferred_revenue: fmt2(a.def_rev),
            total_equity_liabilities: fmt2(tl),
            balanced,
            entity_size_note: note,
        },
    )
}


// ─── Trial balance ──────────────────────────────────────────────────────────────

/// What the ledger gives for one account: the net balance before the period and the
/// period's debit and credit turnover (each rounded to two decimals when read).
pub struct TrialBalanceInput {
    pub account_code: String,
    pub account_name: Option<String>,
    pub opening_net: Dec,
    pub period_debit: Dec,
    pub period_credit: Dec,
}

/// The trial balance with its four pairs of column totals.
pub struct TrialBalance {
    pub rows: Vec<TrialBalanceRow>,
    pub total_opening_debit: String,
    pub total_opening_credit: String,
    pub total_period_debit: String,
    pub total_period_credit: String,
    pub total_total_debit: String,
    pub total_total_credit: String,
    pub total_closing_debit: String,
    pub total_closing_credit: String,
    pub balanced: bool,
}

/// The amounts of one row: opening debit/credit (the net on its side), period
/// debit/credit, total sums (opening + period, per side) and the closing debit/credit (the
/// net of the totals on its side).
pub struct TbAmounts {
    pub od: Dec,
    pub oc: Dec,
    pub pd: Dec,
    pub pc: Dec,
    pub td: Dec,
    pub tc: Dec,
    pub cd: Dec,
    pub cc: Dec,
}

pub open spec fn spec_tb_amounts(i: TrialBalanceInput) -> Option<TbAmounts> {
    let on = spec_round_dp_even(i.opening_net, 2);
    let pd = spec_round_dp_even(i.period_debit, 2);
    let pc = spec_round_dp_even(i.period_credit, 2);
    let od = spec_max_zero(on);
    let oc = spec_max_zero(neg_dec(on));
    match (spec_dec_add(od, pd), spec_dec_add(oc, pc)) {
        (Some(td), Some(tc)) => match spec_dec_sub(td, tc) {
            Some(cn) => Some(TbAmounts { od, oc, pd, pc, td, tc, cd: spec_max_zero(cn), cc: spec_max_zero(neg_dec(cn)) }),
            None => None,
        },
        _ => None,
    }
}

/// An account with neither an opening balance nor a period movement is left out.
pub open spec fn tb_skipped(t: TbAmounts) -> bool {
    t.od.val() == 0 && t.oc.val() == 0 && t.pd.val() == 0 && t.pc.val() == 0
}

pub open spec fn opt_name(n: Option<String>, code: Seq<char>) -> Seq<char> {
    match n {
        Some(x) => x@,
        None => code,
    }
}

pub struct TrialBalanceRowView {
    pub account_code: Seq<char>,
    pub account_name: Seq<char>,
    pub opening_debit: Seq<char>,
    pub opening_credit: Seq<char>,
    pub period_debit: Seq<char>,
    pub period_credit: Seq<char>,
    pub total_debit: Seq<char>,
    pub total_credit: Seq<char>,
    pub closing_debit: Seq<char>,
    pub closing_credit: Seq<char>,
}

impl View for TrialBalanceRow {
    type V = TrialBalanceRowView;

    open spec fn view(&self) -> TrialBalanceRowView {
        TrialBalanceRowView {
            account_code: self.account_code@,
            account_name: self.account_name@,
            opening_debit: self.opening_debit@,
            opening_credit: self.opening_credit@,
            period_debit: self.period_debit@,
            period_credit: self.period_credit@,
            total_debit: self.total_debit@,
            total_credit: self.total_credit@,
            closing_debit: self.closing_debit@,
            closing_credit: self.closing_credit@,
        }
    }
}

pub open spec fn spec_tb_row(i: TrialBalanceInput, t: TbAmounts) -> TrialBalanceRowView {
    TrialBalanceRowView {
        account_code: i.account_code@,
        account_name: opt_name(i.account_name, i.account_code@),
        opening_debit: spec_fmt2(t.od),
        opening_credit: spec_fmt2(t.oc),
        period_debit: spec_fmt2(t.pd),
        period_credit: spec_fmt2(t.pc),
        total_debit: spec_fmt2(t.td),
        total_credit: spec_fmt2(t.tc),
        closing_debit: spec_fmt2(t.cd),
        closing_credit: spec_fmt2(t.cc),
    }
}

pub open spec fn tb_wf(t: TbAmounts) -> bool {
    t.od.wf() && t.oc.wf() && t.pd.wf() && t.pc.wf() && t.td.wf() && t.tc.wf() && t.cd.wf() && t.cc.wf()
}

/// Column-wise sum of two sets of amounts, each column added separately.
pub open spec fn spec_tb_add(a: TbAmounts, t: TbAmounts) -> Option<TbAmounts> {
    match (spec_dec_add(a.od, t.od), spec_dec_add(a.oc, t.oc), spec_dec_add(a.pd, t.pd), spec_dec_add(a.pc, t.pc)) {
        (Some(od), Some(oc), Some(pd), Some(pc)) => match (spec_dec_add(a.td, t.td), spec_dec_add(a.tc, t.tc), spec_dec_add(a.cd, t.cd), spec_dec_add(a.cc, t.cc)) {
            (Some(td), Some(tc), Some(cd), Some(cc)) => Some(TbAmounts { od, oc, pd, pc, td, tc, cd, cc }),
            _ => None,
        },
        _ => None,
    }
}

pub open spec fn tb_zero() -> TbAmounts {
    let z = zero_dec();
    TbAmounts { od: z, oc: z, pd: z, pc: z, td: z, tc: z, cd: z, cc: z }
}

/// The rows kept so far and the running column totals.
pub open spec fn spec_tb_fold(ins: Seq<TrialBalanceInput>) -> Option<(Seq<TrialBalanceRowView>, TbAmounts)>
    decreases ins.len(),
{
    if ins.len() == 0 {
        Some((seq![], tb_zero()))
    } else {
        match spec_tb_fold(ins.drop_last()) {
            Some((rows, tot)) => match spec_tb_amounts(ins.last()) {
                Some(t) => if tb_skipped(t) {
                    Some((rows, tot))
                } else {
                    match spec_tb_add(tot, t) {
                        Some(tot2) => Some((rows.push(spec_tb_row(ins.last(), t)), tot2)),
                        None => None,
                    }
                },
                None => None,
            },
            None => None,
        }
    }
}

/// The four equalities of one set of amounts: total = opening + period on each side, and
/// closing debit − closing credit = total debit − total credit.
pub open spec fn tb_consistent(t: TbAmounts) -> bool {
    &&& t.td.val() - t.tc.val() == (t.od.val() - t.oc.val()) + (t.pd.val() - t.pc.val())
    &&& t.cd.val() - t.cc.val() == t.td.val() - t.tc.val()
}

proof fn lemma_tb_amounts(i: TrialBalanceInput)
    requires
        i.opening_net.wf(),
        i.period_debit.wf(),
        i.period_credit.wf(),
    ensures
        spec_tb_amounts(i) matches Some(t) ==> tb_wf(t) && tb_consistent(t)
            && t.od.val() - t.oc.val() == spec_round_dp_even(i.opening_net, 2).val(),
{
    let on = spec_round_dp_even(i.opening_net, 2);
    let pd = spec_round_dp_even(i.period_debit, 2);
    let pc = spec_round_dp_even(i.period_credit, 2);
    crate::decimal::lemma_round_even_wf(i.opening_net, 2);
    crate::decimal::lemma_round_even_wf(i.period_debit, 2);
    crate::decimal::lemma_round_even_wf(i.period_credit, 2);
    lemma_neg_val(on);
    lemma_val_sign(on);
    lemma_zero_val(0);
    let od = spec_max_zero(on);
    let oc = spec_max_zero(neg_dec(on));
    lemma_spec_add(od, pd);
    lemma_spec_add(oc, pc);
    if let (Some(td), Some(tc)) = (spec_dec_add(od, pd), spec_dec_add(oc, pc)) {
        lemma_spec_sub(td, tc);
        if let Some(cn) = spec_dec_sub(td, tc) {
            lemma_neg_val(cn);
            lemma_val_sign(cn);
        }
    }
}

proof fn lemma_tb_add(a: TbAmounts, t: TbAmounts)
    requires
        tb_wf(a),
        tb_wf(t),
        tb_consistent(a),
        tb_consistent(t),
    ensures
        spec_tb_add(a, t) matches Some(b) ==> tb_wf(b) && tb_consistent(b),
{
    lemma_spec_add(a.od, t.od);
    lemma_spec_add(a.oc, t.oc);
    lemma_spec_add(a.pd, t.pd);
    lemma_spec_add(a.pc, t.pc);
    lemma_spec_add(a.td, t.td);
    lemma_spec_add(a.tc, t.tc);
    lemma_spec_add(a.cd, t.cd);
    lemma_spec_add(a.cc, t.cc);
}

proof fn lemma_tb_fold(ins: Seq<TrialBalanceInput>)
    requires
        forall|k: int| 0 <= k < ins.len() ==> (#[trigger] ins[k]).opening_net.wf() && ins[k].period_debit.wf() && ins[k].period_credit.wf(),
    ensures
        spec_tb_fold(ins) matches Some((rows, tot)) ==> tb_wf(tot) && tb_consistent(tot),
    decreases ins.len(),
{
    lemma_zero_val(0);
    if ins.len() > 0 {
        let pre = ins.drop_last();
        assert forall|k: int| 0 <= k < pre.len() implies (#[trigger] pre[k]).opening_net.wf() && pre[k].period_debit.wf() && pre[k].period_credit.wf() by {
            assert(pre[k] == ins[k]);
        }
        lemma_tb_fold(pre);
        assert(ins.last() == ins[ins.len() - 1]);
        lemma_tb_amounts(ins.last());
        if let Some((rows, tot)) = spec_tb_fold(pre) {
            if let Some(t) = spec_tb_amounts(ins.last()) {
                lemma_tb_add(tot, t);
            }
        }
    }
}

proof fn lemma_tb_fold_none_extend(ins: Seq<TrialBalanceInput>, k: int)
    requires
        0 <= k <= ins.len(),
        spec_tb_fold(ins.subrange(0, k)) is None,
    ensures
        spec_tb_fold(ins) is None,
    decreases ins.len() - k,
{
    if k < ins.len() {
        assert(ins.subrange(0, k + 1).drop_last() =~= ins.subrange(0, k));
        lemma_tb_fold_none_extend(ins, k + 1);
    } else {
        assert(ins.subrange(0, k) =~= ins);
    }
}

fn tb_amounts(i: &TrialBalanceInput) -> (r: Option<TbAmounts>)
    requires
        i.opening_net.wf(),
        i.period_debit.wf(),
        i.period_credit.wf(),
    ensures
        r == spec_tb_amounts(*i),
        r matches Some(t) ==> tb_wf(t),
{
    proof {
        lemma_tb_amounts(*i);
    }
    let on = round_dp_even(i.opening_net, 2);
    let pd = round_dp_even(i.period_debit, 2);
    let pc = round_dp_even(i.period_credit, 2);
    let od = max_zero(on);
    let oc = max_zero(on.neg());
    let td = match dec_add(od, pd) {
        Some(x) => x,
        None => return None,
    };
    let tc = match dec_add(oc, pc) {
        Some(x) => x,
        None => return None,
    };
    let cn = match dec_sub(td, tc) {
        Some(x) => x,
        None => return None,
    };
    Some(TbAmounts { od, oc, pd, pc, td, tc, cd: max_zero(cn), cc: max_zero(cn.neg()) })
}

fn tb_add(a: &TbAmounts, t: &TbAmounts) -> (r: Option<TbAmounts>)
    requires
        tb_wf(*a),
        tb_wf(*t),
    ensures
        r == spec_tb_add(*a, *t),
        r matches Some(b) ==> tb_wf(b),
{
    proof {
        lemma_spec_add(a.od, t.od);
        lemma_spec_add(a.oc, t.oc);
        lemma_spec_add(a.pd, t.pd);
        lemma_spec_add(a.pc, t.pc);
        lemma_spec_add(a.td, t.td);
        lemma_spec_add(a.tc, t.tc);
        lemma_spec_add(a.cd, t.cd);
        lemma_spec_add(a.cc, t.cc);
    }
    let od = dec_add(a.od, t.od);
    let oc = dec_add(a.oc, t.oc);
    let pd = dec_add(a.pd, t.pd);
    let pc = dec_add(a.pc, t.pc);
    let td = dec_add(a.td, t.td);
    let tc = dec_add(a.tc, t.tc);
    let cd = dec_add(a.cd, t.cd);
    let cc = dec_add(a.cc, t.cc);
    match (od, oc, pd, pc) {
        (Some(od), Some(oc), Some(pd), Some(pc)) => match (td, tc, cd, cc) {
            (Some(td), Some(tc), Some(cd), Some(cc)) => Some(TbAmounts { od, oc, pd, pc, td, tc, cd, cc }),
            _ => None,
        },
        _ => None,
    }
}

fn is_zero_amounts(t: &TbAmounts) -> (r: bool)
    requires
        tb_wf(*t),
    ensures
        r == tb_skipped(*t),
{
    proof {
        lemma_val_sign(t.od);
        lemma_val_sign(t.oc);
        lemma_val_sign(t.pd);
        lemma_val_sign(t.pc);
    }
    t.od.is_zero() && t.oc.is_zero() && t.pd.is_zero() && t.pc.is_zero()
}

/// |a − b| < 0.01 for two amounts whose difference fits.
pub open spec fn within_cent(a: Dec, b: Dec) -> bool {
    abs_int(a.val() - b.val()) < pow10(26)
}

fn within_cent_exec(a: Dec, b: Dec) -> (r: Option<bool>)
    requires
        a.wf(),
        b.wf(),
    ensures
        r is None <==> spec_dec_sub(a, b) is None,
        r matches Some(x) ==> x == within_cent(a, b),
{
    proof {
        lemma_spec_sub(a, b);
        reveal_with_fuel(pow10, 3);
        crate::decimal::lemma_pow10_add(24, 2);
    }
    match dec_sub(a, b) {
        Some(d) => Some(dec_lt(d.abs(), Dec { mant: 1, scale: 2 })),
        None => None,
    }
}

/// The four equalities hold within one cent.
pub open spec fn tb_balanced(t: TbAmounts) -> bool {
    within_cent(t.od, t.oc) && within_cent(t.pd, t.pc) && within_cent(t.td, t.tc) && within_cent(t.cd, t.cc)
}

pub open spec fn tb_diffs_fit(t: TbAmounts) -> bool {
    spec_dec_sub(t.od, t.oc) is Some && spec_dec_sub(t.pd, t.pc) is Some && spec_dec_sub(t.td, t.tc) is Some
        && spec_dec_sub(t.cd, t.cc) is Some
}

/// Builds the trial balance (cod 14-6-30, four equalities) from the ledger's per-account
/// opening balances and period turnovers, in the order given. A missing account name shows
/// the code. `None` when an amount leaves the decimal range.
#[verifier::rlimit(40)]
pub fn trial_balance(inputs: &Vec<TrialBalanceInput>) -> (r: Option<TrialBalance>)
    requires
        forall|k: int| 0 <= k < inputs@.len() ==> (#[trigger] inputs@[k]).opening_net.wf() && inputs@[k].period_debit.wf()
            && inputs@[k].period_credit.wf(),
    ensures
        r is Some <==> (spec_tb_fold(inputs@) is Some && tb_diffs_fit(spec_tb_fold(inputs@).unwrap().1)),
        r matches Some(tb) ==> {
            let (rows, tot) = spec_tb_fold(inputs@).unwrap();
            &&& tb.rows@.map_values(|x: TrialBalanceRow| x@) == rows
            &&& tb.total_opening_debit@ == spec_fmt2(tot.od)
            &&& tb.total_opening_credit@ == spec_fmt2(tot.oc)
            &&& tb.total_period_debit@ == spec_fmt2(tot.pd)
            &&& tb.total_period_credit@ == spec_fmt2(tot.pc)
            &&& tb.total_total_debit@ == spec_fmt2(tot.td)
            &&& tb.total_total_credit@ == spec_fmt2(tot.tc)
            &&& tb.total_closing_debit@ == spec_fmt2(tot.cd)
            &&& tb.total_closing_credit@ == spec_fmt2(tot.cc)
            &&& tb.balanced == tb_balanced(tot)
            &&& tb_consistent(tot)
        },
{
    let n = inputs.len();
    let mut rows: Vec<TrialBalanceRow> = Vec::new();
    let z = Dec::zero();
    let mut tot = TbAmounts { od: z, oc: z, pd: z, pc: z, td: z, tc: z, cd: z, cc: z };
    let mut i: usize = 0;
    proof {
        assert(inputs@.subrange(0, 0) =~= Seq::<TrialBalanceInput>::empty());
        assert(rows@.map_values(|x: TrialBalanceRow| x@) =~= Seq::<TrialBalanceRowView>::empty());
    }
    while i < n
        invariant
            n == inputs@.len(),
            i <= n,
            forall|k: int| 0 <= k < inputs@.len() ==> (#[trigger] inputs@[k]).opening_net.wf() && inputs@[k].period_debit.wf()
                && inputs@[k].period_credit.wf(),
            spec_tb_fold(inputs@.subrange(0, i as int)) == Some((rows@.map_values(|x: TrialBalanceRow| x@), tot)),
            tb_wf(tot),
        decreases n - i,
    {
        let inp = &inputs[i];
        proof {
            assert(inputs@.subrange(0, i + 1).drop_last() =~= inputs@.subrange(0, i as int));
            assert(inputs@.subrange(0, i + 1).last() == inputs@[i as int]);
            assert(inputs@[i as int].opening_net.wf());
        }
        let t = match tb_amounts(inp) {
            Some(t) => t,
            None => {
                proof { lemma_tb_fold_none_extend(inputs@, i + 1); }
                return None;
            },
        };
        if !is_zero_amounts(&t) {
            tot = match tb_add(&tot, &t) {
                Some(x) => x,
                None => {
                    proof { lemma_tb_fold_none_extend(inputs@, i + 1); }
                    return None;
                },
            };
            let name = match &inp.account_name {
                Some(x) => x.clone(),
                None => inp.account_code.clone(),
            };
            let ghost before = rows@.map_values(|x: TrialBalanceRow| x@);
            let row = TrialBalanceRow {
                account_code: inp.account_code.clone(),
                account_name: name,
                opening_debit: fmt2(t.od),
                opening_credit: fmt2(t.oc),
                period_debit: fmt2(t.pd),
                period_credit: fmt2(t.pc),
                total_debit: fmt2(t.td),
                total_credit: fmt2(t.tc),
                closing_debit: fmt2(t.cd),
                closing_credit: fmt2(t.cc),
            };
            rows.push(row);
            proof {
                assert(rows@.map_values(|x: TrialBalanceRow| x@) =~= before.push(spec_tb_row(*inp, t)));
            }
        }
        i = i + 1;
    }
    proof {
        assert(inputs@.subrange(0, n as int) =~= inputs@);
        lemma_tb_fold(inputs@);
    }
    let b1 = within_cent_exec(tot.od, tot.oc);
    let b2 = within_cent_exec(tot.pd, tot.pc);
    let b3 = within_cent_exec(tot.td, tot.tc);
    let b4 = within_cent_exec(tot.cd, tot.cc);
    let balanced = match (b1, b2, b3, b4) {
        (Some(x1), Some(x2), Some(x3), Some(x4)) => x1 && x2 && x3 && x4,
        _ => return None,
    };
    Some(
        TrialBalance {
            rows,
            total_opening_debit: fmt2(tot.od),
            total_opening_credit: fmt2(tot.oc),
            total_period_debit: fmt2(tot.pd),
            total_period_credit: fmt2(tot.pc),
            total_total_debit: fmt2(tot.td),
            total_total_credit: fmt2(tot.tc),
            total_closing_debit: fmt2(tot.cd),
            total_closing_credit: fmt2(tot.cc),
            balanced,
        },
    )
}

/// When the opening and the period columns balance exactly, so do the total-sums and the
/// closing columns (the third and fourth equalities follow from the first two).
pub proof fn lemma_trial_balance_equalities(tot: TbAmounts)
    requires
        tb_consistent(tot),
        tot.od.val() == tot.oc.val(),
        tot.pd.val() == tot.pc.val(),
    ensures
        tot.td.val() == tot.tc.val(),
        tot.cd.val() == tot.cc.val(),
{
}


// ─── Journal register (cod 14-1-1) ──────────────────────────────────────────────

/// One ledger line as read for the registers, amounts as stored texts.
#[derive(Clone, Debug)]
pub struct RegisterLine {
    pub date: String,
    pub journal_id: String,
    pub transaction_id: String,
    pub description: Option<String>,
    pub account_code: String,
    pub debit: String,
    pub credit: String,
}

/// One line of the journal register.
pub struct JournalRegisterRow {
    pub nr_crt: i64,
    pub date: String,
    pub document: String,
    pub explanation: String,
    pub debit_account: String,
    pub credit_account: String,
    pub debit: String,
    pub credit: String,
}

/// The journal register with its totals.
pub struct JournalRegister {
    pub rows: Vec<JournalRegisterRow>,
    pub total_debit: String,
    pub total_credit: String,
    pub balanced: bool,
}

/// The document label of a ledger line: journal and transaction separated by a space,
/// trimmed.
pub open spec fn spec_document(l: RegisterLine) -> Seq<char> {
    crate::text::spec_trim(l.journal_id@ + " "@ + l.transaction_id@)
}

fn document_of(l: &RegisterLine) -> (r: String)
    ensures
        r@ == spec_document(*l),
{
    let mut s = crate::text::concat_str(l.journal_id.as_str(), " ");
    crate::text::push_str(&mut s, l.transaction_id.as_str());
    owned(crate::text::trim(s.as_str()))
}

pub open spec fn opt_text(o: Option<String>) -> Seq<char> {
    match o {
        Some(x) => x@,
        None => seq![],
    }
}

/// The Σ debit and Σ credit of the lines (stored texts read trimmed, zero when not a
/// number), accumulated left to right.
pub open spec fn spec_register_sums(ls: Seq<RegisterLine>) -> Option<(Dec, Dec)>
    decreases ls.len(),
{
    if ls.len() == 0 {
        Some((zero_dec(), zero_dec()))
    } else {
        match spec_register_sums(ls.drop_last()) {
            Some((d, c)) => match (
                spec_dec_add(d, crate::decimal::spec_parse_or_zero(ls.last().debit@)),
                spec_dec_add(c, crate::decimal::spec_parse_or_zero(ls.last().credit@)),
            ) {
                (Some(d2), Some(c2)) => Some((d2, c2)),
                _ => None,
            },
            None => None,
        }
    }
}

proof fn lemma_register_sums(ls: Seq<RegisterLine>, k: int)
    requires
        0 <= k <= ls.len(),
    ensures
        spec_register_sums(ls.subrange(0, k)) is None ==> spec_register_sums(ls) is None,
        spec_register_sums(ls) matches Some((d, c)) ==> d.wf() && c.wf(),
    decreases ls.len() - k,
{
    if k < ls.len() {
        assert(ls.subrange(0, k + 1).drop_last() =~= ls.subrange(0, k));
        lemma_register_sums(ls, k + 1);
    } else {
        assert(ls.subrange(0, k) =~= ls);
        lemma_register_sums_wf(ls);
    }
}

proof fn lemma_register_sums_wf(ls: Seq<RegisterLine>)
    ensures
        spec_register_sums(ls) matches Some((d, c)) ==> d.wf() && c.wf(),
    decreases ls.len(),
{
    lemma_zero_val(0);
    if ls.len() > 0 {
        lemma_register_sums_wf(ls.drop_last());
        if let Some((d, c)) = spec_register_sums(ls.drop_last()) {
            crate::decimal::lemma_parse_wf(crate::text::spec_trim(ls.last().debit@));
            crate::decimal::lemma_parse_wf(crate::text::spec_trim(ls.last().credit@));
            lemma_spec_add(d, crate::decimal::spec_parse_or_zero(ls.last().debit@));
            lemma_spec_add(c, crate::decimal::spec_parse_or_zero(ls.last().credit@));
        }
    }
}

/// The register row of the `k`-th line (numbered from 1): the account stands on the debit
/// side when the debit is positive and on the credit side when the credit is positive.
pub open spec fn spec_register_row(l: RegisterLine, k: int) -> (int, Seq<char>, Seq<char>, Seq<char>, Seq<char>, Seq<char>, Seq<char>, Seq<char>) {
    let d = crate::decimal::spec_parse_or_zero(l.debit@);
    let c = crate::decimal::spec_parse_or_zero(l.credit@);
    (
        k + 1,
        l.date@,
        spec_document(l),
        opt_text(l.description),
        if d.val() > 0 { l.account_code@ } else { seq![] },
        if c.val() > 0 { l.account_code@ } else { seq![] },
        spec_fmt2(d),
        spec_fmt2(c),
    )
}

pub open spec fn register_row_view(r: JournalRegisterRow) -> (int, Seq<char>, Seq<char>, Seq<char>, Seq<char>, Seq<char>, Seq<char>, Seq<char>) {
    (r.nr_crt as int, r.date@, r.document@, r.explanation@, r.debit_account@, r.credit_account@, r.debit@, r.credit@)
}

/// Builds the journal register: every ledger line in order, numbered, with the totals;
/// balanced when Σ debit and Σ credit differ by less than one cent. `None` when a sum leaves
/// the decimal range.
pub fn journal_register(lines: &Vec<RegisterLine>) -> (r: Option<JournalRegister>)
    requires
        lines@.len() < i64::MAX,
    ensures
        r is Some <==> (spec_register_sums(lines@) is Some && spec_dec_sub(
            spec_register_sums(lines@).unwrap().0,
            spec_register_sums(lines@).unwrap().1,
        ) is Some),
        r matches Some(j) ==> {
            let (d, c) = spec_register_sums(lines@).unwrap();
            &&& j.rows@.len() == lines@.len()
            &&& forall|k: int| 0 <= k < lines@.len() ==> register_row_view(#[trigger] j.rows@[k]) == spec_register_row(lines@[k], k)
            &&& j.total_debit@ == spec_fmt2(d)
            &&& j.total_credit@ == spec_fmt2(c)
            &&& j.balanced == within_cent(d, c)
        },
{
    let n = lines.len();
    let mut rows: Vec<JournalRegisterRow> = Vec::new();
    let mut td = Dec::zero();
    let mut tc = Dec::zero();
    let mut i: usize = 0;
    proof {
        assert(lines@.subrange(0, 0) =~= Seq::<RegisterLine>::empty());
    }
    while i < n
        invariant
            n == lines@.len(),
            n < i64::MAX,
            i <= n,
            rows@.len() == i,
            forall|k: int| 0 <= k < i ==> register_row_view(#[trigger] rows@[k]) == spec_register_row(lines@[k], k),
            spec_register_sums(lines@.subrange(0, i as int)) == Some((td, tc)),
            td.wf(),
            tc.wf(),
        decreases n - i,
    {
        let l = &lines[i];
        let d = crate::decimal::parse_or_zero(l.debit.as_str());
        let c = crate::decimal::parse_or_zero(l.credit.as_str());
        proof {
            assert(lines@.subrange(0, i + 1).drop_last() =~= lines@.subrange(0, i as int));
            assert(lines@.subrange(0, i + 1).last() == lines@[i as int]);
            lemma_spec_add(td, d);
            lemma_spec_add(tc, c);
            lemma_val_sign(d);
            lemma_val_sign(c);
        }
        td = match dec_add(td, d) {
            Some(x) => x,
            None => {
                proof { lemma_register_sums(lines@, i + 1); }
                return None;
            },
        };
        tc = match dec_add(tc, c) {
            Some(x) => x,
            None => {
                proof { lemma_register_sums(lines@, i + 1); }
                return None;
            },
        };
        let row = JournalRegisterRow {
            nr_crt: (i + 1) as i64,
            date: l.date.clone(),
            document: document_of(l),
            explanation: match &l.description {
                Some(x) => x.clone(),
                None => String::new(),
            },
            debit_account: if d.is_positive() { l.account_code.clone() } else { String::new() },
            credit_account: if c.is_positive() { l.account_code.clone() } else { String::new() },
            debit: fmt2(d),
            credit: fmt2(c),
        };
        proof {
            assert(register_row_view(row) == spec_register_row(lines@[i as int], i as int));
        }
        rows.push(row);
        i = i + 1;
    }
    proof {
        assert(lines@.subrange(0, n as int) =~= lines@);
    }
    let balanced = match within_cent_exec(td, tc) {
        Some(b) => b,
        None => return None,
    };
    Some(JournalRegister { rows, total_debit: fmt2(td), total_credit: fmt2(tc), balanced })
}


// ─── General ledger (cod 14-1-3) ────────────────────────────────────────────────

/// The distinct accounts of `accs` other than `own`, in order of first occurrence.
pub open spec fn spec_uniq_others(accs: Seq<Seq<char>>, own: Seq<char>) -> Seq<Seq<char>>
    decreases accs.len(),
{
    if accs.len() == 0 {
        seq![]
    } else {
        let pre = spec_uniq_others(accs.drop_last(), own);
        let a = accs.last();
        if a == own || pre.contains(a) {
            pre
        } else {
            pre.push(a)
        }
    }
}

/// The corresponding account shown on a ledger line: nothing when the opposite side holds
/// no other account, that account when it holds exactly one, `%` when several.
pub open spec fn spec_contra(accs: Seq<Seq<char>>, own: Seq<char>) -> Seq<char> {
    let u = spec_uniq_others(accs, own);
    if u.len() == 0 {
        seq![]
    } else if u.len() == 1 {
        u[0]
    } else {
        "%"@
    }
}

/// The corresponding account of a ledger line from the accounts on the opposite side of
/// its journal (see `spec_contra`).
pub fn contra_account(opposite: &Vec<String>, own: &str) -> (r: String)
    ensures
        r@ == spec_contra(str_views(opposite@), own@),
{
    let ghost accs = str_views(opposite@);
    let mut uniq: Vec<String> = Vec::new();
    let n = opposite.len();
    let mut i: usize = 0;
    proof {
        assert(accs.subrange(0, 0) =~= Seq::<Seq<char>>::empty());
        assert(str_views(uniq@) =~= Seq::<Seq<char>>::empty());
    }
    while i < n
        invariant
            n == opposite@.len(),
            accs == str_views(opposite@),
            i <= n,
            str_views(uniq@) == spec_uniq_others(accs.subrange(0, i as int), own@),
        decreases n - i,
    {
        let a = &opposite[i];
        let ghost u = str_views(uniq@);
        proof {
            assert(accs.subrange(0, i + 1).drop_last() =~= accs.subrange(0, i as int));
            assert(accs.subrange(0, i + 1).last() == a@);
        }
        let mut found = str_eq(a.as_str(), own);
        let m = uniq.len();
        let mut j: usize = 0;
        while j < m && !found
            invariant
                m == uniq@.len(),
                u == str_views(uniq@),
                j <= m,
                found == (a@ == own@ || exists|k: int| 0 <= k < j && u[k] == a@),
            decreases m - j,
        {
            if str_eq(uniq[j].as_str(), a.as_str()) {
                found = true;
                proof { assert(u[j as int] == a@); }
            }
            j = j + 1;
        }
        proof {
            if !found {
                assert(j == m);
                assert(!u.contains(a@));
            } else if a@ != own@ {
                let k = choose|k: int| 0 <= k < j && u[k] == a@;
                assert(u.contains(a@));
            }
        }
        if !found {
            uniq.push(a.clone());
            proof {
                assert(str_views(uniq@) =~= u.push(a@));
            }
        }
        i = i + 1;
    }
    proof {
        assert(accs.subrange(0, n as int) =~= accs);
    }
    let k = uniq.len();
    if k == 0 {
        String::new()
    } else if k == 1 {
        uniq[0].clone()
    } else {
        owned("%")
    }
}

/// One movement of an account in the period, with its corresponding account already chosen.
#[derive(Clone, Debug)]
pub struct LedgerMovement {
    pub date: String,
    pub journal_id: String,
    pub transaction_id: String,
    pub description: Option<String>,
    pub contra: String,
    pub debit: String,
    pub credit: String,
}

/// One line of a ledger sheet with the running balance after it.
pub struct LedgerEntry {
    pub date: String,
    pub document: String,
    pub explanation: String,
    pub contra: String,
    pub debit: String,
    pub credit: String,
    pub balance: String,
    pub balance_side: String,
}

/// One account's ledger sheet.
pub struct LedgerAccount {
    pub account_code: String,
    pub account_name: String,
    pub opening_debit: String,
    pub opening_credit: String,
    pub entries: Vec<LedgerEntry>,
    pub total_debit: String,
    pub total_credit: String,
    pub closing_debit: String,
    pub closing_credit: String,
}

/// The running balance, Σ debit and Σ credit after the first movements; each movement adds
/// `debit − credit` to the balance.
/// One movement read into the running balance and the two turnovers.
pub open spec fn spec_ledger_step(bal: Dec, td: Dec, tc: Dec, m: LedgerMovement) -> Option<(Dec, Dec, Dec)> {
    let d = crate::decimal::spec_parse_or_zero(m.debit@);
    let c = crate::decimal::spec_parse_or_zero(m.credit@);
    match spec_dec_sub(d, c) {
        Some(x) => match (spec_dec_add(bal, x), spec_dec_add(td, d), spec_dec_add(tc, c)) {
            (Some(b2), Some(d2), Some(c2)) => Some((b2, d2, c2)),
            _ => None,
        },
        None => None,
    }
}

/// The running balance, Σ debit and Σ credit after the first movements; each movement adds
/// `debit − credit` to the balance.
pub open spec fn spec_ledger_fold(open: Dec, ms: Seq<LedgerMovement>) -> Option<(Dec, Dec, Dec)>
    decreases ms.len(),
{
    if ms.len() == 0 {
        Some((open, zero_dec(), zero_dec()))
    } else {
        match spec_ledger_fold(open, ms.drop_last()) {
            Some((bal, td, tc)) => spec_ledger_step(bal, td, tc, ms.last()),
            None => None,
        }
    }
}

pub open spec fn ledger_entry_ok(e: LedgerEntry, m: LedgerMovement, bal: Dec) -> bool {
    &&& e.contra@ == m.contra@
    &&& e.debit@ == spec_fmt2(crate::decimal::spec_parse_or_zero(m.debit@))
    &&& e.credit@ == spec_fmt2(crate::decimal::spec_parse_or_zero(m.credit@))
    &&& (e.balance@, e.balance_side@) == (spec_fmt2(crate::decimal::spec_abs(bal)), if bal.val() >= 0 { "D"@ } else { "C"@ })
    &&& e.date@ == m.date@
    &&& e.explanation@ == opt_text(m.description)
}

fn ledger_line(m: &LedgerMovement, bal: Dec, td: Dec, tc: Dec) -> (r: Option<(LedgerEntry, Dec, Dec, Dec)>)
    requires
        bal.wf(),
        td.wf(),
        tc.wf(),
    ensures
        r is None <==> spec_ledger_step(bal, td, tc, *m) is None,
        r matches Some((e, b2, d2, c2)) ==> spec_ledger_step(bal, td, tc, *m) == Some((b2, d2, c2))
            && b2.wf() && d2.wf() && c2.wf() && ledger_entry_ok(e, *m, b2),
{
    let d = crate::decimal::parse_or_zero(m.debit.as_str());
    let c = crate::decimal::parse_or_zero(m.credit.as_str());
    proof {
        lemma_spec_sub(d, c);
    }
    let x = match dec_sub(d, c) {
        Some(v) => v,
        None => return None,
    };
    proof {
        lemma_spec_add(bal, x);
        lemma_spec_add(td, d);
        lemma_spec_add(tc, c);
    }
    let (b2, d2, c2) = match (dec_add(bal, x), dec_add(td, d), dec_add(tc, c)) {
        (Some(b2), Some(d2), Some(c2)) => (b2, d2, c2),
        _ => return None,
    };
    proof {
        lemma_val_sign(b2);
    }
    let side = if b2.is_negative() { "C" } else { "D" };
    let e = LedgerEntry {
        date: m.date.clone(),
        document: ledger_document(m),
        explanation: match &m.description {
            Some(x) => x.clone(),
            None => String::new(),
        },
        contra: m.contra.clone(),
        debit: fmt2(d),
        credit: fmt2(c),
        balance: fmt2(b2.abs()),
        balance_side: owned(side),
    };
    Some((e, b2, d2, c2))
}

proof fn lemma_ledger_fold(open: Dec, ms: Seq<LedgerMovement>)
    requires
        open.wf(),
    ensures
        spec_ledger_fold(open, ms) matches Some((bal, td, tc)) ==> bal.wf() && td.wf() && tc.wf()
            && bal.val() == open.val() + td.val() - tc.val(),
    decreases ms.len(),
{
    lemma_zero_val(0);
    if ms.len() > 0 {
        lemma_ledger_fold(open, ms.drop_last());
        if let Some((bal, td, tc)) = spec_ledger_fold(open, ms.drop_last()) {
            assert(spec_ledger_fold(open, ms) == spec_ledger_step(bal, td, tc, ms.last()));
            let d = crate::decimal::spec_parse_or_zero(ms.last().debit@);
            let c = crate::decimal::spec_parse_or_zero(ms.last().credit@);
            crate::decimal::lemma_parse_wf(crate::text::spec_trim(ms.last().debit@));
            crate::decimal::lemma_parse_wf(crate::text::spec_trim(ms.last().credit@));
            lemma_spec_sub(d, c);
            if let Some(x) = spec_dec_sub(d, c) {
                lemma_spec_add(bal, x);
                lemma_spec_add(td, d);
                lemma_spec_add(tc, c);
            }
        }
    }
}

proof fn lemma_ledger_fold_none_extend(open: Dec, ms: Seq<LedgerMovement>, k: int)
    requires
        0 <= k <= ms.len(),
        spec_ledger_fold(open, ms.subrange(0, k)) is None,
    ensures
        spec_ledger_fold(open, ms) is None,
    decreases ms.len() - k,
{
    if k < ms.len() {
        assert(ms.subrange(0, k + 1).drop_last() =~= ms.subrange(0, k));
        lemma_ledger_fold_none_extend(open, ms, k + 1);
    } else {
        assert(ms.subrange(0, k) =~= ms);
    }
}

/// Builds one account's ledger sheet from its opening net balance (`None` when the account
/// had no balance before the period) and its movements in order. The closing balance is the
/// running balance after the last movement: opening + Σ debit − Σ credit. `None` when an
/// amount leaves the decimal range.
pub fn ledger_account(
    code: &str,
    name: &Option<String>,
    opening: Option<Dec>,
    movements: &Vec<LedgerMovement>,
) -> (r: Option<LedgerAccount>)
    requires
        opening matches Some(o) ==> o.wf(),
    ensures
        ({
            let open = match opening { Some(o) => o, None => zero_dec() };
            &&& r is Some <==> spec_ledger_fold(open, movements@) is Some
            &&& r matches Some(acct) ==> {
                let (bal, td, tc) = spec_ledger_fold(open, movements@).unwrap();
                &&& acct.account_code@ == code@
                &&& acct.account_name@ == (match name { Some(x) => x@, None => code@ })
                &&& acct.opening_debit@ == (match opening { Some(o) => spec_fmt2(spec_max_zero(o)), None => "0.00"@ })
                &&& acct.opening_credit@ == (match opening { Some(o) => spec_fmt2(spec_max_zero(neg_dec(o))), None => "0.00"@ })
                &&& acct.entries@.len() == movements@.len()
                &&& forall|k: int| 0 <= k < movements@.len() ==> ledger_entry_ok(#[trigger] acct.entries@[k], movements@[k],
                    spec_ledger_fold(open, movements@.subrange(0, k + 1)).unwrap().0)
                &&& acct.total_debit@ == spec_fmt2(td)
                &&& acct.total_credit@ == spec_fmt2(tc)
                &&& acct.closing_debit@ == spec_fmt2(spec_max_zero(bal))
                &&& acct.closing_credit@ == spec_fmt2(spec_max_zero(neg_dec(bal)))
                &&& bal.val() == open.val() + td.val() - tc.val()
            }
        }),
{
    let open = match opening {
        Some(o) => o,
        None => Dec::zero(),
    };
    let ghost ms = movements@;
    let n = movements.len();
    let mut entries: Vec<LedgerEntry> = Vec::new();
    let mut bal = open;
    let mut td = Dec::zero();
    let mut tc = Dec::zero();
    let mut i: usize = 0;
    proof {
        assert(ms.subrange(0, 0) =~= Seq::<LedgerMovement>::empty());
    }
    while i < n
        invariant
            n == ms.len(),
            ms == movements@,
            open.wf(),
            open == (match opening { Some(o) => o, None => zero_dec() }),
            i <= n,
            entries@.len() == i,
            spec_ledger_fold(open, ms.subrange(0, i as int)) == Some((bal, td, tc)),
            bal.wf(),
            td.wf(),
            tc.wf(),
            forall|k: int| 0 <= k < i ==> {
                ledger_entry_ok(#[trigger] entries@[k], ms[k], spec_ledger_fold(open, ms.subrange(0, k + 1)).unwrap().0)
            },
        decreases n - i,
    {
        let m = &movements[i];
        proof {
            assert(ms.subrange(0, i + 1).drop_last() =~= ms.subrange(0, i as int));
            assert(ms.subrange(0, i + 1).last() == ms[i as int]);
        }
        let (e, b2, d2, c2) = match ledger_line(m, bal, td, tc) {
            Some(t) => t,
            None => {
                proof {
                    lemma_ledger_fold_none_extend(open, ms, i + 1);
                }
                return None;
            },
        };
        bal = b2;
        td = d2;
        tc = c2;
        let ghost old_entries = entries@;
        entries.push(e);
        proof {
            assert forall|k: int| 0 <= k < i + 1 implies ledger_entry_ok(#[trigger] entries@[k], ms[k], spec_ledger_fold(open, ms.subrange(0, k + 1)).unwrap().0) by {
                if k < i {
                    assert(entries@[k] == old_entries[k]);
                } else {
                    assert(entries@[k] == e);
                }
            }
        }
        i = i + 1;
    }
    proof {
        assert(ms.subrange(0, n as int) =~= ms);
        lemma_ledger_fold(open, ms);
        lemma_neg_val(open);
        lemma_neg_val(bal);
    }
    let (od, oc) = match opening {
        Some(o) => (fmt2(max_zero(o)), fmt2(max_zero(o.neg()))),
        None => (owned("0.00"), owned("0.00")),
    };
    let nm = match name {
        Some(x) => x.clone(),
        None => owned(code),
    };
    Some(
        LedgerAccount {
            account_code: owned(code),
            account_name: nm,
            opening_debit: od,
            opening_credit: oc,
            entries,
            total_debit: fmt2(td),
            total_credit: fmt2(tc),
            closing_debit: fmt2(max_zero(bal)),
            closing_credit: fmt2(max_zero(bal.neg())),
        },
    )
}

fn ledger_document(m: &LedgerMovement) -> (r: String)
    ensures
        r@ == crate::text::spec_trim(m.journal_id@ + " "@ + m.transaction_id@),
{
    let mut s = crate::text::concat_str(m.journal_id.as_str(), " ");
    crate::text::push_str(&mut s, m.transaction_id.as_str());
    owned(crate::text::trim(s.as_str()))
}


// ─── Reconciliation with the VAT return ─────────────────────────────────────────

/// The reconciliation of the ledger with the VAT return of a period.
pub struct ReconcileReport {
    pub balanced: bool,
    pub total_debit: String,
    pub total_credit: String,
    pub vat_collected_gl: String,
    pub vat_collected_d300: String,
    pub vat_deductible_gl: String,
    pub vat_deductible_d300: String,
    pub discrepancies: Vec<String>,
}

pub open spec fn dtext(d: Dec) -> Seq<char> {
    crate::decimal::decimal_to_string(d.mant, d.scale)
}

/// The reconciliation from the ledger sums (Σ debit, Σ credit, net 4427 credit, net 4426
/// debit — each rounded to two decimals, midpoints to even) and the return's collected and
/// deductible VAT: balanced when Σ debit and Σ credit differ by less than 0.01; a
/// discrepancy line for an imbalance and for each VAT figure that differs from the return's
/// by more than 0.01. `None` when a difference leaves the decimal range.
pub fn reconcile_report(
    total_debit_raw: Dec,
    total_credit_raw: Dec,
    collected_raw: Dec,
    deductible_raw: Dec,
    d300_collected: Dec,
    d300_deductible: Dec,
) -> (r: Option<ReconcileReport>)
    requires
        total_debit_raw.wf(),
        total_credit_raw.wf(),
        collected_raw.wf(),
        deductible_raw.wf(),
        d300_collected.wf(),
        d300_deductible.wf(),
    ensures
        ({
            let td = spec_round_dp_even(total_debit_raw, 2);
            let tc = spec_round_dp_even(total_credit_raw, 2);
            let cg = spec_round_dp_even(collected_raw, 2);
            let dg = spec_round_dp_even(deductible_raw, 2);
            &&& r is Some <==> (spec_dec_sub(td, tc) is Some && spec_dec_sub(cg, d300_collected) is Some
                && spec_dec_sub(dg, d300_deductible) is Some)
            &&& r matches Some(rep) ==> {
                &&& rep.balanced == within_cent(td, tc)
                &&& rep.total_debit@ == spec_fmt2(td)
                &&& rep.total_credit@ == spec_fmt2(tc)
                &&& rep.vat_collected_gl@ == spec_fmt2(cg)
                &&& rep.vat_collected_d300@ == spec_fmt2(d300_collected)
                &&& rep.vat_deductible_gl@ == spec_fmt2(dg)
                &&& rep.vat_deductible_d300@ == spec_fmt2(d300_deductible)
                &&& rep.discrepancies@.len() == (if within_cent(td, tc) { 0int } else { 1int })
                    + (if abs_int(cg.val() - d300_collected.val()) > pow10(26) { 1int } else { 0int })
                    + (if abs_int(dg.val() - d300_deductible.val()) > pow10(26) { 1int } else { 0int })
                &&& !within_cent(td, tc) ==> rep.discrepancies@[0]@ == "Dezechilibru GL: Σdebit="@ + dtext(td)
                    + " ≠ Σcredit="@ + dtext(tc) + " (diferenta "@ + dtext(crate::decimal::spec_abs(spec_dec_sub(td, tc).unwrap())) + ")"@
            }
        }),
{
    let td = round_dp_even(total_debit_raw, 2);
    let tc = round_dp_even(total_credit_raw, 2);
    let cg = round_dp_even(collected_raw, 2);
    let dg = round_dp_even(deductible_raw, 2);
    proof {
        lemma_spec_sub(td, tc);
        lemma_spec_sub(cg, d300_collected);
        lemma_spec_sub(dg, d300_deductible);
        reveal_with_fuel(pow10, 3);
        crate::decimal::lemma_pow10_add(24, 2);
    }
    let diff = match dec_sub(td, tc) {
        Some(x) => x,
        None => return None,
    };
    let dc = match dec_sub(cg, d300_collected) {
        Some(x) => x,
        None => return None,
    };
    let dd = match dec_sub(dg, d300_deductible) {
        Some(x) => x,
        None => return None,
    };
    let tol = Dec { mant: 1, scale: 2 };
    let balanced = dec_lt(diff.abs(), tol);
    let mut discrepancies: Vec<String> = Vec::new();
    if !balanced {
        let mut m = owned("Dezechilibru GL: Σdebit=");
        crate::text::push_str(&mut m, td.to_text().as_str());
        crate::text::push_str(&mut m, " ≠ Σcredit=");
        crate::text::push_str(&mut m, tc.to_text().as_str());
        crate::text::push_str(&mut m, " (diferenta ");
        crate::text::push_str(&mut m, diff.abs().to_text().as_str());
        crate::text::push_str(&mut m, ")");
        discrepancies.push(m);
    }
    if dec_lt(tol, dc.abs()) {
        let mut m = owned("TVA colectata: GL 4427=");
        crate::text::push_str(&mut m, cg.to_text().as_str());
        crate::text::push_str(&mut m, " ≠ D300=");
        crate::text::push_str(&mut m, d300_collected.to_text().as_str());
        discrepancies.push(m);
    }
    if dec_lt(tol, dd.abs()) {
        let mut m = owned("TVA deductibila: GL 4426=");
        crate::text::push_str(&mut m, dg.to_text().as_str());
        crate::text::push_str(&mut m, " ≠ D300=");
        crate::text::push_str(&mut m, d300_deductible.to_text().as_str());
        discrepancies.push(m);
    }
    Some(ReconcileReport {
        balanced,
        total_debit: fmt2(td),
        total_credit: fmt2(tc),
        vat_collected_gl: fmt2(cg),
        vat_collected_d300: fmt2(d300_collected),
        vat_deductible_gl: fmt2(dg),
        vat_deductible_d300: fmt2(d300_deductible),
        discrepancies,
    })
}

/// The net debit (credit balances negative) of one class-6/7 account over a period.
#[derive(Clone, Debug)]
pub struct AccountNet {
    pub account_code: String,
    pub account_name: Option<String>,
    pub net_debit: Dec,
}

/// The P&L row of an account: only its closing columns are filled, the net on its side.
pub open spec fn spec_pnl_row(a: AccountNet) -> TrialBalanceRowView {
    TrialBalanceRowView {
        account_code: a.account_code@,
        account_name: opt_name(a.account_name, a.account_code@),
        opening_debit: "0.00"@,
        opening_credit: "0.00"@,
        period_debit: "0.00"@,
        period_credit: "0.00"@,
        total_debit: "0.00"@,
        total_credit: "0.00"@,
        closing_debit: spec_fmt2(spec_max_zero(a.net_debit)),
        closing_credit: spec_fmt2(spec_max_zero(neg_dec(a.net_debit))),
    }
}

/// The P&L rows of the accounts, in their order, accounts with a zero net left out.
pub open spec fn spec_pnl_rows(ns: Seq<AccountNet>) -> Seq<TrialBalanceRowView>
    decreases ns.len(),
{
    if ns.len() == 0 {
        seq![]
    } else if ns.last().net_debit.mant == 0 {
        spec_pnl_rows(ns.drop_last())
    } else {
        spec_pnl_rows(ns.drop_last()).push(spec_pnl_row(ns.last()))
    }
}

/// Builds the rows that the P&L reads from the period's class-6/7 nets, so that the P&L
/// shows the period's revenue and expense even after the closing has zeroed 6/7 in the GL.
pub fn pnl_rows(nets: &Vec<AccountNet>) -> (r: Vec<TrialBalanceRow>)
    requires
        forall|k: int| 0 <= k < nets@.len() ==> (#[trigger] nets@[k]).net_debit.wf(),
    ensures
        r@.map_values(|x: TrialBalanceRow| x@) == spec_pnl_rows(nets@),
{
    let n = nets.len();
    let mut rows: Vec<TrialBalanceRow> = Vec::new();
    let mut i: usize = 0;
    while i < n
        invariant
            n == nets@.len(),
            i <= n,
            forall|k: int| 0 <= k < nets@.len() ==> (#[trigger] nets@[k]).net_debit.wf(),
            rows@.map_values(|x: TrialBalanceRow| x@) == spec_pnl_rows(nets@.take(i as int)),
        decreases n - i,
    {
        let a = &nets[i];
        proof {
            assert(nets@.take(i + 1).drop_last() =~= nets@.take(i as int));
            assert(nets@.take(i + 1).last() == nets@[i as int]);
            assert(nets@[i as int].net_debit.wf());
        }
        if a.net_debit.mant != 0 {
            let name = match &a.account_name {
                Some(x) => x.clone(),
                None => a.account_code.clone(),
            };
            let ghost before = rows@.map_values(|x: TrialBalanceRow| x@);
            let neg = a.net_debit.neg();
            proof {
                assert(neg == neg_dec(a.net_debit));
            }
            let row = TrialBalanceRow {
                account_code: a.account_code.clone(),
                account_name: name,
                opening_debit: owned("0.00"),
                opening_credit: owned("0.00"),
                period_debit: owned("0.00"),
                period_credit: owned("0.00"),
                total_debit: owned("0.00"),
                total_credit: owned("0.00"),
                closing_debit: fmt2(max_zero(a.net_debit)),
                closing_credit: fmt2(max_zero(neg)),
            };
            rows.push(row);
            proof {
                assert(rows@.map_values(|x: TrialBalanceRow| x@) =~= before.push(spec_pnl_row(*a)));
            }
        }
        i = i + 1;
    }
    proof {
        assert(nets@.take(n as int) =~= nets@);
    }
    rows
}

} // verus!
