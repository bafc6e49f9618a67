use contabil::fx_revaluation::prior_rate;
use contabil::reports::reconcile_report;
use contabil::decimal::Dec;
use contabil::reports::{
    compute_bilant, compute_pnl, contra_account, journal_register, ledger_account,
    trial_balance, LedgerMovement, RegisterLine, TrialBalanceInput, TrialBalanceRow,
};

fn d(s: &str) -> Dec {
    Dec::parse(s).unwrap()
}

fn tb_row(code: &str, name: &str, closing_debit: &str, closing_credit: &str) -> TrialBalanceRow {
    TrialBalanceRow {
        account_code: code.into(),
        account_name: name.into(),
        opening_debit: "0.00".into(),
        opening_credit: "0.00".into(),
        period_debit: "0.00".into(),
        period_credit: "0.00".into(),
        total_debit: "0.00".into(),
        total_credit: "0.00".into(),
        closing_debit: closing_debit.into(),
        closing_credit: closing_credit.into(),
    }
}

#[test]
fn pnl_aggregates_revenue_expense_and_estimates_micro_tax() {
    let rows = vec![
        tb_row("707", "Venituri mărfuri", "0.00", "10000.00"),
        tb_row("765", "Venituri din diferențe de curs", "0.00", "50.00"),
        tb_row("607", "Cheltuieli mărfuri", "6000.00", "0.00"),
        tb_row("665", "Cheltuieli din diferențe de curs", "100.00", "0.00"),
        tb_row("4111", "Clienți", "11900.00", "0.00"),
    ];
    let pnl = compute_pnl(&rows, "micro", "2026-01-01", "2026-12-31").unwrap();
    assert_eq!(pnl.total_revenue, "10050.00");
    assert_eq!(pnl.financial_revenue, "50.00");
    assert_eq!(pnl.total_expense, "6100.00");
    assert_eq!(pnl.financial_expense, "100.00");
    assert_eq!(pnl.gross_result, "3950.00");
    assert!(pnl.income_tax_estimated);
    assert_eq!(pnl.income_tax, "100.50");
    assert_eq!(pnl.net_result, "3849.50");
    assert_eq!(pnl.closing_entries.len(), 4);
}

#[test]
fn pnl_uses_booked_income_tax_when_present_and_profit_16pct() {
    let rows = vec![
        tb_row("704", "Venituri servicii", "0.00", "5000.00"),
        tb_row("641", "Cheltuieli salarii", "3000.00", "0.00"),
        tb_row("691", "Cheltuieli impozit profit", "320.00", "0.00"),
    ];
    let pnl = compute_pnl(&rows, "profit", "2026-01-01", "2026-12-31").unwrap();
    assert_eq!(pnl.gross_result, "2000.00");
    assert!(!pnl.income_tax_estimated, "booked 691 used");
    assert_eq!(pnl.income_tax, "320.00");
    assert_eq!(pnl.net_result, "1680.00");
    assert!(!pnl.expense_lines.iter().any(|l| l.code == "691"));
}

#[test]
fn pnl_profit_estimate_is_16_percent_of_positive_gross() {
    let rows = vec![
        tb_row("704", "Venituri servicii", "0.00", "5000.00"),
        tb_row("641", "Cheltuieli salarii", "3000.00", "0.00"),
    ];
    let pnl = compute_pnl(&rows, "profit", "a", "b").unwrap();
    assert_eq!(pnl.income_tax, "320.00");
    assert_eq!(pnl.closing_entries[0].credit_account, "121");
    assert_eq!(pnl.closing_entries[1].debit_account, "121");
    let loss = vec![tb_row("641", "Cheltuieli salarii", "3000.00", "0.00")];
    let pnl = compute_pnl(&loss, "profit", "a", "b").unwrap();
    assert_eq!(pnl.income_tax, "0.00");
    assert_eq!(pnl.net_result, "-3000.00");
}

#[test]
fn bilant_balances_assets_against_equity_and_liabilities() {
    let rows = vec![
        tb_row("2131", "Echipamente", "50000.00", "0.00"),
        tb_row("2813", "Amortizare echipamente", "0.00", "10000.00"),
        tb_row("371", "Mărfuri", "20000.00", "0.00"),
        tb_row("4111", "Clienți", "30000.00", "0.00"),
        tb_row("5121", "Bancă", "15000.00", "0.00"),
        tb_row("101", "Capital social", "0.00", "50000.00"),
        tb_row("401", "Furnizori", "0.00", "25000.00"),
        tb_row("162", "Credite bancare termen lung", "0.00", "20000.00"),
        tb_row("707", "Venituri mărfuri", "0.00", "10000.00"),
    ];
    let b = compute_bilant(&rows, "2026-12-31").unwrap();
    assert_eq!(b.immobilized_assets, "40000.00");
    assert_eq!(b.inventory, "20000.00");
    assert_eq!(b.receivables, "30000.00");
    assert_eq!(b.cash_bank, "15000.00");
    assert_eq!(b.total_assets, "105000.00");
    assert_eq!(b.current_result, "10000.00");
    assert_eq!(b.equity, "60000.00");
    assert_eq!(b.current_liabilities, "25000.00");
    assert_eq!(b.long_term_debt, "20000.00");
    assert_eq!(b.total_equity_liabilities, "105000.00");
    assert!(b.balanced, "Active = Capitaluri + Datorii");
    assert!(b.entity_size_note.contains("S1005"));
}

#[test]
fn bilant_gap_is_the_unbalanced_amount() {
    let rows = vec![tb_row("5121", "Bancă", "100.00", "0.00")];
    let b = compute_bilant(&rows, "x").unwrap();
    assert!(!b.balanced);
    assert_eq!(b.total_assets, "100.00");
    assert_eq!(b.total_equity_liabilities, "0.00");
}

fn tbi(code: &str, on: &str, pd: &str, pc: &str) -> TrialBalanceInput {
    TrialBalanceInput { account_code: code.into(), account_name: None, opening_net: d(on), period_debit: d(pd), period_credit: d(pc) }
}

#[test]
fn trial_balance_four_equalities() {
    let inputs = vec![
        tbi("4111", "1000", "500", "300"),
        tbi("707", "-1000", "0", "500"),
        tbi("5121", "0", "300", "0"),
        tbi("999", "0", "0", "0"),
    ];
    let tb = trial_balance(&inputs).unwrap();
    assert_eq!(tb.rows.len(), 3);
    assert_eq!(tb.rows[0].account_name, "4111");
    assert_eq!(tb.rows[0].total_debit, "1500.00");
    assert_eq!(tb.rows[0].closing_debit, "1200.00");
    assert_eq!(tb.rows[1].opening_credit, "1000.00");
    assert_eq!(tb.rows[1].closing_credit, "1500.00");
    assert_eq!(tb.total_opening_debit, "1000.00");
    assert_eq!(tb.total_opening_credit, "1000.00");
    assert_eq!(tb.total_closing_debit, "1500.00");
    assert_eq!(tb.total_closing_credit, "1500.00");
    assert!(tb.balanced);
    let bad = vec![tbi("4111", "0", "10", "0")];
    assert!(!trial_balance(&bad).unwrap().balanced);
}

fn rl(acc: &str, debit: &str, credit: &str) -> RegisterLine {
    RegisterLine {
        date: "2026-01-05".into(),
        journal_id: "VZ".into(),
        transaction_id: "F1".into(),
        description: Some("Factura".into()),
        account_code: acc.into(),
        debit: debit.into(),
        credit: credit.into(),
    }
}

#[test]
fn journal_register_rows_and_totals() {
    let j = journal_register(&vec![rl("4111", "119.00", "0.00"), rl("707", "0.00", "100.00"), rl("4427", "0.00", "19.00")]).unwrap();
    assert_eq!(j.rows.len(), 3);
    assert_eq!(j.rows[0].nr_crt, 1);
    assert_eq!(j.rows[0].document, "VZ F1");
    assert_eq!(j.rows[0].debit_account, "4111");
    assert_eq!(j.rows[0].credit_account, "");
    assert_eq!(j.rows[1].credit_account, "707");
    assert_eq!(j.total_debit, "119.00");
    assert_eq!(j.total_credit, "119.00");
    assert!(j.balanced);
    let j = journal_register(&vec![rl("4111", "bad", "0")]).unwrap();
    assert_eq!(j.rows[0].debit, "0.00");
}

#[test]
fn contra_account_distinct_others() {
    let v = |xs: &[&str]| xs.iter().map(|s| s.to_string()).collect::<Vec<String>>();
    assert_eq!(contra_account(&v(&[]), "4111"), "");
    assert_eq!(contra_account(&v(&["4111"]), "4111"), "");
    assert_eq!(contra_account(&v(&["707", "707"]), "4111"), "707");
    assert_eq!(contra_account(&v(&["707", "4427"]), "4111"), "%");
}

fn mv(debit: &str, credit: &str) -> LedgerMovement {
    LedgerMovement {
        date: "2026-01-05".into(),
        journal_id: "VZ".into(),
        transaction_id: "F1".into(),
        description: None,
        contra: "707".into(),
        debit: debit.into(),
        credit: credit.into(),
    }
}

#[test]
fn ledger_running_balance_ends_at_closing() {
    let acct = ledger_account("4111", &None, Some(d("100.00")), &vec![mv("50.00", "0"), mv("0", "200.00")]).unwrap();
    assert_eq!(acct.account_name, "4111");
    assert_eq!(acct.opening_debit, "100.00");
    assert_eq!(acct.entries[0].balance, "150.00");
    assert_eq!(acct.entries[0].balance_side, "D");
    assert_eq!(acct.entries[1].balance, "50.00");
    assert_eq!(acct.entries[1].balance_side, "C");
    assert_eq!(acct.total_debit, "50.00");
    assert_eq!(acct.total_credit, "200.00");
    assert_eq!(acct.closing_debit, "0.00");
    assert_eq!(acct.closing_credit, "50.00");
    assert_eq!(acct.entries[0].document, "VZ F1");
    let empty = ledger_account("5121", &Some("Banca".into()), None, &vec![]).unwrap();
    assert_eq!(empty.opening_debit, "0.00");
    assert_eq!(empty.account_name, "Banca");
}

#[test]
fn reconcile_report_discrepancies() {
    let r = reconcile_report(d("1190.004"), d("1190"), d("190"), d("90"), d("190"), d("90")).unwrap();
    assert!(r.balanced);
    assert!(r.discrepancies.is_empty());
    assert_eq!(r.total_debit, "1190.00");
    let r = reconcile_report(d("1200"), d("1190"), d("190"), d("90"), d("180"), d("90.01")).unwrap();
    assert!(!r.balanced);
    assert_eq!(r.discrepancies.len(), 2);
    assert_eq!(r.discrepancies[0], "Dezechilibru GL: Σdebit=1200 ≠ Σcredit=1190 (diferenta 10)");
    assert_eq!(r.discrepancies[1], "TVA colectata: GL 4427=190 ≠ D300=180");
}

#[test]
fn stored_prior_rate_or_booking_rate() {
    assert_eq!(prior_rate(&Some(" 5.00 ".into()), d("4.97")).to_text(), "5.00");
    assert_eq!(prior_rate(&Some("x".into()), d("4.97")).to_text(), "4.97");
    assert_eq!(prior_rate(&None, d("4.97")).to_text(), "4.97");
}
