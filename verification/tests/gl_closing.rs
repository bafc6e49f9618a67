use contabil::gl::{
    in_cash_vat_window, is_foreign_currency, normalize_cui, payment_releases_cash_vat,
    received_doc_number, sales_cash_vat_applies, settlement_cash, supplier_on_cash_vat,
};
use contabil::closing::{
    assert_balanced, post_annual_close, post_income_tax, post_payroll, post_period_close,
    post_vat_settlement, to_bani, AccountBalance, BalanceError,
};
use contabil::decimal::{dec_add, Dec};
use contabil::gl::{
    plain_line, post_payment, post_purchase_invoice, post_received_payment, post_sales_invoice,
    revenue_account, treasury_account, GlLine, PurchaseVatLine, SalesVatGroup, VatRelease,
};

fn d(s: &str) -> Dec {
    Dec::parse(s).unwrap()
}

fn rows(lines: &[GlLine]) -> Vec<(String, String, String)> {
    lines.iter().map(|l| (l.account.clone(), l.debit.to_text(), l.credit.to_text())).collect()
}

fn sums(lines: &[GlLine]) -> (Dec, Dec) {
    let mut td = Dec::zero();
    let mut tc = Dec::zero();
    for l in lines {
        td = dec_add(td, l.debit).unwrap();
        tc = dec_add(tc, l.credit).unwrap();
    }
    (td, tc)
}

fn same_value(a: Dec, b: Dec) -> bool {
    contabil::decimal::dec_eq(a, b)
}

#[test]
fn test10_balance_guard_rejects_unbalanced() {
    let entries = vec![plain_line("4111", d("1190"), Dec::zero()), plain_line("707", Dec::zero(), d("1000"))];
    assert_eq!(assert_balanced(&entries), Err(BalanceError::Unbalanced));
    let balanced = vec![
        plain_line("4111", d("1190"), Dec::zero()),
        plain_line("707", Dec::zero(), d("1000")),
        plain_line("4427", Dec::zero(), d("190")),
    ];
    assert!(assert_balanced(&balanced).is_ok());
}

#[test]
fn balance_guard_tolerance_is_half_a_cent() {
    let ok = vec![plain_line("1", d("1.005"), Dec::zero()), plain_line("2", Dec::zero(), d("1"))];
    assert!(assert_balanced(&ok).is_ok());
    let bad = vec![plain_line("1", d("1.0051"), Dec::zero()), plain_line("2", Dec::zero(), d("1"))];
    assert!(assert_balanced(&bad).is_err());
}

#[test]
fn to_bani_rounds_half_away() {
    assert_eq!(to_bani(d("12.345")), 1235);
    assert_eq!(to_bani(d("-12.345")), -1235);
    assert_eq!(to_bani(d("0.004")), 0);
}

#[test]
fn revenue_and_treasury_accounts() {
    assert_eq!(revenue_account(" product "), "701");
    assert_eq!(revenue_account("service"), "704");
    assert_eq!(revenue_account("reduction"), "709");
    assert_eq!(revenue_account("goods"), "707");
    assert_eq!(treasury_account("CASH", false), ("5311", "CASA"));
    assert_eq!(treasury_account("numerar", true), ("5314", "CASA"));
    assert_eq!(treasury_account("transfer", true), ("5124", "BANCA"));
    assert_eq!(treasury_account("card", false), ("5121", "BANCA"));
}

#[test]
fn sales_invoice_template() {
    let groups = vec![SalesVatGroup {
        revenue_kind: "goods".into(),
        category: "S".into(),
        rate: d("19"),
        net: d("1000.00"),
        vat: d("190.00"),
    }];
    let ls = post_sales_invoice(&groups, &Some("RO123".into()), false).unwrap();
    assert_eq!(rows(&ls), vec![
        ("4111".into(), "1190.00".into(), "0".into()),
        ("707".into(), "0".into(), "1000.00".into()),
        ("4427".into(), "0".into(), "190.00".into()),
    ]);
    assert_eq!(ls[0].partner_cui.as_deref(), Some("RO123"));
    let ls = post_sales_invoice(&groups, &None, true).unwrap();
    assert_eq!(ls[2].account, "4428");
}

#[test]
fn purchase_invoice_template_with_reverse_charge() {
    let lines = vec![PurchaseVatLine { category: "AE".into(), rate: d("19"), net: d("100"), vat: d("19") }];
    let ls = post_purchase_invoice("RO9", d("100"), &lines, false);
    assert_eq!(rows(&ls), vec![
        ("607".into(), "100".into(), "0".into()),
        ("4426".into(), "19".into(), "0".into()),
        ("4427".into(), "0".into(), "19".into()),
        ("401".into(), "0".into(), "100".into()),
    ]);
    let (td, tc) = sums(&ls);
    assert!(same_value(td, tc));
}

#[test]
fn customer_payment_with_fx_gain_and_cash_vat_release() {
    let rel = vec![VatRelease { rate: d("19"), vat: d("19.00") }, VatRelease { rate: d("9"), vat: Dec::zero() }];
    let ls = post_payment(d("1010.00"), d("1000.00"), true, "transfer", &Some("RO1".into()), &rel).unwrap();
    assert_eq!(rows(&ls), vec![
        ("5124".into(), "1010.00".into(), "0".into()),
        ("4111".into(), "0".into(), "1000.00".into()),
        ("765".into(), "0".into(), "10.00".into()),
        ("4428".into(), "19.00".into(), "0".into()),
        ("4427".into(), "0".into(), "19.00".into()),
    ]);
    let (td, tc) = sums(&ls);
    assert!(same_value(td, tc));
}

#[test]
fn supplier_payment_with_fx_loss() {
    let ls = post_received_payment("RO5", d("1010.00"), d("1000.00"), true, "cash", &vec![]).unwrap();
    assert_eq!(rows(&ls), vec![
        ("401".into(), "1000.00".into(), "0".into()),
        ("5314".into(), "0".into(), "1010.00".into()),
        ("665".into(), "10.00".into(), "0".into()),
    ]);
}

#[test]
fn vat_settlement_payable_and_recoverable() {
    let (r, ls) = post_vat_settlement(d("190.004"), d("90"), "2026-01-31").unwrap();
    assert!(r.posted);
    assert_eq!(r.collected, "190.00");
    assert_eq!(r.net_vat, "100.00");
    assert_eq!(r.de_plata, "100.00");
    assert_eq!(r.de_recuperat, "0.00");
    assert_eq!(rows(&ls), vec![
        ("4427".into(), "190.00".into(), "0".into()),
        ("4426".into(), "0".into(), "90".into()),
        ("4423".into(), "0".into(), "100.00".into()),
    ]);
    let (r, ls) = post_vat_settlement(d("50"), d("80"), "x").unwrap();
    assert_eq!(r.de_recuperat, "30.00");
    assert_eq!(ls[2].account, "4424");
    let (r, ls) = post_vat_settlement(Dec::zero(), Dec::zero(), "x").unwrap();
    assert!(!r.posted);
    assert!(ls.is_empty());
}

#[test]
fn period_close_sweeps_to_121() {
    let bs = vec![
        AccountBalance { code: "707".into(), net_debit: d("-10000.00") },
        AccountBalance { code: "607".into(), net_debit: d("6000.00") },
    ];
    let (r, ls) = post_period_close(&bs, "2026-03-31").unwrap();
    assert!(r.posted);
    assert_eq!(r.total_revenue, "10000.00");
    assert_eq!(r.total_expense, "6000.00");
    assert_eq!(r.result, "4000.00");
    assert_eq!(r.entries_count, 4);
    assert_eq!(rows(&ls), vec![
        ("707".into(), "10000.00".into(), "0".into()),
        ("607".into(), "0".into(), "6000.00".into()),
        ("121".into(), "0".into(), "10000.00".into()),
        ("121".into(), "6000.00".into(), "0".into()),
    ]);
    let (r, ls) = post_period_close(&vec![], "x").unwrap();
    assert!(!r.posted);
    assert!(ls.is_empty());
}

#[test]
fn income_tax_estimates_and_explicit_amount() {
    let (r, ls) = post_income_tax("micro", None, "10050.00", "3950.00", "2026-12-31").unwrap();
    assert_eq!(r.amount, "100.50");
    assert!(r.estimated);
    assert_eq!(rows(&ls)[0].0, "698");
    assert_eq!(rows(&ls)[1].0, "4418");
    let (r, _) = post_income_tax("profit", None, "5000", "2000.00", "x").unwrap();
    assert_eq!(r.amount, "320.00");
    assert_eq!(r.expense_account, "691");
    let (r, ls) = post_income_tax("profit", Some(d("-5")), "", "", "x").unwrap();
    assert_eq!(r.amount, "0.00");
    assert!(!r.posted);
    assert!(ls.is_empty());
}

#[test]
fn annual_close_profit_and_loss() {
    let (r, ls) = post_annual_close(2025, d("4000"));
    assert_eq!(r.kind, "profit");
    assert_eq!(r.entry_date, "2026-01-01");
    assert_eq!(rows(&ls), vec![("121".into(), "4000".into(), "0".into()), ("117".into(), "0".into(), "4000".into())]);
    let (r, ls) = post_annual_close(2025, d("-1.005"));
    assert_eq!(r.kind, "loss");
    assert_eq!(r.result_121, "-1.00");
    assert_eq!(ls[0].account, "117");
    let (r, ls) = post_annual_close(2025, Dec::zero());
    assert_eq!(r.kind, "zero");
    assert!(ls.is_empty());
}

#[test]
fn payroll_note_leaves_net_on_421() {
    let (r, ls) = post_payroll(d("5000"), d("1250"), d("500"), d("325"), d("112.5"), "2026-01-31").unwrap();
    assert!(r.posted);
    assert_eq!(r.net, "2925.00");
    let accts: Vec<String> = ls.iter().map(|l| l.account.clone()).collect();
    assert_eq!(accts, vec!["641", "421", "421", "4315", "4316", "444", "646", "436"]);
    assert_eq!(ls[2].debit.to_text(), "2075");
    let (td, tc) = sums(&ls);
    assert!(same_value(td, tc));
    let (r, ls) = post_payroll(Dec::zero(), Dec::zero(), Dec::zero(), Dec::zero(), Dec::zero(), "x").unwrap();
    assert!(!r.posted);
    assert!(ls.is_empty());
}

#[test]
fn posting_regime_decisions() {
    assert_eq!(normalize_cui(" ro12345 "), "12345");
    assert_eq!(normalize_cui("RORO1"), "1");
    assert_eq!(normalize_cui("R O1"), "R O1");
    let start = Some("2026-01-01".to_string());
    let end = Some("2026-06-30".to_string());
    assert!(in_cash_vat_window(true, &start, &end, "2026-03-15"));
    assert!(in_cash_vat_window(true, &start, &end, "2026-01-01"));
    assert!(!in_cash_vat_window(true, &start, &end, "2025-12-31"));
    assert!(!in_cash_vat_window(true, &start, &end, "2026-07-01"));
    assert!(!in_cash_vat_window(false, &None, &None, "2026-03-15"));
    assert!(in_cash_vat_window(true, &None, &None, "2026-03-15"));
    let cuis = vec!["".to_string(), "999".to_string()];
    assert!(supplier_on_cash_vat(&cuis, "RO999"));
    assert!(!supplier_on_cash_vat(&cuis, "RO"));
    assert!(sales_cash_vat_applies(false, "VALIDATED", true));
    assert!(!sales_cash_vat_applies(false, "STORNED", true));
    assert!(!sales_cash_vat_applies(true, "VALIDATED", true));
    assert!(!payment_releases_cash_vat(false, "STORNED", true));
    assert!(payment_releases_cash_vat(false, "VALIDATED", true));
    assert!(is_foreign_currency("eur"));
    assert!(!is_foreign_currency("ron"));
    assert_eq!(received_doc_number("", "", "rid"), "rid");
    assert_eq!(received_doc_number("AB", "12", "rid"), "AB12");
    assert_eq!(settlement_cash(false, d("1"), d("2")).to_text(), "1");
    assert_eq!(settlement_cash(true, d("1"), d("2")).to_text(), "2");
}

#[test]
fn storno_posts_the_same_accounts_on_the_other_side() {
    let g = |net: &str, vat: &str, kind: &str| SalesVatGroup {
        net: d(net),
        vat: d(vat),
        category: "S".into(),
        rate: d("19"),
        revenue_kind: kind.into(),
    };
    let invoice = post_sales_invoice(&vec![g("1000.00", "190.00", "goods"), g("50", "0", "service")], &None, false).unwrap();
    let storno = post_sales_invoice(&vec![g("-1000.00", "-190.00", "goods"), g("-50", "0", "service")], &None, false).unwrap();
    assert_eq!(rows(&invoice), vec![
        ("4111".into(), "1240.00".into(), "0".into()),
        ("707".into(), "0".into(), "1000.00".into()),
        ("4427".into(), "0".into(), "190.00".into()),
        ("704".into(), "0".into(), "50".into()),
    ]);
    assert_eq!(rows(&storno), vec![
        ("4111".into(), "0".into(), "1240.00".into()),
        ("707".into(), "1000.00".into(), "0".into()),
        ("4427".into(), "190.00".into(), "0".into()),
        ("704".into(), "50".into(), "0".into()),
    ]);
}
