use contabil::decimal::Dec;
use contabil::fx_revaluation::revalue_treasury;
use contabil::gl::{
    payment_journal_header, post_received_payment, purchase_journal_header, received_payment_journal_header,
    sales_journal_header, JournalHeader,
};
use contabil::invoices::full_number;
use contabil::orders::{conversion_issue_date, order_full_number};

fn d(s: &str) -> Dec {
    Dec::parse(s).unwrap()
}

fn fields(h: &JournalHeader) -> (&str, &str, &str, &str, &str, &str, &str) {
    (
        h.journal_id.as_str(),
        h.journal_type.as_str(),
        h.transaction_id.as_str(),
        h.transaction_date.as_str(),
        h.description.as_str(),
        h.source_type.as_str(),
        h.source_id.as_str(),
    )
}

#[test]
fn invoice_journal_headers() {
    let h = sales_journal_header("inv1", "FCT-0007", "2026-01-05", false, "C1");
    assert_eq!(fields(&h), ("VANZARI", "SALES", "FCT-0007", "2026-01-05", "Factura FCT-0007", "INVOICE", "inv1"));
    assert_eq!(h.customer_id.as_deref(), Some("C1"));
    assert!(h.supplier_id.is_none());
    let h = sales_journal_header("inv2", "FCT-0008", "2026-01-06", true, "C1");
    assert_eq!(h.description, "Storno factura FCT-0008");
    let h = purchase_journal_header("ri", "F 12", "2026-01-07", "S1");
    assert_eq!(fields(&h), ("CUMPARARI", "PURCHASE", "F 12", "2026-01-07", "Factura primita F 12", "RECEIVED_INVOICE", "ri"));
    assert_eq!(h.supplier_id.as_deref(), Some("S1"));
}

#[test]
fn payment_journal_headers() {
    let h = payment_journal_header("p1", "inv1", "2026-01-20", "cash", false, "C1");
    assert_eq!(fields(&h), ("CASA", "PAYMENT", "p1", "2026-01-20", "Incasare factura inv1", "PAYMENT", "p1"));
    let h = received_payment_journal_header("rp1", "ri", "2025-01-20", "transfer", true, "S1");
    assert_eq!(fields(&h), ("BANCA", "PAYMENT", "rp1", "2025-01-20", "Plata furnizor factura ri", "RECEIVED_PAYMENT", "rp1"));
    let ls = post_received_payment("RO123", d("510"), d("500"), true, "transfer", &vec![]).unwrap();
    let rows: Vec<(String, String, String)> =
        ls.iter().map(|l| (l.account.clone(), l.debit.to_text(), l.credit.to_text())).collect();
    assert_eq!(rows, vec![
        ("401".to_string(), "500".to_string(), "0".to_string()),
        ("5124".to_string(), "0".to_string(), "510".to_string()),
        ("665".to_string(), "10".to_string(), "0".to_string()),
    ]);
}

#[test]
fn negligible_treasury_balance_is_skipped() {
    assert!(revalue_treasury(d("0"), d("5.00"), d("5.0000")).unwrap().is_none());
    assert!(revalue_treasury(d("-0.009"), d("5.00"), d("5.0000")).unwrap().is_none());
    assert!(revalue_treasury(d("0.01"), d("5.00"), d("5.0000")).unwrap().is_some());
}

#[test]
fn numbers_are_padded_as_format_does() {
    assert_eq!(full_number("FCT", -5), "FCT--005");
    assert_eq!(order_full_number(&None, -12345), "CMD--12345");
    assert_eq!(full_number("FCT", 0), "FCT-0000");
}

#[test]
fn conversion_date_is_the_utc_day() {
    assert_eq!(conversion_issue_date(0, "2020-02-02"), "1970-01-01");
    assert_eq!(conversion_issue_date(1_767_225_600, "x"), "2026-01-01");
    assert_eq!(conversion_issue_date(i64::MAX, "2020-02-02"), "2020-02-02");
}
