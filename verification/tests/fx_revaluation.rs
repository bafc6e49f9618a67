use contabil::decimal::Dec;
use contabil::fx_revaluation::{
    PeriodError, estimate_foreign_balance, fx_revaluation_note, fx_revaluation_result, last_banking_day,
    parse_u32, revalue_invoice, revalue_treasury, round4, weekday, RevalNoteItem,
    TreasuryNoteItem,
};

fn d(s: &str) -> Dec {
    Dec::parse(s).unwrap()
}

fn txt(x: Dec) -> String {
    x.to_text()
}

#[test]
fn last_banking_day_avoids_weekend() {
    assert_eq!(last_banking_day("2026-01").unwrap(), "2026-01-30");
    assert_eq!(last_banking_day("2026-02").unwrap(), "2026-02-27");
    assert_eq!(last_banking_day("2026-03").unwrap(), "2026-03-31");
    assert_eq!(last_banking_day("2026-04").unwrap(), "2026-04-30");
    assert_eq!(last_banking_day("2026-05").unwrap(), "2026-05-29");
}

#[test]
fn last_banking_day_invalid_period_errors() {
    assert!(last_banking_day("2026").is_err());
    assert!(last_banking_day("abc").is_err());
    assert!(last_banking_day("2026-13").is_err());
}

#[test]
fn last_banking_day_leap_february_and_year_range() {
    // 2024-02-29 is a Thursday.
    assert_eq!(last_banking_day("2024-02").unwrap(), "2024-02-29");
    // 2100 is not a leap year: 2100-02-28 is a Sunday → Friday 26.
    assert_eq!(last_banking_day("2100-02").unwrap(), "2100-02-26");
    assert!(last_banking_day("1899-12").is_err());
    assert!(last_banking_day("2101-01").is_err());
    assert!(last_banking_day("2026-00").is_err());
    assert!(last_banking_day("2026-1-5").is_err());
    assert_eq!(last_banking_day("2026-+1").unwrap(), "2026-01-30");
}

#[test]
fn weekday_known_dates() {
    assert_eq!(weekday(2026, 1, 31), 6); // Saturday
    assert_eq!(weekday(2026, 5, 31), 0); // Sunday
    assert_eq!(weekday(2026, 3, 31), 2); // Tuesday
}

#[test]
fn parse_u32_like_std() {
    assert_eq!(parse_u32("2026"), Some(2026));
    assert_eq!(parse_u32("+7"), Some(7));
    assert_eq!(parse_u32("4294967295"), Some(4294967295));
    assert_eq!(parse_u32("4294967296"), None);
    assert_eq!(parse_u32(""), None);
    assert_eq!(parse_u32("+"), None);
    assert_eq!(parse_u32("-1"), None);
    assert_eq!(parse_u32("1a"), None);
}

#[test]
fn round4_rounds_half_away() {
    assert_eq!(txt(round4(d("4.97125"))), "4.9713");
    assert_eq!(txt(round4(d("-4.97125"))), "-4.9713");
    assert_eq!(txt(round4(d("5.1"))), "5.1");
}

#[test]
fn invoice_revaluation_uses_prior_month_base() {
    // 1000 EUR booked at 4.97, revalued last month at 5.00, month-end 4.95 → −50.
    let r = revalue_invoice(d("1000"), d("0"), d("4.97"), Some(d("5.00")), d("4.95"))
        .unwrap()
        .unwrap();
    assert_eq!(txt(r.prior_lei), "5000.00");
    assert_eq!(txt(r.revalued_lei), "4950.00");
    assert_eq!(txt(r.diff_lei), "-50.00");
    // First month: base is the booking rate.
    let r = revalue_invoice(d("1000"), d("0"), d("4.97"), None, d("5.00"))
        .unwrap()
        .unwrap();
    assert_eq!(txt(r.diff_lei), "30.00");
}

#[test]
fn invoice_revaluation_partial_payment_and_skips() {
    let r = revalue_invoice(d("1000"), d("400"), d("4.97"), None, d("5.00"))
        .unwrap()
        .unwrap();
    assert_eq!(txt(r.foreign_outstanding), "600");
    assert_eq!(txt(r.prior_lei), "2982.00");
    assert_eq!(txt(r.revalued_lei), "3000.00");
    assert_eq!(txt(r.diff_lei), "18.00");
    // fully paid → skipped
    assert!(revalue_invoice(d("1000"), d("1000"), d("4.97"), None, d("5.00")).unwrap().is_none());
    // no booking rate → skipped
    assert!(revalue_invoice(d("1000"), d("0"), d("0"), None, d("5.00")).unwrap().is_none());
    // no change → skipped
    assert!(revalue_invoice(d("1000"), d("0"), d("4.97"), None, d("4.97")).unwrap().is_none());
}

#[test]
fn treasury_revaluation_figures() {
    // 1000 EUR carried at 4900 lei, month-end 5.00 → +100.
    let t = revalue_treasury(d("1000"), d("4900"), d("5.00")).unwrap().unwrap();
    assert_eq!(txt(t.revalued_lei), "5000.00");
    assert_eq!(txt(t.diff_lei), "100.00");
    // 500 USD carried at 2400, month-end 4.70 → −50.
    let t = revalue_treasury(d("500"), d("2400"), d("4.70")).unwrap().unwrap();
    assert_eq!(txt(t.diff_lei), "-50.00");
    assert!(revalue_treasury(d("500"), d("2350"), d("4.70")).unwrap().is_none());
}

#[test]
fn estimate_foreign_balance_divides_and_rounds() {
    assert_eq!(txt(estimate_foreign_balance(d("4900"), d("4.9")).unwrap()), "1000");
    assert_eq!(txt(estimate_foreign_balance(d("10"), d("3")).unwrap()), "3.33");
    assert_eq!(txt(estimate_foreign_balance(d("10"), d("0")).unwrap()), "0");
    assert_eq!(txt(estimate_foreign_balance(d("10"), d("-2")).unwrap()), "0");
}

fn sum_side(lines: &[contabil::gl::GlLine]) -> (String, String) {
    let mut td = Dec::zero();
    let mut tc = Dec::zero();
    for l in lines {
        td = contabil::decimal::dec_add(td, l.debit).unwrap();
        tc = contabil::decimal::dec_add(tc, l.credit).unwrap();
    }
    (contabil::decimal::round2(td).to_text(), contabil::decimal::round2(tc).to_text())
}

#[test]
fn fx_note_is_balanced_and_pools_665_765() {
    let items = vec![
        RevalNoteItem { issued: true, partner_cui: Some("RO1".to_string()), diff_lei: d("30.00") },
        RevalNoteItem { issued: true, partner_cui: Some("RO2".to_string()), diff_lei: d("-50.00") },
        RevalNoteItem { issued: false, partner_cui: None, diff_lei: d("20.00") },
        RevalNoteItem { issued: false, partner_cui: None, diff_lei: d("-5.00") },
    ];
    let treasury = vec![
        TreasuryNoteItem { gl_account: "5124".to_string(), diff_lei: d("100.00") },
        TreasuryNoteItem { gl_account: "5314".to_string(), diff_lei: d("-50.00") },
    ];
    let note = fx_revaluation_note(&items, &treasury).unwrap();
    let accts: Vec<&str> = note.lines.iter().map(|l| l.account.as_str()).collect();
    assert_eq!(accts, vec!["4111", "4111", "401", "401", "5124", "5314", "665", "765"]);
    let (td, tc) = sum_side(&note.lines);
    assert_eq!(td, tc);
    assert_eq!(note.lines[0].partner_cui.as_deref(), Some("RO1"));
    // favourable: 30 + 5 = 35; unfavourable: 50 + 20 = 70
    assert_eq!(note.total_favorable.to_text(), "35.00");
    assert_eq!(note.total_unfavorable.to_text(), "70.00");
    assert_eq!(note.net_diff.to_text(), "-35.00");
    assert_eq!(note.treasury_favorable.to_text(), "100.00");
    assert_eq!(note.treasury_unfavorable.to_text(), "50.00");
    // 665 = 50 + 20 + 50 = 120; 765 = 30 + 5 + 100 = 135
    assert_eq!(note.lines[6].debit.to_text(), "120.00");
    assert_eq!(note.lines[7].credit.to_text(), "135.00");
    let res = fx_revaluation_result("2026-01", "2026-01-30", 4, 2, &note);
    assert_eq!(res.gl_source_id, "FX_REVAL-2026-01");
    assert_eq!(res.net_diff, "-35.00");
    assert_eq!(res.rows_posted, 4);
}

#[test]
fn fx_note_empty_when_nothing_revalued() {
    let note = fx_revaluation_note(&vec![], &vec![]).unwrap();
    assert!(note.lines.is_empty());
}

#[test]
fn last_banking_day_error_kinds() {
    assert!(matches!(last_banking_day("2026"), Err(PeriodError::Format(p)) if p == "2026"));
    assert!(matches!(last_banking_day("20x6-01"), Err(PeriodError::Year(y)) if y == "20x6"));
    assert!(matches!(last_banking_day("2026-1a"), Err(PeriodError::Month(m)) if m == "1a"));
    assert!(matches!(last_banking_day("1899-12"), Err(PeriodError::Range(p)) if p == "1899-12"));
}
