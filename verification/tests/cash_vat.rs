use contabil::cash_vat::{cash_vat_basis, paid_before_bani, released_vat, RateBucket, VatLineRon};
use contabil::decimal::Dec;
use contabil::models::dec_logged;
use contabil::nir::{active_vat_rate, VatRateError};
use contabil::reports::{pnl_rows, AccountNet};

fn d(s: &str) -> Dec {
    Dec::parse(s).unwrap()
}

fn vl(cat: &str, rate: &str, base: &str, vat: &str) -> VatLineRon {
    VatLineRon { category: cat.to_string(), rate: d(rate), base_ron: d(base), vat_ron: d(vat) }
}

#[test]
fn cash_vat_buckets_per_rate() {
    let lines = vec![
        vl("S", "19", "100.00", "19.00"),
        vl(" S ", "9", "50", "4.50"),
        vl("AE", "19", "200", "38"),
        vl("S", "19.00", "10.005", "1.90"),
        vl("Z", "0", "5", "0"),
    ];
    let b = cash_vat_basis(&lines).unwrap();
    assert_eq!(b.gross_bani, 11900 + 5450 + 20000 + 1191 + 500);
    assert_eq!(
        b.buckets,
        vec![
            RateBucket { rate_key: 900, base_bani: 5000, vat_bani: 450 },
            RateBucket { rate_key: 1900, base_bani: 11001, vat_bani: 2090 },
        ]
    );
    assert_eq!(b.rates[0].to_text(), "9");
    assert_eq!(b.rates[1].to_text(), "19");
    assert!(b.has_release_basis());

    let none_std = cash_vat_basis(&vec![vl("Z", "0", "5", "0")]).unwrap();
    assert!(none_std.buckets.is_empty());
    assert!(!none_std.has_release_basis());
    assert_eq!(cash_vat_basis(&vec![]).unwrap().gross_bani, 0);
}

#[test]
fn cash_vat_bucket_overflow_is_refused() {
    let big = "50000000000000000";
    let lines = vec![vl("S", "19", big, "0"), vl("S", "19", big, "0")];
    assert!(cash_vat_basis(&lines).is_none());
}

#[test]
fn paid_before_skips_non_positive() {
    let amounts = vec![d("10.00"), d("-5"), d("0.004"), d("2.555")];
    assert_eq!(paid_before_bani(&amounts), Some(1256));
    assert_eq!(paid_before_bani(&vec![]), Some(0));
}

#[test]
fn released_vat_per_rate() {
    let lines = vec![vl("S", "19", "100", "19"), vl("S", "9", "50", "4.50")];
    let basis = cash_vat_basis(&lines).unwrap();
    let alloc = vec![
        RateBucket { rate_key: 900, base_bani: 0, vat_bani: 0 },
        RateBucket { rate_key: 1900, base_bani: 5000, vat_bani: 1234 },
        RateBucket { rate_key: 2400, base_bani: 1, vat_bani: 100 },
    ];
    let rel = released_vat(&alloc, &basis).unwrap();
    assert_eq!(rel.len(), 2);
    assert_eq!(rel[0].rate.to_text(), "19");
    assert_eq!(rel[0].vat.to_text(), "12.34");
    assert_eq!(rel[1].rate.to_text(), "0");
    assert_eq!(rel[1].vat.to_text(), "1");
}

#[test]
fn pnl_rows_from_class67_nets() {
    let nets = vec![
        AccountNet { account_code: "601".into(), account_name: Some("Cheltuieli cu materiile prime".into()), net_debit: d("150.5") },
        AccountNet { account_code: "707".into(), account_name: None, net_debit: d("-200") },
        AccountNet { account_code: "6022".into(), account_name: None, net_debit: d("0.00") },
    ];
    let rows = pnl_rows(&nets);
    assert_eq!(rows.len(), 2);
    assert_eq!(rows[0].account_name, "Cheltuieli cu materiile prime");
    assert_eq!(rows[0].closing_debit, "150.50");
    assert_eq!(rows[0].closing_credit, "0.00");
    assert_eq!(rows[0].opening_debit, "0.00");
    assert_eq!(rows[1].account_code, "707");
    assert_eq!(rows[1].account_name, "707");
    assert_eq!(rows[1].closing_debit, "0.00");
    assert_eq!(rows[1].closing_credit, "200.00");
}

#[test]
fn active_vat_rate_lookup() {
    assert_eq!(active_vat_rate(&Some(" 19 ".into())).unwrap().to_text(), "19");
    assert!(matches!(active_vat_rate(&Some("x".into())), Err(VatRateError::Unreadable)));
    assert!(matches!(active_vat_rate(&None), Err(VatRateError::Inactive)));
}

#[test]
fn stored_money_text_or_zero() {
    assert_eq!(dec_logged("invoice.total", " 12.5 ").to_text(), "12.5");
    assert_eq!(dec_logged("invoice.total", "abc").to_text(), "0");
    assert_eq!(dec_logged("invoice.total", "").to_text(), "0");
}
