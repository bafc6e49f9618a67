use contabil::decimal::{dec_add, round2, round_dp_even, Dec};
use contabil::invoices::{
    can_delete, full_number, invoice_totals, line_amounts, status_event, validate_new_invoice,
    validate_vat_rate, InvoiceError, LineAmounts, LineNumbers,
};
use contabil::models::{
    is_valid_payment_means_code, valid_payment_means_codes, valid_vat_rates, InvoiceStatus,
};
use rust_decimal::Decimal;

fn d(s: &str) -> Dec {
    Dec::parse(s).unwrap()
}

fn from_f64(x: f64) -> Dec {
    let v = Decimal::try_from(x).unwrap_or(Decimal::ZERO);
    Dec { mant: v.mantissa(), scale: v.scale() }
}

#[test]
fn round2_is_commercial_half_away_not_bankers() {
    assert_eq!(round2(d("0.5250")).to_text(), "0.53");
    assert_eq!(round2(d("-0.5250")).to_text(), "-0.53");
    assert_eq!(round2(d("0.521")).to_text(), "0.52");
    assert_eq!(round2(d("0.125")).to_text(), "0.13");
}

#[test]
fn decimal_avoids_float_drift() {
    let a = d("0.10");
    let b = d("0.20");
    let sum = dec_add(a, b).unwrap();
    assert_eq!(sum.to_text(), "0.30");
}

#[test]
fn round_to_two_decimals() {
    let val = d("1.2345");
    let rounded = round_dp_even(val, 2);
    assert_eq!(rounded.to_text(), "1.23");
}

#[test]
fn negative_storno_amount_preserved() {
    let val = d("-150.00");
    assert!(val.is_negative());
    assert_eq!(val.to_text(), "-150.00");
}

#[test]
fn valid_payment_means_code_accepted() {
    assert!(valid_payment_means_codes().contains(&"30"), "code '30' must be accepted");
    for code in &["10", "20", "30", "42", "48", "49", "57", "58", "59"] {
        assert!(valid_payment_means_codes().contains(code), "code '{}' must be accepted", code);
        assert!(is_valid_payment_means_code(code));
    }
}

#[test]
fn invalid_payment_means_code_rejected() {
    for bad in &["0", "1", "99", "100", "cash", "card", ""] {
        assert!(!valid_payment_means_codes().contains(bad), "code '{}' must NOT be accepted", bad);
        assert!(!is_valid_payment_means_code(bad));
    }
}

#[test]
fn quantity_six_dp_round_trip() {
    let qty_input = 1.234567_f64;
    let stored = round_dp_even(from_f64(qty_input), 6).to_text();
    assert!(stored.starts_with("1.234567"), "got '{}'", stored);
}

#[test]
fn quantity_subtotal_uses_precise_qty() {
    let qty = d("1.234567");
    let price = d("100.00");
    let subtotal = round_dp_even(contabil::decimal::dec_mul(qty, price).unwrap(), 2);
    assert_eq!(subtotal.to_text(), "123.46");
}

/// (vat amount, effective rate) of a line as the tests of the VAT categories compute it.
fn compute_line_vat(qty: f64, unit_price: f64, vat_rate: f64, vat_category: &str) -> (String, String) {
    let q = from_f64(qty);
    let p = from_f64(unit_price);
    let raw = from_f64(vat_rate);
    let rate = contabil::invoices::effective_vat_rate(raw, vat_category);
    let ls = round_dp_even(contabil::decimal::dec_mul(q, p).unwrap(), 2);
    let x = contabil::decimal::dec_mul(ls, rate).unwrap();
    let lv = round_dp_even(
        Dec::parse(&(Decimal::from_i128_with_scale(x.mant, x.scale) / Decimal::from(100)).to_string()).unwrap(),
        2,
    );
    (lv.to_text(), round_dp_even(rate, 2).to_text())
}

#[test]
fn vat1_non_s_category_ae_rate_19_stores_zero_vat() {
    let (vat_amount, stored_rate) = compute_line_vat(1.0, 100.0, 19.0, "AE");
    assert_eq!(vat_amount, "0");
    assert_eq!(stored_rate, "0");
}

#[test]
fn vat1_non_s_category_e_rate_19_stores_zero_vat() {
    let (vat_amount, stored_rate) = compute_line_vat(2.0, 50.0, 19.0, "E");
    assert_eq!(vat_amount, "0");
    assert_eq!(stored_rate, "0");
}

#[test]
fn vat1_category_z_rate_0_stores_zero_vat() {
    let (vat_amount, stored_rate) = compute_line_vat(1.0, 100.0, 0.0, "Z");
    assert_eq!(vat_amount, "0");
    assert_eq!(stored_rate, "0");
}

#[test]
fn vat1_category_o_any_rate_stores_zero_vat() {
    let (vat_amount, stored_rate) = compute_line_vat(3.0, 200.0, 19.0, "O");
    assert_eq!(vat_amount, "0");
    assert_eq!(stored_rate, "0");
}

#[test]
fn vat1_category_k_stores_zero_vat() {
    let (vat_amount, stored_rate) = compute_line_vat(1.0, 500.0, 0.0, "K");
    assert_eq!(vat_amount, "0");
    assert_eq!(stored_rate, "0");
}

#[test]
fn vat1_category_g_stores_zero_vat() {
    let (vat_amount, stored_rate) = compute_line_vat(1.0, 800.0, 0.0, "G");
    assert_eq!(vat_amount, "0");
    assert_eq!(stored_rate, "0");
}

#[test]
fn vat1_category_s_rate_19_stores_normal_vat() {
    let (vat_amount, stored_rate) = compute_line_vat(1.0, 100.0, 19.0, "S");
    assert_eq!(Decimal::from_str_exact(&vat_amount).unwrap(), Decimal::from(19));
    assert_eq!(Decimal::from_str_exact(&stored_rate).unwrap(), Decimal::from(19));
}

#[test]
fn vat1_category_s_rate_9_stores_normal_vat() {
    let (vat_amount, stored_rate) = compute_line_vat(2.0, 100.0, 9.0, "S");
    assert_eq!(Decimal::from_str_exact(&vat_amount).unwrap(), Decimal::from(18));
    assert_eq!(Decimal::from_str_exact(&stored_rate).unwrap(), Decimal::from(9));
}

#[test]
fn line_amounts_commercial_rounding() {
    // 2.50 × 21% = 0.5250 → 0.53
    let a = line_amounts(d("1"), d("2.50"), d("21"), "S").unwrap();
    assert_eq!(a.subtotal.to_text(), "2.50");
    assert_eq!(a.vat.to_text(), "0.53");
    assert_eq!(a.total.to_text(), "3.03");
    // non-standard category: no VAT
    let a = line_amounts(d("3"), d("200"), d("19"), "O").unwrap();
    assert_eq!(a.vat.to_text(), "0");
    assert_eq!(a.total.to_text(), "600");
}

#[test]
fn invoice_totals_reconcile() {
    let lines: Vec<LineAmounts> = vec![
        line_amounts(d("1"), d("2.50"), d("21"), "S").unwrap(),
        line_amounts(d("2"), d("100"), d("9"), "S").unwrap(),
    ];
    let t = invoice_totals(&lines).unwrap();
    assert_eq!(t.subtotal.to_text(), "202.50");
    assert_eq!(t.vat.to_text(), "18.53");
    assert_eq!(t.total.to_text(), "221.03");
}

#[test]
fn vat_rates_in_force() {
    assert_eq!(valid_vat_rates(), vec![0, 5, 9, 11, 19, 21]);
    assert!(validate_vat_rate(d("19")));
    assert!(validate_vat_rate(d("19.0005")));
    assert!(!validate_vat_rate(d("19.001")));
    assert!(!validate_vat_rate(d("24")));
}

fn line(name: &str, qty: &str, rate: &str) -> LineNumbers {
    LineNumbers { name: name.to_string(), quantity: d(qty), unit_price: d("10"), vat_rate: d(rate), vat_category: "S".to_string() }
}

#[test]
fn new_invoice_validation_errors() {
    assert!(matches!(validate_new_invoice(&vec![], None), Err(InvoiceError::NoLines)));
    assert!(matches!(validate_new_invoice(&vec![line("a", "1", "24")], None), Err(InvoiceError::InvalidVatRate(_))));
    assert!(matches!(validate_new_invoice(&vec![line("a", "-1", "19")], None), Err(InvoiceError::NegativeQuantity(_))));
    assert!(matches!(validate_new_invoice(&vec![line("a", "1", "19")], Some("99")), Err(InvoiceError::InvalidPaymentMeans(_))));
    assert_eq!(validate_new_invoice(&vec![line("a", "1", "19")], None).unwrap(), "30");
    assert_eq!(validate_new_invoice(&vec![line("a", "1", "19")], Some("42")).unwrap(), "42");
}

#[test]
fn numbering_and_status_events() {
    assert_eq!(full_number("FCT", 7), "FCT-0007");
    assert_eq!(full_number("FCT", 12345), "FCT-12345");
    assert!(can_delete("DRAFT"));
    assert!(!can_delete("VALIDATED"));
    let (t, m) = status_event(InvoiceStatus::Validated, None);
    assert_eq!(t, "STATUS_VALIDATED");
    assert_eq!(m, "Status schimbat în VALIDATED");
    assert_eq!(InvoiceStatus::Storned.as_str(), "STORNED");
    assert_eq!(InvoiceStatus::from_text("QUEUED"), Some(InvoiceStatus::Queued));
    assert_eq!(InvoiceStatus::from_text("queued"), None);
}

#[test]
fn first_refused_line_decides_the_error() {
    let lines = vec![line("a", "1", "19"), line("b", "-2", "19"), line("c", "1", "24")];
    assert!(matches!(validate_new_invoice(&lines, Some("99")), Err(InvoiceError::NegativeQuantity(n)) if n == "b"));
    let lines = vec![line("a", "1", "24"), line("b", "-2", "19")];
    assert!(matches!(validate_new_invoice(&lines, None), Err(InvoiceError::InvalidVatRate(r)) if r == d("24")));
}
