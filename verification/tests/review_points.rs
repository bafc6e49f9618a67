use contabil::decimal::{dec_add, dec_mul, Dec};
use contabil::fx_revaluation::{fx_revaluation_note, RevalNoteItem, TreasuryNoteItem};
use contabil::invoices::line_amounts;
use contabil::nir::{check_line_basics, nir_stock_lines, NirError, NirLineInput};

fn d(s: &str) -> Dec {
    Dec::parse(s).unwrap()
}

#[test]
fn a_line_outside_category_s_carries_no_vat() {
    let a = line_amounts(d("3"), d("10.00"), d("19"), "E").unwrap();
    assert!(a.vat.is_zero());
    assert_eq!(a.total.to_text(), a.subtotal.to_text());
}

#[test]
fn fx_totals_are_never_negative() {
    let items = vec![
        RevalNoteItem { issued: true, partner_cui: None, diff_lei: d("-12.50") },
        RevalNoteItem { issued: false, partner_cui: None, diff_lei: d("-4") },
    ];
    let treasury = vec![TreasuryNoteItem { gl_account: "5124".into(), diff_lei: d("-1") }];
    let n = fx_revaluation_note(&items, &treasury).unwrap();
    assert_eq!(n.total_favorable.to_text(), "4");
    assert_eq!(n.total_unfavorable.to_text(), "12.50");
    assert!(!n.treasury_favorable.is_negative());
    assert_eq!(n.treasury_unfavorable.to_text(), "1");
    assert_eq!(n.net_diff.to_text(), "-8.50");
}

fn nl(cost: &str) -> NirLineInput {
    NirLineInput {
        product_id: Some("p".into()),
        denumire: "marfa".into(),
        um: None,
        qty: "1".into(),
        unit_cost: cost.into(),
        vat_rate: "19".into(),
        adaos_pct: None,
        line_no: 1,
    }
}

#[test]
fn a_minus_zero_unit_cost_reads_as_zero() {
    // `Decimal::from_str("-0.00")` builds through `from_parts`, which clears the sign of a zero.
    assert!(check_line_basics(&nl("-0.00"), 1).is_ok());
    assert!(matches!(check_line_basics(&nl("-0.01"), 1), Err(NirError::NegativeUnitCost(1))));
}

#[test]
fn only_drafts_with_named_products_move_stock() {
    let ids = vec![Some("p1".to_string()), None, Some("  ".to_string()), Some("p2".to_string())];
    assert_eq!(nir_stock_lines("draft", &ids).unwrap(), vec![0, 3]);
    assert!(matches!(nir_stock_lines("finalized", &ids), Err(NirError::NotDraft)));
}

#[test]
fn products_follow_rust_decimal() {
    assert_eq!(dec_mul(d("1.25"), d("0.00")).unwrap().to_text(), "0");
    assert_eq!(dec_mul(d("1.25"), d("2.0")).unwrap().to_text(), "2.500");
    // scale 16 + 16 exceeds 28: rounded to scale 28 rather than refused
    let x = d("0.1234567890123456");
    let p = dec_mul(x, x).unwrap();
    assert_eq!(p.scale(), 28);
    assert!(dec_add(p, Dec::zero()).is_some());
}

#[test]
fn sums_keep_the_other_operand_when_one_is_zero() {
    assert_eq!(dec_add(d("0.00"), d("5")).unwrap().to_text(), "5");
    assert_eq!(dec_add(d("5"), d("0.000")).unwrap().to_text(), "5");
    assert_eq!(dec_add(d("1.5"), d("2.25")).unwrap().to_text(), "3.75");
    assert_eq!(contabil::decimal::dec_sub(d("0.00"), d("5")).unwrap().to_text(), "-5");
}
