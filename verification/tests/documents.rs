use contabil::decimal::Dec;
use contabil::gestiune::{check_deletable as gestiune_deletable, gestiune_fields, new_gestiune_fields, GestiuneError, GestiuneInput};
use contabil::inventory::{inventory_diff_note, line_faptic_values, InventoryError, InventoryLine};
use contabil::models::{page_or_default, trial_expiry, Page};
use contabil::nir::{check_line_basics, line_values, nir_note, NirError, NirLineInput, NirStockedLine};
use contabil::orders::{check_convertible, check_deletable, check_editable, check_transition, order_full_number, OrderError};
use contabil::payments::{payment_status, payment_summary, validate_payment_amount, Payment, PaymentError};

fn d(s: &str) -> Dec {
    Dec::parse(s).unwrap()
}

fn nl(name: &str, qty: &str, cost: &str, adaos: Option<&str>) -> NirLineInput {
    NirLineInput {
        product_id: Some("p".into()),
        denumire: name.into(),
        um: None,
        qty: qty.into(),
        unit_cost: cost.into(),
        vat_rate: "19".into(),
        adaos_pct: adaos.map(|s| s.to_string()),
        line_no: 1,
    }
}

#[test]
fn nir_line_checks_in_order() {
    assert!(matches!(check_line_basics(&nl("  ", "1", "1", None), 1), Err(NirError::EmptyName(1))));
    assert!(matches!(check_line_basics(&nl("a", "x", "1", None), 2), Err(NirError::InvalidQuantity(2))));
    assert!(matches!(check_line_basics(&nl("a", "0", "1", None), 1), Err(NirError::NonPositiveQuantity(1))));
    assert!(matches!(check_line_basics(&nl("a", "1", "y", None), 1), Err(NirError::InvalidUnitCost(1))));
    assert!(matches!(check_line_basics(&nl("a", "1", "-1", None), 1), Err(NirError::NegativeUnitCost(1))));
    assert!(check_line_basics(&nl("a", "2", "10.5", None), 1).is_ok());
}

#[test]
fn nir_retail_values() {
    let ln = nl("a", "10", "12.50", Some("20"));
    let (q, c) = check_line_basics(&ln, 1).unwrap();
    let v = line_values(&ln, 1, q, c, d("19"), true).unwrap();
    let eqv = |a: Dec, b: &str| contabil::decimal::dec_eq(a, d(b));
    assert!(eqv(v.value_cost, "125"));
    assert!(eqv(v.value_adaos, "25"));
    assert!(eqv(v.value_tva_neex, "28.5"));
    assert!(eqv(v.pret_amanunt, "178.5"));
    let v = line_values(&ln, 1, q, c, d("19"), false).unwrap();
    assert_eq!(v.value_adaos.to_text(), "0");
    assert!(matches!(line_values(&nl("a", "1", "1", Some("x")), 3, q, c, d("19"), true), Err(NirError::InvalidMarkup(3))));
}

fn sl(stock: &str, exp: &str, cost: &str, adaos: &str, tva: &str) -> NirStockedLine {
    NirStockedLine { stock_account: stock.into(), expense_account: exp.into(), value_cost: d(cost), value_adaos: d(adaos), value_tva_neex: d(tva) }
}

fn rows(lines: &[contabil::gl::GlLine]) -> Vec<(String, String, String)> {
    lines.iter().map(|l| (l.account.clone(), l.debit.to_text(), l.credit.to_text())).collect()
}

#[test]
fn nir_note_standalone_retail() {
    let ls = vec![sl("371", "607", "100", "20", "22.8"), sl("371", "607", "50", "10", "11.4"), sl("301", "601", "30", "0", "0")];
    let n = nir_note(&ls, true, true).unwrap();
    assert_eq!(rows(&n), vec![
        ("607".into(), "150".into(), "0".into()),
        ("601".into(), "30".into(), "0".into()),
        ("408".into(), "0".into(), "180".into()),
        ("371".into(), "64.2".into(), "0".into()),
        ("378".into(), "0".into(), "30".into()),
        ("4428".into(), "0".into(), "34.2".into()),
    ]);
    // linked to an invoice: only non-607 expense accounts are reclassified against 607
    let n = nir_note(&ls, false, false).unwrap();
    assert_eq!(rows(&n), vec![("601".into(), "30".into(), "0".into()), ("607".into(), "0".into(), "30".into())]);
}

fn il(acc: &str, diff: &str, imputable: i64) -> InventoryLine {
    InventoryLine {
        id: "l".into(),
        session_id: "s".into(),
        account_code: acc.into(),
        item_name: "x".into(),
        um: "buc".into(),
        qty_scriptic: "0".into(),
        qty_faptic: "0".into(),
        unit_price: "0".into(),
        value_contabila: "0".into(),
        value_inventar: "0".into(),
        diff_value: diff.into(),
        diff_cause: None,
        imputable,
        product_id: None,
        created_at: 0,
        updated_at: 0,
    }
}

#[test]
fn inventory_line_values() {
    let v = line_faptic_values("DRAFT", "8", "5", "10").unwrap();
    assert_eq!(v.value_inventar.to_text(), "40");
    assert_eq!(v.diff_value.to_text(), "-10");
    let v = line_faptic_values("DRAFT", "22", "3.50", "20").unwrap();
    assert_eq!(v.value_inventar.to_text(), "77.00");
    assert_eq!(v.diff_value.to_text(), "7.00");
    assert!(matches!(line_faptic_values("FINALIZED", "1", "1", "1"), Err(InventoryError::SessionFinalized)));
    assert!(matches!(line_faptic_values("DRAFT", "-1", "1", "1"), Err(InventoryError::NegativeQuantity)));
    assert!(matches!(line_faptic_values("DRAFT", "q", "1", "1"), Err(InventoryError::InvalidQuantity)));
}

#[test]
fn inventory_diff_note_nets_607() {
    let lines = vec![il("371", "-10.00", 0), il("371", "7.00", 0), il("303", "5.00", 0), il("371", "-99", 1), il("381", "0", 0)];
    let n = inventory_diff_note("FINALIZED", &lines).unwrap();
    assert_eq!(rows(&n), vec![
        ("371".into(), "0".into(), "3.00".into()),
        ("303".into(), "5.00".into(), "0".into()),
        ("607".into(), "0".into(), "2.00".into()),
    ]);
    assert!(matches!(inventory_diff_note("DRAFT", &lines), Err(InventoryError::SessionNotFinalized)));
    let even = vec![il("371", "-5", 0), il("303", "5", 0)];
    let n = inventory_diff_note("FINALIZED", &even).unwrap();
    assert_eq!(rows(&n)[2], ("607".into(), "5".into(), "5".into()));
    assert!(inventory_diff_note("FINALIZED", &vec![]).unwrap().is_empty());
}

#[test]
fn order_status_machine() {
    assert!(check_transition("draft", "sent").is_ok());
    assert!(check_transition("draft", "accepted").is_ok());
    assert!(check_transition("sent", "cancelled").is_ok());
    assert!(check_transition("accepted", "cancelled").is_ok());
    assert!(matches!(check_transition("accepted", "draft"), Err(OrderError::InvalidTransition(_, _))));
    assert!(check_transition("cancelled", "sent").is_err());
    assert!(check_transition("invoiced", "cancelled").is_err());
    assert!(check_deletable("draft").is_ok());
    assert!(check_deletable("cancelled").is_ok());
    assert!(check_deletable("accepted").is_err());
    assert!(check_editable("draft").is_ok());
    assert!(check_editable("sent").is_err());
    assert!(check_convertible("accepted", &None).is_ok());
    assert!(matches!(check_convertible("accepted", &Some("inv".into())), Err(OrderError::AlreadyConverted)));
    assert!(matches!(check_convertible("invoiced", &None), Err(OrderError::AlreadyConverted)));
    assert!(matches!(check_convertible("sent", &None), Err(OrderError::NotAccepted(_))));
    assert_eq!(order_full_number(&None, 3), "CMD-0003");
    assert_eq!(order_full_number(&Some("".into()), 3), "CMD-0003");
    assert_eq!(order_full_number(&Some("CO".into()), 42), "CO-0042");
}

fn gi(cod: &str, den: &str) -> GestiuneInput {
    GestiuneInput { cod: cod.into(), denumire: den.into(), tip: None, metoda_evaluare: None, cont_stoc: None, adresa: None, dispersata_teritorial: None }
}

#[test]
fn gestiune_fields_normalized() {
    let f = new_gestiune_fields(&gi("  mag1 ", " Magazin ")).unwrap();
    assert_eq!(f.cod, "MAG1");
    assert_eq!(f.denumire, "Magazin");
    assert_eq!(f.tip, "cantitativ_valorica");
    assert_eq!(f.metoda_evaluare, "CMP");
    assert_eq!(f.cont_stoc, "371");
    assert_eq!(f.dispersata_teritorial, 0);
    assert!(matches!(new_gestiune_fields(&gi(" ", "x")), Err(GestiuneError::EmptyCode)));
    assert!(matches!(new_gestiune_fields(&gi("a", " ")), Err(GestiuneError::EmptyName)));
    let mut inp = gi("a", "b");
    inp.dispersata_teritorial = Some(true);
    let f = gestiune_fields(&inp, "global_valorica", "FIFO", "357", &Some("Str".into()), 0).unwrap();
    assert_eq!(f.metoda_evaluare, "FIFO");
    assert_eq!(f.adresa.as_deref(), Some("Str"));
    assert_eq!(f.dispersata_teritorial, 1);
    assert_eq!(gestiune_deletable(1, 0), Err(GestiuneError::DefaultNotDeletable));
    assert_eq!(gestiune_deletable(0, 3), Err(GestiuneError::HasStock));
    assert!(gestiune_deletable(0, 0).is_ok());
}

fn pay(amount: &str) -> Payment {
    Payment {
        id: "p".into(),
        invoice_id: "i".into(),
        company_id: "c".into(),
        amount: amount.into(),
        currency: "RON".into(),
        paid_at: "2026-01-01".into(),
        method: "transfer".into(),
        reference: None,
        notes: None,
        created_at: 0,
    }
}

#[test]
fn payment_amounts_and_summary() {
    assert_eq!(validate_payment_amount("0"), Err(PaymentError::NonPositiveAmount));
    assert_eq!(validate_payment_amount("-1"), Err(PaymentError::NonPositiveAmount));
    assert_eq!(validate_payment_amount("abc"), Err(PaymentError::InvalidAmount));
    assert_eq!(validate_payment_amount(" 10.5 ").unwrap(), d("10.5"));
    assert_eq!(payment_status(Dec::zero(), d("100")), "UNPAID");
    assert_eq!(payment_status(d("100"), d("100")), "PAID");
    assert_eq!(payment_status(d("40"), d("100")), "PARTIAL");
    let s = payment_summary("i", "119.00", vec![pay("100.00"), pay("19.00")]).unwrap();
    assert_eq!(s.payment_status, "PAID");
    assert_eq!(s.paid_amount, "119.00");
    let s = payment_summary("i", "119.00", vec![pay("50"), pay("garbage")]).unwrap();
    assert_eq!(s.payment_status, "PARTIAL");
    assert_eq!(s.paid_amount, "50");
    let s = payment_summary("i", "119.00", vec![]).unwrap();
    assert_eq!(s.payment_status, "UNPAID");
}

#[test]
fn pages_and_licence() {
    let p = Page::default();
    assert_eq!((p.offset, p.limit), (0, 500));
    let p = page_or_default(Some(Page { offset: 10, limit: 20 }));
    assert_eq!((p.offset, p.limit), (10, 20));
    assert_eq!(trial_expiry(1_000, 14), 1_000 + 14 * 86_400);
}
