use contabil::decimal::Dec;
use contabil::inventory::{prefill_values, registru_groups, session_editable, session_type, InventoryError, InventoryLine};
use contabil::invoices::{price_lines, LineNumbers};
use contabil::nir::{check_nir_header, check_stored_line, nir_input_from_received, NirError};

fn d(s: &str) -> Dec {
    Dec::parse(s).unwrap()
}

fn line(acc: &str, vc: &str, vi: &str, diff: &str, cause: Option<&str>) -> InventoryLine {
    InventoryLine {
        id: "l".into(),
        session_id: "s".into(),
        account_code: acc.into(),
        item_name: "x".into(),
        um: "buc".into(),
        qty_scriptic: "0".into(),
        qty_faptic: "0".into(),
        unit_price: "0".into(),
        value_contabila: vc.into(),
        value_inventar: vi.into(),
        diff_value: diff.into(),
        diff_cause: cause.map(|c| c.to_string()),
        imputable: 0,
        product_id: None,
        created_at: 0,
        updated_at: 0,
    }
}

#[test]
fn inventory_register_rows_per_account() {
    let lines = vec![
        line("371", "100.00", "90.00", "-10.00", Some("lipsă")),
        line("371", "50", "55", "5", Some("")),
        line("3021", " 20 ", "20", "0", None),
        line("371", "10", "10", "0", None),
    ];
    let g = registru_groups(&lines).unwrap();
    assert_eq!(g.len(), 2);
    // rows in account-code order, as a BTreeMap keyed by account gives them
    assert_eq!(g[1].account_code, "371");
    assert_eq!(g[1].value_contabila.to_text(), "160.00");
    assert_eq!(g[1].value_inventar.to_text(), "155.00");
    assert_eq!(g[1].diff_value.to_text(), "-5.00");
    assert_eq!(g[1].diff_cause, "lipsă");
    assert_eq!(g[0].account_code, "3021");
    assert_eq!(g[0].value_contabila.to_text(), "20");
    assert_eq!(g[0].diff_cause, "");
    // the register keeps the session's total difference
    let total: i128 = g.iter().map(|r| r.diff_value.mant * 10i128.pow(4 - r.diff_value.scale)).sum();
    assert_eq!(total, -5_0000);
    assert!(registru_groups(&vec![]).unwrap().is_empty());
}

#[test]
fn inventory_session_rules() {
    assert_eq!(session_type(&None).unwrap(), "ANUAL");
    assert_eq!(session_type(&Some("CALAMITATE".into())).unwrap(), "CALAMITATE");
    assert!(matches!(session_type(&Some("anual".into())), Err(InventoryError::InvalidSessionType(t)) if t == "anual"));
    assert!(session_editable("DRAFT"));
    assert!(!session_editable("FINALIZED"));
    let v = prefill_values(" 2.5 ", "3.333").unwrap();
    assert_eq!(v.qty.to_text(), "2.5");
    assert_eq!(v.cost.to_text(), "3.333");
    assert_eq!(v.value.to_text(), "8.33");
    assert_eq!(prefill_values("x", "3").unwrap().value.to_text(), "0");
}

#[test]
fn invoice_lines_priced_and_totalled() {
    let ln = |q: &str, p: &str, r: &str, c: &str| LineNumbers {
        name: "p".into(),
        quantity: d(q),
        unit_price: d(p),
        vat_rate: d(r),
        vat_category: c.into(),
    };
    let (amounts, t) = price_lines(&vec![ln("2", "2.50", "21", "S"), ln("1", "10", "21", "Z")]).unwrap();
    assert_eq!(amounts.len(), 2);
    assert_eq!(amounts[0].subtotal.to_text(), "5.00");
    assert_eq!(amounts[0].vat.to_text(), "1.05");
    assert_eq!(amounts[1].vat.to_text(), "0");
    assert_eq!(t.subtotal.to_text(), "15.00");
    assert_eq!(t.vat.to_text(), "1.05");
    assert_eq!(t.total.to_text(), "16.05");
    let (a0, t0) = price_lines(&vec![]).unwrap();
    assert!(a0.is_empty());
    assert_eq!(t0.total.to_text(), "0");
}

#[test]
fn nir_header_and_stored_lines() {
    assert!(check_nir_header(" 2026-02-28 ", 1).is_ok());
    assert!(matches!(check_nir_header("2026-02-30", 1), Err(NirError::InvalidDate)));
    assert!(matches!(check_nir_header("28.02.2026", 1), Err(NirError::InvalidDate)));
    assert!(matches!(check_nir_header("2026-02-28", 0), Err(NirError::NoLines)));
    assert!(check_stored_line("1.5", "10", 1).is_ok());
    assert!(matches!(check_stored_line("x", "10", 2), Err(NirError::InvalidQuantity(2))));
    assert!(matches!(check_stored_line("1", "y", 3), Err(NirError::InvalidUnitCost(3))));
}

#[test]
fn nir_prefilled_from_received_invoice() {
    let vat = vec![("9".to_string(), "100.00".to_string()), ("19".to_string(), "50".to_string())];
    let n = nir_input_from_received("ri1", "Furnizor SRL", "RO123", "2026-03-01", &vat).unwrap();
    assert_eq!(n.gestiune_id, "");
    assert_eq!(n.received_invoice_id.as_deref(), Some("ri1"));
    assert_eq!(n.supplier_name.as_deref(), Some("Furnizor SRL"));
    assert_eq!(n.supplier_cui.as_deref(), Some("RO123"));
    assert_eq!(n.nir_date, "2026-03-01");
    assert_eq!(n.retail_mode, Some(false));
    assert_eq!(n.lines.len(), 2);
    assert_eq!(n.lines[0].denumire, "Marfă recepție (TVA 9%)");
    assert_eq!(n.lines[0].um.as_deref(), Some("buc"));
    assert_eq!(n.lines[0].qty, "1.000000");
    assert_eq!(n.lines[0].unit_cost, "100.00");
    assert_eq!(n.lines[0].vat_rate, "9");
    assert_eq!(n.lines[1].line_no, 2);
    assert!(matches!(nir_input_from_received("ri1", "a", "b", "c", &vec![]), Err(NirError::NoVatLines)));
}
