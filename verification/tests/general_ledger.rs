use contabil::ledger::{ledger_groups, ledger_movements, LedgerRow};

fn row(jpk: &str, date: &str, account: &str, debit: &str, credit: &str) -> LedgerRow {
    LedgerRow {
        journal_pk: jpk.to_string(),
        date: date.to_string(),
        journal_id: "VZ".to_string(),
        transaction_id: format!("T-{jpk}"),
        description: Some(format!("nota {jpk}")),
        account: account.to_string(),
        debit: debit.to_string(),
        credit: credit.to_string(),
    }
}

fn sample() -> Vec<LedgerRow> {
    vec![
        row("j1", "2026-01-05", "4111", "100.00", "0.00"),
        row("j1", "2026-01-05", "707", "0.00", "84.03"),
        row("j1", "2026-01-05", "4427", "0.00", "15.97"),
        row("j2", "2026-01-20", "5121", "50.00", "0.00"),
        row("j2", "2026-01-20", "4111", "0.00", "50.00"),
    ]
}

#[test]
fn movements_take_the_corresponding_account_from_the_other_side() {
    let ms = ledger_movements(&sample());
    let contras: Vec<&str> = ms.iter().map(|m| m.contra.as_str()).collect();
    assert_eq!(contras, vec!["%", "4111", "4111", "4111", "5121"]);
    assert_eq!(ms[0].transaction_id, "T-j1");
    assert_eq!(ms[0].description.as_deref(), Some("nota j1"));
    assert_eq!(ms[4].credit, "50.00");
}

#[test]
fn journal_sides_do_not_need_adjacent_entries() {
    let rows = vec![
        row("j1", "2026-01-05", "5311", "10", "0"),
        row("j2", "2026-01-05", "5121", "7", "0"),
        row("j1", "2026-01-05", "7588", "0", "10"),
        row("j2", "2026-01-05", "4111", "0", "7"),
        row("j1", "2026-01-05", "5311", "0", "0"),
    ];
    let ms = ledger_movements(&rows);
    let contras: Vec<&str> = ms.iter().map(|m| m.contra.as_str()).collect();
    // The last entry has neither side: its corresponding account comes from the debit side,
    // where only its own account stands.
    assert_eq!(contras, vec!["7588", "4111", "5311", "5121", ""]);
}

#[test]
fn accounts_in_code_order_each_once_with_their_entries() {
    let opening = vec!["401".to_string(), "4111".to_string()];
    let groups = ledger_groups(&opening, &sample());
    let codes: Vec<&str> = groups.iter().map(|g| g.account.as_str()).collect();
    assert_eq!(codes, vec!["401", "4111", "4427", "5121", "707"]);
    assert!(groups[0].movements.is_empty());
    let m4111: Vec<(&str, &str)> = groups[1].movements.iter().map(|m| (m.date.as_str(), m.contra.as_str())).collect();
    assert_eq!(m4111, vec![("2026-01-05", "%"), ("2026-01-20", "5121")]);
    assert_eq!(groups[4].movements.len(), 1);
    assert_eq!(groups[4].movements[0].credit, "84.03");
}

#[test]
fn empty_period_keeps_accounts_with_opening_balances() {
    let opening = vec!["5121".to_string(), "1012".to_string(), "5121".to_string()];
    let groups = ledger_groups(&opening, &Vec::new());
    let codes: Vec<&str> = groups.iter().map(|g| g.account.as_str()).collect();
    assert_eq!(codes, vec!["1012", "5121"]);
}
