use contabil::payments::{payments_by_invoice, Payment};

fn pay(id: &str, invoice: &str, amount: &str) -> Payment {
    Payment {
        id: id.into(),
        invoice_id: invoice.into(),
        company_id: "co".into(),
        amount: amount.into(),
        currency: "RON".into(),
        paid_at: "2026-01-01".into(),
        method: "transfer".into(),
        reference: None,
        notes: None,
        created_at: 0,
    }
}

#[test]
fn payments_go_to_their_invoice_in_order() {
    let ids = vec!["a".to_string(), "b".to_string(), "c".to_string()];
    let ps = vec![pay("p1", "b", "10"), pay("p2", "a", "5"), pay("p3", "b", "2"), pay("p4", "z", "1")];
    let buckets = payments_by_invoice(&ids, ps);
    let names: Vec<Vec<&str>> = buckets.iter().map(|b| b.iter().map(|p| p.id.as_str()).collect()).collect();
    assert_eq!(names, vec![vec!["p2"], vec!["p1", "p3"], vec![]]);
}

#[test]
fn a_repeated_invoice_id_gets_its_payments_once() {
    let ids = vec!["a".to_string(), "a".to_string()];
    let buckets = payments_by_invoice(&ids, vec![pay("p1", "a", "3")]);
    assert_eq!(buckets[0].len(), 1);
    assert!(buckets[1].is_empty());
}
