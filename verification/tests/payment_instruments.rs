use contabil::decimal::Dec;
use contabil::payment_instruments::{
    apply_event, event_discount, guard_direction, guard_status, note_suffixes, parse_amount,
    validate_amount, validate_direction, validate_kind, validate_new, validate_scadenta,
    validate_update, CreatePaymentInstrumentInput, InstrumentError, InstrumentEvent,
    PaymentInstrument, UpdatePaymentInstrumentInput,
};

fn dec(s: &str) -> Dec {
    Dec::parse(s).unwrap()
}

fn pi(kind: &str, direction: &str, status: &str, amount: &str) -> PaymentInstrument {
    PaymentInstrument {
        id: "pi1".to_string(),
        company_id: "co".to_string(),
        kind: kind.to_string(),
        direction: direction.to_string(),
        partner_id: None,
        partner_cui: None,
        number: None,
        amount: amount.to_string(),
        currency: "RON".to_string(),
        issue_date: "2026-01-10".to_string(),
        scadenta: None,
        status: status.to_string(),
        discount_amount: None,
        commission_amount: None,
        notes: None,
        created_at: 0,
        updated_at: 0,
    }
}

fn accounts(lines: &[contabil::gl::GlLine]) -> Vec<(String, String, String)> {
    lines
        .iter()
        .map(|l| (l.account.clone(), l.debit.to_text(), l.credit.to_text()))
        .collect()
}

#[test]
fn validate_kind_ok() {
    assert!(validate_kind("CEC").is_ok());
    assert!(validate_kind("BO").is_ok());
}

#[test]
fn validate_kind_invalid() {
    assert!(validate_kind("BILET").is_err());
    assert!(validate_kind("").is_err());
}

#[test]
fn validate_direction_ok() {
    assert!(validate_direction("received").is_ok());
    assert!(validate_direction("issued").is_ok());
}

#[test]
fn validate_direction_invalid() {
    assert!(validate_direction("out").is_err());
    assert!(validate_direction("").is_err());
}

#[test]
fn cec_with_scadenta_rejected() {
    assert!(validate_scadenta("CEC", Some("2026-09-01")).is_err());
    assert!(validate_scadenta("CEC", None).is_ok());
    assert!(validate_scadenta("CEC", Some("")).is_ok());
}

#[test]
fn bo_without_scadenta_rejected() {
    assert!(validate_scadenta("BO", None).is_err());
    assert!(validate_scadenta("BO", Some("")).is_err());
    assert!(validate_scadenta("BO", Some("2026-09-01")).is_ok());
}

#[test]
fn amount_validation() {
    assert!(validate_amount("1234.56").is_ok());
    assert!(validate_amount("0.01").is_ok());
    assert!(validate_amount("0").is_err());
    assert!(validate_amount("-1").is_err());
    assert!(validate_amount("abc").is_err());
}

#[test]
fn discount_cannot_exceed_total() {
    let b = pi("BO", "received", "registered", "1000");
    let r = event_discount(&b, "900", Some("101"));
    assert!(matches!(r, Err(InstrumentError::DiscountTooLarge)));
    let r = event_discount(&b, "900", Some("100"));
    assert!(matches!(r, Err(InstrumentError::DiscountTooLarge)));
}

#[test]
fn discount_net_calculation() {
    let b = pi("BO", "received", "registered", "1000");
    let t = event_discount(&b, "50", Some("10")).unwrap();
    assert_eq!(t.new_status, "discounted");
    assert_eq!(t.notes.len(), 2);
    assert_eq!(t.notes[0].event, "discount_remit");
    assert_eq!(t.notes[1].event, "collect");
    let settle = accounts(&t.notes[1].lines);
    assert_eq!(settle[1], ("5121".to_string(), "940".to_string(), "0".to_string()));
    assert_eq!(settle[2], ("667".to_string(), "50".to_string(), "0".to_string()));
    assert_eq!(settle[3], ("627".to_string(), "10".to_string(), "0".to_string()));
}

#[test]
fn discount_of_deposited_bo_reverses_deposit_first() {
    let b = pi("BO", "received", "deposited", "1000");
    let t = event_discount(&b, "50", None).unwrap();
    let evs: Vec<&str> = t.notes.iter().map(|n| n.event.as_str()).collect();
    assert_eq!(evs, vec!["deposit_reverse", "discount_remit", "collect"]);
    assert_eq!(accounts(&t.notes[0].lines)[0].0, "5113");
    assert_eq!(t.notes[2].lines.len(), 3); // no fee line
}

#[test]
fn discount_refused_for_cec_or_wrong_status_or_direction() {
    assert!(matches!(event_discount(&pi("CEC", "received", "registered", "1000"), "5", None), Err(InstrumentError::DiscountNotBo)));
    assert!(matches!(event_discount(&pi("BO", "received", "collected", "1000"), "5", None), Err(InstrumentError::DiscountStatus)));
    assert!(matches!(event_discount(&pi("BO", "issued", "registered", "1000"), "5", None), Err(InstrumentError::WrongDirection(_, _))));
}

#[test]
fn received_cec_chain_notes() {
    let mut c = pi("CEC", "received", "registered", "500.00");
    let t = apply_event(&c, InstrumentEvent::Deposit).unwrap();
    assert_eq!(t.new_status, "deposited");
    assert_eq!(accounts(&t.notes[0].lines), vec![
        ("413".to_string(), "0".to_string(), "500.00".to_string()),
        ("5112".to_string(), "500.00".to_string(), "0".to_string()),
    ]);
    c.status = t.new_status;
    let t = apply_event(&c, InstrumentEvent::Collect).unwrap();
    assert_eq!(t.new_status, "collected");
    assert_eq!(accounts(&t.notes[0].lines)[1].0, "5121");
    // collecting again is refused
    c.status = t.new_status;
    assert!(matches!(apply_event(&c, InstrumentEvent::Collect), Err(InstrumentError::WrongStatus(_, _, _))));
}

#[test]
fn dishonor_reopens_receivable_and_pay_settles_issued() {
    let c = pi("BO", "received", "deposited", "300");
    let t = apply_event(&c, InstrumentEvent::Dishonor).unwrap();
    assert_eq!(t.new_status, "dishonored");
    assert_eq!(accounts(&t.notes[0].lines), vec![
        ("5113".to_string(), "0".to_string(), "300".to_string()),
        ("4111".to_string(), "300".to_string(), "0".to_string()),
    ]);
    let e = pi("CEC", "issued", "registered", "300");
    let t = apply_event(&e, InstrumentEvent::Pay).unwrap();
    assert_eq!(t.new_status, "paid");
    assert_eq!(accounts(&t.notes[0].lines)[0], ("403".to_string(), "300".to_string(), "0".to_string()));
    assert!(matches!(apply_event(&e, InstrumentEvent::Deposit), Err(InstrumentError::WrongDirection(_, _))));
}

#[test]
fn new_instrument_registration_note() {
    let input = CreatePaymentInstrumentInput {
        company_id: "co".to_string(),
        kind: "BO".to_string(),
        direction: "issued".to_string(),
        partner_id: None,
        partner_cui: None,
        number: None,
        amount: " 250.50 ".to_string(),
        currency: None,
        issue_date: "2026-01-10".to_string(),
        scadenta: Some("2026-03-01".to_string()),
        notes: None,
    };
    let ls = validate_new(&input).unwrap();
    assert_eq!(accounts(&ls), vec![
        ("403".to_string(), "0".to_string(), "250.50".to_string()),
        ("401".to_string(), "250.50".to_string(), "0".to_string()),
    ]);
    let mut bad = input.clone();
    bad.scadenta = None;
    assert!(matches!(validate_new(&bad), Err(InstrumentError::BoWithoutMaturity)));
    let mut bad = input.clone();
    bad.kind = "X".to_string();
    assert!(matches!(validate_new(&bad), Err(InstrumentError::InvalidKind(_))));
}

#[test]
fn update_only_when_registered() {
    let upd = UpdatePaymentInstrumentInput {
        partner_id: None,
        partner_cui: None,
        number: None,
        amount: "10".to_string(),
        currency: None,
        issue_date: "2026-01-10".to_string(),
        scadenta: None,
        notes: None,
    };
    assert!(validate_update(&pi("CEC", "received", "registered", "5"), &upd).is_ok());
    assert!(matches!(validate_update(&pi("CEC", "received", "deposited", "5"), &upd), Err(InstrumentError::NotEditable)));
}

#[test]
fn guards_and_stored_amounts() {
    assert!(guard_status("registered", "registered", "x").is_ok());
    assert!(guard_status("deposited", "registered", "x").is_err());
    assert!(guard_direction("issued", "received", "x").is_err());
    assert_eq!(parse_amount(" 12.5 ").unwrap(), dec("12.5"));
    assert!(matches!(parse_amount("x"), Err(InstrumentError::InvalidStoredAmount(_))));
    assert_eq!(note_suffixes().len(), 8);
}

#[test]
fn new_instrument_checks_in_order() {
    let input = CreatePaymentInstrumentInput {
        company_id: "co".to_string(),
        kind: "X".to_string(),
        direction: "out".to_string(),
        partner_id: None,
        partner_cui: None,
        number: None,
        amount: "abc".to_string(),
        currency: None,
        issue_date: "2026-01-10".to_string(),
        scadenta: Some("2026-03-01".to_string()),
        notes: None,
    };
    match validate_new(&input) {
        Err(InstrumentError::InvalidKind(k)) => assert_eq!(k, "X"),
        other => panic!("unexpected {:?}", other.err()),
    }
    let mut next = input.clone();
    next.kind = "CEC".to_string();
    match validate_new(&next) {
        Err(InstrumentError::InvalidDirection(d)) => assert_eq!(d, "out"),
        other => panic!("unexpected {:?}", other.err()),
    }
    next.direction = "received".to_string();
    assert!(matches!(validate_new(&next), Err(InstrumentError::CecWithMaturity)));
    next.scadenta = None;
    match validate_new(&next) {
        Err(InstrumentError::InvalidAmount(a)) => assert_eq!(a, "abc"),
        other => panic!("unexpected {:?}", other.err()),
    }
    next.amount = "-3".to_string();
    assert!(matches!(validate_new(&next), Err(InstrumentError::NonPositiveAmount)));
}

#[test]
fn event_refusals_carry_their_reasons() {
    match apply_event(&pi("CEC", "received", "deposited", "5"), InstrumentEvent::Deposit) {
        Err(InstrumentError::WrongStatus(a, x, c)) => {
            assert_eq!(a, "depunere");
            assert_eq!(x, "registered");
            assert_eq!(c, "deposited");
        }
        other => panic!("unexpected {:?}", other.err()),
    }
    match apply_event(&pi("CEC", "received", "registered", "x5"), InstrumentEvent::Deposit) {
        Err(InstrumentError::InvalidStoredAmount(t)) => assert_eq!(t, "x5"),
        other => panic!("unexpected {:?}", other.err()),
    }
    match event_discount(&pi("BO", "issued", "registered", "100"), "5", None) {
        Err(InstrumentError::WrongDirection(a, x)) => {
            assert_eq!(a, "scontare");
            assert_eq!(x, "received");
        }
        other => panic!("unexpected {:?}", other.err()),
    }
    assert!(matches!(event_discount(&pi("BO", "received", "collected", "100"), "5", None), Err(InstrumentError::DiscountStatus)));
    match event_discount(&pi("BO", "received", "registered", "100"), "5", Some("fee")) {
        Err(InstrumentError::InvalidStoredAmount(t)) => assert_eq!(t, "fee"),
        other => panic!("unexpected {:?}", other.err()),
    }
}
