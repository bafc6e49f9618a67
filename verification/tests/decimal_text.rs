use contabil::text::lex_lt;
use contabil::decimal::{dec_add, dec_compare, dec_mul, dec_sub, fmt2, parse_or_zero, round_dp_away, round_dp_even, Dec};
use contabil::text::{concat_str, eq_ignore_ascii_case, int_text, starts_with, str_eq, zero_pad};

fn d(s: &str) -> Dec {
    Dec::parse(s).unwrap()
}

#[test]
fn exact_arithmetic() {
    assert_eq!(dec_add(d("1.5"), d("2.25")).unwrap().to_text(), "3.75");
    assert_eq!(dec_sub(d("1"), d("2.50")).unwrap().to_text(), "-1.50");
    assert_eq!(dec_mul(d("1.5"), d("1.5")).unwrap().to_text(), "2.25");
    assert!(dec_add(Dec { mant: 79228162514264337593543950335, scale: 0 }, d("1")).is_none());
    assert_eq!(dec_compare(d("1.10"), d("1.1")), 0);
    assert_eq!(dec_compare(d("-2"), d("1")), -1);
}

#[test]
fn rounding_modes() {
    assert_eq!(round_dp_even(d("0.125"), 2).to_text(), "0.12");
    assert_eq!(round_dp_away(d("0.125"), 2).to_text(), "0.13");
    assert_eq!(round_dp_even(d("0.135"), 2).to_text(), "0.14");
    assert_eq!(round_dp_even(d("7"), 2).to_text(), "7");
}

#[test]
fn formatting_and_reading() {
    assert_eq!(fmt2(d("3")), "3.00");
    assert_eq!(fmt2(d("-0.00")), "0.00");
    assert_eq!(parse_or_zero(" 12.30 ").to_text(), "12.30");
    assert_eq!(parse_or_zero("x").to_text(), "0");
}

#[test]
fn text_helpers() {
    assert!(str_eq("ab", "ab"));
    assert!(!str_eq("ab", "abc"));
    assert!(starts_with("7651", "76"));
    assert!(!starts_with("7", "76"));
    assert!(eq_ignore_ascii_case("CaSh", "cash"));
    assert_eq!(int_text(-42), "-42");
    assert_eq!(int_text(i64::MIN), "-9223372036854775808");
    assert_eq!(zero_pad("7", 4), "0007");
    assert_eq!(zero_pad("12345", 4), "12345");
    assert_eq!(concat_str("a", "b"), "ab");
}

#[test]
fn text_order_like_str() {
    assert!(lex_lt("2025-12-31", "2026-01-01"));
    assert!(!lex_lt("2026-01-01", "2026-01-01"));
    assert!(lex_lt("2026", "2026-01"));
    assert!(!lex_lt("b", "a"));
    assert_eq!(lex_lt("ă", "b"), "ă" < "b");
}
