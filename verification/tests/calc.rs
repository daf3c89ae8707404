//! Sums in number fields.

use rustynesting::calc::{read_formula, skip_ws, Formula};
use rustynesting::scalar::Scalar;

fn value(formula: &Formula) -> f64 {
    match formula {
        Formula::Number(text) => text.parse().expect("a number is digits with at most one point"),
        Formula::Negated(a) => -value(a),
        Formula::Sum(a, b) => value(a) + value(b),
        Formula::Difference(a, b) => value(a) - value(b),
        Formula::Product(a, b) => value(a) * value(b),
        Formula::Quotient(a, b) => value(a) / value(b),
    }
}

fn eval(text: &str) -> Option<f64> {
    rustynesting::calc::eval(text, &|formula: &Formula| Scalar { bits: value(formula).to_bits() }).map(|v| f64::from_bits(v.bits))
}

#[test]
fn arithmetic_and_rejections() {
    assert_eq!(eval("12"), Some(12.0));
    assert_eq!(eval("1,5"), Some(1.5));
    assert_eq!(eval("120 * 3"), Some(360.0));
    assert_eq!(eval("1200/8"), Some(150.0));
    assert_eq!(eval("2+3*4"), Some(14.0));
    assert_eq!(eval("(2+3)*4"), Some(20.0));
    assert_eq!(eval("-4+10"), Some(6.0));
    assert_eq!(eval("10x3"), Some(30.0));
    assert_eq!(eval("1/0"), None);
    assert_eq!(eval("2+"), None);
    assert_eq!(eval("2 3"), None);
    assert_eq!(eval("(2+3"), None);
    assert_eq!(eval("abc"), None);
}

#[test]
fn signs_blanks_and_grouping() {
    assert_eq!(eval("  10 - 3 - 2 "), Some(5.0));
    assert_eq!(eval("100 / 10 / 2"), Some(5.0));
    assert_eq!(eval("- - 3"), Some(3.0));
    assert_eq!(eval("2 * -3"), Some(-6.0));
    assert_eq!(eval("+ +4"), Some(4.0));
    assert_eq!(eval("((1))"), Some(1.0));
    assert_eq!(eval("2*(3+4)-1"), Some(13.0));
    assert_eq!(eval(".5"), Some(0.5));
    assert_eq!(eval("5."), Some(5.0));
}

#[test]
fn what_is_no_number_is_refused() {
    for bad in ["", "   ", ".", ",", "1.2.3", "1,2.3", "()", "1)", "*2", "2**3", "1e3", "inf"] {
        assert!(read_formula(bad).is_none(), "{bad:?}");
    }
}

#[test]
fn white_space_is_skipped_up_to_the_next_token() {
    let c: Vec<char> = "  a ".chars().collect();
    assert_eq!(skip_ws(&c, 0), 2);
    assert_eq!(skip_ws(&c, 2), 2);
    assert_eq!(skip_ws(&c, 3), 4);
    assert_eq!(skip_ws(&c, 4), 4);
}
