use flagforge::decimal::cmp_decimal;
use flagforge::json::JsonVal;
use flagforge::operators::evaluate_operator;
use flagforge::types::Operator;

fn s(v: &str) -> JsonVal {
    JsonVal::Str(v.to_string())
}

fn num(v: &str) -> JsonVal {
    JsonVal::Num(v.to_string())
}

#[test]
fn test_eq_string() {
    assert!(evaluate_operator(&Operator::Eq, &s("US"), &["US".into()]));
    assert!(!evaluate_operator(&Operator::Eq, &s("UK"), &["US".into()]));
}

#[test]
fn test_eq_number() {
    assert!(evaluate_operator(&Operator::Eq, &num("42"), &["42".into()]));
}

#[test]
fn test_neq() {
    assert!(evaluate_operator(&Operator::Neq, &s("UK"), &["US".into()]));
    assert!(!evaluate_operator(&Operator::Neq, &s("US"), &["US".into()]));
}

#[test]
fn test_gt_gte_lt_lte() {
    assert!(evaluate_operator(&Operator::Gt, &num("10"), &["5".into()]));
    assert!(!evaluate_operator(&Operator::Gt, &num("5"), &["5".into()]));
    assert!(evaluate_operator(&Operator::Gte, &num("5"), &["5".into()]));
    assert!(evaluate_operator(&Operator::Lt, &num("3"), &["5".into()]));
    assert!(evaluate_operator(&Operator::Lte, &num("5"), &["5".into()]));
}

#[test]
fn test_in_not_in() {
    assert!(evaluate_operator(
        &Operator::In,
        &s("US"),
        &["US".into(), "UK".into(), "CA".into()]
    ));
    assert!(!evaluate_operator(
        &Operator::In,
        &s("DE"),
        &["US".into(), "UK".into()]
    ));
    assert!(evaluate_operator(
        &Operator::NotIn,
        &s("DE"),
        &["US".into(), "UK".into()]
    ));
}

#[test]
fn test_contains() {
    assert!(evaluate_operator(
        &Operator::Contains,
        &s("hello world"),
        &["world".into()]
    ));
    assert!(!evaluate_operator(
        &Operator::Contains,
        &s("hello"),
        &["world".into()]
    ));
}

#[test]
fn test_starts_with_ends_with() {
    assert!(evaluate_operator(
        &Operator::StartsWith,
        &s("user@example.com"),
        &["user".into()]
    ));
    assert!(evaluate_operator(
        &Operator::EndsWith,
        &s("user@example.com"),
        &[".com".into()]
    ));
}

#[test]
fn test_matches_regex() {
    assert!(evaluate_operator(
        &Operator::Matches,
        &s("user-123"),
        &[r"^user-\d+$".into()]
    ));
    assert!(!evaluate_operator(
        &Operator::Matches,
        &s("admin-abc"),
        &[r"^user-\d+$".into()]
    ));
}

#[test]
fn test_semver() {
    assert!(evaluate_operator(
        &Operator::SemverEq,
        &s("1.2.3"),
        &["1.2.3".into()]
    ));
    assert!(evaluate_operator(
        &Operator::SemverGt,
        &s("2.0.0"),
        &["1.9.9".into()]
    ));
    assert!(evaluate_operator(
        &Operator::SemverLt,
        &s("1.0.0"),
        &["2.0.0".into()]
    ));
}

#[test]
fn test_in_with_array_attribute() {
    assert!(evaluate_operator(
        &Operator::In,
        &JsonVal::Arr(vec![s("admin"), s("editor")]),
        &["admin".into()]
    ));
    assert!(!evaluate_operator(
        &Operator::In,
        &JsonVal::Arr(vec![s("viewer")]),
        &["admin".into()]
    ));
}

#[test]
fn test_numeric_decimals_and_strings() {
    // decimal comparison is exact: 9.5 < 10
    assert!(evaluate_operator(&Operator::Gt, &num("10"), &["9.5".into()]));
    // a numeric string attribute coerces
    assert!(evaluate_operator(&Operator::Lt, &s("-1"), &["1".into()]));
    // a trailing fraction of zeros is the same number
    assert!(evaluate_operator(&Operator::Gte, &num("5.00"), &["5".into()]));
    assert!(evaluate_operator(&Operator::Lte, &num("5.00"), &["5".into()]));
    // signed zero equals zero
    assert!(evaluate_operator(&Operator::Gte, &num("-0"), &["0".into()]));
    assert!(evaluate_operator(&Operator::Lte, &num("-0"), &["0".into()]));
}

#[test]
fn test_numeric_exponent_notation() {
    // exponent notation compares exactly against plain decimals
    assert_eq!(cmp_decimal("1e3", "1000"), Some(0));
    assert_eq!(cmp_decimal("2.5e-1", "0.25"), Some(0));
    assert_eq!(cmp_decimal("1E2", "99"), Some(1));
    assert_eq!(cmp_decimal("-1e2", "-99"), Some(-1));
    assert_eq!(cmp_decimal("0e9999", "0"), Some(0));
    // the grammar bounds the exponent's magnitude
    assert_eq!(cmp_decimal("1e9999", "1e9999"), Some(0));
    assert_eq!(cmp_decimal("1e10000", "5"), None);
    assert_eq!(cmp_decimal("1e", "5"), None);
    assert_eq!(cmp_decimal("1e+2e3", "5"), None);
    // and the operators see the same verdicts
    assert!(evaluate_operator(&Operator::Gt, &num("1e3"), &["999".into()]));
    assert!(evaluate_operator(&Operator::Eq, &num("42"), &["42".into()]));
    assert!(!evaluate_operator(&Operator::Lt, &s("1.5e1"), &["15".into()]));
    assert!(evaluate_operator(&Operator::Gte, &s("1.5e1"), &["15".into()]));
}

#[test]
fn test_coercion_failures_collapse_to_false() {
    // a boolean never coerces to a number: every numeric operator is false
    let b = JsonVal::Bool(true);
    assert!(!evaluate_operator(&Operator::Gt, &b, &["0".into()]));
    assert!(!evaluate_operator(&Operator::Lte, &b, &["1".into()]));
    // non-decimal text has no numeric verdict
    assert!(!evaluate_operator(&Operator::Gt, &s("abc"), &["0".into()]));
    // an object coerces to nothing: `in` is false, so `not_in` is true
    let obj = JsonVal::Obj(vec![]);
    assert!(!evaluate_operator(&Operator::In, &obj, &["x".into()]));
    assert!(evaluate_operator(&Operator::NotIn, &obj, &["x".into()]));
    // an unparsable regex pattern matches nothing
    assert!(!evaluate_operator(&Operator::Matches, &s("abc"), &["(".into()]));
    // unparsable versions never compare
    assert!(!evaluate_operator(&Operator::SemverEq, &s("not-a-version"), &["1.0.0".into()]));
}

#[test]
fn test_bool_coerces_to_string() {
    assert!(evaluate_operator(&Operator::Eq, &JsonVal::Bool(true), &["true".into()]));
    assert!(evaluate_operator(&Operator::Eq, &JsonVal::Bool(false), &["false".into()]));
    assert!(!evaluate_operator(&Operator::Eq, &JsonVal::Bool(true), &["false".into()]));
}
