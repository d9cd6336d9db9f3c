use yaml_rs::float::{is_float, is_inf_nan, parse_float, SpecialFloat};
use yaml_rs::value::FloatLiteral;

#[test]
fn special_values_are_recognised() {
    assert_eq!(is_inf_nan(b".inf"), Some((SpecialFloat::Inf, false)));
    assert_eq!(is_inf_nan(b"-.inf"), Some((SpecialFloat::Inf, true)));
    assert_eq!(is_inf_nan(b"+.INF"), Some((SpecialFloat::Inf, false)));
    assert_eq!(is_inf_nan(b".nan"), Some((SpecialFloat::Nan, false)));
    assert_eq!(is_inf_nan(b".NaN"), Some((SpecialFloat::Nan, false)));
    assert_eq!(is_inf_nan(b"inf"), Some((SpecialFloat::Inf, false)));
    assert_eq!(is_inf_nan(b"-nan"), Some((SpecialFloat::Nan, true)));
    assert_eq!(is_inf_nan(b""), None);
    assert_eq!(is_inf_nan(b"in"), None);
    assert_eq!(is_inf_nan(b"..inf"), None);
    assert_eq!(is_inf_nan(b".infx"), None);
    assert_eq!(is_inf_nan(b"+-inf"), None);
    assert_eq!(is_inf_nan(b".ina"), None);
    assert_eq!(is_inf_nan(b"infinity"), None);
}

#[test]
fn float_grammar() {
    assert!(is_float(b"1.5"));
    assert!(is_float(b"-1.5"));
    assert!(is_float(b"+.5"));
    assert!(is_float(b"1."));
    assert!(is_float(b"1e5"));
    assert!(is_float(b"1E-5"));
    assert!(is_float(b"1.5e+1_0"));
    assert!(is_float(b"1_0.5"));
    assert!(is_float(b".inf"));
    assert!(is_float(b"-.NAN"));
    assert!(!is_float(b""));
    assert!(!is_float(b"+"));
    assert!(!is_float(b"."));
    assert!(!is_float(b"12"));
    assert!(!is_float(b"1.2.3"));
    assert!(!is_float(b"e5"));
    assert!(!is_float(b".e5"));
    assert!(!is_float(b"1e"));
    assert!(!is_float(b"1e+"));
    assert!(!is_float(b"1e5.3"));
    assert!(!is_float(b"1e5e3"));
    assert!(!is_float(b"1e_+5"));
    assert!(!is_float(b"0x1.8"));
    assert!(!is_float(b"1.5 "));
}

#[test]
fn special_floats_resolve() {
    assert_eq!(parse_float(".inf"), Some(FloatLiteral::Infinity));
    assert_eq!(parse_float("-.inf"), Some(FloatLiteral::NegInfinity));
    assert_eq!(parse_float(".nan"), Some(FloatLiteral::NotANumber));
    assert_eq!(parse_float("-.nan"), Some(FloatLiteral::NotANumber));
    assert_eq!(parse_float("+.Inf"), Some(FloatLiteral::Infinity));
}

#[test]
fn numbers_resolve_to_their_text() {
    assert_eq!(parse_float("1.5"), Some(FloatLiteral::Decimal(b"1.5".to_vec())));
    assert_eq!(parse_float("-1_0.5e1_0"), Some(FloatLiteral::Decimal(b"-10.5e10".to_vec())));
    assert_eq!(parse_float("12"), Some(FloatLiteral::Decimal(b"12".to_vec())));
    assert_eq!(parse_float("1e5"), Some(FloatLiteral::Decimal(b"1e5".to_vec())));
}

#[test]
fn malformed_floats_are_rejected() {
    assert_eq!(parse_float(""), None);
    assert_eq!(parse_float("abc"), None);
    assert_eq!(parse_float("1.2.3"), None);
    assert_eq!(parse_float("0x10"), None);
    assert_eq!(parse_float("infinity"), None);
    assert_eq!(parse_float("1e"), None);
    assert_eq!(parse_float("."), None);
}
