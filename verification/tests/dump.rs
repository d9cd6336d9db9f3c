use num_bigint::BigInt;
use yaml_rs::datetime::{Date, Time};
use yaml_rs::dump::{
    format_date, format_datetime, to_yaml_float, to_yaml_value, yaml_key_to_string, EncodeError,
};
use yaml_rs::host::{HostDateTime, HostObject, HostZone};
use yaml_rs::text::{push_padded, push_repeated};
use yaml_rs::yaml::YamlNode;

fn s(text: &str) -> HostObject {
    HostObject::Str(text.to_string())
}

fn node(text: &str) -> YamlNode {
    YamlNode::String(text.to_string())
}

fn at(microsecond: u32, zone: HostZone) -> HostDateTime {
    HostDateTime {
        date: Date { year: 2024, month: 1, day: 2 },
        time: Time { hour: 3, minute: 4, second: 5, microsecond },
        zone,
    }
}

#[test]
fn scalars_map_directly() {
    assert_eq!(to_yaml_value(&HostObject::Null), Ok(YamlNode::Null));
    assert_eq!(to_yaml_value(&HostObject::Bool(true)), Ok(YamlNode::Boolean(true)));
    assert_eq!(to_yaml_value(&HostObject::Int(-7)), Ok(YamlNode::Integer(-7)));
    assert_eq!(to_yaml_value(&s("caf\u{e9}")), Ok(node("caf\u{e9}")));
    assert_eq!(to_yaml_value(&s("")), Ok(node("")));
}

#[test]
fn big_integers_are_exact_decimal_text() {
    let big: BigInt = "123456789012345678901234567890".parse().unwrap();
    assert_eq!(
        to_yaml_value(&HostObject::BigInt(big)),
        Ok(YamlNode::Representation("123456789012345678901234567890".to_string()))
    );
    let negative: BigInt = "-9223372036854775809".parse().unwrap();
    assert_eq!(
        to_yaml_value(&HostObject::BigInt(negative)),
        Ok(YamlNode::Representation("-9223372036854775809".to_string()))
    );
    assert_eq!(
        to_yaml_value(&HostObject::BigInt(BigInt::from(0))),
        Ok(YamlNode::Representation("0".to_string()))
    );
}

#[test]
fn an_exponent_gets_a_pointed_mantissa() {
    assert_eq!(to_yaml_float("1e10"), "1.0e10");
    assert_eq!(to_yaml_float("1e+16"), "1.0e+16");
    assert_eq!(to_yaml_float("-5E-7"), "-5.0e-7");
    assert_eq!(to_yaml_float("1.5e-07"), "1.5e-07");
    assert_eq!(to_yaml_float("2.5E3"), "2.5e3");
}

#[test]
fn special_floats_get_their_dotted_names() {
    assert_eq!(to_yaml_float("nan"), ".nan");
    assert_eq!(to_yaml_float("inf"), ".inf");
    assert_eq!(to_yaml_float("-inf"), "-.inf");
}

#[test]
fn other_floats_are_kept() {
    assert_eq!(to_yaml_float("3.14"), "3.14");
    assert_eq!(to_yaml_float("-0.0"), "-0.0");
    assert_eq!(to_yaml_float(""), "");
    assert_eq!(
        to_yaml_value(&HostObject::Float("1e10".to_string())),
        Ok(YamlNode::Representation("1.0e10".to_string()))
    );
}

#[test]
fn dates_are_zero_padded() {
    assert_eq!(format_date(Date { year: 2024, month: 1, day: 2 }), "2024-01-02");
    assert_eq!(format_date(Date { year: 5, month: 12, day: 31 }), "0005-12-31");
    assert_eq!(format_date(Date { year: 12345, month: 1, day: 1 }), "12345-01-01");
    assert_eq!(format_date(Date { year: -5, month: 1, day: 1 }), "-005-01-01");
    assert_eq!(
        to_yaml_value(&HostObject::Date(Date { year: 2024, month: 1, day: 2 })),
        Ok(node("2024-01-02"))
    );
}

#[test]
fn a_utc_fraction_is_trimmed_to_one_digit() {
    assert_eq!(format_datetime(at(100_000, HostZone::Utc)), "2024-01-02T03:04:05.1Z");
    assert_eq!(format_datetime(at(500_000, HostZone::Utc)), "2024-01-02T03:04:05.5Z");
}

#[test]
fn other_fractions_keep_two_digits() {
    assert_eq!(format_datetime(at(100_000, HostZone::Naive)), "2024-01-02T03:04:05.10");
    assert_eq!(
        format_datetime(at(100_000, HostZone::Offset { days: 0, seconds: 7200 })),
        "2024-01-02T03:04:05.10+02:00"
    );
    assert_eq!(format_datetime(at(100_000, HostZone::Unknown)), "2024-01-02T03:04:05.10");
}

#[test]
fn fractions_in_full() {
    assert_eq!(format_datetime(at(0, HostZone::Utc)), "2024-01-02T03:04:05Z");
    assert_eq!(format_datetime(at(0, HostZone::Naive)), "2024-01-02T03:04:05");
    assert_eq!(format_datetime(at(123_456, HostZone::Naive)), "2024-01-02T03:04:05.123456");
    assert_eq!(format_datetime(at(1, HostZone::Utc)), "2024-01-02T03:04:05.000001Z");
    assert_eq!(format_datetime(at(120_000, HostZone::Naive)), "2024-01-02T03:04:05.12");
    assert_eq!(format_datetime(at(120_000, HostZone::Utc)), "2024-01-02T03:04:05.12Z");
}

#[test]
fn offsets_are_signed_hours_and_minutes() {
    let zone = |days, seconds| HostZone::Offset { days, seconds };
    assert_eq!(format_datetime(at(0, zone(0, 0))), "2024-01-02T03:04:05+00:00");
    assert_eq!(format_datetime(at(0, zone(0, 19_800))), "2024-01-02T03:04:05+05:30");
    assert_eq!(format_datetime(at(0, zone(-1, 66_600))), "2024-01-02T03:04:05-05:30");
    assert_eq!(format_datetime(at(0, zone(-1, 84_600))), "2024-01-02T03:04:05-00:30");
    assert_eq!(format_datetime(at(0, zone(0, 86_340))), "2024-01-02T03:04:05+23:59");
    assert_eq!(format_datetime(at(0, zone(0, 59))), "2024-01-02T03:04:05+00:00");
}

#[test]
fn datetimes_are_strings_in_the_tree() {
    assert_eq!(
        to_yaml_value(&HostObject::DateTime(at(100_000, HostZone::Utc))),
        Ok(node("2024-01-02T03:04:05.1Z"))
    );
}

#[test]
fn lists_and_tuples_are_sequences() {
    assert_eq!(to_yaml_value(&HostObject::List(Vec::new())), Ok(YamlNode::Sequence(Vec::new())));
    assert_eq!(to_yaml_value(&HostObject::Tuple(Vec::new())), Ok(YamlNode::Sequence(Vec::new())));
    assert_eq!(
        to_yaml_value(&HostObject::List(vec![
            HostObject::Int(1),
            HostObject::Tuple(vec![s("a"), HostObject::Null]),
        ])),
        Ok(YamlNode::Sequence(vec![
            YamlNode::Integer(1),
            YamlNode::Sequence(vec![node("a"), YamlNode::Null]),
        ]))
    );
}

#[test]
fn sets_are_mappings_to_null() {
    assert_eq!(
        to_yaml_value(&HostObject::MutableSet(vec![s("a"), HostObject::Int(2)])),
        Ok(YamlNode::Mapping(vec![
            (node("a"), YamlNode::Null),
            (YamlNode::Integer(2), YamlNode::Null),
        ]))
    );
    assert_eq!(
        to_yaml_value(&HostObject::FrozenSet(vec![s("a")])),
        Ok(YamlNode::Mapping(vec![(node("a"), YamlNode::Null)]))
    );
    assert_eq!(
        to_yaml_value(&HostObject::MutableSet(Vec::new())),
        Ok(YamlNode::Mapping(Vec::new()))
    );
}

#[test]
fn dicts_are_mappings_in_order() {
    assert_eq!(to_yaml_value(&HostObject::Dict(Vec::new())), Ok(YamlNode::Mapping(Vec::new())));
    assert_eq!(
        to_yaml_value(&HostObject::Dict(vec![
            (s("b"), HostObject::Int(1)),
            (s("a"), HostObject::List(vec![HostObject::Bool(false)])),
        ])),
        Ok(YamlNode::Mapping(vec![
            (node("b"), YamlNode::Integer(1)),
            (node("a"), YamlNode::Sequence(vec![YamlNode::Boolean(false)])),
        ]))
    );
}

#[test]
fn an_unsupported_type_is_an_error_that_names_it() {
    let other = |name: &str, repr: Option<&str>| HostObject::Other {
        class_name: name.to_string(),
        repr: repr.map(|r| r.to_string()),
    };
    let error = to_yaml_value(&other("<class 'complex'>", Some("(1+2j)"))).unwrap_err();
    assert_eq!(
        error,
        EncodeError::Unsupported {
            class_name: "<class 'complex'>".to_string(),
            repr: Some("(1+2j)".to_string()),
        }
    );
    assert_eq!(error.message(), "Cannot serialize <class 'complex'> ((1+2j)) to YAML");
    let error = to_yaml_value(&other("<class 'X'>", None)).unwrap_err();
    assert_eq!(error.message(), "Cannot serialize <class 'X'> (<repr failed>) to YAML");
}

#[test]
fn the_first_unsupported_object_wins() {
    let other = |name: &str| HostObject::Other { class_name: name.to_string(), repr: None };
    let nested = HostObject::Dict(vec![
        (s("a"), HostObject::List(vec![HostObject::Int(1), other("first")])),
        (other("second"), other("third")),
    ]);
    assert_eq!(
        to_yaml_value(&nested),
        Err(EncodeError::Unsupported { class_name: "first".to_string(), repr: None })
    );
    let keyed = HostObject::Dict(vec![(other("key"), other("value"))]);
    assert_eq!(
        to_yaml_value(&keyed),
        Err(EncodeError::Unsupported { class_name: "key".to_string(), repr: None })
    );
    let set = HostObject::MutableSet(vec![s("a"), other("member")]);
    assert_eq!(
        to_yaml_value(&set),
        Err(EncodeError::Unsupported { class_name: "member".to_string(), repr: None })
    );
}

#[test]
fn keys_as_text() {
    assert_eq!(yaml_key_to_string(&node("k")), Ok("k".to_string()));
    assert_eq!(
        yaml_key_to_string(&YamlNode::Representation("1.0e10".to_string())),
        Ok("1.0e10".to_string())
    );
    assert_eq!(yaml_key_to_string(&YamlNode::Integer(42)), Ok("42".to_string()));
    assert_eq!(yaml_key_to_string(&YamlNode::Integer(-42)), Ok("-42".to_string()));
    assert_eq!(
        yaml_key_to_string(&YamlNode::Integer(i64::MIN)),
        Ok("-9223372036854775808".to_string())
    );
    assert_eq!(yaml_key_to_string(&YamlNode::Integer(0)), Ok("0".to_string()));
    assert_eq!(yaml_key_to_string(&YamlNode::Boolean(true)), Ok("true".to_string()));
    assert_eq!(yaml_key_to_string(&YamlNode::Boolean(false)), Ok("false".to_string()));
    assert_eq!(yaml_key_to_string(&YamlNode::Null), Ok("null".to_string()));
}

#[test]
fn collections_are_no_keys() {
    assert_eq!(yaml_key_to_string(&YamlNode::Sequence(Vec::new())), Err(EncodeError::ComplexKey));
    assert_eq!(yaml_key_to_string(&YamlNode::Mapping(Vec::new())), Err(EncodeError::ComplexKey));
    assert_eq!(
        EncodeError::ComplexKey.message(),
        "Complex YAML keys (sequences/mappings) are not supported"
    );
}

#[test]
fn padding() {
    let mut out = String::from("x");
    push_padded(&mut out, 7, 3);
    assert_eq!(out, "x007");
    push_padded(&mut out, 1234, 2);
    assert_eq!(out, "x0071234");
    push_padded(&mut out, 0, 0);
    assert_eq!(out, "x00712340");
    push_repeated(&mut out, "0", 2);
    assert_eq!(out, "x0071234000");
    push_repeated(&mut out, "\u{e9}", 3);
    assert_eq!(out, "x0071234000\u{e9}\u{e9}\u{e9}");
    push_repeated(&mut out, "-", 0);
    assert_eq!(out, "x0071234000\u{e9}\u{e9}\u{e9}");
}
