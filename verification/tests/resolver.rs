use num_bigint::BigInt;
use yaml_rs::arena::Arena;
use yaml_rs::scalar::{
    is_bool, is_null, plain_value, resolve_scalar, tagged_value, ScalarTag, Style,
};
use yaml_rs::value::{FloatLiteral, Value};

fn core_tag(suffix: &str) -> ScalarTag {
    ScalarTag { handle: "tag:yaml.org,2002:".to_string(), suffix: suffix.to_string() }
}

fn text(s: &str) -> Value {
    Value::String(s.to_string())
}

#[test]
fn null_literals() {
    assert!(is_null("null"));
    assert!(is_null("Null"));
    assert!(is_null("NULL"));
    assert!(is_null("~"));
    assert!(!is_null(""));
    assert!(!is_null("nULL"));
    assert!(!is_null("nil"));
    assert!(!is_null("null "));
}

#[test]
fn bool_literals() {
    assert_eq!(is_bool("true"), Some(true));
    assert_eq!(is_bool("True"), Some(true));
    assert_eq!(is_bool("TRUE"), Some(true));
    assert_eq!(is_bool("false"), Some(false));
    assert_eq!(is_bool("False"), Some(false));
    assert_eq!(is_bool("FALSE"), Some(false));
    assert_eq!(is_bool("yes"), None);
    assert_eq!(is_bool("tRUE"), None);
    assert_eq!(is_bool(""), None);
}

#[test]
fn plain_scalars_are_typed_in_order() {
    assert_eq!(plain_value(""), Value::Null);
    assert_eq!(plain_value("~"), Value::Null);
    assert_eq!(plain_value("NULL"), Value::Null);
    assert_eq!(plain_value("True"), Value::Boolean(true));
    assert_eq!(plain_value("false"), Value::Boolean(false));
    assert_eq!(plain_value("0x1_0"), Value::IntegerI64(16));
    assert_eq!(plain_value("0b101"), Value::IntegerI64(5));
    assert_eq!(plain_value("0o17"), Value::IntegerI64(15));
    assert_eq!(plain_value("1_000"), Value::IntegerI64(1000));
    assert_eq!(plain_value("-12"), Value::IntegerI64(-12));
    assert_eq!(
        plain_value("99999999999999999999"),
        Value::IntegerBig("99999999999999999999".parse::<BigInt>().unwrap())
    );
    assert_eq!(plain_value("1.5"), Value::Float(FloatLiteral::Decimal(b"1.5".to_vec())));
    assert_eq!(plain_value("1e3"), Value::Float(FloatLiteral::Decimal(b"1e3".to_vec())));
    assert_eq!(plain_value(".inf"), Value::Float(FloatLiteral::Infinity));
    assert_eq!(plain_value("-.inf"), Value::Float(FloatLiteral::NegInfinity));
    assert_eq!(plain_value(".nan"), Value::Float(FloatLiteral::NotANumber));
    assert_eq!(plain_value("hello"), text("hello"));
    assert_eq!(plain_value("2024-01-02"), text("2024-01-02"));
    assert_eq!(plain_value("0x"), text("0x"));
    assert_eq!(plain_value("1.2.3"), text("1.2.3"));
    assert_eq!(plain_value("yes"), text("yes"));
}

#[test]
fn tags_of_the_core_schema_decide() {
    assert_eq!(tagged_value("12", "int"), Ok(Value::IntegerI64(12)));
    assert_eq!(
        tagged_value("12", "float"),
        Ok(Value::Float(FloatLiteral::Decimal(b"12".to_vec())))
    );
    assert_eq!(tagged_value(".NaN", "float"), Ok(Value::Float(FloatLiteral::NotANumber)));
    assert_eq!(tagged_value("TRUE", "bool"), Ok(Value::Boolean(true)));
    assert_eq!(tagged_value("", "null"), Ok(Value::Null));
    assert_eq!(tagged_value("~", "null"), Ok(Value::Null));
    assert_eq!(tagged_value("aGk=", "binary"), Ok(text("aGk=")));
    assert_eq!(tagged_value("12", "str"), Ok(Value::StringExplicit("12".to_string())));
}

#[test]
fn text_that_does_not_fit_its_tag_is_an_error() {
    assert_eq!(
        tagged_value("abc", "int"),
        Err("Invalid value 'abc' for '!!int' tag".to_string())
    );
    assert_eq!(
        tagged_value("abc", "float"),
        Err("Invalid value 'abc' for '!!float' tag".to_string())
    );
    assert_eq!(
        tagged_value("yes", "bool"),
        Err("Invalid value 'yes' for '!!bool' tag".to_string())
    );
    assert_eq!(
        tagged_value("0", "null"),
        Err("Invalid value '0' for '!!null' tag".to_string())
    );
    assert_eq!(tagged_value("x", "set"), Err("Invalid tag: '!!set'".to_string()));
    assert_eq!(tagged_value("x", ""), Err("Invalid tag: '!!'".to_string()));
}

#[test]
fn resolved_nodes_are_stored() {
    let mut arena = Arena::with_capacity(4);
    assert_eq!(resolve_scalar(&mut arena, "12", Style::Plain, None), Ok(0));
    assert_eq!(resolve_scalar(&mut arena, "12", Style::DoubleQuoted, None), Ok(1));
    assert_eq!(resolve_scalar(&mut arena, "12", Style::SingleQuoted, Some(&core_tag("int"))), Ok(2));
    assert_eq!(resolve_scalar(&mut arena, "true", Style::Literal, None), Ok(3));
    assert_eq!(resolve_scalar(&mut arena, "~", Style::Folded, None), Ok(4));
    let custom = ScalarTag { handle: "!".to_string(), suffix: "int".to_string() };
    assert_eq!(resolve_scalar(&mut arena, "12", Style::Plain, Some(&custom)), Ok(5));
    assert_eq!(arena.len(), 6);
    assert_eq!(arena.get(0), &Value::IntegerI64(12));
    assert_eq!(arena.get(1), &text("12"));
    assert_eq!(arena.get(2), &Value::IntegerI64(12));
    assert_eq!(arena.get(3), &text("true"));
    assert_eq!(arena.get(4), &text("~"));
    assert_eq!(arena.get(5), &text("12"));
}

#[test]
fn a_failed_resolution_leaves_the_arena_alone() {
    let mut arena = Arena::with_capacity(0);
    assert_eq!(
        resolve_scalar(&mut arena, "x", Style::Plain, Some(&core_tag("int"))),
        Err("Invalid value 'x' for '!!int' tag".to_string())
    );
    assert_eq!(
        resolve_scalar(&mut arena, "x", Style::Plain, Some(&core_tag("map"))),
        Err("Invalid tag: '!!map'".to_string())
    );
    assert_eq!(arena.len(), 0);
}
