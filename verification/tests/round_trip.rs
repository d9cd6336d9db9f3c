use saphyr::{MappingOwned, ScalarOwned, ScalarStyle, YamlEmitter, YamlOwned};
use yaml_rs::builder::build_from_events;
use yaml_rs::dump::to_yaml_value;
use yaml_rs::host::{HostObject, HostValue};
use yaml_rs::materialize::to_host;
use yaml_rs::value::FloatLiteral;
use yaml_rs::yaml::YamlNode;

fn owned(node: YamlNode) -> YamlOwned {
    match node {
        YamlNode::Null => YamlOwned::Value(ScalarOwned::Null),
        YamlNode::Boolean(b) => YamlOwned::Value(ScalarOwned::Boolean(b)),
        YamlNode::Integer(n) => YamlOwned::Value(ScalarOwned::Integer(n)),
        YamlNode::String(s) => YamlOwned::Value(ScalarOwned::String(s)),
        YamlNode::Representation(s) => YamlOwned::Representation(s, ScalarStyle::Plain, None),
        YamlNode::Sequence(items) => YamlOwned::Sequence(items.into_iter().map(owned).collect()),
        YamlNode::Mapping(pairs) => {
            let mut mapping = MappingOwned::new();
            for (key, value) in pairs {
                mapping.insert(owned(key), owned(value));
            }
            YamlOwned::Mapping(mapping)
        }
    }
}

fn through_text(object: &HostObject) -> HostValue {
    let tree = owned(to_yaml_value(object).unwrap());
    let mut text = String::new();
    let mut emitter = YamlEmitter::new(&mut text);
    emitter.multiline_strings(true);
    emitter.dump(&(&tree).into()).unwrap();
    let (arena, docs) = build_from_events(&text).unwrap();
    to_host(&arena, &docs, false)
}

fn s(text: &str) -> HostObject {
    HostObject::Str(text.to_string())
}

fn v(text: &str) -> HostValue {
    HostValue::Str(text.to_string())
}

#[test]
fn scalars_survive_the_round_trip() {
    assert_eq!(through_text(&HostObject::Null), HostValue::Null);
    assert_eq!(through_text(&HostObject::Bool(true)), HostValue::Bool(true));
    assert_eq!(through_text(&HostObject::Bool(false)), HostValue::Bool(false));
    assert_eq!(through_text(&HostObject::Int(0)), HostValue::Int(0));
    assert_eq!(through_text(&HostObject::Int(-42)), HostValue::Int(-42));
    assert_eq!(through_text(&HostObject::Int(i64::MAX)), HostValue::Int(i64::MAX));
    assert_eq!(through_text(&HostObject::Int(i64::MIN)), HostValue::Int(i64::MIN));
    assert_eq!(through_text(&s("hello")), v("hello"));
    assert_eq!(through_text(&s("hello world")), v("hello world"));
}

#[test]
fn strings_that_look_like_other_types_stay_strings() {
    assert_eq!(through_text(&s("12")), v("12"));
    assert_eq!(through_text(&s("true")), v("true"));
    assert_eq!(through_text(&s("null")), v("null"));
    assert_eq!(through_text(&s("~")), v("~"));
    assert_eq!(through_text(&s("1.5")), v("1.5"));
    assert_eq!(through_text(&s("")), v(""));
}

#[test]
fn big_integers_and_floats_survive() {
    assert_eq!(
        through_text(&HostObject::BigInt("99999999999999999999".parse().unwrap())),
        HostValue::BigInt("99999999999999999999".parse().unwrap())
    );
    assert_eq!(
        through_text(&HostObject::Float("1e10".to_string())),
        HostValue::Float(FloatLiteral::Decimal(b"1.0e10".to_vec()))
    );
    assert_eq!(
        through_text(&HostObject::Float("2.5".to_string())),
        HostValue::Float(FloatLiteral::Decimal(b"2.5".to_vec()))
    );
    assert_eq!(
        through_text(&HostObject::Float("inf".to_string())),
        HostValue::Float(FloatLiteral::Infinity)
    );
    assert_eq!(
        through_text(&HostObject::Float("-inf".to_string())),
        HostValue::Float(FloatLiteral::NegInfinity)
    );
}

#[test]
fn lists_and_dicts_survive() {
    let object = HostObject::Dict(vec![
        (s("name"), s("x")),
        (s("items"), HostObject::List(vec![HostObject::Int(1), HostObject::Null, s("two")])),
        (s("nested"), HostObject::Dict(vec![(s("k"), HostObject::Bool(false))])),
        (s("empty"), HostObject::List(Vec::new())),
    ]);
    let value = HostValue::Dict(vec![
        (v("name"), v("x")),
        (v("items"), HostValue::List(vec![HostValue::Int(1), HostValue::Null, v("two")])),
        (v("nested"), HostValue::Dict(vec![(v("k"), HostValue::Bool(false))])),
        (v("empty"), HostValue::List(Vec::new())),
    ]);
    assert_eq!(through_text(&object), value);
}

#[test]
fn a_set_comes_back_as_a_set() {
    assert_eq!(
        through_text(&HostObject::MutableSet(vec![s("a"), s("b")])),
        HostValue::MutableSet(vec![v("a"), v("b")])
    );
}

#[test]
fn a_dict_of_nulls_comes_back_as_a_set() {
    assert_eq!(
        through_text(&HostObject::Dict(vec![(s("a"), HostObject::Null), (s("b"), HostObject::Null)])),
        HostValue::MutableSet(vec![v("a"), v("b")])
    );
}
