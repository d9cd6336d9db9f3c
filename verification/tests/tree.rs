use yaml_rs::arena::Arena;
use yaml_rs::builder::{build_document, build_from_events, BuildError, Builder};
use yaml_rs::datetime::{Date, Timestamp};
use yaml_rs::events::{ParseEvent, ScanFault};
use yaml_rs::host::HostValue;
use yaml_rs::loader::load_text;
use yaml_rs::materialize::{is_set_idiom, to_host, value_to_hashable, value_to_host};
use yaml_rs::scalar::{ScalarTag, Style};
use yaml_rs::value::{FloatLiteral, Value};

fn plain(text: &str) -> ParseEvent {
    ParseEvent::Scalar { text: text.to_string(), style: Style::Plain, anchor: 0, tag: None }
}

fn anchored(text: &str, anchor: usize) -> ParseEvent {
    ParseEvent::Scalar { text: text.to_string(), style: Style::Plain, anchor, tag: None }
}

fn s(text: &str) -> HostValue {
    HostValue::Str(text.to_string())
}

fn load(input: &str, dates: bool) -> HostValue {
    let (arena, docs) = build_from_events(input).unwrap();
    let value = to_host(&arena, &docs, dates);
    assert_eq!(load_text(input, dates), Ok(value));
    let (arena, docs) = build_from_events(input).unwrap();
    to_host(&arena, &docs, dates)
}

#[test]
fn the_arena_hands_out_consecutive_ids() {
    let mut arena = Arena::with_capacity(2);
    assert_eq!(arena.len(), 0);
    assert_eq!(arena.push(Value::Null), 0);
    assert_eq!(arena.push(Value::Boolean(true)), 1);
    assert_eq!(arena.push(Value::Sequence(vec![0, 1, 0])), 2);
    assert_eq!(arena.len(), 3);
    assert_eq!(arena.get(0), &Value::Null);
    assert_eq!(arena.get(1), &Value::Boolean(true));
    assert_eq!(arena.get(2), &Value::Sequence(vec![0, 1, 0]));
}

#[test]
fn events_build_a_mapping() {
    let events = vec![
        ParseEvent::StreamStart,
        ParseEvent::DocumentStart(false),
        ParseEvent::MappingStart(0),
        plain("a"),
        plain("1"),
        plain("b"),
        ParseEvent::SequenceStart(0),
        plain("x"),
        plain("2.5"),
        plain("~"),
        ParseEvent::SequenceEnd,
        ParseEvent::MappingEnd,
        ParseEvent::DocumentEnd,
        ParseEvent::StreamEnd,
    ];
    let (arena, docs) = build_document(&events, None, 8).unwrap();
    assert_eq!(docs, vec![7]);
    assert_eq!(arena.len(), 8);
    assert_eq!(arena.get(6), &Value::Sequence(vec![3, 4, 5]));
    assert_eq!(arena.get(7), &Value::Mapping(vec![(0, 1), (2, 6)]));
    assert_eq!(
        to_host(&arena, &docs, false),
        HostValue::Dict(vec![
            (s("a"), HostValue::Int(1)),
            (
                s("b"),
                HostValue::List(vec![
                    s("x"),
                    HostValue::Float(FloatLiteral::Decimal(b"2.5".to_vec())),
                    HostValue::Null,
                ])
            ),
        ])
    );
}

#[test]
fn an_empty_document_is_null() {
    let events = vec![ParseEvent::DocumentStart(true), ParseEvent::DocumentEnd];
    let (arena, docs) = build_document(&events, None, 0).unwrap();
    assert_eq!(docs, vec![0]);
    assert_eq!(arena.get(0), &Value::Null);
}

#[test]
fn no_events_build_nothing() {
    let (arena, docs) = build_document(&Vec::new(), None, 0).unwrap();
    assert_eq!(arena.len(), 0);
    assert!(docs.is_empty());
    assert_eq!(to_host(&arena, &docs, false), HostValue::Dict(Vec::new()));
}

#[test]
fn an_alias_stands_for_the_node_of_its_anchor() {
    let events = vec![
        ParseEvent::DocumentStart(false),
        ParseEvent::SequenceStart(0),
        anchored("v", 1),
        ParseEvent::Alias(1),
        ParseEvent::SequenceEnd,
        ParseEvent::DocumentEnd,
    ];
    let (arena, docs) = build_document(&events, None, 0).unwrap();
    assert_eq!(arena.len(), 2);
    assert_eq!(arena.get(1), &Value::Sequence(vec![0, 0]));
    assert_eq!(docs, vec![1]);
}

#[test]
fn an_alias_without_a_bound_anchor_is_null() {
    let events = vec![
        ParseEvent::DocumentStart(false),
        ParseEvent::SequenceStart(1),
        ParseEvent::Alias(1),
        ParseEvent::SequenceEnd,
        ParseEvent::DocumentEnd,
    ];
    let (arena, docs) = build_document(&events, None, 0).unwrap();
    assert_eq!(arena.get(0), &Value::Null);
    assert_eq!(arena.get(1), &Value::Sequence(vec![0]));
    assert_eq!(to_host(&arena, &docs, false), HostValue::List(vec![HostValue::Null]));
}

#[test]
fn a_self_reference_in_yaml_text_is_null() {
    assert_eq!(load("&a [*a]", false), HostValue::List(vec![HostValue::Null]));
}

#[test]
fn anchors_do_not_outlive_their_document() {
    let events = vec![
        ParseEvent::DocumentStart(true),
        anchored("v", 1),
        ParseEvent::DocumentEnd,
        ParseEvent::DocumentStart(true),
        ParseEvent::Alias(1),
        ParseEvent::DocumentEnd,
    ];
    let (arena, docs) = build_document(&events, None, 0).unwrap();
    assert_eq!(docs, vec![0, 1]);
    assert_eq!(arena.get(0), &Value::String("v".to_string()));
    assert_eq!(arena.get(1), &Value::Null);
}

#[test]
fn a_scalar_that_does_not_resolve_ends_the_build() {
    let tag = ScalarTag { handle: "tag:yaml.org,2002:".to_string(), suffix: "int".to_string() };
    let events = vec![
        ParseEvent::DocumentStart(false),
        ParseEvent::Scalar {
            text: "abc".to_string(),
            style: Style::Plain,
            anchor: 0,
            tag: Some(tag),
        },
        ParseEvent::DocumentEnd,
    ];
    let fault = ScanFault { line: 1, col: 0, info: "late".to_string() };
    assert_eq!(
        build_document(&events, Some(fault), 0).err(),
        Some(BuildError::Decode("Invalid value 'abc' for '!!int' tag".to_string()))
    );
}

#[test]
fn a_failure_of_the_tokenizer_ends_the_build() {
    let fault = ScanFault { line: 3, col: 4, info: "bad".to_string() };
    let events = vec![ParseEvent::DocumentStart(false), plain("a")];
    assert_eq!(
        build_document(&events, Some(fault.clone()), 0).err(),
        Some(BuildError::Scan(fault))
    );
}

#[test]
fn the_builder_applies_events_one_by_one() {
    let mut builder = Builder::new(4);
    assert_eq!(builder.step(&ParseEvent::DocumentStart(false)), Ok(()));
    assert_eq!(builder.step(&ParseEvent::MappingStart(0)), Ok(()));
    assert_eq!(builder.step(&plain("k")), Ok(()));
    assert_eq!(builder.step(&plain("7")), Ok(()));
    assert_eq!(builder.step(&plain("dangling")), Ok(()));
    assert_eq!(builder.step(&ParseEvent::MappingEnd), Ok(()));
    assert_eq!(builder.step(&ParseEvent::SequenceEnd), Ok(()));
    assert_eq!(builder.step(&ParseEvent::DocumentEnd), Ok(()));
    let (arena, docs) = builder.finish();
    assert_eq!(arena.len(), 4);
    assert_eq!(arena.get(3), &Value::Mapping(vec![(0, 1)]));
    assert_eq!(docs, vec![3]);
}

#[test]
fn values_can_be_routed_by_hand() {
    let mut builder = Builder::new(0);
    assert_eq!(builder.step(&ParseEvent::SequenceStart(0)), Ok(()));
    assert_eq!(builder.step(&plain("a")), Ok(()));
    builder.push_value(0);
    assert_eq!(builder.step(&ParseEvent::SequenceEnd), Ok(()));
    let (arena, _) = builder.finish();
    assert_eq!(arena.get(1), &Value::Sequence(vec![0, 0]));
}

#[test]
fn yaml_text_is_built_and_materialised() {
    assert_eq!(
        load("a: 1\nb: [x, 2.5, ~]\n", false),
        HostValue::Dict(vec![
            (s("a"), HostValue::Int(1)),
            (
                s("b"),
                HostValue::List(vec![
                    s("x"),
                    HostValue::Float(FloatLiteral::Decimal(b"2.5".to_vec())),
                    HostValue::Null,
                ])
            ),
        ])
    );
}

#[test]
fn quoted_scalars_stay_strings() {
    assert_eq!(
        load("- '12'\n- \"true\"\n- 12\n- !!str 12\n- !!int '12'\n", false),
        HostValue::List(vec![
            s("12"),
            s("true"),
            HostValue::Int(12),
            s("12"),
            HostValue::Int(12),
        ])
    );
}

#[test]
fn no_document_is_an_empty_dict() {
    assert_eq!(load("", false), HostValue::Dict(Vec::new()));
}

#[test]
fn several_documents_are_a_list() {
    assert_eq!(
        load("---\n1\n---\nb\n", false),
        HostValue::List(vec![HostValue::Int(1), s("b")])
    );
}

#[test]
fn a_mapping_to_nulls_is_a_set() {
    assert_eq!(load("{a: null, b: null}", false), HostValue::MutableSet(vec![s("a"), s("b")]));
    assert_eq!(load("{a: ~, b: , c: Null}", false), HostValue::MutableSet(vec![s("a"), s("b"), s("c")]));
}

#[test]
fn a_single_pair_is_never_a_set() {
    assert_eq!(load("{a: null}", false), HostValue::Dict(vec![(s("a"), HostValue::Null)]));
}

#[test]
fn a_null_key_or_a_value_keeps_a_mapping_a_dict() {
    assert_eq!(
        load("{a: null, ~: null}", false),
        HostValue::Dict(vec![(s("a"), HostValue::Null), (HostValue::Null, HostValue::Null)])
    );
    assert_eq!(
        load("{a: null, b: 1}", false),
        HostValue::Dict(vec![(s("a"), HostValue::Null), (s("b"), HostValue::Int(1))])
    );
    assert_eq!(load("{}", false), HostValue::Dict(Vec::new()));
}

#[test]
fn the_set_idiom_is_checked_on_the_arena() {
    let mut arena = Arena::with_capacity(0);
    let a = arena.push(Value::String("a".to_string()));
    let n = arena.push(Value::Null);
    let b = arena.push(Value::String("b".to_string()));
    assert!(is_set_idiom(&arena, &vec![(a, n), (b, n)]));
    assert!(!is_set_idiom(&arena, &vec![(a, n)]));
    assert!(!is_set_idiom(&arena, &vec![(a, n), (n, n)]));
    assert!(!is_set_idiom(&arena, &vec![(a, n), (b, a)]));
    assert!(!is_set_idiom(&arena, &Vec::new()));
}

#[test]
fn collection_keys_are_made_hashable() {
    assert_eq!(
        load("? [1, [2]]\n: x\n? {k: v}\n: y\n", false),
        HostValue::Dict(vec![
            (
                HostValue::Tuple(vec![
                    HostValue::Int(1),
                    HostValue::Tuple(vec![HostValue::Int(2)]),
                ]),
                s("x")
            ),
            (
                HostValue::FrozenSet(vec![HostValue::Tuple(vec![s("k"), s("v")])]),
                s("y")
            ),
        ])
    );
}

#[test]
fn hashable_values_of_scalars_are_the_values() {
    let mut arena = Arena::with_capacity(0);
    let one = arena.push(Value::IntegerI64(1));
    let list = arena.push(Value::Sequence(vec![one, one]));
    assert_eq!(value_to_hashable(&arena, one, false), HostValue::Int(1));
    assert_eq!(
        value_to_hashable(&arena, list, false),
        HostValue::Tuple(vec![HostValue::Int(1), HostValue::Int(1)])
    );
    assert_eq!(
        value_to_host(&arena, list, false),
        HostValue::List(vec![HostValue::Int(1), HostValue::Int(1)])
    );
}

#[test]
fn strings_become_timestamps_only_on_request() {
    let stamp = HostValue::Timestamp {
        stamp: Timestamp::Date(Date { year: 2024, month: 1, day: 2 }),
        text: "2024-01-02".to_string(),
    };
    assert_eq!(load("2024-01-02", true), stamp);
    assert_eq!(load("2024-01-02", false), s("2024-01-02"));
    assert_eq!(load("'2024-01-02'", true), stamp);
    assert_eq!(load("!!str 2024-01-02", true), s("2024-01-02"));
    assert_eq!(load("2024-01-02 is a date", true), s("2024-01-02 is a date"));
}

#[test]
fn big_integers_and_floats_pass_through() {
    assert_eq!(
        load("[99999999999999999999, .inf, -.inf, .nan]", false),
        HostValue::List(vec![
            HostValue::BigInt("99999999999999999999".parse().unwrap()),
            HostValue::Float(FloatLiteral::Infinity),
            HostValue::Float(FloatLiteral::NegInfinity),
            HostValue::Float(FloatLiteral::NotANumber),
        ])
    );
}

#[test]
fn malformed_yaml_is_a_scan_error() {
    match build_from_events("a: [1, 2\nb: }") {
        Err(BuildError::Scan(fault)) => {
            assert!(fault.line >= 1);
            assert!(!fault.info.is_empty());
        }
        other => panic!("expected a scan error, got {:?}", other.map(|(_, docs)| docs)),
    }
}

#[test]
fn a_bad_tag_in_yaml_text_is_a_decode_error() {
    assert_eq!(
        build_from_events("!!int abc").err(),
        Some(BuildError::Decode("Invalid value 'abc' for '!!int' tag".to_string()))
    );
    assert_eq!(
        build_from_events("!!set x").err(),
        Some(BuildError::Decode("Invalid tag: '!!set'".to_string()))
    );
}

#[test]
fn loading_reports_both_kinds_of_error() {
    assert_eq!(
        load_text("!!bool maybe", false),
        Err(BuildError::Decode("Invalid value 'maybe' for '!!bool' tag".to_string()))
    );
    assert!(matches!(load_text("a: [1, 2\nb: }", true), Err(BuildError::Scan(_))));
}

#[test]
fn a_decode_error_comes_before_a_later_scan_error() {
    assert_eq!(
        load_text("- !!int abc\n- [1, 2\n", false),
        Err(BuildError::Decode("Invalid value 'abc' for '!!int' tag".to_string()))
    );
}
