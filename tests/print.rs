use cli_print::config::Config;
use cli_print::datetime::Datetime;
use cli_print::format::{format_items, ResultCollector};
use cli_print::numeric::{BigInt, Decimal};
use cli_print::value::{ObjectShape, ShapeElement, Value};

fn test_format_cfg(items: Vec<Value>, config: &Config) -> String {
    format_items(&items, config)
}

fn test_format(items: Vec<Value>) -> String {
    test_format_cfg(
        items,
        &Config {
            colors: Some(false),
            indent: 2,
            expand_strings: false,
            max_width: Some(80),
            implicit_properties: false,
            max_items: None,
        },
    )
}

fn element(name: &str, link_property: bool) -> ShapeElement {
    ShapeElement {
        flag_implicit: false,
        flag_link_property: link_property,
        flag_link: false,
        name: name.to_string(),
    }
}

fn two_field_shape(link_property: bool) -> ObjectShape {
    ObjectShape::new(vec![element("field1", false), element("field2", link_property)])
}

fn make_object(shape: ObjectShape, fields: Vec<Option<Value>>) -> Value {
    Value::Object { shape, fields }
}

#[test]
fn int_values() {
    assert_eq!(test_format(vec![Value::Int64(10)]), "{10}");
    assert_eq!(test_format(vec![Value::Int64(10), Value::Int64(20)]), "{10, 20}");
}

#[test]
fn bigdecimal() {
    assert_eq!(test_format(vec![Value::Decimal(Decimal::new(false, 101, -1))]), "{10.1n}");
}

#[test]
fn bigint() {
    assert_eq!(
        test_format(vec![
            Value::BigInt(BigInt::from_i64(10)),
            Value::BigInt(BigInt::from_i64(10000)),
            Value::BigInt(BigInt::from_i64(100000000000)),
        ]),
        "{10n, 10000n, 1e11n}"
    );
}

#[test]
fn datetime() {
    assert_eq!(
        test_format(vec![
            Value::Datetime(Datetime::from_micros(-1000000000000000)),
            Value::Datetime(Datetime::from_micros(1604506938347258)),
        ]),
        "{<datetime>'1968-04-23T22:13:20Z', <datetime>'2050-11-04T16:22:18.347258Z'}"
    );
}

#[test]
fn decimal() {
    assert_eq!(
        test_format(vec![
            Value::Decimal(Decimal::new(false, 10, 3)),
            Value::Decimal(Decimal::new(false, 10, 10)),
            Value::Decimal(Decimal::new(false, 1000000000001, -1)),
            Value::Decimal(Decimal::new(false, 508, -15)),
        ]),
        "{10000.0n, 1.0e11n, 100000000000.1n, 0.508e-12}"
    );
}

fn ints(values: &[i64]) -> Vec<Value> {
    values.iter().map(|v| Value::Int64(*v)).collect()
}

#[test]
fn array_ellipsis() {
    assert_eq!(test_format(vec![Value::Array(ints(&[10, 20, 30]))]), "{[10, 20, 30]}");
    assert_eq!(
        test_format_cfg(vec![Value::Array(ints(&[10, 20, 30]))], &Config::new().max_items(2)),
        "{[10, 20, ...]}"
    );
    assert_eq!(
        test_format_cfg(
            vec![Value::Array(ints(&[10, 20, 30]))],
            &Config::new().max_items(2).max_width(10)
        ),
        r###"{
  [
    10,
    20,
    ... (further results hidden `\set limit 2`)
  ],
}"###
    );
    assert_eq!(
        test_format_cfg(vec![Value::Array(ints(&[10]))], &Config::new().max_items(2)),
        "{[10]}"
    );
}

#[test]
fn set_ellipsis() {
    assert_eq!(test_format(vec![Value::SetOf(ints(&[10, 20, 30]))]), "{{10, 20, 30}}");
    assert_eq!(
        test_format_cfg(vec![Value::SetOf(ints(&[10, 20, 30]))], &Config::new().max_items(2)),
        "{{10, 20, ...}}"
    );
    assert_eq!(
        test_format_cfg(vec![Value::SetOf(ints(&[10]))], &Config::new().max_items(2)),
        "{{10}}"
    );
}

#[test]
fn wrap() {
    assert_eq!(test_format_cfg(ints(&[10, 20]), &Config::new().max_width(10)), "{10, 20}");
    assert_eq!(
        test_format_cfg(ints(&[10, 20, 30]), &Config::new().max_width(10)),
        "{\n  10,\n  20,\n  30,\n}"
    );
}

#[test]
fn object() {
    assert_eq!(
        test_format_cfg(
            vec![
                make_object(two_field_shape(false), vec![Some(Value::Int32(10)), Some(Value::Int32(20))]),
                make_object(two_field_shape(false), vec![Some(Value::Int32(30)), Some(Value::Int32(40))]),
            ],
            &Config::new().max_width(60)
        ),
        r###"{
  Object {field1: 10, field2: 20},
  Object {field1: 30, field2: 40},
}"###
    );
    assert_eq!(
        test_format_cfg(
            vec![
                make_object(two_field_shape(false), vec![Some(Value::Int32(10)), Some(Value::Int32(20))]),
                make_object(two_field_shape(false), vec![Some(Value::Int32(30)), None]),
            ],
            &Config::new().max_width(20)
        ),
        r###"{
  Object {
    field1: 10,
    field2: 20,
  },
  Object {
    field1: 30,
    field2: {},
  },
}"###
    );
}

#[test]
fn link_property() {
    assert_eq!(
        test_format_cfg(
            vec![
                make_object(two_field_shape(true), vec![Some(Value::Int32(10)), Some(Value::Int32(20))]),
                make_object(two_field_shape(true), vec![Some(Value::Int32(30)), Some(Value::Int32(40))]),
            ],
            &Config::new().max_width(60)
        ),
        r###"{
  Object {field1: 10, @field2: 20},
  Object {field1: 30, @field2: 40},
}"###
    );
}

#[test]
fn str() {
    assert_eq!(test_format(vec![Value::Str("hello".into())]), "{'hello'}");
    assert_eq!(test_format(vec![Value::Str("a\nb".into())]), "{'a\\nb'}");
    assert_eq!(test_format(vec![Value::Str("a'b".into())]), r"{'a\'b'}");
    assert_eq!(
        test_format_cfg(vec![Value::Str("a\nb".into())], &Config::new().expand_strings(true)),
        "{\n  'a\nb',\n}"
    );
    assert_eq!(
        test_format_cfg(vec![Value::Str("a'b".into())], &Config::new().expand_strings(true)),
        r"{'a\'b'}"
    );
}

#[test]
fn bytes() {
    assert_eq!(test_format(vec![Value::Bytes(b"hello".to_vec())]), "{b'hello'}");
    assert_eq!(test_format(vec![Value::Bytes(b"a\nb".to_vec())]), "{b'a\\nb'}");
    assert_eq!(test_format(vec![Value::Bytes(b"a'b".to_vec())]), r"{b'a\'b'}");
}

#[test]
fn all_widths() {
    for width in 0..100 {
        let shape = ObjectShape::new(vec![element("field1", false)]);
        let out = test_format_cfg(
            vec![make_object(
                shape,
                vec![Some(Value::Str("Sint tempor. Qui occaecat eu consectetur elit.".into()))],
            )],
            &Config::new().max_width(width),
        );
        assert!(out.starts_with('{') && out.ends_with('}'));
    }
}

#[test]
fn top_level_truncation_note() {
    let out = test_format_cfg(ints(&[1, 2, 3]), &Config::new().max_items(2));
    assert_eq!(out, "{\n  1,\n  2,\n  ... (further results hidden `\\set limit 2`)\n}");
}

#[test]
fn no_marker_within_limit() {
    assert_eq!(test_format_cfg(ints(&[1, 2]), &Config::new().max_items(2)), "{1, 2}");
}

#[test]
fn collector_keeps_shown_prefix() {
    let mut c = ResultCollector::new(Config::new().max_items(2));
    for v in [1, 2, 3, 4] {
        c.push(Value::Int64(v));
    }
    assert_eq!(c.kept.len(), 2);
    assert_eq!(c.seen, 4);
    assert_eq!(c.finish(), "{\n  1,\n  2,\n  ... (further results hidden `\\set limit 2`)\n}");
}

#[test]
fn negative_and_escapes() {
    assert_eq!(
        test_format(vec![
            Value::Int16(-7),
            Value::BigInt(BigInt::from_i64(-3000000)),
            Value::Decimal(Decimal::new(true, 5, -3)),
            Value::Bytes(vec![0, 255, b'\\']),
            Value::Str("t\tr\r\\".into()),
        ]),
        "{-7, -3e6n, -0.005n, b'\\x00\\xff\\\\', 't\\tr\\r\\\\'}"
    );
}

#[test]
fn empty_containers() {
    assert_eq!(
        test_format(vec![
            Value::Array(vec![]),
            Value::SetOf(vec![]),
            Value::Nothing,
            make_object(ObjectShape::new(vec![]), vec![]),
        ]),
        "{[], {}, {}, Object {}}"
    );
    assert_eq!(test_format(vec![]), "{}");
}

#[test]
fn implicit_fields_hidden() {
    let v = || {
        let id = ShapeElement {
            flag_implicit: true,
            flag_link_property: false,
            flag_link: false,
            name: "id".into(),
        };
        let shape = ObjectShape::new(vec![id, element("name", false)]);
        make_object(shape, vec![Some(Value::Int64(1)), Some(Value::Str("x".into()))])
    };
    assert_eq!(test_format(vec![v()]), "{Object {name: 'x'}}");
    assert_eq!(
        test_format_cfg(vec![v()], &Config::new().implicit_properties(true)),
        "{Object {id: 1, name: 'x'}}"
    );
}

#[test]
fn expanded_string_breaks_object() {
    let shape = ObjectShape::new(vec![element("f", false)]);
    let out = test_format_cfg(
        vec![make_object(shape, vec![Some(Value::Str("a\nb".into()))])],
        &Config::new().expand_strings(true),
    );
    assert_eq!(out, "{\n  Object {\n    f: 'a\nb',\n  },\n}");
}

#[test]
fn link_property_one_line_when_it_fits() {
    assert_eq!(
        test_format_cfg(
            vec![
                make_object(two_field_shape(true), vec![Some(Value::Int32(10)), Some(Value::Int32(20))]),
                make_object(two_field_shape(true), vec![Some(Value::Int32(30)), Some(Value::Int32(40))]),
            ],
            &Config::new().max_width(80)
        ),
        "{Object {field1: 10, @field2: 20}, Object {field1: 30, @field2: 40}}"
    );
}

#[test]
fn exact_fit_stays_flat() {
    assert_eq!(test_format_cfg(ints(&[10, 20]), &Config::new().max_width(8)), "{10, 20}");
    assert_eq!(
        test_format_cfg(ints(&[10, 20]), &Config::new().max_width(7)),
        "{\n  10,\n  20,\n}"
    );
}

#[test]
fn zero_limit_keeps_one_item() {
    assert_eq!(
        test_format_cfg(ints(&[1, 2]), &Config::new().max_items(0)),
        "{\n  1,\n  ... (further results hidden `\\set limit 0`)\n}"
    );
}

#[test]
fn wider_indent() {
    assert_eq!(
        test_format_cfg(ints(&[10, 20, 30]), &Config::new().max_width(5).indent(4)),
        "{\n    10,\n    20,\n    30,\n}"
    );
}

#[test]
fn bigint_threshold() {
    assert_eq!(
        test_format(vec![
            Value::BigInt(BigInt::from_i64(100000)),
            Value::BigInt(BigInt::from_i64(1000000)),
            Value::BigInt(BigInt::from_i64(1230000000)),
            Value::BigInt(BigInt::from_i64(0)),
        ]),
        "{100000n, 1e6n, 123e7n, 0n}"
    );
}

#[test]
fn decimal_small_values() {
    assert_eq!(
        test_format(vec![
            Value::Decimal(Decimal::new(false, 5, -11)),
            Value::Decimal(Decimal::new(false, 5, -12)),
            Value::Decimal(Decimal::new(false, 0, 0)),
            Value::Decimal(Decimal::new(false, 25, 9)),
        ]),
        "{0.00000000005n, 0.5e-11, 0.0n, 25000000000.0n}"
    );
}

#[test]
fn colors_take_no_width() {
    assert_eq!(
        test_format_cfg(
            vec![Value::Int64(10), Value::Str("a".into())],
            &Config::new().colors(true).max_width(11)
        ),
        "{\u{1b}[36m10\u{1b}[0m, \u{1b}[32m'a'\u{1b}[0m}"
    );
    assert_eq!(
        test_format_cfg(ints(&[10, 20]), &Config::new().colors(true).max_width(7)),
        "{\n  \u{1b}[36m10\u{1b}[0m,\n  \u{1b}[36m20\u{1b}[0m,\n}"
    );
}
