use cli_print::config::Config;
use cli_print::json::{json_to_string, Json};

fn json_fmt(items: Vec<Json>) -> String {
    json_to_string(&items, &Config::new())
}

fn json_fmt_width(w: usize, items: Vec<Json>) -> String {
    json_to_string(&items, &Config::new().max_width(w))
}

fn obj(entries: Vec<(&str, Json)>) -> Json {
    Json::Object(entries.into_iter().map(|(k, v)| (k.to_string(), v)).collect())
}

fn s(text: &str) -> Json {
    Json::Str(text.to_string())
}

fn num(text: &str) -> Json {
    Json::Number(text.to_string())
}

fn two_objects() -> Vec<Json> {
    vec![
        obj(vec![("field1", s("Sint tempor. Qui occaecat eu consectetur elit."))]),
        obj(vec![("field2", s("Lorem ipsum dolor sit amet."))]),
    ]
}

#[test]
fn all_widths_json() {
    for width in 0..100 {
        let out = json_fmt_width(width, two_objects());
        assert!(out.starts_with('[') && out.ends_with(']'));
    }
}

#[test]
fn all_widths_json_item() {
    for width in 0..100 {
        let out = json_fmt_width(width, two_objects());
        assert!(out.contains("\"field2\": \"Lorem ipsum dolor sit amet.\""));
    }
}

#[test]
fn json() {
    assert_eq!(json_fmt(vec![num("10")]), "[10]");
    assert_eq!(
        json_fmt_width(
            20,
            vec![
                obj(vec![("field1", Json::Array(vec![])), ("field2", obj(vec![]))]),
                obj(vec![
                    ("field1", Json::Array(vec![s("x")])),
                    ("field2", obj(vec![("a", num("1"))])),
                ]),
            ]
        ),
        r###"[
  {
    "field1": [],
    "field2": {}
  },
  {
    "field1": ["x"],
    "field2": {
      "a": 1
    }
  }
]"###
    );
}

#[test]
fn json_scalars_and_escapes() {
    assert_eq!(
        json_fmt(vec![Json::Null, Json::Bool(true), Json::Bool(false), s("a\"b\\c\n\u{1}")]),
        "[null, true, false, \"a\\\"b\\\\c\\n\\u0001\"]"
    );
}

#[test]
fn json_nested_array_breaks() {
    assert_eq!(
        json_fmt_width(20, vec![obj(vec![("field1", Json::Array(vec![s("x")]))])]),
        "[{\"field1\": [\"x\"]}]"
    );
    assert_eq!(
        json_fmt_width(15, vec![obj(vec![("field1", Json::Array(vec![s("x")]))])]),
        "[\n  {\n    \"field1\": [\n      \"x\"\n    ]\n  }\n]"
    );
}
