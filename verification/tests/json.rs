use datafusion_ext_functions::column::Column;
use datafusion_ext_functions::error::ExtFunctionError;
use datafusion_ext_functions::json::parse::parse_text;
use datafusion_ext_functions::json::path::{parse_path_text, PathStep};
use datafusion_ext_functions::json::value::{JsonMember, JsonValue};
use datafusion_ext_functions::json::write::write_chars;
use datafusion_ext_functions::spark_get_json_object::{
    get_json_object_rows, spark_get_json_object, spark_get_parsed_json_object, spark_parse_json,
};

fn text(s: &str) -> Option<String> {
    Some(s.to_string())
}

fn chars(s: &str) -> Vec<char> {
    s.chars().collect()
}

fn extract(rows: Vec<Option<String>>, path: &str) -> Vec<Option<String>> {
    match spark_get_json_object(&Column::Utf8(rows), path) {
        Ok(Column::Utf8(out)) => out,
        other => panic!("unexpected result {:?}", other),
    }
}

#[test]
fn get_json_object_reads_a_field() {
    assert_eq!(extract(vec![text("{\"a\":1}")], "$.a"), vec![text("1")]);
}

#[test]
fn get_json_object_gives_null_for_malformed_text() {
    assert_eq!(extract(vec![text("not json")], "$.a"), vec![None]);
}

#[test]
fn get_json_object_failure_modes_give_null() {
    let rows = vec![
        text("{\"a\":{\"b\":[10,20,30]}}"),
        text("{\"a\":5}"),
        text("[1,2]"),
        None,
        text("{\"a\":null}"),
        text("{\"a\":{\"b\":[]}}"),
        text("{\"a\":{\"b\":[1,null]}}"),
        text("{\"a\":{\"c\":[1,2]}}"),
    ];
    assert_eq!(
        extract(rows, "$.a.b[1]"),
        vec![text("20"), None, None, None, None, None, None, None]
    );
}

#[test]
fn get_json_object_writes_strings_raw_and_values_compact() {
    let doc = " { \"s\" : \"x\\ny\\u0041\" , \"o\" : { \"k\" : [ 1 , true , null , \"q\\\"\" ] } } ";
    assert_eq!(extract(vec![text(doc)], "$.s"), vec![text("x\nyA")]);
    assert_eq!(
        extract(vec![text(doc)], "$.o"),
        vec![text("{\"k\":[1,true,null,\"q\\\"\"]}")]
    );
    assert_eq!(
        extract(vec![text(doc)], "$"),
        vec![text("{\"s\":\"x\\nyA\",\"o\":{\"k\":[1,true,null,\"q\\\"\"]}}")]
    );
    assert_eq!(extract(vec![text(doc)], "$.o.k[1]"), vec![text("true")]);
    assert_eq!(extract(vec![text("false")], "$"), vec![text("false")]);
}

#[test]
fn get_json_object_wildcard_collects_in_order() {
    let doc = "[{\"a\":1},{\"b\":2},{\"a\":3},7]";
    assert_eq!(extract(vec![text(doc)], "$[*].a"), vec![text("[1,3]")]);
    assert_eq!(extract(vec![text(doc)], "$[*]"), vec![text(doc)]);
    assert_eq!(extract(vec![text(doc)], "$[*].z"), vec![text("[]")]);
    assert_eq!(extract(vec![text("{\"a\":1}")], "$[*]"), vec![None]);
    assert_eq!(
        extract(vec![text("[[1,2],[3],[]]")], "$[*][0]"),
        vec![text("[1,3]")]
    );
}

#[test]
fn get_json_object_takes_the_first_of_repeated_keys() {
    assert_eq!(extract(vec![text("{\"a\":1,\"a\":2}")], "$.a"), vec![text("1")]);
}

#[test]
fn get_json_object_malformed_path_gives_null() {
    for path in [
        "", "a", "$.", "$[", "$[x]", "$[1", "$..a", "$[-1]", "$[1234567890123456789]", " $.a",
        "$.a.", "$[]", "$a",
    ] {
        assert_eq!(extract(vec![text("{\"a\":1}")], path), vec![None], "{}", path);
    }
}

#[test]
fn path_steps_are_read_exactly() {
    assert_eq!(parse_path_text("$"), Some(vec![]));
    assert_eq!(
        parse_path_text("$.ab[12][*].c d"),
        Some(vec![
            PathStep::Field(chars("ab")),
            PathStep::Index(12),
            PathStep::Wildcard,
            PathStep::Field(chars("c d")),
        ])
    );
    assert_eq!(
        parse_path_text("$[999999999999999999]"),
        Some(vec![PathStep::Index(999_999_999_999_999_999)])
    );
    assert_eq!(parse_path_text("$[007]"), Some(vec![PathStep::Index(7)]));
    assert_eq!(parse_path_text("$[1000000000000000000]"), None);
}

#[test]
fn parse_json_rejects_malformed_documents() {
    let bad = [
        "", " ", "{", "[1,]", "{\"a\":}", "{\"a\" 1}", "01", "1.", "-", "1e", "tru", "\"abc",
        "\"\\x\"", "\"\\ud800\"", "\"\\udc00\"", "[1] 2", "{a:1}", "\"a\nb\"", "nul", "+1",
        "{\"a\":1,}", "[", "]", "\"\\u12\"", "\"\\ud800\\u0041\"", ".5", "1e+", "--1", "{\"a\"}",
        "{,}", "[,]", "\u{a0}1",
    ];
    for t in bad {
        assert_eq!(parse_text(t), None, "{:?}", t);
    }
}

#[test]
fn parse_json_builds_the_value() {
    let parsed = parse_text(" {\"a\" : [1, -2.5e3, \"x\\t\", true, false, null, {}, []] } ");
    let expected = JsonValue::Object(vec![JsonMember {
        key: chars("a"),
        value: JsonValue::Array(vec![
            JsonValue::Number(chars("1")),
            JsonValue::Number(chars("-2.5e3")),
            JsonValue::String(chars("x\t")),
            JsonValue::Bool(true),
            JsonValue::Bool(false),
            JsonValue::Null,
            JsonValue::Object(vec![]),
            JsonValue::Array(vec![]),
        ]),
    }]);
    assert_eq!(parsed, Some(expected));
}

#[test]
fn parse_json_accepts_numbers_and_escapes() {
    let doc = "[0,-0,1.5,-2e10,3E+2,4e-1,\"\\ud83d\\ude00\",\"\\u00e9\\/\\b\\f\\r\\t\\u0001\"]";
    assert_eq!(extract(vec![text(doc)], "$[6]"), vec![text("\u{1F600}")]);
    assert_eq!(extract(vec![text(doc)], "$[3]"), vec![text("-2e10")]);
    assert_eq!(
        extract(vec![text(doc)], "$"),
        vec![text(
            "[0,-0,1.5,-2e10,3E+2,4e-1,\"\u{1F600}\",\"\u{e9}/\\b\\f\\r\\t\\u0001\"]"
        )]
    );
}

#[test]
fn written_text_parses_to_the_same_value() {
    let doc = "{\"k\\\"\":[1,{\"x\":\"\\\\ \\u001f \\n\"},[[]],\"\u{1F600}\"],\"\":null}";
    let value = parse_text(doc).unwrap();
    let written: String = write_chars(&value).into_iter().collect();
    assert_eq!(written, doc);
    assert_eq!(parse_text(&written), Some(value));
}

#[test]
fn parse_json_limits_nesting() {
    let deep_ok = format!("{}{}", "[".repeat(128), "]".repeat(128));
    let too_deep = format!("{}{}", "[".repeat(129), "]".repeat(129));
    assert!(parse_text(&deep_ok).is_some());
    assert!(parse_text(&too_deep).is_none());
    let objects_ok = format!("{}1{}", "{\"a\":".repeat(128), "}".repeat(128));
    let objects_deep = format!("{}1{}", "{\"a\":".repeat(129), "}".repeat(129));
    assert!(parse_text(&objects_ok).is_some());
    assert!(parse_text(&objects_deep).is_none());
}

#[test]
fn parse_json_column_gives_null_for_null_and_malformed_rows() {
    let rows = Column::Utf8(vec![text("[1]"), text("oops"), None]);
    assert_eq!(
        spark_parse_json(&rows),
        Ok(Column::Json(vec![
            Some(JsonValue::Array(vec![JsonValue::Number(chars("1"))])),
            None,
            None,
        ]))
    );
    assert_eq!(
        spark_parse_json(&Column::Json(vec![])),
        Err(ExtFunctionError::InvalidArguments)
    );
}

#[test]
fn get_parsed_json_object_agrees_with_text_extraction() {
    let rows = vec![text("{\"a\":[{\"b\":\"x\"},{\"b\":2}],\"a\":0}"), text("oops"), None];
    let parsed = spark_parse_json(&Column::Utf8(rows.clone())).unwrap();
    let found = spark_get_parsed_json_object(&parsed, "$.a[*].b");
    assert_eq!(
        found,
        Ok(Column::Json(vec![
            Some(JsonValue::Array(vec![
                JsonValue::String(chars("x")),
                JsonValue::Number(chars("2")),
            ])),
            None,
            None,
        ]))
    );
    assert_eq!(
        get_json_object_rows(&rows, "$.a[*].b"),
        vec![text("[\"x\",2]"), None, None]
    );
    assert_eq!(get_json_object_rows(&rows, "$.a[0].b"), vec![text("x"), None, None]);
}

#[test]
fn get_parsed_json_object_gives_null_for_json_null() {
    let parsed = spark_parse_json(&Column::Utf8(vec![text("{\"a\":null}"), text("null")])).unwrap();
    assert_eq!(
        spark_get_parsed_json_object(&parsed, "$.a"),
        Ok(Column::Json(vec![None, None]))
    );
    assert_eq!(
        spark_get_parsed_json_object(&parsed, "$"),
        Ok(Column::Json(vec![
            Some(JsonValue::Object(vec![JsonMember { key: chars("a"), value: JsonValue::Null }])),
            None,
        ]))
    );
}

#[test]
fn json_functions_refuse_other_columns() {
    let ints = Column::Utf8(vec![]);
    assert_eq!(
        spark_get_parsed_json_object(&ints, "$"),
        Err(ExtFunctionError::InvalidArguments)
    );
    assert_eq!(
        spark_get_json_object(&Column::Json(vec![]), "$"),
        Err(ExtFunctionError::InvalidArguments)
    );
}
