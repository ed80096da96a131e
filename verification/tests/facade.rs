use fsfacade::resolve;
use fsfacade::ErrorKind;
use fsfacade::JsonMember;
use fsfacade::JsonValue;
use fsfacade::OpError;

fn obj(members: Vec<(&str, JsonValue)>) -> JsonValue {
    JsonValue::Obj(
        members
            .into_iter()
            .map(|(k, v)| JsonMember { key: k.to_string(), value: v })
            .collect(),
    )
}

#[test]
fn resolve_expands_home_shorthand() {
    assert_eq!(resolve("~/config.json", Some("/home/u")), "/home/u/config.json");
}

#[test]
fn resolve_leaves_absolute_paths_unchanged() {
    assert_eq!(resolve("/abs/path", Some("/home/u")), "/abs/path");
}

#[test]
fn resolve_without_home_degrades_silently() {
    assert_eq!(resolve("~/config.json", None), "~/config.json");
}

#[test]
fn resolve_does_not_expand_bare_tilde_or_user_forms() {
    assert_eq!(resolve("~", Some("/home/u")), "~");
    assert_eq!(resolve("~user/x", Some("/home/u")), "~user/x");
    assert_eq!(resolve("a/~/b", Some("/home/u")), "a/~/b");
}

#[test]
fn resolve_empty_remainder() {
    assert_eq!(resolve("~/", Some("/home/u")), "/home/u/");
}

#[test]
fn error_constructors_classify() {
    assert_eq!(OpError::read("p", "c").kind, ErrorKind::Read);
    assert_eq!(OpError::write("p", "c").kind, ErrorKind::Write);
    assert_eq!(OpError::parse("p", "c").kind, ErrorKind::Parse);
    assert_eq!(OpError::serialize("p", "c").kind, ErrorKind::Serialize);
    let e = OpError::read("/tmp/x", "denied");
    assert_eq!(e.path, "/tmp/x");
    assert_eq!(e.cause, "denied");
}

#[test]
fn error_messages_carry_path_and_cause() {
    assert_eq!(OpError::read("a", "b").message(), "read failed at a: b");
    assert_eq!(OpError::write("a", "b").message(), "write failed at a: b");
    assert_eq!(OpError::parse("a", "b").message(), "parse failed at a: b");
    assert_eq!(OpError::serialize("a", "b").message(), "serialize failed at a: b");
}

#[test]
fn text_codec_round_trip() {
    let bytes = fsfacade::encode_text("héllo, wörld — ∀x");
    let back = fsfacade::decode_text("p", bytes).unwrap();
    assert_eq!(back, "héllo, wörld — ∀x");
}

#[test]
fn decode_rejects_malformed_encoding_as_read_error() {
    let e = fsfacade::decode_text("p", vec![0xff, 0xfe, 0x41]).unwrap_err();
    assert_eq!(e.kind, ErrorKind::Read);
    assert_eq!(e.path, "p");
}

#[test]
fn existence_queries_answer_false_for_missing_paths() {
    assert!(!fsfacade::file_exists("/no/such/path/anywhere"));
    assert!(!fsfacade::dir_exists("/no/such/path/anywhere"));
    assert!(!fsfacade::entry_exists("/no/such/path/anywhere"));
}

#[test]
fn existence_queries_distinguish_kinds() {
    assert!(fsfacade::dir_exists("/"));
    assert!(fsfacade::entry_exists("/"));
    assert!(!fsfacade::file_exists("/"));
}

#[test]
fn render_atoms() {
    assert_eq!(fsfacade::to_text(&JsonValue::Null), "null");
    assert_eq!(fsfacade::to_text(&JsonValue::Bool(true)), "true");
    assert_eq!(fsfacade::to_text(&JsonValue::Bool(false)), "false");
    assert_eq!(fsfacade::to_text(&JsonValue::Int(0)), "0");
    assert_eq!(fsfacade::to_text(&JsonValue::Int(-42)), "-42");
    assert_eq!(
        fsfacade::to_text(&JsonValue::Int(i64::MAX)),
        "9223372036854775807"
    );
    assert_eq!(
        fsfacade::to_text(&JsonValue::Int(i64::MIN)),
        "-9223372036854775808"
    );
}

#[test]
fn render_strings_with_escapes() {
    let v = JsonValue::Str("a\"b\\c\nd\te\r".to_string());
    assert_eq!(fsfacade::to_text(&v), "\"a\\\"b\\\\c\\nd\\te\\r\"");
    let c = JsonValue::Str("\u{1}".to_string());
    assert_eq!(fsfacade::to_text(&c), "\"\\u0001\"");
    let f = JsonValue::Str("\u{c}".to_string());
    assert_eq!(fsfacade::to_text(&f), "\"\\u000c\"");
}

#[test]
fn render_empty_containers() {
    assert_eq!(fsfacade::to_text(&JsonValue::Arr(Vec::new())), "[]");
    assert_eq!(fsfacade::to_text(&JsonValue::Obj(Vec::new())), "{}");
}

#[test]
fn render_pretty_array() {
    let v = JsonValue::Arr(vec![JsonValue::Int(1), JsonValue::Int(2)]);
    assert_eq!(fsfacade::to_text(&v), "[\n  1,\n  2\n]");
}

#[test]
fn render_pretty_nested_object_keeps_key_order() {
    let v = obj(vec![
        ("z", JsonValue::Int(1)),
        ("a", JsonValue::Arr(vec![JsonValue::Bool(true), JsonValue::Null])),
    ]);
    assert_eq!(
        fsfacade::to_text(&v),
        "{\n  \"z\": 1,\n  \"a\": [\n    true,\n    null\n  ]\n}"
    );
}

#[test]
fn parse_atoms() {
    assert_eq!(fsfacade::parse_text("p", "null").unwrap(), JsonValue::Null);
    assert_eq!(fsfacade::parse_text("p", " true ").unwrap(), JsonValue::Bool(true));
    assert_eq!(fsfacade::parse_text("p", "false").unwrap(), JsonValue::Bool(false));
    assert_eq!(fsfacade::parse_text("p", " 42 ").unwrap(), JsonValue::Int(42));
    assert_eq!(fsfacade::parse_text("p", "-7").unwrap(), JsonValue::Int(-7));
    assert_eq!(fsfacade::parse_text("p", "0").unwrap(), JsonValue::Int(0));
}

#[test]
fn parse_extreme_integers() {
    assert_eq!(
        fsfacade::parse_text("p", "9223372036854775807").unwrap(),
        JsonValue::Int(i64::MAX)
    );
    assert_eq!(
        fsfacade::parse_text("p", "-9223372036854775808").unwrap(),
        JsonValue::Int(i64::MIN)
    );
    assert!(fsfacade::parse_text("p", "9223372036854775808").is_err());
    assert!(fsfacade::parse_text("p", "-9223372036854775809").is_err());
    assert!(fsfacade::parse_text("p", "99999999999999999999999999").is_err());
}

#[test]
fn parse_strings_and_escapes() {
    assert_eq!(
        fsfacade::parse_text("p", "\"a\\\"b\\\\c\\nd\"").unwrap(),
        JsonValue::Str("a\"b\\c\nd".to_string())
    );
    assert_eq!(
        fsfacade::parse_text("p", "\"\\u0041\\u000a\"").unwrap(),
        JsonValue::Str("A\n".to_string())
    );
    assert_eq!(
        fsfacade::parse_text("p", "\"\\/\\b\\f\"").unwrap(),
        JsonValue::Str("/\u{8}\u{c}".to_string())
    );
}

#[test]
fn parse_tolerates_whitespace_between_tokens() {
    let v = fsfacade::parse_text("p", "\t[ 1 ,\n 2 ]\r\n").unwrap();
    assert_eq!(v, JsonValue::Arr(vec![JsonValue::Int(1), JsonValue::Int(2)]));
}

#[test]
fn parse_objects_keep_order_and_duplicates() {
    let v = fsfacade::parse_text("p", "{\"z\": 1, \"a\": 2, \"z\": 3}").unwrap();
    let expected = obj(vec![
        ("z", JsonValue::Int(1)),
        ("a", JsonValue::Int(2)),
        ("z", JsonValue::Int(3)),
    ]);
    assert_eq!(v, expected);
}

#[test]
fn parse_rejects_malformed_documents() {
    for bad in [
        "", "tru", "nul", "falsey", "1.5", "1e3", "07", "- 1", "[1,]", "[1 2]", "{\"a\":}",
        "{\"a\" 1}", "{a: 1}", "\"unterminated", "null extra", "[1,2", "{\"k\":1,}", "+1",
        "\"bad\\escape\"",
    ] {
        let e = fsfacade::parse_text("doc", bad).unwrap_err();
        assert_eq!(e.kind, ErrorKind::Parse, "input {:?} should be rejected", bad);
        assert_eq!(e.path, "doc");
    }
}

#[test]
fn structured_round_trip_nested() {
    let v = obj(vec![
        ("name", JsonValue::Str("a \"quoted\" name\n".to_string())),
        ("count", JsonValue::Int(-12)),
        ("flags", JsonValue::Arr(vec![
            JsonValue::Bool(true),
            JsonValue::Null,
            JsonValue::Arr(Vec::new()),
            obj(vec![("inner", JsonValue::Int(0))]),
        ])),
        ("empty", JsonValue::Obj(Vec::new())),
    ]);
    let text = fsfacade::to_text(&v);
    let back = fsfacade::parse_text("p", &text).unwrap();
    assert_eq!(back, v);
}

#[test]
fn structured_round_trip_control_characters_in_keys() {
    let v = JsonValue::Obj(vec![JsonMember {
        key: "a\tb\u{3}".to_string(),
        value: JsonValue::Str("\u{1f}".to_string()),
    }]);
    let text = fsfacade::to_text(&v);
    assert_eq!(fsfacade::parse_text("p", &text).unwrap(), v);
}

#[test]
fn text_read_outcome_classifies() {
    let ok = fsfacade::text_read_outcome("p", Ok(b"hi".to_vec()));
    assert_eq!(ok.unwrap(), "hi");
    let e = fsfacade::text_read_outcome("p", Err("no such file".to_string())).unwrap_err();
    assert_eq!(e.kind, ErrorKind::Read);
    assert_eq!(e.path, "p");
    assert_eq!(e.cause, "no such file");
    let bad = fsfacade::text_read_outcome("p", Ok(vec![0xc0])).unwrap_err();
    assert_eq!(bad.kind, ErrorKind::Read);
}

#[test]
fn structured_read_outcome_distinguishes_read_and_parse_failures() {
    let ok = fsfacade::structured_read_outcome("p", Ok(b"{\n  \"k\": 1\n}".to_vec()));
    assert_eq!(ok.unwrap(), obj(vec![("k", JsonValue::Int(1))]));
    let io = fsfacade::structured_read_outcome("p", Err("denied".to_string())).unwrap_err();
    assert_eq!(io.kind, ErrorKind::Read);
    let enc = fsfacade::structured_read_outcome("p", Ok(vec![0xff])).unwrap_err();
    assert_eq!(enc.kind, ErrorKind::Read);
    let doc = fsfacade::structured_read_outcome("p", Ok(b"not json".to_vec())).unwrap_err();
    assert_eq!(doc.kind, ErrorKind::Parse);
}

#[test]
fn rendering_matches_reference_pretty_form() {
    let mut m = serde_json::Map::new();
    m.insert("z".to_string(), serde_json::Value::from(1i64));
    m.insert(
        "a".to_string(),
        serde_json::Value::Array(vec![
            serde_json::Value::Bool(true),
            serde_json::Value::Null,
            serde_json::Value::String("s".to_string()),
        ]),
    );
    let reference = serde_json::to_string_pretty(&serde_json::Value::Object(m)).unwrap();
    let ours = fsfacade::to_text(&obj(vec![
        ("z", JsonValue::Int(1)),
        ("a", JsonValue::Arr(vec![
            JsonValue::Bool(true),
            JsonValue::Null,
            JsonValue::Str("s".to_string()),
        ])),
    ]));
    assert_eq!(ours, reference);
}

#[test]
fn parser_reads_reference_output() {
    let mut m = serde_json::Map::new();
    m.insert("k".to_string(), serde_json::Value::from(-5i64));
    m.insert("l".to_string(), serde_json::Value::String("x\ny".to_string()));
    let text = serde_json::to_string_pretty(&serde_json::Value::Object(m)).unwrap();
    let v = fsfacade::parse_text("p", &text).unwrap();
    assert_eq!(
        v,
        obj(vec![
            ("k", JsonValue::Int(-5)),
            ("l", JsonValue::Str("x\ny".to_string())),
        ])
    );
}

#[test]
fn reference_parser_reads_our_output() {
    let v = obj(vec![
        ("s", JsonValue::Str("q\"\\\u{2}".to_string())),
        ("n", JsonValue::Int(12345)),
    ]);
    let text = fsfacade::to_text(&v);
    let parsed: serde_json::Value = serde_json::from_str(&text).unwrap();
    let mut m = serde_json::Map::new();
    m.insert("s".to_string(), serde_json::Value::String("q\"\\\u{2}".to_string()));
    m.insert("n".to_string(), serde_json::Value::from(12345i64));
    assert_eq!(parsed, serde_json::Value::Object(m));
}
