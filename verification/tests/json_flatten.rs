use wp_lang::json::{JsonNumber, JsonProc, JsonValue};
use wp_lang::pipe::{DataField, FieldValue};

fn s(text: &str) -> JsonValue {
    JsonValue::Str(serde_json::to_string(text).unwrap())
}

fn names(out: &[DataField]) -> Vec<&str> {
    out.iter().map(|f| f.name.as_str()).collect()
}

#[test]
fn flatten_object_with_array() {
    // {"name": "中国", "value": 96, "key": ["a","b","c"]}
    let v = JsonValue::Object(vec![
        ("name".to_string(), s("中国")),
        ("value".to_string(), JsonValue::Number(JsonNumber::PosInt(96))),
        ("key".to_string(), JsonValue::Array(vec![s("a"), s("b"), s("c")])),
    ]);
    let mut out = Vec::new();
    JsonProc::proc_value("", &v, "", false, &mut out, 128).unwrap();
    assert_eq!(names(&out), vec!["name", "value", "key[0]", "key[1]", "key[2]"]);
    assert!(matches!(&out[0].value, FieldValue::Chars(t) if t == "中国"));
    assert!(matches!(&out[1].value, FieldValue::Digit(96)));
    assert!(matches!(&out[3].value, FieldValue::Chars(t) if t == "b"));
}

#[test]
fn nested_paths_and_escapes_kept() {
    // {"a": {"b": null, "c": true, "p": "c:\\users"}}
    let v = JsonValue::Object(vec![(
        "a".to_string(),
        JsonValue::Object(vec![
            ("b".to_string(), JsonValue::Null),
            ("c".to_string(), JsonValue::Bool(true)),
            ("p".to_string(), s("c:\\users")),
        ]),
    )]);
    let mut out = Vec::new();
    JsonProc::proc_value("", &v, "", false, &mut out, 128).unwrap();
    assert_eq!(names(&out), vec!["a/c", "a/p"]);
    assert!(matches!(&out[0].value, FieldValue::Bool(true)));
    assert!(matches!(&out[1].value, FieldValue::Chars(t) if t == "c:\\\\users"));
}

#[test]
fn big_integers_become_text_and_floats_keep_bits() {
    let v = JsonValue::Array(vec![
        JsonValue::Number(JsonNumber::PosInt(u64::MAX)),
        JsonValue::Number(JsonNumber::NegInt(-5)),
        JsonValue::Number(JsonNumber::Float(1.5f64.to_bits())),
    ]);
    let mut out = Vec::new();
    JsonProc::proc_value("root", &v, "n", false, &mut out, 128).unwrap();
    assert_eq!(names(&out), vec!["root/n[0]", "root/n[1]", "root/n[2]"]);
    assert!(matches!(&out[0].value, FieldValue::Chars(t) if t == "18446744073709551615"));
    assert!(matches!(&out[1].value, FieldValue::Digit(-5)));
    assert!(matches!(&out[2].value, FieldValue::Float(b) if f64::from_bits(*b) == 1.5));
}

#[test]
fn too_deep_and_exact_mismatch_fail() {
    let v = JsonValue::Object(vec![(
        "a".to_string(),
        JsonValue::Object(vec![("b".to_string(), JsonValue::Bool(false))]),
    )]);
    let mut out = Vec::new();
    let e = JsonProc::proc_value("", &v, "", false, &mut out, 3).unwrap_err();
    assert_eq!(e.context, "json nested too deep");
    let mut out = Vec::new();
    assert!(JsonProc::proc_value("", &v, "", false, &mut out, 4).is_ok());
    let mut out = Vec::new();
    let e = JsonProc::proc_value("", &v, "", true, &mut out, 128).unwrap_err();
    assert_eq!(e.context, "exact_json mismatch");
}

fn conf(items: &[(&str, bool)]) -> Vec<(String, bool)> {
    items.iter().map(|(k, o)| (k.to_string(), *o)).collect()
}

fn keys(items: &[&str]) -> Vec<String> {
    items.iter().map(|k| k.to_string()).collect()
}

#[test]
fn missing_required_members() {
    let c = conf(&[("a", false), ("b", false), ("c/a", false), ("d", true), ("e", false)]);
    assert_eq!(JsonProc::missing_fields("", &c, &keys(&["a"])), Some("b, e".to_string()));
    assert_eq!(JsonProc::missing_fields("", &c, &keys(&["a", "b", "e"])), None);
    let nested = conf(&[("c/a", false), ("c/b", false), ("c/a", false), ("c/x/y", false)]);
    assert_eq!(JsonProc::missing_fields("c", &nested, &keys(&["a"])), Some("c/{b}".to_string()));
    assert_eq!(JsonProc::missing_fields("c", &nested, &keys(&[])), Some("c/{a, b}".to_string()));
    assert_eq!(JsonProc::missing_fields("z", &nested, &keys(&[])), None);
}

#[test]
fn failure_keeps_fields_pushed_before() {
    // {"a": 1, "b": {"c": {"d": 2}}} with a nesting bound of 3: "a" is pushed, "b/c/d" is too deep
    let v = JsonValue::Object(vec![
        ("a".to_string(), JsonValue::Number(JsonNumber::PosInt(1))),
        (
            "b".to_string(),
            JsonValue::Object(vec![(
                "c".to_string(),
                JsonValue::Object(vec![("d".to_string(), JsonValue::Number(JsonNumber::PosInt(2)))]),
            )]),
        ),
    ]);
    let mut out = vec![DataField::from_digit("before".to_string(), 0)];
    let e = JsonProc::proc_value("", &v, "", false, &mut out, 3).unwrap_err();
    assert_eq!(e.context, "json nested too deep");
    assert_eq!(names(&out), vec!["before", "a"]);
}

#[test]
fn array_item_fields() {
    // ["x", null, 5, [true], {"k": " v "}]
    let v = JsonValue::Array(vec![
        s("x"),
        JsonValue::Null,
        JsonValue::Number(JsonNumber::PosInt(5)),
        JsonValue::Array(vec![JsonValue::Bool(true)]),
        JsonValue::Object(vec![("k".to_string(), s(" v "))]),
    ]);
    let f = JsonProc::proc_array_value("p", &v, "arr", 0, 128).unwrap();
    assert_eq!(f.name, "arr");
    match &f.value {
        FieldValue::Array(items) => {
            assert_eq!(items.len(), 4);
            assert!(matches!(&items[0].value, FieldValue::Chars(t) if t == "x"));
            assert_eq!(items[0].name, "");
            assert!(matches!(&items[1].value, FieldValue::Digit(5)));
            assert!(matches!(&items[2].value, FieldValue::Array(inner) if inner.len() == 1));
            assert_eq!(items[3].name, "obj");
            match &items[3].value {
                FieldValue::Obj(m) => {
                    assert_eq!(m[0].0, "k");
                    assert_eq!(m[0].1.name, "k");
                    assert!(matches!(&m[0].1.value, FieldValue::Chars(t) if t == "v"));
                }
                _ => panic!("object expected"),
            }
        }
        _ => panic!("array expected"),
    }
    assert!(JsonProc::proc_array_value("", &JsonValue::Null, "n", 0, 128).is_none());
    assert!(JsonProc::proc_array_value("", &JsonValue::Bool(true), "n", 2, 1).is_none());
    // items deeper than the bound are left out
    let deep = JsonValue::Array(vec![JsonValue::Bool(true)]);
    match JsonProc::proc_array_value("", &deep, "d", 1, 1).unwrap().value {
        FieldValue::Array(items) => assert!(items.is_empty()),
        _ => panic!("array expected"),
    }
}

#[test]
fn error_names_what_ended_flattening() {
    // {"a": {"b": 1}}: with the exact check, the first member too deep is named as such
    let v = JsonValue::Object(vec![(
        "a".to_string(),
        JsonValue::Object(vec![("b".to_string(), JsonValue::Number(JsonNumber::PosInt(1)))]),
    )]);
    let mut out = Vec::new();
    let e = JsonProc::proc_value("", &v, "", true, &mut out, 1).unwrap_err();
    assert_eq!(e.context, "json nested too deep");
    assert!(out.is_empty());
    let e = JsonProc::proc_value("", &v, "", true, &mut out, 128).unwrap_err();
    assert_eq!(e.context, "exact_json mismatch");
    assert!(out.is_empty());
}

#[test]
fn test_json_array() {
    // {"name": "中国", "value": 96, "key" : ["a","b","c"] }: every member is
    // named by the rule, so array items become fields `key[0]`, `key[1]`, ...
    let v = JsonValue::Object(vec![
        ("name".to_string(), s("中国")),
        ("value".to_string(), JsonValue::Number(JsonNumber::PosInt(96))),
        ("key".to_string(), JsonValue::Array(vec![s("a"), s("b"), s("c")])),
    ]);
    let mut out = Vec::new();
    JsonProc::proc_value("", &v, "", false, &mut out, JsonProc::MAX_DEPTH).unwrap();
    assert!(out.iter().any(|f| f.name == "key[0]"), "json parse error");
}

#[test]
fn required_members_are_checked_in_exact_mode() {
    let conf = vec![("a".to_string(), false), ("b".to_string(), false), ("c/a".to_string(), false), ("o".to_string(), true)];
    let keys = |ks: &[&str]| ks.iter().map(|k| k.to_string()).collect::<Vec<_>>();
    // {"a":1} lacks the required b
    let e = JsonProc::check_required_members(true, Some(&conf), "", &keys(&["a"])).unwrap_err();
    assert_eq!(e.context, "exact_json missing fields");
    assert!(JsonProc::check_required_members(true, Some(&conf), "", &keys(&["a", "b", "c"])).is_ok());
    assert!(JsonProc::check_required_members(false, Some(&conf), "", &keys(&["a"])).is_ok());
    assert!(JsonProc::check_required_members(true, None, "", &keys(&[])).is_ok());
    assert!(JsonProc::check_required_members(true, Some(&conf), "c", &keys(&[])).is_err());
    assert!(JsonProc::check_required_members(true, Some(&conf), "c", &keys(&["a"])).is_ok());
    assert_eq!(JsonProc::exact_check(true, false).unwrap_err().context, "exact_json mismatch");
    assert!(JsonProc::exact_check(true, true).is_ok());
    assert!(JsonProc::exact_check(false, false).is_ok());
}
