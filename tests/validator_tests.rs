use muon::context::Vars;
use muon::json::{get_by_json_path, resolve_path, Json};
use muon::placeholder::expand_variables;
use muon::validator::is_field_ignored;
use muon::{validate_contains, validate_data_eq, validate_headers, validate_json};

fn conv(v: &serde_json::Value) -> Json {
    match v {
        serde_json::Value::Null => Json::Null,
        serde_json::Value::Bool(b) => Json::Bool(*b),
        serde_json::Value::Number(n) => match (n.as_u64(), n.as_i64()) {
            (Some(u), _) => Json::PosInt(u),
            (None, Some(i)) => Json::NegInt(i),
            _ => Json::Float(n.to_string()),
        },
        serde_json::Value::String(s) => Json::Str(s.clone()),
        serde_json::Value::Array(a) => Json::Arr(a.iter().map(conv).collect()),
        serde_json::Value::Object(m) => Json::Obj(m.iter().map(|(k, x)| (k.clone(), conv(x))).collect()),
    }
}

fn j(s: &str) -> Json {
    conv(&serde_json::from_str(s).unwrap())
}

fn strings(v: &[&str]) -> Vec<String> {
    v.iter().map(|s| s.to_string()).collect()
}

#[test]
fn test_json_validation() {
    let json_str = r#"{"name":"テスト","data":{"value":123,"nested":{"foo":"bar"}}}"#;
    let expectations = vec![
        ("name".to_string(), j("\"テスト\"")),
        ("data.value".to_string(), j("123")),
        ("data.nested.foo".to_string(), j("\"bar\"")),
    ];
    let errors = validate_json(json_str, &expectations).unwrap();
    assert!(errors.is_empty());
    let fail_expectations = vec![("name".to_string(), j("\"違う名前\""))];
    let errors = validate_json(json_str, &fail_expectations).unwrap();
    assert!(!errors.is_empty());
}

#[test]
fn validate_json_rejects_non_json() {
    let r = validate_json("not json", &vec![]);
    assert!(r.is_err());
}

#[test]
fn validate_json_missing_path() {
    let errors = validate_json(r#"{"a":1}"#, &vec![("b".to_string(), j("1"))]).unwrap();
    assert_eq!(errors, vec!["JSONパス 'b' がレスポンスに存在しません".to_string()]);
}

#[test]
fn path_lookup_variants() {
    let v = j(r#"{"a":{"items":[{"id":"x"},{"id":"y"}]},"":{"k":1}}"#);
    assert_eq!(resolve_path(&v, "a.items.1.id"), Some(&j("\"y\"")));
    assert_eq!(resolve_path(&v, "a..items.0.id"), Some(&j("\"x\"")));
    assert_eq!(resolve_path(&v, ""), Some(&v));
    assert_eq!(resolve_path(&v, "a.items.2"), None);
    assert_eq!(resolve_path(&v, "a.items.+1.id"), Some(&j("\"y\"")));
    assert_eq!(get_by_json_path(&v, "a..items.0.id"), Some(&j("\"x\"")));
    assert_eq!(get_by_json_path(&v, ""), Some(&v));
    assert_eq!(get_by_json_path(&v, ".k"), None);
    assert_eq!(get_by_json_path(&v, "a.items.0.id"), Some(&j("\"x\"")));
}

#[test]
fn contains_reports_each_missing_text() {
    let errors = validate_contains("Hello runner world", &strings(&["runner", "absent", "Hello"]));
    assert_eq!(errors, vec!["レスポンスボディに期待するテキスト 'absent' が含まれていません".to_string()]);
    assert!(validate_contains("", &strings(&[""])).is_empty());
}

#[test]
fn headers_missing_and_mismatch() {
    let headers = vec![("x-test-header".to_string(), "ok".to_string())];
    let exp = vec![
        ("x-test-header".to_string(), "ng".to_string()),
        ("x-other".to_string(), "1".to_string()),
        ("x-test-header".to_string(), "ok".to_string()),
    ];
    let errors = validate_headers(&headers, &exp);
    assert_eq!(errors.len(), 2);
    assert!(errors[0].contains("ヘッダー 'x-test-header' の値が期待値と一致しません"));
    assert_eq!(errors[1], "ヘッダー 'x-other' がレスポンスに存在しません");
}

#[test]
fn ignore_patterns() {
    let ig = strings(&["items.*.id", "meta"]);
    assert!(is_field_ignored("items.3.id", &ig));
    assert!(is_field_ignored("meta", &ig));
    assert!(!is_field_ignored("meta.x", &ig));
    assert!(!is_field_ignored("items.3", &ig));
    assert!(!is_field_ignored("", &strings(&[])));
}

#[test]
fn data_eq_reports_all_differences_in_key_order() {
    let actual = j(r#"{"b":1,"a":[1,2,3],"c":{"x":true},"extra":0}"#);
    let expected = j(r#"{"a":[1,5],"b":1,"c":{"x":false},"d":null}"#);
    let errors = validate_data_eq(&actual, &expected, &[], "");
    assert_eq!(
        errors,
        strings(&[
            "data_eq 'a': array length mismatch - expected 2, got 3",
            "data_eq 'a.1': value mismatch - expected 5, got 2",
            "data_eq 'c.x': value mismatch - expected false, got true",
            "data_eq 'd': missing field (expected: null)",
            "data_eq 'extra': unexpected field (value: 0)",
        ])
    );
}

#[test]
fn data_eq_with_wildcards() {
    let actual = j(r#"{"items":[{"id":"r1","v":1},{"id":"r2","v":2}]}"#);
    let expected = j(r#"{"items":[{"id":"x","v":1},{"id":"y","v":2}]}"#);
    assert!(validate_data_eq(&actual, &expected, &strings(&["items.*.id"]), "").is_empty());
    assert_eq!(validate_data_eq(&actual, &expected, &[], "").len(), 2);
}

#[test]
fn data_eq_is_reflexive() {
    let v = j(r#"{"a":[1,{"b":null}],"c":"x"}"#);
    assert!(validate_data_eq(&v, &v, &strings(&["a.*"]), "").is_empty());
    assert!(validate_data_eq(&v, &v, &[], "root").is_empty());
}

#[test]
fn data_eq_same_list_twice() {
    let a = j(r#"{"z":1,"y":[2]}"#);
    let b = j(r#"{"y":[3],"x":0}"#);
    assert_eq!(validate_data_eq(&a, &b, &[], ""), validate_data_eq(&a, &b, &[], ""));
}

#[test]
fn placeholders_fill_from_context() {
    let mut vars = Vars::new();
    vars.set("uid".to_string(), j("\"u_42\""));
    vars.set("obj".to_string(), j(r#"{"b":2,"a":1}"#));
    vars.set("n".to_string(), j("7"));
    assert_eq!(expand_variables("/user/{{uid}}", &vars), "/user/u_42");
    assert_eq!(expand_variables("{{ vars.uid }}-{{n}}", &vars), "u_42-7");
    assert_eq!(expand_variables("{{obj}}", &vars), r#"{"a":1,"b":2}"#);
    assert_eq!(expand_variables("{{missing}} stays", &vars), "{{missing}} stays");
}

#[test]
fn text_without_placeholders_is_unchanged() {
    let mut vars = Vars::new();
    vars.set("a".to_string(), j("1"));
    let once = expand_variables("plain {a} text }}", &vars);
    assert_eq!(once, "plain {a} text }}");
    assert_eq!(expand_variables(&once, &vars), once);
}

#[test]
fn compare_agrees_with_data_eq() {
    let pairs = [
        (r#"{"a":[1,{"b":null}]}"#, r#"{"a":[1,{"b":null}]}"#),
        (r#"{"a":1}"#, r#"{"a":1,"b":2}"#),
        ("[1,2]", "[1,2,3]"),
        ("1", "1.0"),
        ("\"x\"", "\"x\""),
    ];
    for (a, b) in pairs {
        let (a, b) = (j(a), j(b));
        assert_eq!(muon::expression::compare_values(&a, &b), validate_data_eq(&a, &b, &[], "").is_empty());
    }
}
