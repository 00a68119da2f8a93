use muon::context::Vars;
use muon::expression::{
    bound_value, compare_values, diff_values, evaluate_test, form_urlencode, is_truthy, kind_name,
    preprocess_expr, resolve_value, test_verdict, CelFailure,
};
use muon::json::Json;

fn conv(v: &serde_json::Value) -> Json {
    match v {
        serde_json::Value::Null => Json::Null,
        serde_json::Value::Bool(b) => Json::Bool(*b),
        serde_json::Value::Number(n) => match (n.as_u64(), n.as_i64()) {
            (Some(u), _) => Json::PosInt(u),
            (None, Some(i)) => Json::NegInt(i),
            _ => Json::Float(n.to_string()),
        },
        serde_json::Value::String(s) => Json::Str(s.clone()),
        serde_json::Value::Array(a) => Json::Arr(a.iter().map(conv).collect()),
        serde_json::Value::Object(m) => Json::Obj(m.iter().map(|(k, x)| (k.clone(), conv(x))).collect()),
    }
}

fn j(s: &str) -> Json {
    conv(&serde_json::from_str(s).unwrap())
}

fn make_vars(pairs: Vec<(&str, &str)>) -> Vars {
    let mut v = Vars::new();
    for (k, text) in pairs {
        v.set(k.to_string(), j(text));
    }
    v
}

#[test]
fn test_simple_comparison() {
    let vars = make_vars(vec![("x", "10")]);
    assert!(evaluate_test("x == 10", &vars).unwrap());
    assert!(evaluate_test("x > 5", &vars).unwrap());
    assert!(!evaluate_test("x < 5", &vars).unwrap());
}

#[test]
fn test_logical_operators() {
    let vars = make_vars(vec![("x", "10"), ("y", "20")]);
    assert!(evaluate_test("x == 10 && y == 20", &vars).unwrap());
    assert!(evaluate_test("x == 10 || y == 99", &vars).unwrap());
    assert!(!evaluate_test("x == 99 && y == 20", &vars).unwrap());
}

#[test]
fn test_nested_object_access() {
    let vars = make_vars(vec![("current", r#"{"res":{"status":200,"body":{"name":"alice","items":[1,2,3]}}}"#)]);
    assert!(evaluate_test("current.res.status == 200", &vars).unwrap());
    assert!(evaluate_test("current.res.body.name == \"alice\"", &vars).unwrap());
    assert!(evaluate_test("size(current.res.body.items) == 3", &vars).unwrap());
}

#[test]
fn test_len_alias() {
    let vars = make_vars(vec![("items", "[1,2,3]")]);
    assert!(evaluate_test("len(items) == 3", &vars).unwrap());
    assert!(evaluate_test("len(items) > 0", &vars).unwrap());
}

#[test]
fn test_string_functions() {
    let vars = make_vars(vec![("name", "\"hello_world\"")]);
    assert!(evaluate_test("name.contains(\"hello\")", &vars).unwrap());
    assert!(evaluate_test("name.startsWith(\"hello\")", &vars).unwrap());
    assert!(evaluate_test("name.endsWith(\"world\")", &vars).unwrap());
}

#[test]
fn test_regex_matches() {
    let vars = make_vars(vec![("id", "\"us_01abc123\"")]);
    assert!(evaluate_test("id.matches(\"^us_\")", &vars).unwrap());
    assert!(!evaluate_test("id.matches(\"^admin_\")", &vars).unwrap());
}

#[test]
fn test_resolve_value() {
    let vars = make_vars(vec![("res", r#"{"body":{"id":"user_123","count":42}}"#)]);
    assert_eq!(resolve_value("res.body.id", &vars).unwrap(), j("\"user_123\""));
    assert_eq!(resolve_value("res.body.count", &vars).unwrap(), j("42"));
}

#[test]
fn test_compare_function() {
    let vars = make_vars(vec![("a", r#"{"x":1}"#), ("b", r#"{"x":1}"#), ("c", r#"{"x":2}"#)]);
    assert!(evaluate_test("compare(a, b)", &vars).unwrap());
    assert!(!evaluate_test("compare(a, c)", &vars).unwrap());
}

#[test]
fn test_type_of_function() {
    let vars = make_vars(vec![
        ("s", "\"hello\""),
        ("n", "-5"),
        ("u", "42"),
        ("f", "3.14"),
        ("b", "true"),
        ("a", "[1,2]"),
        ("m", r#"{"x":1}"#),
    ]);
    assert!(evaluate_test("type_of(s) == \"string\"", &vars).unwrap());
    assert!(evaluate_test("type_of(n) == \"int\"", &vars).unwrap());
    assert!(evaluate_test("type_of(u) == \"uint\"", &vars).unwrap());
    assert!(evaluate_test("type_of(f) == \"double\"", &vars).unwrap());
    assert!(evaluate_test("type_of(b) == \"bool\"", &vars).unwrap());
    assert!(evaluate_test("type_of(a) == \"list\"", &vars).unwrap());
    assert!(evaluate_test("type_of(m) == \"map\"", &vars).unwrap());
}

#[test]
fn test_type_alias() {
    let vars = make_vars(vec![("x", "\"hello\"")]);
    assert!(evaluate_test("type(x) == \"string\"", &vars).unwrap());
}

#[test]
fn test_has_builtin() {
    let vars = make_vars(vec![("obj", r#"{"name":"alice","age":30}"#)]);
    assert!(evaluate_test("has(obj.name)", &vars).unwrap());
    assert!(!evaluate_test("has(obj.email)", &vars).unwrap());
}

#[test]
fn test_in_operator() {
    let vars = make_vars(vec![("items", r#"["a","b","c"]"#)]);
    assert!(evaluate_test("\"a\" in items", &vars).unwrap());
    assert!(!evaluate_test("\"z\" in items", &vars).unwrap());
}

#[test]
fn test_ternary_operator() {
    let vars = make_vars(vec![("x", "10")]);
    assert_eq!(resolve_value("x > 5 ? \"big\" : \"small\"", &vars).unwrap(), j("\"big\""));
}

#[test]
fn test_compile_error() {
    let vars = Vars::new();
    let result = evaluate_test("invalid %%% expr", &vars);
    assert!(result.is_err());
    assert!(result.unwrap_err().starts_with("CEL compile error for 'invalid %%% expr'"));
}

#[test]
fn test_urlencode_function() {
    let vars = make_vars(vec![("q", "\"hello world&foo=bar\"")]);
    assert_eq!(resolve_value("urlencode(q)", &vars).unwrap(), j("\"hello+world%26foo%3Dbar\""));
}

#[test]
fn test_runn_style_expression() {
    let vars = make_vars(vec![(
        "current",
        r#"{"res":{"status":201,"body":{"id":"us_01abc","name":"alice","roles":["admin","user"]},"headers":{"content-type":"application/json"}}}"#,
    )]);
    assert!(evaluate_test(
        r#"current.res.status == 201
        && current.res.body.name == "alice"
        && size(current.res.body.roles) > 0
        && current.res.body.id.startsWith("us_")"#,
        &vars,
    )
    .unwrap());
}

#[test]
fn aliases_are_rewritten() {
    assert_eq!(preprocess_expr("len(a) + type(b) + xlen(c)"), "size(a) + type_of(b) + xlen(c)");
}

#[test]
fn truthiness_coercion() {
    assert!(!is_truthy(&j("0")));
    assert!(is_truthy(&j("-3")));
    assert!(!is_truthy(&j("0.0")));
    assert!(!is_truthy(&j("-0.0e5")));
    assert!(is_truthy(&j("0.5")));
    assert!(!is_truthy(&j("\"\"")));
    assert!(is_truthy(&j("\"x\"")));
    assert!(!is_truthy(&j("null")));
    assert!(!is_truthy(&j("[]")));
    assert!(is_truthy(&j("{\"a\":1}")));
    assert!(!is_truthy(&j("false")));
}

#[test]
fn verdict_from_outcomes() {
    assert_eq!(test_verdict("x", &Ok((0, j("1")))), Ok(true));
    assert_eq!(test_verdict("x", &Ok((5, j("[]")))), Ok(false));
    assert_eq!(test_verdict("x", &Ok((8, j("\"\"")))), Ok(true));
    assert_eq!(test_verdict("x", &Ok((2, j("null")))), Ok(true));
    assert_eq!(test_verdict("x", &Ok((7, j("null")))), Ok(false));
    assert_eq!(test_verdict("x", &Err(CelFailure::Convert("f".into()))), Ok(true));
    assert_eq!(test_verdict("x y", &Err(CelFailure::Compile("bad".into()))), Err("CEL compile error for 'x y': bad".to_string()));
    assert_eq!(test_verdict("x", &Err(CelFailure::Execute("boom".into()))), Err("CEL execution error: boom".to_string()));
    assert_eq!(bound_value("x", &Err(CelFailure::Convert("f".into()))), Err("Failed to convert CEL value to JSON: f".to_string()));
}

#[test]
fn registered_helpers() {
    assert!(compare_values(&j(r#"{"a":[1,2]}"#), &j(r#"{"a":[1,2]}"#)));
    assert!(!compare_values(&j("1"), &j("1.0")));
    assert_eq!(diff_values(&j("1"), &j("1")), "");
    assert_eq!(diff_values(&j("1"), &j("2")), "expected 2, got 1");
    assert_eq!(kind_name(5), "list");
    assert_eq!(kind_name(200), "unknown");
    assert_eq!(form_urlencode("a b&c=d*-._~é"), "a+b%26c%3Dd*-._%7E%C3%A9");
    let vars = make_vars(vec![("a", "1"), ("b", "2")]);
    assert_eq!(resolve_value("diff(a, b)", &vars).unwrap(), j("\"expected 2, got 1\""));
}

#[test]
fn execution_error_is_reported() {
    let r = evaluate_test("missing_var == 1", &Vars::new());
    assert!(r.unwrap_err().starts_with("CEL execution error: "));
}

#[test]
fn empty_bytes_count_as_true() {
    assert_eq!(evaluate_test("b''", &Vars::new()), Ok(true));
    assert_eq!(evaluate_test("''", &Vars::new()), Ok(false));
}
