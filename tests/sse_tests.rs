use muon::context::Vars;
use muon::json::Json;
use muon::model::{SseEventExpectation, SseExpectation};
use muon::sse::{build_sse_value, parse_sse_events, validate_sse};

fn conv(v: &serde_json::Value) -> Json {
    match v {
        serde_json::Value::Null => Json::Null,
        serde_json::Value::Bool(b) => Json::Bool(*b),
        serde_json::Value::Number(n) => match (n.as_u64(), n.as_i64()) {
            (Some(u), _) => Json::PosInt(u),
            (None, Some(i)) => Json::NegInt(i),
            _ => Json::Float(n.to_string()),
        },
        serde_json::Value::String(s) => Json::Str(s.clone()),
        serde_json::Value::Array(a) => Json::Arr(a.iter().map(conv).collect()),
        serde_json::Value::Object(m) => Json::Obj(m.iter().map(|(k, x)| (k.clone(), conv(x))).collect()),
    }
}

fn j(s: &str) -> Json {
    conv(&serde_json::from_str(s).unwrap())
}

fn sample_sse_body() -> &'static str {
    "event: say\n\
     data: {\"index\":0,\"text\":\"Hello\"}\n\
     \n\
     event: tool_call\n\
     data: {\"tool_id\":\"tc_001\",\"tool_name\":\"execute_command\"}\n\
     \n\
     event: tool_call_args\n\
     data: {\"tool_id\":\"tc_001\",\"args\":\"echo hello\"}\n\
     \n\
     event: tool_result\n\
     data: {\"tool_id\":\"tc_001\",\"output\":\"hello\",\"is_finished\":true}\n\
     \n\
     event: usage\n\
     data: {\"prompt_tokens\":100,\"completion_tokens\":50,\"total_tokens\":150,\"total_cost\":0.003}\n\
     \n\
     event: done\n\
     data: {}\n"
}

fn expectation(event: &str) -> SseEventExpectation {
    SseEventExpectation {
        event: event.to_string(),
        data: vec![],
        data_eq: None,
        ignore_fields: vec![],
        data_contains: None,
        data_exists: vec![],
        save: vec![],
    }
}

fn get_field<'a>(v: &'a Json, k: &str) -> Option<&'a Json> {
    muon::json::resolve_path(v, k)
}

#[test]
fn test_parse_sse_events() {
    let events = parse_sse_events(sample_sse_body());
    assert_eq!(events.len(), 6);
    assert_eq!(events[0].event_type, "say");
    assert_eq!(events[1].event_type, "tool_call");
    assert_eq!(events[2].event_type, "tool_call_args");
    assert_eq!(events[3].event_type, "tool_result");
    assert_eq!(events[4].event_type, "usage");
    assert_eq!(events[5].event_type, "done");
    let tc = events[1].data_json.as_ref().unwrap();
    assert_eq!(get_field(tc, "tool_id"), Some(&j("\"tc_001\"")));
    assert_eq!(get_field(tc, "tool_name"), Some(&j("\"execute_command\"")));
}

#[test]
fn test_parse_sse_events_no_trailing_blank() {
    let events = parse_sse_events("event: done\ndata: {}");
    assert_eq!(events.len(), 1);
    assert_eq!(events[0].event_type, "done");
}

#[test]
fn multiline_data_is_joined() {
    let events = parse_sse_events("event: m\r\ndata: a\r\ndata:  b \r\n\r\nevent: n\n");
    assert_eq!(events.len(), 2);
    assert_eq!(events[0].data_raw, "a\nb");
    assert!(events[0].data_json.is_none());
    assert_eq!(events[1].event_type, "n");
    assert_eq!(events[1].data_raw, "");
}

#[test]
fn test_build_sse_value() {
    let events = parse_sse_events(sample_sse_body());
    let value = build_sse_value(&events);
    assert!(get_field(&value, "say").is_some());
    assert!(get_field(&value, "tool_call").is_some());
    assert!(get_field(&value, "usage").is_some());
    assert!(get_field(&value, "done").is_some());
    match get_field(&value, "usage").unwrap() {
        Json::Arr(a) => assert_eq!(a.len(), 1),
        _ => panic!("usage is not an array"),
    }
    assert_eq!(get_field(&value, "usage.0.prompt_tokens"), Some(&j("100")));
}

#[test]
fn grouped_value_keeps_raw_text_and_order() {
    let events = parse_sse_events("event: a\ndata: x\n\nevent: a\ndata: 2\n\nevent: b\ndata: {}\n");
    let value = build_sse_value(&events);
    assert_eq!(value, j(r#"{"a":["x",2],"b":[{}]}"#));
}

#[test]
fn test_validate_has_events() {
    let events = parse_sse_events(sample_sse_body());
    let expect = SseExpectation {
        has_events: vec!["tool_call".into(), "usage".into(), "done".into()],
        has_no_events: vec!["error".into()],
        events: vec![],
    };
    let (errors, _) = validate_sse(&events, &expect, &Vars::new());
    assert!(errors.is_empty(), "Errors: {errors:?}");
}

#[test]
fn test_validate_has_events_missing() {
    let events = parse_sse_events(sample_sse_body());
    let expect = SseExpectation { has_events: vec!["nonexistent".into()], has_no_events: vec![], events: vec![] };
    let (errors, _) = validate_sse(&events, &expect, &Vars::new());
    assert_eq!(errors.len(), 1);
    assert!(errors[0].contains("nonexistent"));
}

#[test]
fn test_validate_has_no_events_violation() {
    let events = parse_sse_events(sample_sse_body());
    let expect = SseExpectation { has_events: vec![], has_no_events: vec!["usage".into()], events: vec![] };
    let (errors, _) = validate_sse(&events, &expect, &Vars::new());
    assert_eq!(errors.len(), 1);
    assert!(errors[0].contains("forbidden"));
}

#[test]
fn test_validate_ordered_events_with_save() {
    let events = parse_sse_events(sample_sse_body());
    let mut e1 = expectation("tool_call");
    e1.data = vec![("tool_name".to_string(), j("\"execute_command\""))];
    e1.save = vec![("tc_id".to_string(), "tool_id".to_string())];
    let mut e2 = expectation("tool_call_args");
    e2.data = vec![("tool_id".to_string(), j("\"{{tc_id}}\""))];
    let mut e3 = expectation("tool_result");
    e3.data = vec![("tool_id".to_string(), j("\"{{tc_id}}\""))];
    e3.data_contains = Some("hello".into());
    let mut e4 = expectation("usage");
    e4.data_exists = vec!["prompt_tokens".into(), "completion_tokens".into(), "total_cost".into()];
    let e5 = expectation("done");
    let expect = SseExpectation { has_events: vec![], has_no_events: vec![], events: vec![e1, e2, e3, e4, e5] };
    let (errors, saved) = validate_sse(&events, &expect, &Vars::new());
    assert!(errors.is_empty(), "Errors: {errors:?}");
    assert_eq!(saved.get(&"tc_id".to_string()), Some(&j("\"tc_001\"")));
}

#[test]
fn test_validate_data_mismatch() {
    let events = parse_sse_events(sample_sse_body());
    let mut e = expectation("tool_call");
    e.data = vec![("tool_name".to_string(), j("\"wrong_tool\""))];
    let expect = SseExpectation { has_events: vec![], has_no_events: vec![], events: vec![e] };
    let (errors, _) = validate_sse(&events, &expect, &Vars::new());
    assert_eq!(errors.len(), 1);
    assert!(errors[0].contains("mismatch"));
}

#[test]
fn test_validate_data_contains_failure() {
    let events = parse_sse_events(sample_sse_body());
    let mut e = expectation("tool_result");
    e.data_contains = Some("not_found_text".into());
    let expect = SseExpectation { has_events: vec![], has_no_events: vec![], events: vec![e] };
    let (errors, _) = validate_sse(&events, &expect, &Vars::new());
    assert_eq!(errors.len(), 1);
    assert!(errors[0].contains("does not contain"));
}

#[test]
fn test_validate_event_not_found() {
    let events = parse_sse_events("event: done\ndata: {}\n\n");
    let expect = SseExpectation { has_events: vec![], has_no_events: vec![], events: vec![expectation("tool_call")] };
    let (errors, _) = validate_sse(&events, &expect, &Vars::new());
    assert_eq!(errors.len(), 1);
    assert!(errors[0].contains("not found"));
}

#[test]
fn missed_event_leaves_cursor() {
    // The second expectation misses; the third still finds `b` after `a`.
    let events = parse_sse_events("event: a\ndata: {}\n\nevent: b\ndata: {}\n\n");
    let expect = SseExpectation {
        has_events: vec![],
        has_no_events: vec![],
        events: vec![expectation("a"), expectation("zzz"), expectation("b"), expectation("a")],
    };
    let (errors, _) = validate_sse(&events, &expect, &Vars::new());
    assert_eq!(errors.len(), 2);
    assert_eq!(errors[0], "SSE event[1]: expected event 'zzz' not found after scanning from position");
    assert!(errors[1].starts_with("SSE event[3]:"));
}

#[test]
fn data_eq_fills_type_and_ignores_fields() {
    let events = parse_sse_events("event: tool_call\ndata: {\"type\":\"tool_call\",\"id\":\"x1\",\"n\":1}\n\n");
    let mut e = expectation("tool_call");
    e.data_eq = Some(j(r#"{"id":"ignored","n":1}"#));
    e.ignore_fields = vec!["id".into()];
    let expect = SseExpectation { has_events: vec![], has_no_events: vec![], events: vec![e] };
    let (errors, _) = validate_sse(&events, &expect, &Vars::new());
    assert!(errors.is_empty(), "Errors: {errors:?}");
}

#[test]
fn save_of_missing_field_is_error() {
    let events = parse_sse_events("event: a\ndata: {\"x\":1}\n\n");
    let mut e = expectation("a");
    e.save = vec![("v".to_string(), "y".to_string())];
    let expect = SseExpectation { has_events: vec![], has_no_events: vec![], events: vec![e] };
    let (errors, saved) = validate_sse(&events, &expect, &Vars::new());
    assert_eq!(errors, vec!["SSE event[0] 'a': save field 'y' not found in data".to_string()]);
    assert!(saved.get(&"v".to_string()).is_none());
}

#[test]
fn checks_on_non_json_data() {
    let events = parse_sse_events("event: t\ndata: not json\n\n");
    let mut e = expectation("t");
    e.data = vec![("k".to_string(), j("1"))];
    e.data_eq = Some(j("{}"));
    e.data_exists = vec!["k".into()];
    e.data_contains = Some("json".into());
    let expect = SseExpectation { has_events: vec![], has_no_events: vec![], events: vec![e] };
    let (errors, _) = validate_sse(&events, &expect, &Vars::new());
    assert_eq!(
        errors,
        vec![
            "SSE event[0] 't': data is not valid JSON, cannot check fields".to_string(),
            "SSE event[0] 't': data is not valid JSON, cannot run data_eq check".to_string(),
            "SSE event[0] 't': data is not valid JSON, cannot check field existence for 'k'".to_string(),
        ]
    );
}
