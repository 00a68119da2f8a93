use muon::context::Vars;
use muon::json::{resolve_path, Json};
use muon::model::{IncludeConfig, LoopConfig, SseEventExpectation, SseExpectation};
use muon::request::{prepare_request, resolve_url};
use muon::runner::{
    after_iteration, complete_include, complete_step, next_interval, next_step_key, observe, send_failure_result,
    should_run, slugify, until_holds, LoopAction, RunState, ScenarioRun,
};
use muon::{HttpMethod, HttpRequest, ResponseExpectation, TestConfig, TestScenario, TestStep};

fn conv(v: &serde_json::Value) -> Json {
    match v {
        serde_json::Value::Null => Json::Null,
        serde_json::Value::Bool(b) => Json::Bool(*b),
        serde_json::Value::Number(n) => match (n.as_u64(), n.as_i64()) {
            (Some(u), _) => Json::PosInt(u),
            (None, Some(i)) => Json::NegInt(i),
            _ => Json::Float(n.to_string()),
        },
        serde_json::Value::String(s) => Json::Str(s.clone()),
        serde_json::Value::Array(a) => Json::Arr(a.iter().map(conv).collect()),
        serde_json::Value::Object(m) => Json::Obj(m.iter().map(|(k, x)| (k.clone(), conv(x))).collect()),
    }
}

fn j(s: &str) -> Json {
    conv(&serde_json::from_str(s).unwrap())
}

fn expect_status(status: u16) -> ResponseExpectation {
    ResponseExpectation {
        status,
        headers: vec![],
        json: vec![],
        json_lengths: vec![],
        schema: None,
        contains: vec![],
        json_eq: None,
        json_ignore_fields: vec![],
        sse: None,
    }
}

fn get_step(name: &str, url: &str) -> TestStep {
    TestStep {
        name: name.to_string(),
        id: None,
        description: None,
        request: HttpRequest { method: HttpMethod::Get, url: url.to_string(), headers: vec![], query: vec![], body: None },
        expect: expect_status(200),
        save: vec![],
        condition: None,
        test: None,
        bind: vec![],
        loop_config: None,
        include_config: None,
    }
}

fn config(base: &str) -> TestConfig {
    let mut c = TestConfig::new();
    c.base_url = Some(base.to_string());
    c
}

fn scenario(name: &str, steps: Vec<TestStep>) -> TestScenario {
    TestScenario { name: name.to_string(), description: None, tags: vec![], steps, vars: vec![], config: config("http://localhost:8080") }
}

/// Runs one step against a canned response.
fn run_step(run: &mut ScenarioRun, step: &TestStep, idx: usize, cfg: &TestConfig, status: u16, body: &str) -> muon::StepResult {
    let prepared = prepare_request(&step.request, &run.state.vars, cfg).unwrap();
    let obs = observe(status, vec![], body.to_string(), step.expect.sse.is_some());
    complete_step(&mut run.state, step, idx, prepared.info(), obs, 1, &vec![])
}

#[test]
fn happy_path_one_step() {
    let mut step = get_step("list items", "/items");
    step.expect.json_lengths = vec![("data.items".to_string(), 2)];
    let sc = scenario("happy", vec![step.clone()]);
    let mut run = ScenarioRun::start(&sc);
    let r = run_step(&mut run, &step, 0, &sc.config, 200, r#"{"data":{"items":[{"id":"a"},{"id":"b"}]}}"#);
    assert!(r.success, "{:?}", r.error);
    assert_eq!(r.request.url, "http://localhost:8080/items");
    assert!(!run.record(r, false));
    let result = run.finish(&sc.name, 5);
    assert!(result.success);
    assert_eq!(result.steps.len(), 1);
    assert!(result.error.is_none());
}

#[test]
fn length_mismatch_fails_scenario() {
    let mut step = get_step("list items", "/items");
    step.expect.json_lengths = vec![("data.items".to_string(), 3)];
    let sc = scenario("mismatch", vec![step.clone()]);
    let mut run = ScenarioRun::start(&sc);
    let r = run_step(&mut run, &step, 0, &sc.config, 200, r#"{"data":{"items":[{"id":"a"},{"id":"b"}]}}"#);
    assert!(!r.success);
    assert!(r.error.as_ref().unwrap().contains("配列長が一致しません"));
    assert!(run.record(r, false));
    let result = run.finish(&sc.name, 5);
    assert!(!result.success);
    assert_eq!(result.error.as_deref(), Some("一部のステップが失敗しました"));
}

#[test]
fn save_then_substitute() {
    let mut s1 = get_step("get user", "/user");
    s1.save = vec![("uid".to_string(), "id".to_string())];
    let s2 = get_step("get user again", "/user/{{uid}}");
    let sc = scenario("save", vec![s1.clone(), s2.clone()]);
    let mut run = ScenarioRun::start(&sc);
    let r1 = run_step(&mut run, &s1, 0, &sc.config, 200, r#"{"id":"u_42"}"#);
    assert!(r1.success);
    let r2 = run_step(&mut run, &s2, 1, &sc.config, 200, "{}");
    assert!(r2.success);
    assert!(r2.request.url.contains("u_42"));
    assert_eq!(r2.request.url, "http://localhost:8080/user/u_42");
}

#[test]
fn sse_ordered_capture() {
    let body = "event: say\ndata: {\"index\":0,\"text\":\"Hello\"}\n\nevent: tool_call\ndata: {\"tool_id\":\"tc_001\",\"tool_name\":\"execute_command\"}\n\nevent: tool_call_args\ndata: {\"tool_id\":\"tc_001\",\"args\":\"echo hello\"}\n\nevent: tool_result\ndata: {\"tool_id\":\"tc_001\",\"output\":\"hello\",\"is_finished\":true}\n\nevent: usage\ndata: {\"prompt_tokens\":100}\n\nevent: done\ndata: {}\n";
    let blank = |e: &str| SseEventExpectation {
        event: e.to_string(),
        data: vec![],
        data_eq: None,
        ignore_fields: vec![],
        data_contains: None,
        data_exists: vec![],
        save: vec![],
    };
    let mut e1 = blank("tool_call");
    e1.save = vec![("tc_id".to_string(), "tool_id".to_string())];
    let mut e2 = blank("tool_call_args");
    e2.data = vec![("tool_id".to_string(), j("\"{{tc_id}}\""))];
    let mut e3 = blank("tool_result");
    e3.data_contains = Some("hello".to_string());
    let mut step = get_step("stream", "/stream");
    step.expect.sse = Some(SseExpectation { has_events: vec![], has_no_events: vec![], events: vec![e1, e2, e3] });
    let sc = scenario("sse", vec![step.clone()]);
    let mut run = ScenarioRun::start(&sc);
    let r = run_step(&mut run, &step, 0, &sc.config, 200, body);
    assert!(r.success, "{:?}", r.error);
    assert_eq!(run.state.vars.get(&"tc_id".to_string()), Some(&j("\"tc_001\"")));
    assert_eq!(run.state.vars.get(&"steps.stream.outputs.tool_call.0.tool_id".to_string()), Some(&j("\"tc_001\"")));
}

#[test]
fn loop_until_ready() {
    let mut step = get_step("status", "/status");
    let cfg_loop = LoopConfig {
        count: 5,
        until: Some("current.res.body.ready == true".to_string()),
        interval_ms: 10,
        multiplier_permille: None,
        max_interval_ms: None,
    };
    step.loop_config = Some(cfg_loop.clone());
    let sc = scenario("loop", vec![step.clone()]);
    let mut run = ScenarioRun::start(&sc);
    let bodies = [r#"{"ready":false}"#, r#"{"ready":false}"#, r#"{"ready":true}"#];
    let mut interval = cfg_loop.interval_ms;
    let mut iterations = 0;
    let mut last = None;
    for i in 0..cfg_loop.count {
        let r = run_step(&mut run, &step, 0, &sc.config, 200, bodies[(i as usize).min(2)]);
        iterations += 1;
        let held = until_holds(&cfg_loop, &run.state.vars);
        let action = after_iteration(&cfg_loop, i, held, r.success, interval);
        last = Some(r);
        match action {
            LoopAction::Return => break,
            LoopAction::Sleep(ms) => {
                assert_eq!(ms, 10);
                interval = next_interval(interval, &cfg_loop);
            },
            LoopAction::RunFinal => panic!("loop should have ended early"),
        }
    }
    assert_eq!(iterations, 3);
    assert!(last.unwrap().success);
}

#[test]
fn loop_decisions_and_backoff() {
    let cfg = LoopConfig { count: 2, until: None, interval_ms: 1000, multiplier_permille: Some(2500), max_interval_ms: Some(3000) };
    assert_eq!(after_iteration(&cfg, 0, false, true, 1000), LoopAction::Return);
    assert_eq!(after_iteration(&cfg, 0, false, false, 1000), LoopAction::Sleep(1000));
    assert_eq!(after_iteration(&cfg, 1, false, false, 1000), LoopAction::RunFinal);
    assert_eq!(next_interval(1000, &cfg), 2500);
    assert_eq!(next_interval(2500, &cfg), 3000);
    let plain = LoopConfig { count: 3, until: None, interval_ms: 1000, multiplier_permille: None, max_interval_ms: None };
    assert_eq!(next_interval(1000, &plain), 1000);
}

#[test]
fn include_with_var_override() {
    let mut child_step = get_step("hello", "/hello/{{name}}");
    child_step.id = Some("greet".to_string());
    let mut child = scenario("child", vec![child_step.clone()]);
    child.config.base_url = None;
    child.vars = vec![("name".to_string(), j("\"bob\""))];
    let mut parent_step = get_step("Run Child", "");
    parent_step.include_config = Some(IncludeConfig { path: "child.yaml".to_string(), vars: vec![("name".to_string(), j("\"alice\""))] });
    let parent = scenario("parent", vec![parent_step.clone()]);
    let mut prun = ScenarioRun::start(&parent);
    let inc = parent_step.include_config.clone().unwrap();
    let path = muon::runner::include_path(&inc, &prun.state.vars);
    assert_eq!(path, "child.yaml");
    muon::runner::prepare_included(&mut child, &inc, &prun.state.vars, &parent.config);
    assert_eq!(child.config.base_url.as_deref(), Some("http://localhost:8080"));
    let mut crun = ScenarioRun::start(&child);
    let r = run_step(&mut crun, &child_step, 0, &child.config, 200, "{}");
    assert_eq!(r.request.url, "http://localhost:8080/hello/alice");
    crun.record(r, false);
    let child_result = crun.finish(&child.name, 3);
    assert!(child_result.success);
    let pr = complete_include(&mut prun.state, &parent_step, 0, path, &child_result, 3);
    assert!(pr.success);
    assert_eq!(pr.request.method, "INCLUDE");
    let rec = prun.state.steps.get(&"run_child".to_string()).unwrap();
    assert_eq!(resolve_path(rec, "steps.hello.success"), Some(&j("true")));
}

#[test]
fn step_keys_slug_and_duplicates() {
    assert_eq!(slugify("  Create User!! (v2) "), "create_user_v2");
    assert_eq!(slugify("---"), "");
    let mut counts = Vars::new();
    let s = get_step("Get Item", "/x");
    assert_eq!(next_step_key(&s, 0, &mut counts), "get_item");
    assert_eq!(next_step_key(&s, 1, &mut counts), "get_item_2");
    assert_eq!(next_step_key(&s, 2, &mut counts), "get_item_3");
    let anon = get_step("!!!", "/x");
    assert_eq!(next_step_key(&anon, 4, &mut counts), "step5");
}

#[test]
fn context_after_step() {
    let s1 = get_step("first", "/a");
    let s2 = get_step("second", "/b");
    let sc = scenario("ctx", vec![s1.clone(), s2.clone()]);
    let mut run = ScenarioRun::start(&sc);
    run_step(&mut run, &s1, 0, &sc.config, 201, r#"{"data":{"id":7}}"#);
    let v = &run.state.vars;
    assert!(v.get(&"previous".to_string()).is_none());
    assert_eq!(v.get(&"steps.first.response.status".to_string()), Some(&j("201")));
    assert_eq!(v.get(&"steps.first.outputs.id".to_string()), Some(&j("7")));
    let steps = v.get(&"steps".to_string()).unwrap();
    assert_eq!(resolve_path(steps, "first.response.status"), Some(&j("201")));
    assert_eq!(resolve_path(v.get(&"current".to_string()).unwrap(), "res.body.data.id"), Some(&j("7")));
    run_step(&mut run, &s2, 1, &sc.config, 200, "plain");
    let v = &run.state.vars;
    assert_eq!(resolve_path(v.get(&"previous".to_string()).unwrap(), "res.status"), Some(&j("201")));
    assert_eq!(resolve_path(v.get(&"current".to_string()).unwrap(), "res.body"), Some(&j("\"plain\"")));
}

#[test]
fn test_expression_and_first_error() {
    let mut s = get_step("t", "/t");
    s.test = Some("current.res.status == 201".to_string());
    let sc = scenario("t", vec![s.clone()]);
    let mut run = ScenarioRun::start(&sc);
    let r = run_step(&mut run, &s, 0, &sc.config, 200, "{}");
    assert_eq!(r.error.as_deref(), Some("test expression failed: current.res.status == 201"));
    let mut s2 = get_step("t2", "/t");
    s2.expect.status = 201;
    s2.expect.contains = vec!["zzz".to_string()];
    let r2 = run_step(&mut run, &s2, 1, &sc.config, 200, "{}");
    assert_eq!(r2.error.as_deref(), Some("ステータスコードが期待値と一致しません。期待: 201, 実際: 200"));
}

#[test]
fn bind_and_condition() {
    let mut s = get_step("b", "/b");
    s.bind = vec![("who".to_string(), "current.res.body.name".to_string())];
    let sc = scenario("b", vec![s.clone()]);
    let mut run = ScenarioRun::start(&sc);
    let r = run_step(&mut run, &s, 0, &sc.config, 200, r#"{"name":"alice"}"#);
    assert!(r.success);
    assert_eq!(run.state.vars.get(&"who".to_string()), Some(&j("\"alice\"")));
    let mut c = get_step("c", "/c");
    c.condition = Some(" {{who}} ".to_string());
    assert!(!should_run(&c, &run.state.vars));
    run.state.vars.set("flag".to_string(), j("\"TRUE\""));
    c.condition = Some(" {{flag}} ".to_string());
    assert!(should_run(&c, &run.state.vars));
}

#[test]
fn url_resolution() {
    let base = Some("http://h:1/api/".to_string());
    assert_eq!(resolve_url("https://x.y/z", &base).unwrap(), "https://x.y/z");
    assert_eq!(resolve_url("/items", &base).unwrap(), "http://h:1/api/items");
    assert_eq!(resolve_url("", &Some("http://h:1".to_string())).unwrap(), "http://h:1/");
    assert_eq!(resolve_url("/items", &None).unwrap(), "/items");
    assert!(resolve_url("/items", &Some("not a url".to_string())).unwrap_err().starts_with("Invalid base_url"));
}

#[test]
fn headers_merge_and_body() {
    let mut s = get_step("p", "/p");
    s.request.method = HttpMethod::Post;
    s.request.headers = vec![("X-A".to_string(), "{{v}}".to_string())];
    s.request.body = Some(j(r#"{"k":"{{v}}"}"#));
    let mut cfg = config("http://h");
    cfg.headers = vec![("X-A".to_string(), "default".to_string()), ("X-B".to_string(), "b".to_string())];
    let mut vars = Vars::new();
    vars.set("v".to_string(), j("\"1\""));
    let p = prepare_request(&s.request, &vars, &cfg).unwrap();
    assert_eq!(p.headers, vec![("X-A".to_string(), "1".to_string()), ("X-B".to_string(), "b".to_string())]);
    assert_eq!(p.body.as_deref(), Some(r#"{"k":"1"}"#));
    assert_eq!(p.timeout_secs, 30);
    assert_eq!(p.info().method, "Post");
}

#[test]
fn send_failure_is_step_error() {
    let s = get_step("down", "/x/{{id}}");
    let mut vars = Vars::new();
    vars.set("id".to_string(), j("3"));
    let r = send_failure_result(&s, &vars, "connection refused", 4);
    assert!(!r.success);
    assert_eq!(r.error.as_deref(), Some("リクエスト送信エラー: connection refused"));
    assert_eq!(r.request.url, "/x/3");
    assert!(r.response.is_none());
}

#[test]
fn run_state_starts_from_vars() {
    let st = RunState::new(&vec![("a".to_string(), j("1"))]);
    assert_eq!(st.vars.get(&"a".to_string()), Some(&j("1")));
    assert!(st.previous.is_none());
}

#[test]
fn expectations_read_from_the_body_pass() {
    let body = r#"{"data":{"items":[{"id":"a"},{"id":"b"}],"map":{"x":1,"y":2},"kind":"list"}}"#;
    let doc = j(body);
    let mut step = get_step("self", "/self");
    for p in ["data.kind", "data.items.1.id", "data.map"] {
        step.expect.json.push((p.to_string(), resolve_path(&doc, p).unwrap().clone()));
    }
    step.expect.json_lengths = vec![("data.items".to_string(), 2), ("data.map".to_string(), 2)];
    let sc = scenario("self", vec![step.clone()]);
    let mut run = ScenarioRun::start(&sc);
    let r = run_step(&mut run, &step, 0, &sc.config, 200, body);
    assert!(r.success, "{:?}", r.error);
}

#[test]
fn json_lengths_wrong_type_and_missing() {
    let mut step = get_step("len", "/len");
    step.expect.json_lengths = vec![("data.kind".to_string(), 1), ("data.none".to_string(), 0)];
    let sc = scenario("len", vec![step.clone()]);
    let mut run = ScenarioRun::start(&sc);
    let r = run_step(&mut run, &step, 0, &sc.config, 200, r#"{"data":{"kind":"list"}}"#);
    assert!(!r.success);
    assert!(r.error.unwrap().contains("配列またはオブジェクトではありません"));
}

#[test]
fn object_length_mismatch_message() {
    let mut step = get_step("obj", "/obj");
    step.expect.json_lengths = vec![("data.entries".to_string(), 3)];
    let sc = scenario("obj", vec![step.clone()]);
    let mut run = ScenarioRun::start(&sc);
    let r = run_step(&mut run, &step, 0, &sc.config, 200, r#"{"data":{"entries":{"one":1,"two":2,"three":3,"four":4}}}"#);
    assert_eq!(r.error.as_deref(), Some("JSONパス 'data.entries' のオブジェクト要素数が一致しません。期待: 3, 実際: 4"));
}

#[test]
fn json_eq_expands_placeholders() {
    let mut step = get_step("eq", "/eq");
    step.expect.json_eq = Some(j(r#"{"id":"{{uid}}","n":1,"ts":0}"#));
    step.expect.json_ignore_fields = vec!["ts".to_string()];
    let sc = scenario("eq", vec![step.clone()]);
    let mut run = ScenarioRun::start(&sc);
    run.state.vars.set("uid".to_string(), j("\"u1\""));
    let r = run_step(&mut run, &step, 0, &sc.config, 200, r#"{"id":"u1","n":1,"ts":12345}"#);
    assert!(r.success, "{:?}", r.error);
    let r2 = run_step(&mut run, &step, 1, &sc.config, 200, "not json");
    assert_eq!(r2.error.as_deref(), Some("json_eq: response is not valid JSON"));
}

#[test]
fn base_url_that_cannot_join() {
    let err = resolve_url("items", &Some("mailto:someone".to_string())).unwrap_err();
    assert_eq!(err, "Failed to join base_url 'mailto:someone' with path 'items'");
}

#[test]
fn json_eq_expansion_that_breaks_json() {
    let mut step = get_step("eq", "/eq");
    step.expect.json_eq = Some(j(r#"{"a":"{{q}}"}"#));
    let sc = scenario("eq", vec![step.clone()]);
    let mut run = ScenarioRun::start(&sc);
    run.state.vars.set("q".to_string(), j(r#""x\"y""#));
    let r = run_step(&mut run, &step, 0, &sc.config, 200, r#"{"a":"x"}"#);
    assert_eq!(r.error.as_deref(), Some("json_eq: expected value is not valid JSON after expansion"));
}

#[test]
fn not_json_body_with_json_expectations() {
    let mut step = get_step("nj", "/nj");
    step.expect.json = vec![("a".to_string(), j("1"))];
    let sc = scenario("nj", vec![step.clone()]);
    let mut run = ScenarioRun::start(&sc);
    let r = run_step(&mut run, &step, 0, &sc.config, 200, "plain text");
    assert_eq!(r.error.as_deref(), Some("レスポンスが有効なJSONではありません"));
}

#[test]
fn save_paths_skip_empty_segments() {
    let mut step = get_step("s", "/s");
    step.save = vec![
        ("all".to_string(), "".to_string()),
        ("deep".to_string(), "a..b".to_string()),
        ("none".to_string(), "a.c".to_string()),
    ];
    let sc = scenario("s", vec![step.clone()]);
    let mut run = ScenarioRun::start(&sc);
    let r = run_step(&mut run, &step, 0, &sc.config, 200, r#"{"a":{"b":5}}"#);
    assert!(r.success);
    assert_eq!(run.state.vars.get(&"all".to_string()), Some(&j(r#"{"a":{"b":5}}"#)));
    assert_eq!(run.state.vars.get(&"deep".to_string()), Some(&j("5")));
    assert!(run.state.vars.get(&"none".to_string()).is_none());
}

#[test]
fn include_keys_are_told_apart() {
    let parent_step = get_step("Run Child", "");
    let mut st = RunState::new(&vec![]);
    let child = muon::TestResult { name: "c".to_string(), success: true, error: None, steps: vec![], duration_ms: 1 };
    complete_include(&mut st, &parent_step, 0, "c.yaml".to_string(), &child, 1);
    complete_include(&mut st, &parent_step, 1, "c.yaml".to_string(), &child, 1);
    assert!(st.steps.get(&"run_child".to_string()).is_some());
    assert!(st.steps.get(&"run_child_2".to_string()).is_some());
}
