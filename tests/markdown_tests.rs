use muon::markdown::{extract_scenario_code_blocks, is_scenario_fence_open, merge_config, parse_front_matter, MergeableConfig};
use muon::TestConfig;

const SAMPLE: &str = r#"---
name: "sample scenario"
description: "A sample"
vars:
  operator_id: tn_test
config:
  timeout: 10
---

# Sample Scenario

This text is ignored by the parser.

```yaml scenario
steps:
  - id: step1
    name: create something
    request:
      method: POST
      url: /v1/test
      body:
        key: value
    expect:
      status: 201
```

Some more explanation.

```yaml scenario
steps:
  - id: step2
    name: get something
    request:
      method: GET
      url: /v1/test/{{steps.step1.outputs.id}}
    expect:
      status: 200
```
"#;

#[test]
fn test_parse_front_matter() {
    let (fm, body_line) = parse_front_matter(SAMPLE).unwrap();
    assert!(fm.contains("name:"));
    assert!(fm.contains("operator_id"));
    assert!(body_line > 1);
}

#[test]
fn test_extract_code_blocks() {
    let blocks = extract_scenario_code_blocks(SAMPLE).unwrap();
    assert_eq!(blocks.len(), 2);
    assert!(blocks[0].content.contains("step1"));
    assert!(blocks[1].content.contains("step2"));
}

#[test]
fn front_matter_exact_text_and_line() {
    let (fm, line) = parse_front_matter("---\nname: t\nx: 1\n---\nbody\n").unwrap();
    assert_eq!(fm, "name: t\nx: 1");
    assert_eq!(line, 5);
}

#[test]
fn front_matter_must_open_first_line() {
    let err = parse_front_matter("\n---\nname: test\n---\n").unwrap_err();
    assert_eq!(err, "Markdown front matter must start with '---'");
    assert!(parse_front_matter("").is_err());
}

#[test]
fn front_matter_unclosed_is_error() {
    let err = parse_front_matter("---\nname: test\nno closing delimiter\n").unwrap_err();
    assert_eq!(err, "Closing '---' for front matter not found");
}

#[test]
fn code_block_line_numbers() {
    let blocks = extract_scenario_code_blocks("a\n```yaml scenario\nx: 1\ny: 2\n```\n").unwrap();
    assert_eq!(blocks.len(), 1);
    assert_eq!(blocks[0].line, 2);
    assert_eq!(blocks[0].content, "x: 1\ny: 2");
}

#[test]
fn unterminated_block_is_error() {
    let err = extract_scenario_code_blocks("---\nname: t\n---\n```yaml scenario\nsteps: []\n").unwrap_err();
    assert!(err.contains("Unterminated"));
    assert!(err.contains("line 4"));
}

#[test]
fn plain_yaml_blocks_are_ignored() {
    let blocks = extract_scenario_code_blocks("```yaml\nnot: this\n```\n```yaml scenario\nyes: 1\n```\n").unwrap();
    assert_eq!(blocks.len(), 1);
    assert_eq!(blocks[0].content, "yes: 1");
}

#[test]
fn fence_open_variants() {
    assert!(is_scenario_fence_open("```yaml scenario"));
    assert!(is_scenario_fence_open("```yaml Scenario"));
    assert!(is_scenario_fence_open("``` yaml scenario"));
    assert!(!is_scenario_fence_open("```yaml"));
    assert!(!is_scenario_fence_open("yaml scenario"));
}

#[test]
fn block_config_overrides_front_matter() {
    let mut cfg = TestConfig::new();
    cfg.timeout = 10;
    cfg.continue_on_failure = true;
    cfg.headers.push(("A".to_string(), "1".to_string()));
    let src = MergeableConfig {
        base_url: Some("http://x".to_string()),
        headers: Some(vec![("A".to_string(), "2".to_string()), ("B".to_string(), "3".to_string())]),
        timeout: Some(30),
        continue_on_failure: Some(false),
    };
    merge_config(&mut cfg, &src);
    assert_eq!(cfg.timeout, 30);
    assert!(!cfg.continue_on_failure);
    assert_eq!(cfg.base_url.as_deref(), Some("http://x"));
    assert_eq!(cfg.headers, vec![("A".to_string(), "2".to_string()), ("B".to_string(), "3".to_string())]);
    let keep = MergeableConfig { base_url: None, headers: None, timeout: None, continue_on_failure: None };
    merge_config(&mut cfg, &keep);
    assert_eq!(cfg.timeout, 30);
}
