use muon::config::{is_markdown_scenario, is_runbook_file, is_scenario_file, scenario_format, ScenarioFormat};
use muon::TestConfigManager;

#[test]
fn test_yaml_is_scenario_file() {
    assert!(is_scenario_file("test.yaml"));
    assert!(is_scenario_file("test.yml"));
    assert!(is_scenario_file("dir/nested/foo.yaml"));
}

#[test]
fn test_markdown_is_scenario_file() {
    assert!(is_scenario_file("test.scenario.md"));
    assert!(is_scenario_file("dir/nested/foo.scenario.md"));
}

#[test]
fn test_non_scenario_files_rejected() {
    assert!(!is_scenario_file("readme.md"));
    assert!(!is_scenario_file("test.json"));
    assert!(!is_scenario_file("test.toml"));
    assert!(!is_scenario_file("test.txt"));
    assert!(!is_scenario_file("no_ext"));
}

#[test]
fn test_plain_md_not_scenario() {
    assert!(!is_scenario_file("notes.md"));
    assert!(!is_scenario_file("dir/README.md"));
}

#[test]
fn test_markdown_scenario_detection() {
    assert!(is_markdown_scenario("foo.scenario.md"));
    assert!(!is_markdown_scenario("foo.yaml"));
    assert!(!is_markdown_scenario("foo.md"));
    assert!(!is_markdown_scenario("scenario.md.bak"));
}

#[test]
fn test_is_runbook_file() {
    assert!(is_runbook_file("test.runbook.yml"));
    assert!(is_runbook_file("test.runbook.yaml"));
    assert!(is_runbook_file("test.runn.yml"));
    assert!(is_runbook_file("test.runn.yaml"));
    assert!(!is_runbook_file("test.yaml"));
    assert!(!is_runbook_file("test.scenario.md"));
}

#[test]
fn hidden_file_has_no_extension() {
    assert!(!is_scenario_file(".yaml"));
    assert!(is_scenario_file("dir/.hidden.yml"));
    assert!(!is_scenario_file("dir/.."));
    assert!(is_scenario_file("dir/a.yaml/"));
}

#[test]
fn runbook_counts_as_scenario_file() {
    assert!(is_scenario_file("flows/login.runbook.yml"));
    assert_eq!(scenario_format("flows/login.runbook.yml"), ScenarioFormat::Runbook);
    assert_eq!(scenario_format("a.scenario.md"), ScenarioFormat::Markdown);
    assert_eq!(scenario_format("a.yml"), ScenarioFormat::Yaml);
}

#[test]
fn config_manager_paths() {
    let mut m = TestConfigManager::new();
    assert_eq!(m.test_paths, vec!["tests/scenarios".to_string()]);
    m.add_path(".");
    assert_eq!(m.test_paths.len(), 2);
    assert_eq!(m.test_paths[1], ".");
}

#[test]
fn add_sums() {
    assert_eq!(muon::add(2, 3), 5);
}
