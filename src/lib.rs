//! A declarative, scenario-driven HTTP API test runner: the verified core.
//!
//! Scenarios are ordered HTTP steps with expectations, variable bindings,
//! conditions and retry loops. This crate holds the logic that runs between
//! requests: the value model, path resolution, deep equality with ignore
//! patterns, placeholder expansion, event-stream framing and assertions,
//! expression evaluation, the per-step executor, the loop controller and
//! the scenario driver.
pub mod json;
pub mod text;
pub mod jsontext;
pub mod keys;
pub mod validator;
pub mod context;
pub mod placeholder;
pub mod model;
pub mod sse;
pub mod expression;
pub mod flatten;
pub mod request;
pub mod runner;
pub mod config;
pub mod markdown;
pub mod laws;
pub mod report;

pub use config::{is_markdown_scenario, is_runbook_file, is_scenario_file, TestConfigManager};
pub use model::{
    CiMetadata, HttpMethod, HttpRequest, IncludeConfig, LoopConfig, RequestInfo, ResponseExpectation,
    ResponseInfo, SseEventExpectation, SseExpectation, StepResult, SubmitResponse, TestConfig,
    TestResult, TestRunReport, TestScenario, TestStep,
};
pub use validator::{validate_contains, validate_data_eq, validate_headers, validate_json};

use vstd::prelude::*;

verus! {

/// The sum of two counts.
pub fn add(left: u64, right: u64) -> (r: u64)
    requires
        left + right <= u64::MAX,
    ensures
        r == left + right,
{
    left + right
}

} // verus!
