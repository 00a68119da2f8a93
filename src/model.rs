//! Scenario, step, expectation and result shapes.
use vstd::prelude::*;
use crate::json::Json;

verus! {

/// An ordered, named sequence of HTTP steps with shared variables and config.
#[derive(Debug, Clone)]
pub struct TestScenario {
    pub name: String,
    pub description: Option<String>,
    /// Tags for filtering and grouping scenarios.
    pub tags: Vec<String>,
    pub steps: Vec<TestStep>,
    /// Initial variables, by name.
    pub vars: Vec<(String, Json)>,
    pub config: TestConfig,
}

/// One request, its checks and what it binds.
#[derive(Debug, Clone)]
pub struct TestStep {
    /// Human-readable step name.
    pub name: String,
    /// Optional step identifier for cross-step references.
    pub id: Option<String>,
    pub description: Option<String>,
    pub request: HttpRequest,
    /// Declarative response expectations.
    pub expect: ResponseExpectation,
    /// Variable name to dot-path into the response JSON.
    pub save: Vec<(String, String)>,
    /// The step runs only when this expands to `true` (any case).
    pub condition: Option<String>,
    /// Expression that must hold after the declarative checks.
    pub test: Option<String>,
    /// Variable name to expression, bound after `save`.
    pub bind: Vec<(String, String)>,
    /// Loop/retry configuration.
    pub loop_config: Option<LoopConfig>,
    /// Another scenario to run in place of a request.
    pub include_config: Option<IncludeConfig>,
}

/// Another scenario file run as a step.
#[derive(Debug, Clone)]
pub struct IncludeConfig {
    /// Path of the scenario file, relative to the current one.
    pub path: String,
    /// Variables handed to the included scenario, overriding its own.
    pub vars: Vec<(String, Json)>,
}

/// Loop/retry configuration of a step. Intervals are in milliseconds and the
/// backoff multiplier in thousandths.
#[derive(Debug, Clone)]
pub struct LoopConfig {
    /// Maximum number of iterations.
    pub count: u32,
    /// The loop stops once this expression holds.
    pub until: Option<String>,
    /// Interval before the second iteration.
    pub interval_ms: u64,
    /// Factor applied to the interval after each wait, in thousandths.
    pub multiplier_permille: Option<u64>,
    /// Cap on the interval.
    pub max_interval_ms: Option<u64>,
}

/// The iteration count of a loop when none is given.
pub fn default_loop_count() -> (r: u32)
    ensures
        r == 3,
{
    3
}

/// The interval of a loop when none is given: one second.
pub fn default_loop_interval_ms() -> (r: u64)
    ensures
        r == 1000,
{
    1000
}

/// An HTTP request to send.
#[derive(Debug, Clone)]
pub struct HttpRequest {
    pub method: HttpMethod,
    pub url: String,
    pub headers: Vec<(String, String)>,
    pub query: Vec<(String, String)>,
    pub body: Option<Json>,
}

/// The methods a step may use.
#[derive(Debug, Clone, Copy, PartialEq, Eq, Structural)]
pub enum HttpMethod {
    Get,
    Post,
    Put,
    Delete,
    Patch,
    Head,
    Options,
}

impl HttpMethod {
    pub open spec fn spec_name(self) -> Seq<char> {
        match self {
            HttpMethod::Get => "Get"@,
            HttpMethod::Post => "Post"@,
            HttpMethod::Put => "Put"@,
            HttpMethod::Delete => "Delete"@,
            HttpMethod::Patch => "Patch"@,
            HttpMethod::Head => "Head"@,
            HttpMethod::Options => "Options"@,
        }
    }

    /// The method's name as the captured request records it.
    pub fn name(&self) -> (r: String)
        ensures
            r@ == self.spec_name(),
    {
        let s = match self {
            HttpMethod::Get => "Get",
            HttpMethod::Post => "Post",
            HttpMethod::Put => "Put",
            HttpMethod::Delete => "Delete",
            HttpMethod::Patch => "Patch",
            HttpMethod::Head => "Head",
            HttpMethod::Options => "Options",
        };
        String::from_str(s)
    }
}

/// What a response must satisfy.
#[derive(Debug, Clone)]
pub struct ResponseExpectation {
    pub status: u16,
    /// Headers that must be present with exactly these values.
    pub headers: Vec<(String, String)>,
    /// Dot-path to expected value.
    pub json: Vec<(String, Json)>,
    /// Dot-path to expected length of an array or object.
    pub json_lengths: Vec<(String, usize)>,
    pub schema: Option<Json>,
    /// Substrings the raw body must contain.
    pub contains: Vec<String>,
    /// Full JSON equality check.
    pub json_eq: Option<Json>,
    /// Paths excluded from `json_eq`.
    pub json_ignore_fields: Vec<String>,
    /// Event stream expectations.
    pub sse: Option<SseExpectation>,
}

/// The status a step expects when none is given.
pub fn default_status_code() -> (r: u16)
    ensures
        r == 200,
{
    200
}

/// Expectations on an event stream.
#[derive(Debug, Clone)]
pub struct SseExpectation {
    /// Event types that must appear.
    pub has_events: Vec<String>,
    /// Event types that must not appear.
    pub has_no_events: Vec<String>,
    /// Ordered event assertions.
    pub events: Vec<SseEventExpectation>,
}

/// One ordered event assertion.
#[derive(Debug, Clone)]
pub struct SseEventExpectation {
    /// The event type to match.
    pub event: String,
    /// Field exact-match checks on the parsed data.
    pub data: Vec<(String, Json)>,
    /// Full equality check of the parsed data.
    pub data_eq: Option<Json>,
    /// Paths excluded from `data_eq`; `*` matches any one segment.
    pub ignore_fields: Vec<String>,
    /// Substring of the raw data.
    pub data_contains: Option<String>,
    /// Keys the parsed data must have.
    pub data_exists: Vec<String>,
    /// Variable name to dot-path into the event's data.
    pub save: Vec<(String, String)>,
}

/// Scenario-wide settings.
#[derive(Debug, Clone)]
pub struct TestConfig {
    pub base_url: Option<String>,
    /// Default headers of every request.
    pub headers: Vec<(String, String)>,
    /// Per-request timeout in seconds.
    pub timeout: u64,
    pub continue_on_failure: bool,
}

/// The per-request timeout when none is given, in seconds.
pub fn default_timeout() -> (r: u64)
    ensures
        r == 30,
{
    30
}

impl TestConfig {
    /// No base URL, no headers, the default timeout, stop on failure.
    pub fn new() -> (r: TestConfig)
        ensures
            r.base_url is None,
            r.headers@.len() == 0,
            r.timeout == 30,
            !r.continue_on_failure,
    {
        TestConfig { base_url: None, headers: Vec::new(), timeout: default_timeout(), continue_on_failure: false }
    }
}

impl Default for TestConfig {
    fn default() -> (r: TestConfig)
        ensures
            r.base_url is None,
            r.headers@.len() == 0,
            r.timeout == 30,
            !r.continue_on_failure,
    {
        TestConfig::new()
    }
}

/// Result of running one scenario.
#[derive(Debug, Clone)]
pub struct TestResult {
    pub name: String,
    pub success: bool,
    pub error: Option<String>,
    pub steps: Vec<StepResult>,
    pub duration_ms: u64,
}

/// Result of running one step.
#[derive(Debug, Clone)]
pub struct StepResult {
    pub name: String,
    pub success: bool,
    pub error: Option<String>,
    pub request: RequestInfo,
    pub response: Option<ResponseInfo>,
    pub duration_ms: u64,
}

/// The request as it was sent.
#[derive(Debug, Clone)]
pub struct RequestInfo {
    pub method: String,
    pub url: String,
    pub headers: Vec<(String, String)>,
    pub body: Option<String>,
}

/// The response as it was received.
#[derive(Debug, Clone)]
pub struct ResponseInfo {
    pub status: u16,
    pub headers: Vec<(String, String)>,
    pub body: Option<String>,
}

/// A run's report for the remote service.
#[derive(Debug, Clone)]
pub struct TestRunReport {
    pub scenarios: Vec<TestResult>,
    pub total_duration_ms: u64,
    pub timestamp: String,
    pub ci: Option<CiMetadata>,
}

/// CI environment details attached to a report.
#[derive(Debug, Clone)]
pub struct CiMetadata {
    pub provider: String,
    pub repository: String,
    pub branch: String,
    pub commit_sha: String,
    pub pr_number: Option<u64>,
    pub run_id: Option<String>,
    pub run_url: Option<String>,
}

/// What the report service answers.
#[derive(Debug, Clone)]
pub struct SubmitResponse {
    pub run_id: String,
    pub dashboard_url: Option<String>,
}

} // verus!
