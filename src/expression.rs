//! Expressions for `test`, `bind` and `until`: aliases, evaluation through
//! the CEL interpreter, truthiness and the registered helper functions.
use vstd::prelude::*;
use crate::context::Vars;
use crate::json::{json_equal, Json, JVal};
use crate::jsontext::{json_from_serde, json_render, json_to_serde, render_json};
use crate::text::{chars_of, push_str, string_of};
use cel::Value as Cv;
use std::sync::Arc;
use vstd::string::StringSliceAdditionalSpecFns;

verus! {

/// `cel`'s runtime value, handed to the registered functions.
#[verifier::external_type_specification]
#[verifier::external_body]
pub struct ExCelValue(cel::Value);

/// `cel`'s evaluation error, which its value operations return.
#[verifier::external_type_specification]
#[verifier::external_body]
pub struct ExCelExecutionError(cel::ExecutionError);

/// `cel`'s evaluation context.
#[verifier::external_type_specification]
#[verifier::external_body]
pub struct ExCelContext<'p, 'v>(cel::Context<'p, 'v>);

/// What `regex::Regex::replace_all` with `\blen\(` and the replacement
/// `size(` yields.
pub uninterp spec fn len_calls_rewritten(s: Seq<char>) -> Seq<char>;

/// What `regex::Regex::replace_all` with `\btype\(` and the replacement
/// `type_of(` yields.
pub uninterp spec fn type_calls_rewritten(s: Seq<char>) -> Seq<char>;

/// Relies on `regex::Regex::replace_all` with the fixed pattern `\blen\(`.
#[verifier::external_body]
fn rewrite_len_calls(s: &str) -> (r: String)
    ensures
        r@ == len_calls_rewritten(s@),
{
    let re = regex::Regex::new(r"\blen\(").unwrap();
    re.replace_all(s, regex::NoExpand("size(")).into_owned()
}

/// Relies on `regex::Regex::replace_all` with the fixed pattern `\btype\(`.
#[verifier::external_body]
fn rewrite_type_calls(s: &str) -> (r: String)
    ensures
        r@ == type_calls_rewritten(s@),
{
    let re = regex::Regex::new(r"\btype\(").unwrap();
    re.replace_all(s, regex::NoExpand("type_of(")).into_owned()
}

/// The aliases: `len(` becomes `size(` and `type(` becomes `type_of(`.
pub open spec fn preprocessed(expr: Seq<char>) -> Seq<char> {
    type_calls_rewritten(len_calls_rewritten(expr))
}

/// Rewrites the function aliases of an expression.
pub fn preprocess_expr(expr: &str) -> (r: String)
    ensures
        r@ == preprocessed(expr@),
{
    let a = rewrite_len_calls(expr);
    rewrite_type_calls(a.as_str())
}

/// Why an evaluation produced no JSON value.
#[derive(Debug, Clone)]
pub enum CelFailure {
    /// The interpreter rejected the source; its message.
    Compile(String),
    /// Evaluation failed; its message.
    Execute(String),
    /// The result has no JSON form; its message.
    Convert(String),
}

impl CelFailure {
    pub open spec fn view(&self) -> (u8, Seq<char>) {
        match self {
            CelFailure::Compile(m) => (0u8, m@),
            CelFailure::Execute(m) => (1u8, m@),
            CelFailure::Convert(m) => (2u8, m@),
        }
    }
}

/// An evaluation outcome as plain values: the kind of the value (as
/// `kind_name` numbers it) with its JSON form, or the failure.
pub type Outcome = Result<(u8, JVal), (u8, Seq<char>)>;

pub open spec fn eval_view(r: Result<(u8, Json), CelFailure>) -> Outcome {
    match r {
        Ok((k, v)) => Ok((k, v@)),
        Err(e) => Err(e@),
    }
}

/// An interpreter context.
pub type CelContext = cel::Context<'static, 'static>;

/// Relies on `cel::Context::default` and `Context::add_function`: a fresh
/// context with the library's helper functions registered.
#[verifier::external_body]
fn cel_context() -> CelContext {
    let mut context = cel::Context::default();
    register_functions(&mut context);
    context
}

/// Relies on `cel::Context::add_variable`, which binds the name to the
/// value (replacing an earlier binding).
#[verifier::external_body]
fn cel_add_variable(c: &mut CelContext, name: &str, v: &Json) {
    let _ = c.add_variable(name, json_to_serde(v));
}

/// Relies on `cel::Program::compile`, `Program::execute` and
/// `cel::Value::json`. The outcome is not a function of the source and the
/// variables alone (maps are walked in a per-process hash order), so
/// nothing is promised of it beyond the kind's range.
#[verifier::external_body]
fn cel_run_in(src: &str, c: &CelContext) -> (r: Result<(u8, Json), CelFailure>)
    ensures
        r matches Ok((k, _)) ==> k <= 9,
{
    let program = cel::Program::compile(src).map_err(|e| CelFailure::Compile(e.to_string()))?;
    let value = program.execute(c).map_err(|e| CelFailure::Execute(e.to_string()))?;
    let json = value.json().map_err(|e| CelFailure::Convert(e.to_string()))?;
    Ok((cel_kind(&value), json_from_serde(&json)))
}

/// Evaluates a source text with the variables bound in an interpreter
/// context; variables are added last to first, so the first binding of a
/// name holds, as in `Vars`.
fn cel_run(src: &str, vars: &Vars) -> (r: Result<(u8, Json), CelFailure>)
    ensures
        r matches Ok((k, _)) ==> k <= 9,
{
    let mut c = cel_context();
    let mut i: usize = vars.entries.len();
    while i > 0
        invariant
            0 <= i <= vars.entries@.len(),
        decreases i,
    {
        i = i - 1;
        cel_add_variable(&mut c, vars.entries[i].0.as_str(), &vars.entries[i].1);
    }
    cel_run_in(src, &c)
}

/// Registers `compare`, `diff`, `type_of` and `urlencode` with the
/// interpreter; each converts its arguments and calls this library.
#[verifier::external_body]
fn register_functions(context: &mut cel::Context<'_, '_>) {
    let _ = context.add_function("compare", |a: Cv, b: Cv| compare_values(&cel_json(&a), &cel_json(&b)));
    let _ = context.add_function("diff", |a: Cv, b: Cv| Arc::new(diff_values(&cel_json(&a), &cel_json(&b))));
    let _ = context.add_function("type_of", |v: Cv| Arc::new(kind_name(cel_kind(&v))));
    let _ = context.add_function("urlencode", |s: Arc<String>| Arc::new(form_urlencode(s.as_str())));
}

/// Converts an interpreter value to JSON, `null` where it has no JSON form.
#[verifier::external_body]
fn cel_json(v: &Cv) -> Json {
    v.json().map(|j| json_from_serde(&j)).unwrap_or(Json::Null)
}

/// Tells the interpreter's value variants apart.
#[verifier::external_body]
fn cel_kind(v: &Cv) -> u8 {
    match v {
        Cv::Int(_) => 0,
        Cv::UInt(_) => 1,
        Cv::Float(_) => 2,
        Cv::String(_) => 3,
        Cv::Bool(_) => 4,
        Cv::List(_) => 5,
        Cv::Map(_) => 6,
        Cv::Null => 7,
        Cv::Bytes(_) => 8,
        _ => 9,
    }
}

/// Whether a byte stands for itself in form encoding.
pub open spec fn form_unchanged(b: u8) -> bool {
    b == 42 || b == 45 || b == 46 || (48 <= b <= 57) || (65 <= b <= 90) || b == 95 || (97 <= b <= 122)
}

/// An upper-case hexadecimal digit.
pub open spec fn hex_digit(d: u8) -> char {
    if d < 10 {
        ((48 + d) as u8) as char
    } else {
        ((55 + d) as u8) as char
    }
}

/// One byte form-encoded: itself when unreserved, `+` for a space, else
/// `%` and two upper-case hexadecimal digits.
pub open spec fn form_byte(b: u8) -> Seq<char> {
    if form_unchanged(b) {
        seq![b as char]
    } else if b == 32 {
        seq!['+']
    } else {
        seq!['%', hex_digit(b / 16), hex_digit(b % 16)]
    }
}

/// The `application/x-www-form-urlencoded` byte serialization.
pub open spec fn form_encoded(bs: Seq<u8>) -> Seq<char>
    decreases bs.len(),
{
    if bs.len() == 0 {
        Seq::empty()
    } else {
        form_encoded(bs.drop_last()) + form_byte(bs.last())
    }
}

fn hex_char(d: u8) -> (r: char)
    requires
        d < 16,
    ensures
        r == hex_digit(d),
{
    if d < 10 {
        (48u8 + d) as char
    } else {
        (55u8 + d) as char
    }
}

/// `urlencode(s)`: the form encoding of the text's UTF-8 bytes.
pub fn form_urlencode(s: &str) -> (r: String)
    ensures
        r@ == form_encoded(s.spec_bytes()),
{
    let bytes = s.as_bytes();
    let mut out: Vec<char> = Vec::new();
    let mut i: usize = 0;
    proof {
        assert(bytes@.subrange(0, 0) =~= Seq::<u8>::empty());
    }
    while i < bytes.len()
        invariant
            0 <= i <= bytes@.len(),
            bytes@ == s.spec_bytes(),
            out@ == form_encoded(bytes@.subrange(0, i as int)),
        decreases bytes@.len() - i,
    {
        let b = bytes[i];
        let ghost before = out@;
        if b == 42 || b == 45 || b == 46 || (48 <= b && b <= 57) || (65 <= b && b <= 90) || b == 95 || (97 <= b && b <= 122) {
            out.push(b as char);
        } else if b == 32 {
            out.push('+');
        } else {
            out.push('%');
            out.push(hex_char(b / 16));
            out.push(hex_char(b % 16));
        }
        proof {
            let t = bytes@.subrange(0, i + 1);
            assert(t.drop_last() =~= bytes@.subrange(0, i as int));
            assert(t.last() == b);
            assert(out@ =~= before + form_byte(b));
        }
        i = i + 1;
    }
    proof {
        assert(bytes@.subrange(0, bytes@.len() as int) =~= bytes@);
    }
    string_of(out.as_slice())
}

/// `compare(a, b)`: deep equality.
pub fn compare_values(a: &Json, b: &Json) -> (r: bool)
    ensures
        r == (a@ == b@),
{
    json_equal(a, b)
}

pub open spec fn diff_text(a: JVal, b: JVal) -> Seq<char> {
    if a == b {
        Seq::empty()
    } else {
        "expected "@ + json_render(b) + ", got "@ + json_render(a)
    }
}

/// `diff(a, b)`: empty when equal, else what was expected and what came.
pub fn diff_values(a: &Json, b: &Json) -> (r: String)
    ensures
        r@ == diff_text(a@, b@),
{
    if json_equal(a, b) {
        return String::new();
    }
    let mut out: Vec<char> = Vec::new();
    push_str(&mut out, "expected ");
    let bt = render_json(b);
    push_str(&mut out, bt.as_str());
    push_str(&mut out, ", got ");
    let at = render_json(a);
    push_str(&mut out, at.as_str());
    proof {
        assert(out@ =~= diff_text(a@, b@));
    }
    string_of(out.as_slice())
}

pub open spec fn kind_name_of(kind: u8) -> Seq<char> {
    if kind == 0 {
        "int"@
    } else if kind == 1 {
        "uint"@
    } else if kind == 2 {
        "double"@
    } else if kind == 3 {
        "string"@
    } else if kind == 4 {
        "bool"@
    } else if kind == 5 {
        "list"@
    } else if kind == 6 {
        "map"@
    } else if kind == 7 {
        "null"@
    } else if kind == 8 {
        "bytes"@
    } else {
        "unknown"@
    }
}

/// `type_of(x)`: the name of a value's kind.
pub fn kind_name(kind: u8) -> (r: String)
    ensures
        r@ == kind_name_of(kind),
{
    let s = if kind == 0 {
        "int"
    } else if kind == 1 {
        "uint"
    } else if kind == 2 {
        "double"
    } else if kind == 3 {
        "string"
    } else if kind == 4 {
        "bool"
    } else if kind == 5 {
        "list"
    } else if kind == 6 {
        "map"
    } else if kind == 7 {
        "null"
    } else if kind == 8 {
        "bytes"
    } else {
        "unknown"
    };
    String::from_str(s)
}

/// Whether the characters of a number's mantissa (before any exponent) are
/// all zero digits, signs or the point: the number is zero.
pub open spec fn float_text_zero(t: Seq<char>) -> bool {
    forall|i: int|
        0 <= i < t.len() && (forall|j: int| 0 <= j <= i ==> t[j] != 'e' && t[j] != 'E') ==> {
            let c = #[trigger] t[i];
            c == '0' || c == '-' || c == '+' || c == '.'
        }
}

/// Truthiness: a bool as it is, a number when non-zero, a string, list or
/// map when non-empty, `null` never.
pub open spec fn truthy(v: JVal) -> bool {
    match v {
        JVal::Bool(b) => b,
        JVal::Int(n) => n != 0,
        JVal::Float(t) => !float_text_zero(t),
        JVal::Str(s) => s.len() > 0,
        JVal::Null => false,
        JVal::Arr(a) => a.len() > 0,
        JVal::Obj(es) => es.len() > 0,
    }
}

fn float_zero(t: &String) -> (r: bool)
    ensures
        r == float_text_zero(t@),
{
    let v = chars_of(t.as_str());
    let mut i: usize = 0;
    while i < v.len() && v[i] != 'e' && v[i] != 'E'
        invariant
            0 <= i <= v@.len(),
            v@ == t@,
            forall|j: int| 0 <= j < i ==> v@[j] != 'e' && v@[j] != 'E',
            forall|j: int| 0 <= j < i ==> {
                let c = #[trigger] v@[j];
                c == '0' || c == '-' || c == '+' || c == '.'
            },
        decreases v@.len() - i,
    {
        let c = v[i];
        if !(c == '0' || c == '-' || c == '+' || c == '.') {
            return false;
        }
        i = i + 1;
    }
    proof {
        assert forall|k: int|
            0 <= k < t@.len() && (forall|j: int| 0 <= j <= k ==> t@[j] != 'e' && t@[j] != 'E') implies {
                let c = #[trigger] t@[k];
                c == '0' || c == '-' || c == '+' || c == '.'
            } by {
            if k >= i {
                assert(t@[i as int] == 'e' || t@[i as int] == 'E');
            }
        }
    }
    true
}

/// Whether a value counts as true.
pub fn is_truthy(v: &Json) -> (r: bool)
    ensures
        r == truthy(v@),
{
    match v {
        Json::Bool(b) => *b,
        Json::PosInt(n) => *n != 0,
        Json::NegInt(n) => *n != 0,
        Json::Float(t) => !float_zero(t),
        Json::Str(s) => chars_of(s.as_str()).len() > 0,
        Json::Null => false,
        Json::Arr(a) => {
            proof {
                crate::json::lemma_arr_view(*a);
            }
            a.len() > 0
        },
        Json::Obj(es) => {
            proof {
                crate::json::lemma_obj_view(*es);
            }
            es.len() > 0
        },
    }
}

pub open spec fn msg_compile(src: Seq<char>, m: Seq<char>) -> Seq<char> {
    "CEL compile error for '"@ + src + "': "@ + m
}

pub open spec fn msg_execute(m: Seq<char>) -> Seq<char> {
    "CEL execution error: "@ + m
}

pub open spec fn msg_convert(m: Seq<char>) -> Seq<char> {
    "Failed to convert CEL value to JSON: "@ + m
}

/// Truthiness of an interpreter value of kind `k` read through its JSON
/// form: bytes and the kinds beyond `null` count as true, and so does a
/// double without JSON form (not finite); the rest as `truthy` says.
pub open spec fn kind_truthy(k: u8, v: JVal) -> bool {
    if k >= 8 || (k == 2 && v is Null) {
        true
    } else {
        truthy(v)
    }
}

/// Whether an interpreter value of kind `kind` with JSON form `v` counts as
/// true.
pub fn outcome_truthy(kind: u8, v: &Json) -> (r: bool)
    ensures
        r == kind_truthy(kind, v@),
{
    if kind >= 8 {
        return true;
    }
    if kind == 2 {
        if let Json::Null = v {
            return true;
        }
    }
    is_truthy(v)
}

/// The verdict of a `test` expression from the interpreter's outcome: the
/// truthiness of the value; a value without JSON form counts as true;
/// compile and execution failures are errors naming their cause.
pub open spec fn verdict_of(src: Seq<char>, out: Outcome) -> Result<bool, Seq<char>> {
    match out {
        Ok((k, v)) => Ok(kind_truthy(k, v)),
        Err((k, m)) => if k == 0 {
            Err(msg_compile(src, m))
        } else if k == 1 {
            Err(msg_execute(m))
        } else {
            Ok(true)
        },
    }
}

/// The value of a `bind` expression from the interpreter's outcome.
pub open spec fn value_of(src: Seq<char>, out: Outcome) -> Result<JVal, Seq<char>> {
    match out {
        Ok((_, v)) => Ok(v),
        Err((k, m)) => if k == 0 {
            Err(msg_compile(src, m))
        } else if k == 1 {
            Err(msg_execute(m))
        } else {
            Err(msg_convert(m))
        },
    }
}

fn failure_text(src: &str, e: &CelFailure) -> (r: String)
    ensures
        e is Compile ==> r@ == msg_compile(src@, e@.1),
        e is Execute ==> r@ == msg_execute(e@.1),
        e is Convert ==> r@ == msg_convert(e@.1),
{
    let mut out: Vec<char> = Vec::new();
    match e {
        CelFailure::Compile(m) => {
            push_str(&mut out, "CEL compile error for '");
            push_str(&mut out, src);
            push_str(&mut out, "': ");
            push_str(&mut out, m.as_str());
            proof {
                assert(out@ =~= msg_compile(src@, m@));
            }
        },
        CelFailure::Execute(m) => {
            push_str(&mut out, "CEL execution error: ");
            push_str(&mut out, m.as_str());
            proof {
                assert(out@ =~= msg_execute(m@));
            }
        },
        CelFailure::Convert(m) => {
            push_str(&mut out, "Failed to convert CEL value to JSON: ");
            push_str(&mut out, m.as_str());
            proof {
                assert(out@ =~= msg_convert(m@));
            }
        },
    }
    string_of(out.as_slice())
}

pub open spec fn text_result_view(r: Result<bool, String>) -> Result<bool, Seq<char>> {
    match r {
        Ok(b) => Ok(b),
        Err(m) => Err(m@),
    }
}

pub open spec fn json_result_view(r: Result<Json, String>) -> Result<JVal, Seq<char>> {
    match r {
        Ok(v) => Ok(v@),
        Err(m) => Err(m@),
    }
}

/// The verdict of an evaluated `test` expression (`src` is the preprocessed
/// source the interpreter ran).
pub fn test_verdict(src: &str, out: &Result<(u8, Json), CelFailure>) -> (r: Result<bool, String>)
    ensures
        text_result_view(r) == verdict_of(src@, eval_view(*out)),
{
    match out {
        Ok((k, v)) => Ok(outcome_truthy(*k, v)),
        Err(CelFailure::Convert(_)) => Ok(true),
        Err(e) => Err(failure_text(src, e)),
    }
}

/// The value of an evaluated `bind` expression.
pub fn bound_value(src: &str, out: &Result<(u8, Json), CelFailure>) -> (r: Result<Json, String>)
    ensures
        json_result_view(r) == value_of(src@, eval_view(*out)),
{
    match out {
        Ok((_, v)) => Ok(crate::json::copy_json(v)),
        Err(e) => Err(failure_text(src, e)),
    }
}

/// Evaluates an expression and coerces its value to a boolean; also gives
/// the outcome the interpreter came back with.
pub(crate) fn evaluate_traced(expr: &str, vars: &Vars) -> (r: (Result<bool, String>, Ghost<Outcome>))
    ensures
        text_result_view(r.0) == verdict_of(preprocessed(expr@), r.1@),
{
    let src = preprocess_expr(expr);
    let out = cel_run(src.as_str(), vars);
    (test_verdict(src.as_str(), &out), Ghost(eval_view(out)))
}

/// Evaluates an expression and returns its value; also gives the outcome
/// the interpreter came back with.
pub(crate) fn resolve_traced(expr: &str, vars: &Vars) -> (r: (Result<Json, String>, Ghost<Outcome>))
    ensures
        json_result_view(r.0) == value_of(preprocessed(expr@), r.1@),
{
    let src = preprocess_expr(expr);
    let out = cel_run(src.as_str(), vars);
    (bound_value(src.as_str(), &out), Ghost(eval_view(out)))
}

/// Evaluates an expression against the variables and coerces the result to
/// a boolean: the verdict of whatever outcome the interpreter gave for the
/// preprocessed source.
pub fn evaluate_test(expr: &str, vars: &Vars) -> (r: Result<bool, String>)
    ensures
        exists|o: Outcome| text_result_view(r) == #[trigger] verdict_of(preprocessed(expr@), o),
{
    let (r, o) = evaluate_traced(expr, vars);
    proof {
        assert(text_result_view(r) == verdict_of(preprocessed(expr@), o@));
    }
    r
}

/// Evaluates an expression against the variables and returns its value:
/// the value of whatever outcome the interpreter gave for the preprocessed
/// source.
pub fn resolve_value(expr: &str, vars: &Vars) -> (r: Result<Json, String>)
    ensures
        exists|o: Outcome| json_result_view(r) == #[trigger] value_of(preprocessed(expr@), o),
{
    let (r, o) = resolve_traced(expr, vars);
    proof {
        assert(json_result_view(r) == value_of(preprocessed(expr@), o@));
    }
    r
}

} // verus!
