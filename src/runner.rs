//! The step executor: checks, saves, bindings and the context update that
//! follow a response, and the step keys under which steps are recorded.
use vstd::prelude::*;
use crate::context::Vars;
use crate::flatten::flat_into;
use crate::json::{copy_json, lemma_arr_view, lemma_obj_view, entries_view, resolve, resolve_path, get_by_json_path, Json, JVal};
use crate::jsontext::{json_parse, json_render, opt_json_view, parse_json, render_json};
use crate::expression::Outcome;
use crate::model::{IncludeConfig, LoopConfig, RequestInfo, ResponseExpectation, ResponseInfo, StepResult, TestConfig, TestResult, TestScenario, TestStep};
use crate::placeholder::{expand, expand_variables};
use crate::sse::{events_view, parse_sse_events, sse_check, sse_frames, validate_sse, SseEvent};
use crate::text::{ascii_lower, char_lower, chars_of, contains, dec, push_dec, push_str, string_of, text_contains};
use crate::validator::{contains_errors, data_eq_errors, header_errors, msg_path_missing, msg_path_mismatch, pairs_view, strings_view, validate_contains, validate_data_eq, validate_headers};

verus! {

pub open spec fn is_alnum(c: char) -> bool {
    ('0' <= c && c <= '9') || ('a' <= c && c <= 'z') || ('A' <= c && c <= 'Z')
}

/// Lower-case alphanumerics kept, every run of other characters made one `_`.
pub open spec fn slug_raw(s: Seq<char>) -> Seq<char>
    decreases s.len(),
{
    if s.len() == 0 {
        Seq::empty()
    } else {
        let p = slug_raw(s.drop_last());
        let c = s.last();
        if is_alnum(c) {
            p.push(ascii_lower(c))
        } else if p.len() > 0 && p.last() == '_' {
            p
        } else {
            p.push('_')
        }
    }
}

/// `s` without one leading and one trailing `_` (runs are already single).
pub open spec fn trim_underscore(s: Seq<char>) -> Seq<char> {
    let t = if s.len() > 0 && s[0] == '_' { s.drop_first() } else { s };
    if t.len() > 0 && t.last() == '_' { t.drop_last() } else { t }
}

/// The slug of a step name.
pub open spec fn slug(s: Seq<char>) -> Seq<char> {
    trim_underscore(slug_raw(s))
}

/// The slug of a step name: lower-case ASCII alphanumerics, each run of
/// other characters collapsed to one `_`, no `_` at either end.
pub fn slugify(name: &str) -> (r: String)
    ensures
        r@ == slug(name@),
{
    let v = chars_of(name);
    let mut out: Vec<char> = Vec::new();
    let mut i: usize = 0;
    proof {
        assert(v@.subrange(0, 0) =~= Seq::<char>::empty());
    }
    while i < v.len()
        invariant
            0 <= i <= v@.len(),
            v@ == name@,
            out@ == slug_raw(v@.subrange(0, i as int)),
        decreases v@.len() - i,
    {
        let c = v[i];
        proof {
            let s = v@.subrange(0, i + 1);
            assert(s.drop_last() =~= v@.subrange(0, i as int));
            assert(s.last() == c);
        }
        if ('0' <= c && c <= '9') || ('a' <= c && c <= 'z') || ('A' <= c && c <= 'Z') {
            out.push(char_lower(c));
        } else if !(out.len() > 0 && out[out.len() - 1] == '_') {
            out.push('_');
        }
        i = i + 1;
    }
    proof {
        assert(v@.subrange(0, v@.len() as int) =~= v@);
    }
    let start: usize = if out.len() > 0 && out[0] == '_' { 1 } else { 0 };
    let mut end: usize = out.len();
    if end > start && out[end - 1] == '_' {
        end = end - 1;
    }
    let mut t: Vec<char> = Vec::new();
    let mut k: usize = start;
    while k < end
        invariant
            start <= k <= end <= out@.len(),
            t@ == out@.subrange(start as int, k as int),
        decreases end - k,
    {
        t.push(out[k]);
        k = k + 1;
        proof {
            assert(t@ =~= out@.subrange(start as int, k as int));
        }
    }
    proof {
        let s = out@;
        let u = if s.len() > 0 && s[0] == '_' { s.drop_first() } else { s };
        assert(u =~= s.subrange(start as int, s.len() as int));
        if u.len() > 0 && u.last() == '_' {
            assert(u.drop_last() =~= s.subrange(start as int, end as int));
        } else {
            assert(u =~= s.subrange(start as int, end as int));
        }
    }
    string_of(t.as_slice())
}

/// The key a step is recorded under before duplicates are told apart: its
/// id, else the slug of its name, and `step<N>` when that is empty.
pub open spec fn base_key(id: Option<Seq<char>>, name: Seq<char>, idx: nat) -> Seq<char> {
    let k = match id {
        Some(i) => i,
        None => slug(name),
    };
    if k.len() == 0 {
        "step"@ + dec(idx + 1)
    } else {
        k
    }
}

/// How many earlier steps took this base key.
pub open spec fn count_of(counts: Map<Seq<char>, JVal>, k: Seq<char>) -> int {
    if counts.contains_key(k) {
        match counts[k] {
            JVal::Int(n) => if 0 < n <= u64::MAX { n } else { 0 },
            _ => 0,
        }
    } else {
        0
    }
}

pub open spec fn bump(n: int) -> int {
    if n < u64::MAX { n + 1 } else { n }
}

/// The recorded key: the base key, suffixed `_<n+1>` when `n > 0` earlier
/// steps took it.
pub open spec fn final_key(base: Seq<char>, n: int) -> Seq<char> {
    if n > 0 {
        base + "_"@ + dec(bump(n) as nat)
    } else {
        base
    }
}

/// The key under which the step at `idx` is recorded; counts it.
pub fn next_step_key(step: &TestStep, idx: usize, counts: &mut Vars) -> (r: String)
    requires
        idx < usize::MAX,
    ensures
        ({
            let b = base_key(crate::sse::opt_text(step.id), step.name@, idx as nat);
            let n = count_of(old(counts)@, b);
            &&& r@ == final_key(b, n)
            &&& final(counts)@ == old(counts)@.insert(b, JVal::Int(bump(n)))
        }),
{
    let k0 = match &step.id {
        Some(i) => i.clone(),
        None => slugify(step.name.as_str()),
    };
    let base = if chars_of(k0.as_str()).len() == 0 {
        let mut out: Vec<char> = Vec::new();
        push_str(&mut out, "step");
        push_dec(&mut out, idx as u64 + 1);
        string_of(out.as_slice())
    } else {
        k0
    };
    let n: u64 = match counts.get(&base) {
        Some(Json::PosInt(x)) => *x,
        Some(Json::NegInt(x)) => if *x > 0 { *x as u64 } else { 0 },
        _ => 0,
    };
    let next: u64 = if n < u64::MAX { n + 1 } else { n };
    let key = if n > 0 {
        let mut out = chars_of(base.as_str());
        push_str(&mut out, "_");
        push_dec(&mut out, next);
        proof {
            assert(out@ =~= base@ + "_"@ + dec(next as nat));
        }
        string_of(out.as_slice())
    } else {
        base.clone()
    };
    counts.set(base, Json::PosInt(next));
    key
}

/// What was read of a response.
#[derive(Debug, Clone)]
pub struct Observed {
    pub status: u16,
    pub headers: Vec<(String, String)>,
    pub body: String,
    /// The body parsed as JSON, if it is JSON.
    pub parsed: Option<Json>,
    /// The body framed as an event stream, when it is one or one is expected.
    pub events: Option<Vec<SseEvent>>,
}

/// A body is read as an event stream when the step expects one or the
/// `content-type` header names `text/event-stream`.
pub open spec fn is_event_stream(headers: Seq<(Seq<char>, Seq<char>)>, expect_sse: bool) -> bool {
    expect_sse || (crate::validator::pair_get(headers, "content-type"@) matches Some(ct) && contains(ct, "text/event-stream"@))
}

/// Reads a response: parses its body as JSON and, where it is an event
/// stream, as events.
pub fn observe(status: u16, headers: Vec<(String, String)>, body: String, expect_sse: bool) -> (r: Observed)
    ensures
        r.status == status,
        pairs_view(r.headers@) == pairs_view(headers@),
        r.body@ == body@,
        opt_json_view(r.parsed) == json_parse(body@),
        r.events is Some == is_event_stream(pairs_view(headers@), expect_sse),
        r.events matches Some(e) ==> events_view(e@) == sse_frames(body@) && crate::sse::events_parsed(e@),
{
    let parsed = parse_json(body.as_str());
    let ct = String::from_str("content-type");
    let stream = expect_sse || match crate::validator::pairs_get(&headers, &ct) {
        Some(v) => text_contains(v.as_str(), "text/event-stream"),
        None => false,
    };
    let events = if stream { Some(parse_sse_events(body.as_str())) } else { None };
    Observed { status, headers, body, parsed, events }
}

pub open spec fn msg_status(expected: u16, actual: u16) -> Seq<char> {
    "ステータスコードが期待値と一致しません。期待: "@ + dec(expected as nat) + ", 実際: "@ + dec(actual as nat)
}

pub open spec fn msg_not_json() -> Seq<char> {
    "レスポンスが有効なJSONではありません"@
}

pub open spec fn msg_array_length(path: Seq<char>, expected: nat, actual: nat) -> Seq<char> {
    "JSONパス '"@ + path + "' の配列長が一致しません。期待: "@ + dec(expected) + ", 実際: "@ + dec(actual)
}

pub open spec fn msg_object_length(path: Seq<char>, expected: nat, actual: nat) -> Seq<char> {
    "JSONパス '"@ + path + "' のオブジェクト要素数が一致しません。期待: "@ + dec(expected) + ", 実際: "@ + dec(actual)
}

pub open spec fn msg_not_collection(path: Seq<char>, v: JVal) -> Seq<char> {
    "JSONパス '"@ + path + "' は配列またはオブジェクトではありません (実際: "@ + json_render(v) + ")"@
}

/// One error for each `json` path that is absent or holds another value.
pub open spec fn path_value_errors(doc: JVal, ex: Seq<(Seq<char>, JVal)>) -> Seq<Seq<char>>
    decreases ex.len(),
{
    if ex.len() == 0 {
        Seq::empty()
    } else {
        let (path, want) = ex.last();
        path_value_errors(doc, ex.drop_last()) + match resolve(doc, path) {
            Some(got) => if got == want { Seq::empty() } else { seq![msg_path_mismatch(path, want, got)] },
            None => seq![msg_path_missing(path)],
        }
    }
}

/// One error for each `json_lengths` path whose array or object has another
/// length, that holds something else, or that is absent.
pub open spec fn length_errors(doc: JVal, ex: Seq<(Seq<char>, usize)>) -> Seq<Seq<char>>
    decreases ex.len(),
{
    if ex.len() == 0 {
        Seq::empty()
    } else {
        let (path, n) = ex.last();
        length_errors(doc, ex.drop_last()) + match resolve(doc, path) {
            Some(JVal::Arr(a)) => if a.len() == n { Seq::empty() } else { seq![msg_array_length(path, n as nat, a.len())] },
            Some(JVal::Obj(es)) => if es.len() == n { Seq::empty() } else { seq![msg_object_length(path, n as nat, es.len())] },
            Some(other) => seq![msg_not_collection(path, other)],
            None => seq![msg_path_missing(path)],
        }
    }
}

pub open spec fn lengths_view(v: Seq<(String, usize)>) -> Seq<(Seq<char>, usize)> {
    v.map_values(|p: (String, usize)| (p.0@, p.1))
}

/// The `json` and `json_lengths` checks.
pub open spec fn json_errors(parsed: Option<JVal>, json: Seq<(Seq<char>, JVal)>, lengths: Seq<(Seq<char>, usize)>) -> Seq<Seq<char>> {
    if json.len() == 0 && lengths.len() == 0 {
        Seq::empty()
    } else {
        match parsed {
            None => seq![msg_not_json()],
            Some(d) => path_value_errors(d, json) + length_errors(d, lengths),
        }
    }
}

/// Texts joined with `; `.
pub open spec fn join_errors(es: Seq<Seq<char>>) -> Seq<char>
    decreases es.len(),
{
    if es.len() == 0 {
        Seq::empty()
    } else if es.len() == 1 {
        es[0]
    } else {
        join_errors(es.drop_last()) + "; "@ + es.last()
    }
}

/// Several errors as one, or none.
pub open spec fn as_one(es: Seq<Seq<char>>) -> Seq<Seq<char>> {
    if es.len() == 0 { Seq::empty() } else { seq![join_errors(es)] }
}

/// The `json_eq` check: the expected value written as text, expanded,
/// parsed back, then compared with the body.
pub open spec fn json_eq_errors(parsed: Option<JVal>, want: Option<JVal>, ig: Seq<Seq<char>>, ctx: Map<Seq<char>, JVal>) -> Seq<Seq<char>> {
    match want {
        None => Seq::empty(),
        Some(x) => match parsed {
            None => seq!["json_eq: response is not valid JSON"@],
            Some(d) => match json_parse(expand(json_render(x), ctx)) {
                None => seq!["json_eq: expected value is not valid JSON after expansion"@],
                Some(e) => as_one(data_eq_errors(d, e, ig, Seq::empty())),
            },
        },
    }
}

/// The expanded `contains` texts.
pub open spec fn expanded_texts(ts: Seq<Seq<char>>, ctx: Map<Seq<char>, JVal>) -> Seq<Seq<char>> {
    ts.map_values(|t: Seq<char>| expand(t, ctx))
}

pub open spec fn opt_events(o: Option<Vec<SseEvent>>) -> Option<Seq<SseEvent>> {
    match o {
        Some(v) => Some(v@),
        None => None,
    }
}

/// Every declarative check of a response, in order: status, headers, `json`
/// and `json_lengths`, `json_eq`, `contains`, then the event stream; with
/// the variables the stream assertions saved.
pub open spec fn expectation_errors(
    ex: ResponseExpectation,
    status: u16,
    headers: Seq<(Seq<char>, Seq<char>)>,
    body: Seq<char>,
    parsed: Option<JVal>,
    events: Option<Seq<SseEvent>>,
    ctx: Map<Seq<char>, JVal>,
) -> (Seq<Seq<char>>, Map<Seq<char>, JVal>) {
    let sse = match (ex.sse, events) {
        (Some(se), Some(evs)) => {
            let c = sse_check(evs, se, ctx);
            (as_one(c.0), c.1)
        },
        _ => (Seq::empty(), Map::empty()),
    };
    (
        (if ex.status == status { Seq::empty() } else { seq![msg_status(ex.status, status)] })
            + header_errors(headers, pairs_view(ex.headers@))
            + json_errors(parsed, crate::validator::expects_view(ex.json@), lengths_view(ex.json_lengths@))
            + json_eq_errors(parsed, opt_json_view(ex.json_eq), strings_view(ex.json_ignore_fields@), ctx)
            + contains_errors(body, expanded_texts(strings_view(ex.contains@), ctx))
            + sse.0,
        sse.1,
    )
}

fn join_all(es: &Vec<String>) -> (r: Vec<String>)
    ensures
        strings_view(r@) == as_one(strings_view(es@)),
{
    let mut out: Vec<String> = Vec::new();
    if es.len() == 0 {
        proof {
            assert(strings_view(out@) =~= Seq::<Seq<char>>::empty());
        }
        return out;
    }
    let ghost ev = strings_view(es@);
    let mut acc: Vec<char> = Vec::new();
    let mut i: usize = 0;
    while i < es.len()
        invariant
            0 <= i <= es@.len(),
            ev == strings_view(es@),
            acc@ == join_errors(ev.subrange(0, i as int)),
        decreases es@.len() - i,
    {
        if i > 0 {
            push_str(&mut acc, "; ");
        }
        push_str(&mut acc, es[i].as_str());
        proof {
            let s = ev.subrange(0, i + 1);
            assert(s.drop_last() =~= ev.subrange(0, i as int));
            assert(acc@ =~= join_errors(s));
        }
        i = i + 1;
    }
    proof {
        assert(ev.subrange(0, ev.len() as int) =~= ev);
    }
    out.push(string_of(acc.as_slice()));
    proof {
        assert(strings_view(out@) =~= seq![join_errors(ev)]);
    }
    out
}

fn append_strings(errors: &mut Vec<String>, more: Vec<String>)
    ensures
        strings_view(final(errors)@) == strings_view(old(errors)@) + strings_view(more@),
{
    let mut m = more;
    errors.append(&mut m);
    proof {
        assert(strings_view(final(errors)@) =~= strings_view(old(errors)@) + strings_view(more@));
    }
}

fn push_message(errors: &mut Vec<String>, m: Vec<char>)
    ensures
        strings_view(final(errors)@) == strings_view(old(errors)@).push(m@),
{
    errors.push(string_of(m.as_slice()));
    proof {
        assert(strings_view(final(errors)@) =~= strings_view(old(errors)@).push(m@));
    }
}

fn check_paths(doc: &Json, ex: &Vec<(String, Json)>) -> (r: Vec<String>)
    ensures
        strings_view(r@) == path_value_errors(doc@, crate::validator::expects_view(ex@)),
{
    let ghost xv = crate::validator::expects_view(ex@);
    let mut errors: Vec<String> = Vec::new();
    let mut i: usize = 0;
    proof {
        assert(strings_view(errors@) =~= path_value_errors(doc@, xv.subrange(0, 0)));
    }
    while i < ex.len()
        invariant
            0 <= i <= ex@.len(),
            xv == crate::validator::expects_view(ex@),
            strings_view(errors@) == path_value_errors(doc@, xv.subrange(0, i as int)),
        decreases ex@.len() - i,
    {
        let path = &ex[i].0;
        let want = &ex[i].1;
        let ghost before = strings_view(errors@);
        proof {
            let es = xv.subrange(0, i + 1);
            assert(es.drop_last() =~= xv.subrange(0, i as int));
            assert(es.last() == (path@, want@));
        }
        match resolve_path(doc, path.as_str()) {
            Some(got) => {
                if !crate::json::json_equal(got, want) {
                    let mut out: Vec<char> = Vec::new();
                    push_str(&mut out, "JSONパス '");
                    push_str(&mut out, path.as_str());
                    push_str(&mut out, "' の値が期待値と一致しません。期待: ");
                    let wt = render_json(want);
                    push_str(&mut out, wt.as_str());
                    push_str(&mut out, ", 実際: ");
                    let gt = render_json(got);
                    push_str(&mut out, gt.as_str());
                    proof {
                        assert(out@ =~= msg_path_mismatch(path@, want@, got@));
                    }
                    push_message(&mut errors, out);
                } else {
                    proof {
                        assert(strings_view(errors@) =~= before + Seq::<Seq<char>>::empty());
                    }
                }
            },
            None => {
                let mut out: Vec<char> = Vec::new();
                push_str(&mut out, "JSONパス '");
                push_str(&mut out, path.as_str());
                push_str(&mut out, "' がレスポンスに存在しません");
                proof {
                    assert(out@ =~= msg_path_missing(path@));
                }
                push_message(&mut errors, out);
            },
        }
        i = i + 1;
    }
    proof {
        assert(xv.subrange(0, xv.len() as int) =~= xv);
    }
    errors
}

fn check_lengths(doc: &Json, ex: &Vec<(String, usize)>) -> (r: Vec<String>)
    ensures
        strings_view(r@) == length_errors(doc@, lengths_view(ex@)),
{
    let ghost xv = lengths_view(ex@);
    let mut errors: Vec<String> = Vec::new();
    let mut i: usize = 0;
    proof {
        assert(strings_view(errors@) =~= length_errors(doc@, xv.subrange(0, 0)));
    }
    while i < ex.len()
        invariant
            0 <= i <= ex@.len(),
            xv == lengths_view(ex@),
            strings_view(errors@) == length_errors(doc@, xv.subrange(0, i as int)),
        decreases ex@.len() - i,
    {
        let path = &ex[i].0;
        let n = ex[i].1;
        let ghost before = strings_view(errors@);
        proof {
            let es = xv.subrange(0, i + 1);
            assert(es.drop_last() =~= xv.subrange(0, i as int));
            assert(es.last() == (path@, n));
        }
        match resolve_path(doc, path.as_str()) {
            Some(Json::Arr(a)) => {
                proof {
                    lemma_arr_view(*a);
                }
                if a.len() != n {
                    let mut out: Vec<char> = Vec::new();
                    push_str(&mut out, "JSONパス '");
                    push_str(&mut out, path.as_str());
                    push_str(&mut out, "' の配列長が一致しません。期待: ");
                    push_dec(&mut out, n as u64);
                    push_str(&mut out, ", 実際: ");
                    push_dec(&mut out, a.len() as u64);
                    proof {
                        assert(out@ =~= msg_array_length(path@, n as nat, a@.len()));
                    }
                    push_message(&mut errors, out);
                } else {
                    proof {
                        assert(strings_view(errors@) =~= before + Seq::<Seq<char>>::empty());
                    }
                }
            },
            Some(Json::Obj(es)) => {
                proof {
                    lemma_obj_view(*es);
                }
                if es.len() != n {
                    let mut out: Vec<char> = Vec::new();
                    push_str(&mut out, "JSONパス '");
                    push_str(&mut out, path.as_str());
                    push_str(&mut out, "' のオブジェクト要素数が一致しません。期待: ");
                    push_dec(&mut out, n as u64);
                    push_str(&mut out, ", 実際: ");
                    push_dec(&mut out, es.len() as u64);
                    proof {
                        assert(out@ =~= msg_object_length(path@, n as nat, es@.len()));
                    }
                    push_message(&mut errors, out);
                } else {
                    proof {
                        assert(strings_view(errors@) =~= before + Seq::<Seq<char>>::empty());
                    }
                }
            },
            Some(other) => {
                let mut out: Vec<char> = Vec::new();
                push_str(&mut out, "JSONパス '");
                push_str(&mut out, path.as_str());
                push_str(&mut out, "' は配列またはオブジェクトではありません (実際: ");
                let t = render_json(other);
                push_str(&mut out, t.as_str());
                push_str(&mut out, ")");
                proof {
                    assert(out@ =~= msg_not_collection(path@, other@));
                    match other@ {
                        JVal::Arr(_) => { assert(false); },
                        JVal::Obj(_) => { assert(false); },
                        _ => {},
                    }
                }
                push_message(&mut errors, out);
            },
            None => {
                let mut out: Vec<char> = Vec::new();
                push_str(&mut out, "JSONパス '");
                push_str(&mut out, path.as_str());
                push_str(&mut out, "' がレスポンスに存在しません");
                proof {
                    assert(out@ =~= msg_path_missing(path@));
                }
                push_message(&mut errors, out);
            },
        }
        i = i + 1;
    }
    proof {
        assert(xv.subrange(0, xv.len() as int) =~= xv);
    }
    errors
}

fn check_json_eq(parsed: &Option<Json>, want: &Option<Json>, ig: &Vec<String>, vars: &Vars) -> (r: Vec<String>)
    ensures
        strings_view(r@) == json_eq_errors(opt_json_view(*parsed), opt_json_view(*want), strings_view(ig@), vars@),
{
    let mut errors: Vec<String> = Vec::new();
    match want {
        None => {
            proof {
                assert(strings_view(errors@) =~= Seq::<Seq<char>>::empty());
            }
            errors
        },
        Some(x) => match parsed {
            None => {
                let mut out: Vec<char> = Vec::new();
                push_str(&mut out, "json_eq: response is not valid JSON");
                push_message(&mut errors, out);
                errors
            },
            Some(d) => {
                let text = render_json(x);
                let expanded = expand_variables(text.as_str(), vars);
                match parse_json(expanded.as_str()) {
                    None => {
                        let mut out: Vec<char> = Vec::new();
                        push_str(&mut out, "json_eq: expected value is not valid JSON after expansion");
                        push_message(&mut errors, out);
                        errors
                    },
                    Some(e) => {
                        let errs = validate_data_eq(d, &e, ig.as_slice(), "");
                        proof {
                            reveal_strlit("");
                            assert(""@ =~= Seq::<char>::empty());
                        }
                        join_all(&errs)
                    },
                }
            },
        },
    }
}

fn check_contains(body: &String, texts: &Vec<String>, vars: &Vars) -> (r: Vec<String>)
    ensures
        strings_view(r@) == contains_errors(body@, expanded_texts(strings_view(texts@), vars@)),
{
    let mut ex: Vec<String> = Vec::new();
    let mut i: usize = 0;
    while i < texts.len()
        invariant
            0 <= i <= texts@.len(),
            strings_view(ex@) == expanded_texts(strings_view(texts@), vars@).subrange(0, i as int),
        decreases texts@.len() - i,
    {
        let t = expand_variables(texts[i].as_str(), vars);
        let ghost before = strings_view(ex@);
        ex.push(t);
        proof {
            assert(strings_view(ex@) =~= before.push(t@));
        }
        i = i + 1;
        proof {
            assert(strings_view(ex@) =~= expanded_texts(strings_view(texts@), vars@).subrange(0, i as int));
        }
    }
    proof {
        assert(expanded_texts(strings_view(texts@), vars@).subrange(0, texts@.len() as int) =~= expanded_texts(strings_view(texts@), vars@));
    }
    validate_contains(body.as_str(), ex.as_slice())
}

fn check_status(expected: u16, actual: u16) -> (r: Vec<String>)
    ensures
        strings_view(r@) == (if expected == actual { Seq::empty() } else { seq![msg_status(expected, actual)] }),
{
    let mut errors: Vec<String> = Vec::new();
    if expected != actual {
        let mut out: Vec<char> = Vec::new();
        push_str(&mut out, "ステータスコードが期待値と一致しません。期待: ");
        push_dec(&mut out, expected as u64);
        push_str(&mut out, ", 実際: ");
        push_dec(&mut out, actual as u64);
        proof {
            assert(out@ =~= msg_status(expected, actual));
        }
        push_message(&mut errors, out);
    } else {
        proof {
            assert(strings_view(errors@) =~= Seq::<Seq<char>>::empty());
        }
    }
    errors
}

fn check_json(parsed: &Option<Json>, json: &Vec<(String, Json)>, lengths: &Vec<(String, usize)>) -> (r: Vec<String>)
    ensures
        strings_view(r@) == json_errors(opt_json_view(*parsed), crate::validator::expects_view(json@), lengths_view(lengths@)),
{
    let mut errors: Vec<String> = Vec::new();
    if json.len() > 0 || lengths.len() > 0 {
        match parsed {
            None => {
                let mut out: Vec<char> = Vec::new();
                push_str(&mut out, "レスポンスが有効なJSONではありません");
                push_message(&mut errors, out);
            },
            Some(d) => {
                let a = check_paths(d, json);
                append_strings(&mut errors, a);
                let b = check_lengths(d, lengths);
                append_strings(&mut errors, b);
            },
        }
    } else {
        proof {
            assert(strings_view(errors@) =~= Seq::<Seq<char>>::empty());
        }
    }
    errors
}

fn check_stream(ex: &ResponseExpectation, events: &Option<Vec<SseEvent>>, vars: &Vars) -> (r: (Vec<String>, Vars))
    ensures
        (strings_view(r.0@), r.1@) == match (ex.sse, opt_events(*events)) {
            (Some(se), Some(evs)) => {
                let c = sse_check(evs, se, vars@);
                (as_one(c.0), c.1)
            },
            _ => (Seq::<Seq<char>>::empty(), Map::<Seq<char>, JVal>::empty()),
        },
{
    match (&ex.sse, events) {
        (Some(se), Some(evs)) => {
            let (se_errs, sv) = validate_sse(evs, se, vars);
            (join_all(&se_errs), sv)
        },
        _ => {
            let e: Vec<String> = Vec::new();
            proof {
                assert(strings_view(e@) =~= Seq::<Seq<char>>::empty());
            }
            (e, Vars::new())
        },
    }
}

/// Runs every declarative check of the step on the observed response;
/// returns the errors in order and the variables the stream assertions saved.
pub fn check_expectations(ex: &ResponseExpectation, obs: &Observed, vars: &Vars) -> (r: (Vec<String>, Vars))
    ensures
        (strings_view(r.0@), r.1@) == expectation_errors(*ex, obs.status, pairs_view(obs.headers@), obs.body@, opt_json_view(obs.parsed), opt_events(obs.events), vars@),
{
    let mut errors = check_status(ex.status, obs.status);
    let hs = validate_headers(&obs.headers, &ex.headers);
    append_strings(&mut errors, hs);
    let js = check_json(&obs.parsed, &ex.json, &ex.json_lengths);
    append_strings(&mut errors, js);
    let eq = check_json_eq(&obs.parsed, &ex.json_eq, &ex.json_ignore_fields, vars);
    append_strings(&mut errors, eq);
    let c = check_contains(&obs.body, &ex.contains, vars);
    append_strings(&mut errors, c);
    let (st, saved) = check_stream(ex, &obs.events, vars);
    append_strings(&mut errors, st);
    (errors, saved)
}

/// A text mapping as an object of strings.
pub open spec fn str_map(ps: Seq<(Seq<char>, Seq<char>)>) -> JVal {
    JVal::Obj(ps.map_values(|p: (Seq<char>, Seq<char>)| (p.0, JVal::Str(p.1))))
}

/// A text mapping as an object of strings.
pub fn map_string_to_value(ps: &Vec<(String, String)>) -> (r: Json)
    ensures
        r@ == str_map(pairs_view(ps@)),
{
    let mut out: Vec<(String, Json)> = Vec::new();
    let mut i: usize = 0;
    while i < ps.len()
        invariant
            0 <= i <= ps@.len(),
            entries_view(out@) == str_map(pairs_view(ps@))->Obj_0.subrange(0, i as int),
        decreases ps@.len() - i,
    {
        let ghost before = entries_view(out@);
        out.push((ps[i].0.clone(), Json::Str(ps[i].1.clone())));
        proof {
            assert(entries_view(out@) =~= before.push(str_map(pairs_view(ps@))->Obj_0[i as int]));
        }
        i = i + 1;
        proof {
            assert(entries_view(out@) =~= str_map(pairs_view(ps@))->Obj_0.subrange(0, i as int));
        }
    }
    proof {
        lemma_obj_view(out);
        assert(entries_view(out@) =~= str_map(pairs_view(ps@))->Obj_0);
    }
    Json::Obj(out)
}

/// A value parsed from text when the text is JSON, else the text itself.
pub open spec fn json_or_text(t: Seq<char>, parsed: Option<JVal>) -> JVal {
    match parsed {
        Some(v) => v,
        None => JVal::Str(t),
    }
}

/// `current.res`: status, headers (when any), the body (parsed when JSON)
/// and the raw body.
pub open spec fn current_res(status: u16, headers: Seq<(Seq<char>, Seq<char>)>, parsed: Option<JVal>, raw: Seq<char>) -> JVal {
    JVal::Obj(
        seq![("body"@, json_or_text(raw, parsed))]
            + (if headers.len() > 0 { seq![("headers"@, str_map(headers))] } else { Seq::empty() })
            + seq![("rawBody"@, JVal::Str(raw)), ("status"@, JVal::Int(status as int))],
    )
}

/// `current.req`: the body (parsed when JSON), headers (when any), method
/// and final URL.
pub open spec fn current_req(method: Seq<char>, url: Seq<char>, headers: Seq<(Seq<char>, Seq<char>)>, body: Option<Seq<char>>) -> JVal {
    JVal::Obj(
        (match body {
            Some(b) => seq![("body"@, json_or_text(b, json_parse(b)))],
            None => Seq::empty(),
        }) + (if headers.len() > 0 { seq![("headers"@, str_map(headers))] } else { Seq::empty() })
            + seq![("method"@, JVal::Str(method)), ("url"@, JVal::Str(url))],
    )
}

pub open spec fn info_req(info: RequestInfo) -> JVal {
    current_req(info.method@, info.url@, pairs_view(info.headers@), crate::sse::opt_text(info.body))
}

/// The `current` value: `{req, res}`.
pub open spec fn current_value(status: u16, headers: Seq<(Seq<char>, Seq<char>)>, parsed: Option<JVal>, raw: Seq<char>, info: RequestInfo) -> JVal {
    JVal::Obj(seq![("req"@, info_req(info)), ("res"@, current_res(status, headers, parsed, raw))])
}

fn obj_push(out: &mut Vec<(String, Json)>, k: &str, v: Json)
    ensures
        entries_view(final(out)@) == entries_view(old(out)@).push((k@, v@)),
{
    let ghost before = entries_view(out@);
    let ghost vv = v@;
    out.push((String::from_str(k), v));
    proof {
        assert(entries_view(out@) =~= before.push((k@, vv)));
    }
}

fn res_value(status: u16, headers: &Vec<(String, String)>, parsed: &Option<Json>, raw: &String) -> (r: Json)
    ensures
        r@ == current_res(status, pairs_view(headers@), opt_json_view(*parsed), raw@),
{
    let mut out: Vec<(String, Json)> = Vec::new();
    let body = match parsed {
        Some(j) => copy_json(j),
        None => Json::Str(raw.clone()),
    };
    obj_push(&mut out, "body", body);
    if headers.len() > 0 {
        obj_push(&mut out, "headers", map_string_to_value(headers));
    }
    obj_push(&mut out, "rawBody", Json::Str(raw.clone()));
    obj_push(&mut out, "status", Json::PosInt(status as u64));
    proof {
        lemma_obj_view(out);
        assert(entries_view(out@) =~= current_res(status, pairs_view(headers@), opt_json_view(*parsed), raw@)->Obj_0);
    }
    Json::Obj(out)
}

fn req_value(info: &RequestInfo) -> (r: Json)
    ensures
        r@ == info_req(*info),
{
    let mut out: Vec<(String, Json)> = Vec::new();
    match &info.body {
        Some(b) => {
            let v = match parse_json(b.as_str()) {
                Some(j) => j,
                None => Json::Str(b.clone()),
            };
            obj_push(&mut out, "body", v);
        },
        None => {},
    }
    if info.headers.len() > 0 {
        obj_push(&mut out, "headers", map_string_to_value(&info.headers));
    }
    obj_push(&mut out, "method", Json::Str(info.method.clone()));
    obj_push(&mut out, "url", Json::Str(info.url.clone()));
    proof {
        lemma_obj_view(out);
        assert(entries_view(out@) =~= info_req(*info)->Obj_0);
    }
    Json::Obj(out)
}

/// The `current` value of a step: `{req, res}`.
pub fn build_current_value(status: u16, headers: &Vec<(String, String)>, parsed: &Option<Json>, raw: &String, info: &RequestInfo) -> (r: Json)
    ensures
        r@ == current_value(status, pairs_view(headers@), opt_json_view(*parsed), raw@, *info),
{
    let mut out: Vec<(String, Json)> = Vec::new();
    obj_push(&mut out, "req", req_value(info));
    obj_push(&mut out, "res", res_value(status, headers, parsed, raw));
    proof {
        lemma_obj_view(out);
        assert(entries_view(out@) =~= current_value(status, pairs_view(headers@), opt_json_view(*parsed), raw@, *info)->Obj_0);
    }
    Json::Obj(out)
}

/// `steps.<key>.request`: the request as sent, its body as text.
pub open spec fn request_record(info: RequestInfo) -> JVal {
    JVal::Obj(
        (match info.body {
            Some(b) => seq![("body"@, JVal::Str(b@))],
            None => Seq::empty(),
        }) + (if info.headers@.len() > 0 { seq![("headers"@, str_map(pairs_view(info.headers@)))] } else { Seq::empty() })
            + seq![("method"@, JVal::Str(info.method@)), ("url"@, JVal::Str(info.url@))],
    )
}

/// `steps.<key>.response`: status, headers (when any), the raw body, and
/// the parsed body as `json` when it is JSON.
pub open spec fn response_record(status: u16, headers: Seq<(Seq<char>, Seq<char>)>, parsed: Option<JVal>, raw: Seq<char>) -> JVal {
    JVal::Obj(
        seq![("body"@, JVal::Str(raw))]
            + (if headers.len() > 0 { seq![("headers"@, str_map(headers))] } else { Seq::empty() })
            + (match parsed {
                Some(j) => seq![("json"@, j)],
                None => Seq::empty(),
            }) + seq![("status"@, JVal::Int(status as int))],
    )
}

fn request_record_value(info: &RequestInfo) -> (r: Json)
    ensures
        r@ == request_record(*info),
{
    let mut out: Vec<(String, Json)> = Vec::new();
    match &info.body {
        Some(b) => obj_push(&mut out, "body", Json::Str(b.clone())),
        None => {},
    }
    if info.headers.len() > 0 {
        obj_push(&mut out, "headers", map_string_to_value(&info.headers));
    }
    obj_push(&mut out, "method", Json::Str(info.method.clone()));
    obj_push(&mut out, "url", Json::Str(info.url.clone()));
    proof {
        lemma_obj_view(out);
        assert(entries_view(out@) =~= request_record(*info)->Obj_0);
    }
    Json::Obj(out)
}

fn response_record_value(obs: &Observed) -> (r: Json)
    ensures
        r@ == response_record(obs.status, pairs_view(obs.headers@), opt_json_view(obs.parsed), obs.body@),
{
    let mut out: Vec<(String, Json)> = Vec::new();
    obj_push(&mut out, "body", Json::Str(obs.body.clone()));
    if obs.headers.len() > 0 {
        obj_push(&mut out, "headers", map_string_to_value(&obs.headers));
    }
    match &obs.parsed {
        Some(j) => obj_push(&mut out, "json", copy_json(j)),
        None => {},
    }
    obj_push(&mut out, "status", Json::PosInt(obs.status as u64));
    proof {
        lemma_obj_view(out);
        assert(entries_view(out@) =~= response_record(obs.status, pairs_view(obs.headers@), opt_json_view(obs.parsed), obs.body@)->Obj_0);
    }
    Json::Obj(out)
}

/// `steps.<key>.outputs`: the grouped events of a stream; else the body's
/// `data` field when it is an object that has one, the body when it is
/// other JSON, and `null` when it is not JSON.
pub open spec fn outputs_of(parsed: Option<JVal>, events: Option<Seq<SseEvent>>) -> JVal {
    match events {
        Some(evs) => crate::sse::sse_value(evs),
        None => match parsed {
            Some(JVal::Obj(es)) => match crate::json::obj_get(es, "data"@) {
                Some(d) => d,
                None => JVal::Obj(es),
            },
            Some(j) => j,
            None => JVal::Null,
        },
    }
}

fn outputs_value(obs: &Observed) -> (r: Json)
    ensures
        r@ == outputs_of(opt_json_view(obs.parsed), opt_events(obs.events)),
{
    match &obs.events {
        Some(evs) => crate::sse::build_sse_value(evs),
        None => match &obs.parsed {
            Some(j) => {
                match j {
                    Json::Obj(es) => {
                        proof {
                            lemma_obj_view(*es);
                        }
                        let key = String::from_str("data");
                        match crate::json::entries_get(es, &key) {
                            Some(d) => copy_json(d),
                            None => copy_json(j),
                        }
                    },
                    _ => copy_json(j),
                }
            },
            None => Json::Null,
        },
    }
}

/// `m` with the bindings of `es` added; the first binding of a name wins.
pub open spec fn merge_into(m: Map<Seq<char>, JVal>, es: Seq<(Seq<char>, JVal)>) -> Map<Seq<char>, JVal>
    decreases es.len(),
{
    if es.len() == 0 {
        m
    } else {
        merge_into(m, es.drop_first()).insert(es[0].0, es[0].1)
    }
}

proof fn lemma_merge_into_union(m: Map<Seq<char>, JVal>, es: Seq<(Seq<char>, JVal)>)
    ensures
        merge_into(m, es) == m.union_prefer_right(crate::context::entries_map(es)),
    decreases es.len(),
{
    if es.len() > 0 {
        lemma_merge_into_union(m, es.drop_first());
        let a = crate::context::entries_map(es.drop_first());
        let b = crate::context::entries_map(es);
        assert(b =~= a.insert(es[0].0, es[0].1));
        assert(m.union_prefer_right(a).insert(es[0].0, es[0].1) =~= m.union_prefer_right(b));
    } else {
        assert(crate::context::entries_map(es) =~= Map::<Seq<char>, JVal>::empty());
        assert(m.union_prefer_right(Map::<Seq<char>, JVal>::empty()) =~= m);
    }
}

/// Adds every binding of `from` to `vars`, replacing earlier ones.
pub fn merge_vars(vars: &mut Vars, from: &Vars)
    ensures
        final(vars)@ == old(vars)@.union_prefer_right(from@),
{
    proof {
        lemma_merge_into_union(vars@, entries_view(from.entries@));
    }
    let ghost ev = entries_view(from.entries@);
    let mut i: usize = from.entries.len();
    proof {
        assert(ev.subrange(ev.len() as int, ev.len() as int) =~= Seq::<(Seq<char>, JVal)>::empty());
    }
    while i > 0
        invariant
            0 <= i <= from.entries@.len(),
            ev == entries_view(from.entries@),
            vars@ == merge_into(old(vars)@, ev.subrange(i as int, ev.len() as int)),
        decreases i,
    {
        i = i - 1;
        proof {
            let t = ev.subrange(i as int, ev.len() as int);
            assert(t.drop_first() =~= ev.subrange(i + 1, ev.len() as int));
            assert(t[0] == ev[i as int]);
        }
        vars.set(from.entries[i].0.clone(), copy_json(&from.entries[i].1));
    }
    proof {
        assert(ev.subrange(0, ev.len() as int) =~= ev);
    }
}

/// A save path of a stream step, without its optional `sse.` prefix.
pub open spec fn stream_path(p: Seq<char>) -> Seq<char> {
    if crate::text::has_prefix(p, "sse."@) { p.subrange(4, p.len() as int) } else { p }
}

/// The `save` bindings: in a stream step each path is resolved in the
/// grouped events; otherwise in the parsed body. A path that is not found
/// binds nothing.
pub open spec fn saves_into(
    m: Map<Seq<char>, JVal>,
    save: Seq<(Seq<char>, Seq<char>)>,
    stream: bool,
    outputs: JVal,
    parsed: Option<JVal>,
) -> Map<Seq<char>, JVal>
    decreases save.len(),
{
    if save.len() == 0 {
        m
    } else {
        let pre = saves_into(m, save.drop_last(), stream, outputs, parsed);
        let (name, path) = save.last();
        let found = if stream {
            resolve(outputs, stream_path(path))
        } else {
            match parsed {
                Some(j) => resolve(j, path),
                None => None,
            }
        };
        match found {
            Some(x) => pre.insert(name, x),
            None => pre,
        }
    }
}

fn apply_saves(vars: &mut Vars, save: &Vec<(String, String)>, stream: bool, outputs: &Json, parsed: &Option<Json>)
    ensures
        final(vars)@ == saves_into(old(vars)@, pairs_view(save@), stream, outputs@, opt_json_view(*parsed)),
{
    let ghost sv = pairs_view(save@);
    let prefix = chars_of("sse.");
    let mut i: usize = 0;
    proof {
        assert(sv.subrange(0, 0) =~= Seq::<(Seq<char>, Seq<char>)>::empty());
    }
    while i < save.len()
        invariant
            0 <= i <= save@.len(),
            sv == pairs_view(save@),
            prefix@ == "sse."@,
            vars@ == saves_into(old(vars)@, sv.subrange(0, i as int), stream, outputs@, opt_json_view(*parsed)),
        decreases save@.len() - i,
    {
        let name = &save[i].0;
        let path = &save[i].1;
        proof {
            let ss = sv.subrange(0, i + 1);
            assert(ss.drop_last() =~= sv.subrange(0, i as int));
            assert(ss.last() == (name@, path@));
            reveal_strlit("sse.");
        }
        let found = if stream {
            let pv = chars_of(path.as_str());
            let stripped = if crate::text::starts_with(pv.as_slice(), prefix.as_slice()) {
                let mut t: Vec<char> = Vec::new();
                let mut k: usize = 4;
                while k < pv.len()
                    invariant
                        4 <= k <= pv@.len(),
                        t@ == pv@.subrange(4, k as int),
                    decreases pv@.len() - k,
                {
                    t.push(pv[k]);
                    k = k + 1;
                    proof {
                        assert(t@ =~= pv@.subrange(4, k as int));
                    }
                }
                string_of(t.as_slice())
            } else {
                path.clone()
            };
            match resolve_path(outputs, stripped.as_str()) {
                Some(x) => Some(copy_json(x)),
                None => None,
            }
        } else {
            match parsed {
                Some(j) => match get_by_json_path(j, path.as_str()) {
                    Some(x) => Some(copy_json(x)),
                    None => None,
                },
                None => None,
            }
        };
        match found {
            Some(x) => vars.set(name.clone(), x),
            None => {},
        }
        i = i + 1;
    }
    proof {
        assert(sv.subrange(0, sv.len() as int) =~= sv);
    }
}

/// The `bind` bindings: each expression, expanded, is evaluated against the
/// variables so far, the interpreter coming back with the matching outcome
/// of `outs`; one that fails binds nothing.
pub open spec fn binds_into(m: Map<Seq<char>, JVal>, bind: Seq<(Seq<char>, Seq<char>)>, outs: Seq<Outcome>) -> Map<Seq<char>, JVal>
    decreases bind.len(),
{
    if bind.len() == 0 {
        m
    } else {
        let pre = binds_into(m, bind.drop_last(), outs.drop_last());
        let (name, e) = bind.last();
        let src = crate::expression::preprocessed(expand(e, pre));
        match crate::expression::value_of(src, outs.last()) {
            Ok(v) => pre.insert(name, v),
            Err(_) => pre,
        }
    }
}

/// Applies the `bind` expressions; gives the outcomes the interpreter came
/// back with.
fn apply_binds(vars: &mut Vars, bind: &Vec<(String, String)>) -> (outs: Ghost<Seq<Outcome>>)
    ensures
        outs@.len() == bind@.len(),
        final(vars)@ == binds_into(old(vars)@, pairs_view(bind@), outs@),
{
    let ghost bv = pairs_view(bind@);
    let ghost mut os: Seq<Outcome> = Seq::empty();
    let mut i: usize = 0;
    proof {
        assert(bv.subrange(0, 0) =~= Seq::<(Seq<char>, Seq<char>)>::empty());
    }
    while i < bind.len()
        invariant
            0 <= i <= bind@.len(),
            bv == pairs_view(bind@),
            os.len() == i,
            vars@ == binds_into(old(vars)@, bv.subrange(0, i as int), os),
        decreases bind@.len() - i,
    {
        proof {
            let bs = bv.subrange(0, i + 1);
            assert(bs.drop_last() =~= bv.subrange(0, i as int));
            assert(bs.last() == bv[i as int]);
        }
        let e = expand_variables(bind[i].1.as_str(), vars);
        let (res, o) = crate::expression::resolve_traced(e.as_str(), vars);
        match res {
            Ok(v) => vars.set(bind[i].0.clone(), v),
            Err(_) => {},
        }
        proof {
            assert(os.push(o@).drop_last() =~= os);
            os = os.push(o@);
        }
        i = i + 1;
    }
    proof {
        assert(bv.subrange(0, bv.len() as int) =~= bv);
    }
    Ghost(os)
}

/// What a scenario run carries from one step to the next.
pub struct RunState {
    /// The variable context.
    pub vars: Vars,
    /// Each recorded step's value, by step key.
    pub steps: Vars,
    /// How many steps took each base key.
    pub key_counts: Vars,
    /// The `current` value of the last completed step.
    pub previous: Option<Json>,
}

impl RunState {
    /// The state a scenario starts from: its variables, nothing recorded.
    pub fn new(vars: &Vec<(String, Json)>) -> (r: RunState)
        ensures
            r.vars@ == crate::context::entries_map(entries_view(vars@)),
            r.steps@ == Map::<Seq<char>, JVal>::empty(),
            r.key_counts@ == Map::<Seq<char>, JVal>::empty(),
            r.previous is None,
    {
        let mut out: Vec<(String, Json)> = Vec::new();
        let mut i: usize = 0;
        while i < vars.len()
            invariant
                0 <= i <= vars@.len(),
                out@.len() == i,
                forall|j: int| 0 <= j < i ==> (#[trigger] out@[j]).0@ == vars@[j].0@ && out@[j].1@ == vars@[j].1@,
            decreases vars@.len() - i,
        {
            out.push((vars[i].0.clone(), copy_json(&vars[i].1)));
            i = i + 1;
        }
        let v = Vars { entries: out };
        proof {
            assert(entries_view(v.entries@) =~= entries_view(vars@));
        }
        RunState { vars: v, steps: Vars::new(), key_counts: Vars::new(), previous: None }
    }
}

/// The context the checks of a step see: `current` set, and `previous` when
/// an earlier step completed.
pub open spec fn vars_at_check(m: Map<Seq<char>, JVal>, cur: JVal, prev: Option<JVal>) -> Map<Seq<char>, JVal> {
    let v = m.insert("current"@, cur);
    match prev {
        Some(p) => v.insert("previous"@, p),
        None => v,
    }
}

pub open spec fn msg_test_failed(src: Seq<char>) -> Seq<char> {
    "test expression failed: "@ + src
}

pub open spec fn msg_test_error(cause: Seq<char>) -> Seq<char> {
    "test expression error: "@ + cause
}

/// The failure of the `test` expression, when the checks passed and it is
/// set, the interpreter having come back with outcome `o`.
pub open spec fn test_failure(test: Option<Seq<char>>, passed: bool, m: Map<Seq<char>, JVal>, o: Outcome) -> Option<Seq<char>> {
    if !passed {
        None
    } else {
        match test {
            None => None,
            Some(t) => {
                let src = crate::expression::preprocessed(expand(t, m));
                match crate::expression::verdict_of(src, o) {
                    Ok(b) => if b { None } else { Some(msg_test_failed(t)) },
                    Err(e) => Some(msg_test_error(e)),
                }
            },
        }
    }
}

/// `steps.<key>`: the step's record.
pub open spec fn step_record(key: Seq<char>, name: Seq<char>, success: bool, duration_ms: u64, request: JVal, res: JVal, response: JVal, outputs: JVal) -> JVal {
    JVal::Obj(seq![
        ("durationMs"@, JVal::Int(duration_ms as int)),
        ("id"@, JVal::Str(key)),
        ("name"@, JVal::Str(name)),
        ("outputs"@, outputs),
        ("request"@, request),
        ("res"@, res),
        ("response"@, response),
        ("success"@, JVal::Bool(success)),
    ])
}

/// `m` with `env.<NAME>` bound to each environment variable not bound yet.
pub open spec fn env_into(m: Map<Seq<char>, JVal>, env: Seq<(Seq<char>, Seq<char>)>) -> Map<Seq<char>, JVal>
    decreases env.len(),
{
    if env.len() == 0 {
        m
    } else {
        let pre = env_into(m, env.drop_last());
        let k = "env."@ + env.last().0;
        if pre.contains_key(k) { pre } else { pre.insert(k, JVal::Str(env.last().1)) }
    }
}

fn apply_env(vars: &mut Vars, env: &Vec<(String, String)>)
    ensures
        final(vars)@ == env_into(old(vars)@, pairs_view(env@)),
{
    let ghost ev = pairs_view(env@);
    let mut i: usize = 0;
    proof {
        assert(ev.subrange(0, 0) =~= Seq::<(Seq<char>, Seq<char>)>::empty());
    }
    while i < env.len()
        invariant
            0 <= i <= env@.len(),
            ev == pairs_view(env@),
            vars@ == env_into(old(vars)@, ev.subrange(0, i as int)),
        decreases env@.len() - i,
    {
        proof {
            let es = ev.subrange(0, i + 1);
            assert(es.drop_last() =~= ev.subrange(0, i as int));
            assert(es.last() == ev[i as int]);
        }
        let mut k = chars_of("env.");
        push_str(&mut k, env[i].0.as_str());
        proof {
            assert(k@ =~= "env."@ + env@[i as int].0@);
        }
        vars.set_default(string_of(k.as_slice()), Json::Str(env[i].1.clone()));
        i = i + 1;
    }
    proof {
        assert(ev.subrange(0, ev.len() as int) =~= ev);
    }
}

/// The step value recorded for a completed request step.
pub open spec fn record_of(key: Seq<char>, step: TestStep, ok: bool, duration_ms: u64, info: RequestInfo, obs: Observed) -> JVal {
    step_record(
        key,
        step.name@,
        ok,
        duration_ms,
        request_record(info),
        current_res(obs.status, pairs_view(obs.headers@), opt_json_view(obs.parsed), obs.body@),
        response_record(obs.status, pairs_view(obs.headers@), opt_json_view(obs.parsed), obs.body@),
        outputs_of(opt_json_view(obs.parsed), opt_events(obs.events)),
    )
}

fn step_record_value(key: &String, step: &TestStep, ok: bool, duration_ms: u64, info: &RequestInfo, obs: &Observed) -> (r: Json)
    ensures
        r@ == record_of(key@, *step, ok, duration_ms, *info, *obs),
{
    let mut out: Vec<(String, Json)> = Vec::new();
    obj_push(&mut out, "durationMs", Json::PosInt(duration_ms));
    obj_push(&mut out, "id", Json::Str(key.clone()));
    obj_push(&mut out, "name", Json::Str(step.name.clone()));
    obj_push(&mut out, "outputs", outputs_value(obs));
    obj_push(&mut out, "request", request_record_value(info));
    obj_push(&mut out, "res", res_value(obs.status, &obs.headers, &obs.parsed, &obs.body));
    obj_push(&mut out, "response", response_record_value(obs));
    obj_push(&mut out, "success", Json::Bool(ok));
    proof {
        lemma_obj_view(out);
        assert(entries_view(out@) =~= record_of(key@, *step, ok, duration_ms, *info, *obs)->Obj_0);
    }
    Json::Obj(out)
}

/// The failure message of the `test` expression, if it fails.
fn run_test(test: &Option<String>, passed: bool, vars: &Vars) -> (r: (Option<String>, Ghost<Outcome>))
    ensures
        crate::sse::opt_text(r.0) == test_failure(crate::sse::opt_text(*test), passed, vars@, r.1@),
{
    if !passed {
        return (None, Ghost(arbitrary()));
    }
    match test {
        None => (None, Ghost(arbitrary())),
        Some(t) => {
            let e = expand_variables(t.as_str(), vars);
            let (verdict, o) = crate::expression::evaluate_traced(e.as_str(), vars);
            let r = match verdict {
                Ok(b) => {
                    if b {
                        None
                    } else {
                        let mut out = chars_of("test expression failed: ");
                        push_str(&mut out, t.as_str());
                        proof {
                            assert(out@ =~= msg_test_failed(t@));
                        }
                        Some(string_of(out.as_slice()))
                    }
                },
                Err(m) => {
                    let mut out = chars_of("test expression error: ");
                    push_str(&mut out, m.as_str());
                    proof {
                        assert(out@ =~= msg_test_error(m@));
                    }
                    Some(string_of(out.as_slice()))
                },
            };
            (r, o)
        },
    }
}

/// What completing a request step does, the interpreter having come back
/// with outcome `o` for the `test` expression and `outs` for the `bind`
/// expressions.
pub open spec fn step_completed(
    old_state: RunState,
    new_state: RunState,
    step: TestStep,
    idx: usize,
    info: RequestInfo,
    obs: Observed,
    duration_ms: u64,
    env: Seq<(Seq<char>, Seq<char>)>,
    r: StepResult,
    o: Outcome,
    outs: Seq<Outcome>,
) -> bool {
    let cur = current_value(obs.status, pairs_view(obs.headers@), opt_json_view(obs.parsed), obs.body@, info);
    let v1 = vars_at_check(old_state.vars@, cur, opt_json_view(old_state.previous));
    let ex = expectation_errors(step.expect, obs.status, pairs_view(obs.headers@), obs.body@, opt_json_view(obs.parsed), opt_events(obs.events), v1);
    let v2 = v1.union_prefer_right(ex.1);
    let tf = test_failure(crate::sse::opt_text(step.test), ex.0.len() == 0, v2, o);
    let ok = ex.0.len() == 0 && tf is None;
    let b = base_key(crate::sse::opt_text(step.id), step.name@, idx as nat);
    let n = count_of(old_state.key_counts@, b);
    let key = final_key(b, n);
    let rec = record_of(key, step, ok, duration_ms, info, obs);
    let v3 = if ok {
        binds_into(
            saves_into(v2, pairs_view(step.save@), obs.events is Some, outputs_of(opt_json_view(obs.parsed), opt_events(obs.events)), opt_json_view(obs.parsed)),
            pairs_view(step.bind@),
            outs,
        )
    } else {
        v2
    };
    &&& r.success == ok
    &&& crate::sse::opt_text(r.error) == if ex.0.len() > 0 { Some(ex.0[0]) } else { tf }
    &&& r.name@ == step.name@
    &&& r.request == info
    &&& r.response matches Some(ri) && ri.status == obs.status && ri.headers == obs.headers && ri.body == Some(obs.body)
    &&& r.duration_ms == duration_ms
    &&& opt_json_view(new_state.previous) == Some(cur)
    &&& new_state.key_counts@ == old_state.key_counts@.insert(b, JVal::Int(bump(n)))
    &&& new_state.steps@ == old_state.steps@.insert(key, rec)
    &&& new_state.vars@ == env_into(
        flat_into(v3, "steps."@ + key, rec).insert("steps"@, JVal::Obj(entries_view(new_state.steps.entries@))),
        env,
    )
}

/// Completes a request step from its response: sets `current` and
/// `previous`, runs the declarative checks (merging what stream assertions
/// saved), then the `test` expression; on success applies `save` and `bind`;
/// records the step under its key, flattens that record into the context,
/// rebinds `steps`, and adds the environment. The first error is the
/// step's error.
pub fn complete_step(
    state: &mut RunState,
    step: &TestStep,
    idx: usize,
    info: RequestInfo,
    obs: Observed,
    duration_ms: u64,
    env: &Vec<(String, String)>,
) -> (r: StepResult)
    requires
        idx < usize::MAX,
    ensures
        exists|o: Outcome, outs: Seq<Outcome>|
            #[trigger] step_completed(*old(state), *final(state), *step, idx, info, obs, duration_ms, pairs_view(env@), r, o, outs),
{
    let cur = build_current_value(obs.status, &obs.headers, &obs.parsed, &obs.body, &info);
    state.vars.set(String::from_str("current"), copy_json(&cur));
    match &state.previous {
        Some(p) => state.vars.set(String::from_str("previous"), copy_json(p)),
        None => {},
    }
    let (errs, saved) = check_expectations(&step.expect, &obs, &state.vars);
    merge_vars(&mut state.vars, &saved);
    let passed = errs.len() == 0;
    let (tf, o) = run_test(&step.test, passed, &state.vars);
    let ok = passed && tf.is_none();
    let error = if errs.len() > 0 { Some(errs[0].clone()) } else { tf };
    let outs = outputs_value(&obs);
    let ghost mut bind_outs: Seq<Outcome> = Seq::empty();
    if ok {
        apply_saves(&mut state.vars, &step.save, obs.events.is_some(), &outs, &obs.parsed);
        let g = apply_binds(&mut state.vars, &step.bind);
        proof {
            bind_outs = g@;
        }
    }
    let key = next_step_key(step, idx, &mut state.key_counts);
    let rec = step_record_value(&key, step, ok, duration_ms, &info, &obs);
    let mut prefix = chars_of("steps.");
    push_str(&mut prefix, key.as_str());
    let prefix_s = string_of(prefix.as_slice());
    state.steps.set(key.clone(), copy_json(&rec));
    flatten_value_into(prefix_s.as_str(), &rec, &mut state.vars);
    let all = steps_object(&state.steps);
    state.vars.set(String::from_str("steps"), all);
    state.previous = Some(cur);
    apply_env(&mut state.vars, env);
    let ghost info0 = info;
    let ghost obs0 = obs;
    let response = Some(ResponseInfo { status: obs.status, headers: obs.headers, body: Some(obs.body) });
    let r = StepResult { name: step.name.clone(), success: ok, error, request: info, response, duration_ms };
    proof {
        assert(step_completed(*old(state), *state, *step, idx, info0, obs0, duration_ms, pairs_view(env@), r, o@, bind_outs));
    }
    r
}

fn flatten_value_into(prefix: &str, v: &Json, vars: &mut Vars)
    ensures
        final(vars)@ == flat_into(old(vars)@, prefix@, v@),
{
    crate::flatten::flatten_value(prefix, v, vars);
}

/// The recorded steps as one object.
fn steps_object(steps: &Vars) -> (r: Json)
    ensures
        r@ == JVal::Obj(entries_view(steps.entries@)),
{
    let mut out: Vec<(String, Json)> = Vec::new();
    let mut i: usize = 0;
    while i < steps.entries.len()
        invariant
            0 <= i <= steps.entries@.len(),
            out@.len() == i,
            forall|j: int| 0 <= j < i ==> (#[trigger] out@[j]).0@ == steps.entries@[j].0@ && out@[j].1@ == steps.entries@[j].1@,
        decreases steps.entries@.len() - i,
    {
        out.push((steps.entries[i].0.clone(), copy_json(&steps.entries[i].1)));
        i = i + 1;
    }
    proof {
        lemma_obj_view(out);
        assert(entries_view(out@) =~= entries_view(steps.entries@));
    }
    Json::Obj(out)
}

/// Whether a step runs: it has no condition, or its condition, expanded
/// and trimmed, is `true` in any case.
pub open spec fn runs(cond: Option<Seq<char>>, m: Map<Seq<char>, JVal>) -> bool {
    match cond {
        None => true,
        Some(c) => crate::text::lower_ascii(crate::text::trimmed(expand(c, m))) == "true"@,
    }
}

/// Evaluates the step's skip condition.
pub fn should_run(step: &TestStep, vars: &Vars) -> (r: bool)
    ensures
        r == runs(crate::sse::opt_text(step.condition), vars@),
{
    match &step.condition {
        None => true,
        Some(c) => {
            let e = expand_variables(c.as_str(), vars);
            let ev = chars_of(e.as_str());
            let t = crate::text::trim_chars(ev.as_slice());
            let l = crate::text::lower_chars(t.as_slice());
            let want = chars_of("true");
            crate::text::chars_equal(l.as_slice(), want.as_slice())
        },
    }
}

pub open spec fn msg_send_failed(cause: Seq<char>) -> Seq<char> {
    "リクエスト送信エラー: "@ + cause
}

/// The result of a step whose request could not be sent (or prepared).
pub fn send_failure_result(step: &TestStep, vars: &Vars, cause: &str, duration_ms: u64) -> (r: StepResult)
    ensures
        r.name@ == step.name@,
        !r.success,
        crate::sse::opt_text(r.error) == Some(msg_send_failed(cause@)),
        r.request.method@ == step.request.method.spec_name(),
        r.request.url@ == expand(step.request.url@, vars@),
        r.request.headers@.len() == 0,
        r.request.body is None,
        r.response is None,
        r.duration_ms == duration_ms,
{
    let mut out = chars_of("リクエスト送信エラー: ");
    push_str(&mut out, cause);
    proof {
        assert(out@ =~= msg_send_failed(cause@));
    }
    let url = expand_variables(step.request.url.as_str(), vars);
    StepResult {
        name: step.name.clone(),
        success: false,
        error: Some(string_of(out.as_slice())),
        request: RequestInfo { method: step.request.method.name(), url, headers: Vec::new(), body: None },
        response: None,
        duration_ms,
    }
}

/// The expanded path of an included scenario.
pub fn include_path(inc: &IncludeConfig, vars: &Vars) -> (r: String)
    ensures
        r@ == expand(inc.path@, vars@),
{
    expand_variables(inc.path.as_str(), vars)
}

/// The included scenario's variables after the override: each override
/// value, written as text and expanded, replaces the child's own when it
/// parses back; then every parent binding the child lacks.
pub open spec fn override_into(m: Map<Seq<char>, JVal>, ov: Seq<(Seq<char>, JVal)>, ctx: Map<Seq<char>, JVal>) -> Map<Seq<char>, JVal>
    decreases ov.len(),
{
    if ov.len() == 0 {
        m
    } else {
        let pre = override_into(m, ov.drop_last(), ctx);
        match json_parse(expand(json_render(ov.last().1), ctx)) {
            Some(v) => pre.insert(ov.last().0, v),
            None => pre,
        }
    }
}

/// Prepares an included scenario: overrides its variables, gives it the
/// parent's bindings as defaults, and the parent's base URL and default
/// headers where it has none of its own.
pub fn prepare_included(child: &mut TestScenario, inc: &IncludeConfig, vars: &Vars, config: &TestConfig)
    ensures
        ({
            let own = crate::context::entries_map(entries_view(old(child).vars@));
            let over = override_into(own, entries_view(inc.vars@), vars@);
            crate::context::entries_map(entries_view(final(child).vars@)) == vars@.union_prefer_right(over)
        }),
        final(child).config.base_url == (if old(child).config.base_url is None { config.base_url } else { old(child).config.base_url }),
        pairs_view(final(child).config.headers@) == crate::request::merged_headers(pairs_view(old(child).config.headers@), pairs_view(config.headers@)),
        final(child).config.timeout == old(child).config.timeout,
        final(child).config.continue_on_failure == old(child).config.continue_on_failure,
        final(child).steps@ == old(child).steps@,
        final(child).name == old(child).name,
{
    let mut own = Vars { entries: Vec::new() };
    std::mem::swap(&mut own.entries, &mut child.vars);
    let ghost ov = entries_view(inc.vars@);
    let mut i: usize = 0;
    proof {
        assert(ov.subrange(0, 0) =~= Seq::<(Seq<char>, JVal)>::empty());
    }
    while i < inc.vars.len()
        invariant
            0 <= i <= inc.vars@.len(),
            ov == entries_view(inc.vars@),
            own@ == override_into(crate::context::entries_map(entries_view(old(child).vars@)), ov.subrange(0, i as int), vars@),
        decreases inc.vars@.len() - i,
    {
        proof {
            let os = ov.subrange(0, i + 1);
            assert(os.drop_last() =~= ov.subrange(0, i as int));
            assert(os.last() == ov[i as int]);
        }
        let text = render_json(&inc.vars[i].1);
        let e = expand_variables(text.as_str(), vars);
        match parse_json(e.as_str()) {
            Some(v) => own.set(inc.vars[i].0.clone(), v),
            None => {},
        }
        i = i + 1;
    }
    proof {
        assert(ov.subrange(0, ov.len() as int) =~= ov);
    }
    let mut merged = vars.copy();
    merge_vars(&mut merged, &own);
    child.vars = merged.entries;
    if child.config.base_url.is_none() {
        child.config.base_url = match &config.base_url {
            Some(b) => Some(b.clone()),
            None => None,
        };
    }
    let hs = crate::request::merge_headers(&child.config.headers, &config.headers);
    child.config.headers = hs;
}

/// The parent's record of an include step: `{steps: {<child step name>:
/// {name, success}}}`.
pub open spec fn include_record(results: Seq<StepResult>) -> JVal {
    JVal::Obj(seq![("steps"@, JVal::Obj(results.map_values(|r: StepResult|
        (r.name@, JVal::Obj(seq![("name"@, JVal::Str(r.name@)), ("success"@, JVal::Bool(r.success))]))
    )))])
}

/// Records an include step: the child's step results summarised under the
/// step's key (told apart from earlier keys as for any step), and the
/// step's own result with request `INCLUDE <path>`.
pub fn complete_include(
    state: &mut RunState,
    step: &TestStep,
    idx: usize,
    path: String,
    child: &TestResult,
    duration_ms: u64,
) -> (r: StepResult)
    requires
        idx < usize::MAX,
    ensures
        ({
            let b = base_key(crate::sse::opt_text(step.id), step.name@, idx as nat);
            let n = count_of(old(state).key_counts@, b);
            &&& final(state).steps@ == old(state).steps@.insert(final_key(b, n), include_record(child.steps@))
            &&& final(state).key_counts@ == old(state).key_counts@.insert(b, JVal::Int(bump(n)))
        }),
        final(state).vars == old(state).vars,
        final(state).previous == old(state).previous,
        r.name@ == step.name@,
        r.success == child.success,
        crate::sse::opt_text(r.error) == crate::sse::opt_text(child.error),
        r.request.method@ == "INCLUDE"@,
        r.request.url@ == path@,
        r.response is None,
        r.duration_ms == duration_ms,
{
    let key = next_step_key(step, idx, &mut state.key_counts);
    let mut inner: Vec<(String, Json)> = Vec::new();
    let mut i: usize = 0;
    while i < child.steps.len()
        invariant
            0 <= i <= child.steps@.len(),
            entries_view(inner@) == include_record(child.steps@)->Obj_0[0].1->Obj_0.subrange(0, i as int),
        decreases child.steps@.len() - i,
    {
        let sr = &child.steps[i];
        let mut o: Vec<(String, Json)> = Vec::new();
        obj_push(&mut o, "name", Json::Str(sr.name.clone()));
        obj_push(&mut o, "success", Json::Bool(sr.success));
        proof {
            lemma_obj_view(o);
        }
        let ghost before = entries_view(inner@);
        let ov = Json::Obj(o);
        let ghost ovv = ov@;
        inner.push((sr.name.clone(), ov));
        proof {
            assert(ovv == JVal::Obj(seq![("name"@, JVal::Str(sr.name@)), ("success"@, JVal::Bool(sr.success))])) by {
                assert(ovv->Obj_0 =~= seq![("name"@, JVal::Str(sr.name@)), ("success"@, JVal::Bool(sr.success))]);
            }
            assert(entries_view(inner@) =~= before.push((sr.name@, ovv)));
        }
        i = i + 1;
        proof {
            assert(entries_view(inner@) =~= include_record(child.steps@)->Obj_0[0].1->Obj_0.subrange(0, i as int));
        }
    }
    proof {
        lemma_obj_view(inner);
        assert(entries_view(inner@) =~= include_record(child.steps@)->Obj_0[0].1->Obj_0);
    }
    let mut outer: Vec<(String, Json)> = Vec::new();
    obj_push(&mut outer, "steps", Json::Obj(inner));
    proof {
        lemma_obj_view(outer);
        assert(entries_view(outer@) =~= include_record(child.steps@)->Obj_0);
    }
    state.steps.set(key, Json::Obj(outer));
    let error = match &child.error {
        Some(e) => Some(e.clone()),
        None => None,
    };
    StepResult {
        name: step.name.clone(),
        success: child.success,
        error,
        request: RequestInfo { method: String::from_str("INCLUDE"), url: path, headers: Vec::new(), body: None },
        response: None,
        duration_ms,
    }
}

/// What the loop controller asks for next.
#[derive(Debug, Clone, Copy, PartialEq, Eq, Structural)]
pub enum LoopAction {
    /// Return the result just produced.
    Return,
    /// Sleep this many milliseconds, then run the step again.
    Sleep(u64),
    /// The iterations are spent: run the step once more and return that.
    RunFinal,
}

/// The interval after a wait: multiplied (in thousandths) and capped when a
/// multiplier is set.
pub open spec fn next_interval_of(interval: u64, cfg: LoopConfig) -> u64 {
    match cfg.multiplier_permille {
        None => interval,
        Some(m) => {
            let x = (interval as int) * (m as int) / 1000;
            let y = if x > u64::MAX { u64::MAX as int } else { x };
            match cfg.max_interval_ms {
                Some(mx) => if y > mx { mx } else { y as u64 },
                None => y as u64,
            }
        },
    }
}

/// The next interval of the backoff.
pub fn next_interval(interval: u64, cfg: &LoopConfig) -> (r: u64)
    ensures
        r == next_interval_of(interval, *cfg),
{
    match cfg.multiplier_permille {
        None => interval,
        Some(m) => {
            let a: u128 = interval as u128;
            let b: u128 = m as u128;
            proof {
                assert(a * b <= 0xffff_ffff_ffff_ffffu128 * 0xffff_ffff_ffff_ffffu128) by (nonlinear_arith)
                    requires
                        a <= 0xffff_ffff_ffff_ffffu128,
                        b <= 0xffff_ffff_ffff_ffffu128,
                ;
            }
            let x: u128 = a * b / 1000;
            let y: u64 = if x > u64::MAX as u128 { u64::MAX } else { x as u64 };
            match cfg.max_interval_ms {
                Some(mx) => if y > mx { mx } else { y },
                None => y,
            }
        },
    }
}

/// The decision after iteration `i` (from zero) of a loop: return when the
/// `until` expression held, or, without one, when the step succeeded;
/// otherwise wait before the next iteration, or, after the last, run once
/// more.
pub open spec fn loop_decision(cfg: LoopConfig, i: u32, until_held: bool, succeeded: bool, interval: u64) -> LoopAction {
    if (cfg.until is Some && until_held) || (cfg.until is None && succeeded) {
        LoopAction::Return
    } else if (i as int) + 1 < cfg.count as int {
        LoopAction::Sleep(interval)
    } else {
        LoopAction::RunFinal
    }
}

/// Decides what follows iteration `i`.
pub fn after_iteration(cfg: &LoopConfig, i: u32, until_held: bool, succeeded: bool, interval: u64) -> (r: LoopAction)
    ensures
        r == loop_decision(*cfg, i, until_held, succeeded, interval),
{
    if (cfg.until.is_some() && until_held) || (cfg.until.is_none() && succeeded) {
        LoopAction::Return
    } else if (i as u64) + 1 < cfg.count as u64 {
        LoopAction::Sleep(interval)
    } else {
        LoopAction::RunFinal
    }
}

/// Whether the loop's `until` expression holds in the context now; an
/// evaluation error counts as not holding.
pub fn until_holds(cfg: &LoopConfig, vars: &Vars) -> (r: bool)
    ensures
        exists|o: Outcome| r == #[trigger] until_verdict(*cfg, o),
{
    match &cfg.until {
        Some(u) => {
            let (v, o) = crate::expression::evaluate_traced(u.as_str(), vars);
            let r = match v {
                Ok(b) => b,
                Err(_) => false,
            };
            proof {
                assert(r == until_verdict(*cfg, o@));
            }
            r
        },
        None => {
            proof {
                assert(false == until_verdict(*cfg, arbitrary()));
            }
            false
        },
    }
}

/// Whether the `until` expression holds, the interpreter having come back
/// with outcome `o`: it must be set, and its verdict `Ok(true)`.
pub open spec fn until_verdict(cfg: LoopConfig, o: Outcome) -> bool {
    match cfg.until {
        Some(u) => crate::expression::verdict_of(crate::expression::preprocessed(u@), o) == Ok::<bool, Seq<char>>(true),
        None => false,
    }
}

/// The summary error of a failed scenario.
pub open spec fn msg_scenario_failed() -> Seq<char> {
    "一部のステップが失敗しました"@
}

/// A scenario run in progress: its state, the step results so far, and
/// whether all of them succeeded.
pub struct ScenarioRun {
    pub state: RunState,
    pub results: Vec<StepResult>,
    pub success: bool,
}

impl ScenarioRun {
    /// Starts a run of the scenario from its variables.
    pub fn start(scenario: &TestScenario) -> (r: ScenarioRun)
        ensures
            r.state.vars@ == crate::context::entries_map(entries_view(scenario.vars@)),
            r.state.steps@ == Map::<Seq<char>, JVal>::empty(),
            r.state.previous is None,
            r.results@.len() == 0,
            r.success,
    {
        ScenarioRun { state: RunState::new(&scenario.vars), results: Vec::new(), success: true }
    }

    /// Records a step's result; returns whether the scenario stops here (a
    /// failed step without `continue_on_failure`).
    pub fn record(&mut self, r: StepResult, continue_on_failure: bool) -> (stop: bool)
        ensures
            final(self).results@ == old(self).results@.push(r),
            final(self).success == (old(self).success && r.success),
            stop == (!r.success && !continue_on_failure),
            final(self).state == old(self).state,
    {
        let failed = !r.success;
        self.results.push(r);
        if failed {
            self.success = false;
        }
        failed && !continue_on_failure
    }

    /// The scenario's result: successful when every recorded step was, with
    /// a summary error otherwise.
    pub fn finish(self, name: &String, duration_ms: u64) -> (r: TestResult)
        ensures
            r.name@ == name@,
            r.success == self.success,
            r.success ==> r.error is None,
            !r.success ==> (r.error matches Some(e) && e@ == msg_scenario_failed()),
            r.steps == self.results,
            r.duration_ms == duration_ms,
    {
        let error = if self.success { None } else { Some(String::from_str("一部のステップが失敗しました")) };
        TestResult { name: name.clone(), success: self.success, error, steps: self.results, duration_ms }
    }
}

} // verus!
