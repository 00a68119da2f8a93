//! Server-sent event streams: framing, grouping and ordered assertions.
use vstd::prelude::*;
use crate::context::Vars;
use crate::json::{
    copy_json, entries_get, entries_view, jv, lemma_arr_view, lemma_obj_view, obj_get, opt_view,
    resolve, resolve_path, Json, JVal,
};
use crate::jsontext::{json_parse, json_render, opt_json_view, parse_json, render_json};
use crate::keys::{insert_sorted, keys_view, sorted_insert};
use crate::model::{SseEventExpectation, SseExpectation};
use crate::placeholder::{expand, expand_variables};
use crate::text::{
    chars_of, contains, dec, has_prefix, push_all, push_dec, push_str, seqs_view, split_chars,
    split_on, string_of, text_contains, trim_chars, trimmed,
};
use crate::validator::{data_eq_errors, strings_view, validate_data_eq};

verus! {

/// A line without the `\r` that ends it.
pub open spec fn strip_cr(l: Seq<char>) -> Seq<char> {
    if l.len() > 0 && l.last() == '\r' {
        l.drop_last()
    } else {
        l
    }
}

/// The lines of a text, as `str::lines` gives them: split at `\n`, a `\r`
/// before the `\n` dropped, no empty line after a final `\n`.
pub open spec fn lines_of(s: Seq<char>) -> Seq<Seq<char>> {
    let parts = split_on(s, '\n');
    let n = parts.len() as int;
    Seq::new((n - 1) as nat, |i: int| strip_cr(parts[i])) + if parts[n - 1].len() > 0 {
        seq![parts[n - 1]]
    } else {
        Seq::empty()
    }
}

/// Lines joined with `\n`.
pub open spec fn join_lines(parts: Seq<Seq<char>>) -> Seq<char>
    decreases parts.len(),
{
    if parts.len() == 0 {
        Seq::empty()
    } else if parts.len() == 1 {
        parts[0]
    } else {
        join_lines(parts.drop_last()) + seq!['\n'] + parts.last()
    }
}

/// Framing state: the open event's type, its data lines, the events so far.
pub type Frame = (Option<Seq<char>>, Seq<Seq<char>>, Seq<(Seq<char>, Seq<char>)>);

/// Closes the open event, if any.
pub open spec fn flush(st: Frame) -> Frame {
    match st.0 {
        Some(t) => (None, Seq::empty(), st.2.push((t, join_lines(st.1)))),
        None => st,
    }
}

/// One line: `event:` opens an event, `data:` adds a data line, a blank line
/// closes the open event; other lines are ignored.
pub open spec fn frame_line(st: Frame, line: Seq<char>) -> Frame {
    if has_prefix(line, "event:"@) {
        let f = flush(st);
        (Some(trimmed(line.subrange(6, line.len() as int))), f.1, f.2)
    } else if has_prefix(line, "data:"@) {
        (st.0, st.1.push(trimmed(line.subrange(5, line.len() as int))), st.2)
    } else if line.len() == 0 {
        flush(st)
    } else {
        st
    }
}

pub open spec fn frame_lines(lines: Seq<Seq<char>>) -> Frame
    decreases lines.len(),
{
    if lines.len() == 0 {
        (None, Seq::empty(), Seq::empty())
    } else {
        frame_line(frame_lines(lines.drop_last()), lines.last())
    }
}

/// The events of a stream body, as (type, raw data) pairs in order.
pub open spec fn sse_frames(body: Seq<char>) -> Seq<(Seq<char>, Seq<char>)> {
    flush(frame_lines(lines_of(body))).2
}

/// A parsed event: its type, its raw data and that data read as JSON.
#[derive(Debug, Clone)]
pub struct SseEvent {
    /// The `event:` field.
    pub event_type: String,
    /// The `data:` payload text.
    pub data_raw: String,
    /// The payload parsed as JSON, if it is JSON.
    pub data_json: Option<Json>,
}

/// The events a list of parsed events carries, as (type, raw data) pairs.
pub open spec fn events_view(v: Seq<SseEvent>) -> Seq<(Seq<char>, Seq<char>)> {
    v.map_values(|e: SseEvent| (e.event_type@, e.data_raw@))
}

/// Each event's JSON is its raw data parsed.
pub open spec fn events_parsed(v: Seq<SseEvent>) -> bool {
    forall|i: int| 0 <= i < v.len() ==> opt_json_view(#[trigger] v[i].data_json) == json_parse(v[i].data_raw@)
}

/// The lines of a text, as `str::lines` gives them.
pub fn text_lines(body: &str) -> (r: Vec<Vec<char>>)
    ensures
        seqs_view(r@) == lines_of(body@),
{
    let bv = chars_of(body);
    let parts = split_chars(bv.as_slice(), '\n');
    proof {
        crate::text::lemma_split_nonempty(body@, '\n');
    }
    let n = parts.len();
    let ghost pv = seqs_view(parts@);
    let mut out: Vec<Vec<char>> = Vec::new();
    let mut i: usize = 0;
    while i + 1 < n
        invariant
            n == parts@.len(),
            n >= 1,
            pv == seqs_view(parts@),
            pv == split_on(body@, '\n'),
            0 <= i < n,
            seqs_view(out@) == Seq::new(i as nat, |j: int| strip_cr(pv[j])),
        decreases n - i,
    {
        let p = &parts[i];
        let mut line: Vec<char> = Vec::new();
        let keep: usize = if p.len() > 0 && p[p.len() - 1] == '\r' { p.len() - 1 } else { p.len() };
        let mut k: usize = 0;
        while k < keep
            invariant
                keep <= p@.len(),
                0 <= k <= keep,
                line@ == p@.subrange(0, k as int),
            decreases keep - k,
        {
            line.push(p[k]);
            k = k + 1;
            proof {
                assert(line@ =~= p@.subrange(0, k as int));
            }
        }
        proof {
            assert(line@ =~= strip_cr(pv[i as int]));
        }
        let ghost before = seqs_view(out@);
        let ghost lv = line@;
        out.push(line);
        proof {
            assert(seqs_view(out@) =~= before.push(lv));
        }
        i = i + 1;
        proof {
            assert(seqs_view(out@) =~= Seq::new(i as nat, |j: int| strip_cr(pv[j])));
        }
    }
    let ghost head = seqs_view(out@);
    if parts[n - 1].len() > 0 {
        let mut last: Vec<char> = Vec::new();
        push_all(&mut last, parts[n - 1].as_slice());
        out.push(last);
        proof {
            assert(seqs_view(out@) =~= head + seq![pv[n - 1]]);
        }
    } else {
        proof {
            assert(seqs_view(out@) =~= head + Seq::<Seq<char>>::empty());
        }
    }
    out
}

/// Lines joined with `\n`.
pub fn join_parts(parts: &Vec<Vec<char>>) -> (r: String)
    ensures
        r@ == join_lines(seqs_view(parts@)),
{
    let ghost pv = seqs_view(parts@);
    let mut out: Vec<char> = Vec::new();
    let mut i: usize = 0;
    proof {
        assert(pv.subrange(0, 0) =~= Seq::<Seq<char>>::empty());
    }
    while i < parts.len()
        invariant
            0 <= i <= parts@.len(),
            pv == seqs_view(parts@),
            out@ == join_lines(pv.subrange(0, i as int)),
        decreases parts@.len() - i,
    {
        if i > 0 {
            out.push('\n');
        }
        push_all(&mut out, parts[i].as_slice());
        proof {
            let ps = pv.subrange(0, i + 1);
            assert(ps.drop_last() =~= pv.subrange(0, i as int));
            if i == 0 {
                assert(out@ =~= join_lines(ps));
            } else {
                assert(out@ =~= join_lines(ps));
            }
        }
        i = i + 1;
    }
    proof {
        assert(pv.subrange(0, pv.len() as int) =~= pv);
    }
    string_of(out.as_slice())
}

fn close_event(cur: &mut Option<String>, parts: &mut Vec<Vec<char>>, events: &mut Vec<SseEvent>)
    requires
        events_parsed(old(events)@),
    ensures
        ({
            let f = flush((opt_text(*old(cur)), seqs_view(old(parts)@), events_view(old(events)@)));
            &&& opt_text(*final(cur)) == f.0
            &&& seqs_view(final(parts)@) == f.1
            &&& events_view(final(events)@) == f.2
        }),
        events_parsed(final(events)@),
{
    if cur.is_some() {
        let t = cur.take().unwrap();
        let raw = join_parts(parts);
        let js = parse_json(raw.as_str());
        let ghost before = events@;
        events.push(SseEvent { event_type: t, data_raw: raw, data_json: js });
        *parts = Vec::new();
        proof {
            assert(seqs_view(parts@) =~= Seq::<Seq<char>>::empty());
            assert(events_view(events@) =~= events_view(before).push((t@, raw@)));
            assert forall|i: int| 0 <= i < events@.len() implies opt_json_view(#[trigger] events@[i].data_json) == json_parse(events@[i].data_raw@) by {
                if i < before.len() {
                    assert(events@[i] == before[i]);
                }
            }
        }
    }
}

pub open spec fn opt_text(o: Option<String>) -> Option<Seq<char>> {
    match o {
        Some(s) => Some(s@),
        None => None,
    }
}

fn rest_trimmed(line: &Vec<char>, from: usize) -> (r: String)
    requires
        from <= line@.len(),
    ensures
        r@ == trimmed(line@.subrange(from as int, line@.len() as int)),
{
    let mut rest: Vec<char> = Vec::new();
    let mut k: usize = from;
    while k < line.len()
        invariant
            from <= k <= line@.len(),
            rest@ == line@.subrange(from as int, k as int),
        decreases line@.len() - k,
    {
        rest.push(line[k]);
        k = k + 1;
        proof {
            assert(rest@ =~= line@.subrange(from as int, k as int));
        }
    }
    let t = trim_chars(rest.as_slice());
    string_of(t.as_slice())
}

/// Splits a stream body into events: `event:` lines open one, `data:` lines
/// add to its data (joined by newlines), a blank line or the end closes it.
/// Each event's data is also read as JSON.
pub fn parse_sse_events(body: &str) -> (r: Vec<SseEvent>)
    ensures
        events_view(r@) == sse_frames(body@),
        events_parsed(r@),
{
    let lines = text_lines(body);
    let ghost lv = seqs_view(lines@);
    let mut cur: Option<String> = None;
    let mut parts: Vec<Vec<char>> = Vec::new();
    let mut events: Vec<SseEvent> = Vec::new();
    let ev_kw = chars_of("event:");
    let data_kw = chars_of("data:");
    let mut i: usize = 0;
    proof {
        assert(lv.subrange(0, 0) =~= Seq::<Seq<char>>::empty());
        assert(seqs_view(parts@) =~= Seq::<Seq<char>>::empty());
        assert(events_view(events@) =~= Seq::<(Seq<char>, Seq<char>)>::empty());
    }
    while i < lines.len()
        invariant
            0 <= i <= lines@.len(),
            lv == seqs_view(lines@),
            lv == lines_of(body@),
            ev_kw@ == "event:"@,
            data_kw@ == "data:"@,
            (opt_text(cur), seqs_view(parts@), events_view(events@)) == frame_lines(lv.subrange(0, i as int)),
            events_parsed(events@),
        decreases lines@.len() - i,
    {
        let line = &lines[i];
        proof {
            let ls = lv.subrange(0, i + 1);
            assert(ls.drop_last() =~= lv.subrange(0, i as int));
            assert(ls.last() == line@);
            reveal_strlit("event:");
            reveal_strlit("data:");
        }
        if crate::text::starts_with(line.as_slice(), ev_kw.as_slice()) {
            close_event(&mut cur, &mut parts, &mut events);
            cur = Some(rest_trimmed(line, 6));
        } else if crate::text::starts_with(line.as_slice(), data_kw.as_slice()) {
            let d = rest_trimmed(line, 5);
            let dv = chars_of(d.as_str());
            let ghost before = seqs_view(parts@);
            parts.push(dv);
            proof {
                assert(seqs_view(parts@) =~= before.push(d@));
            }
        } else if line.len() == 0 {
            close_event(&mut cur, &mut parts, &mut events);
        }
        i = i + 1;
    }
    proof {
        assert(lv.subrange(0, lv.len() as int) =~= lv);
    }
    close_event(&mut cur, &mut parts, &mut events);
    events
}

/// The value an event contributes: its JSON, or its raw text as a string.
pub open spec fn event_value(e: SseEvent) -> JVal {
    match opt_json_view(e.data_json) {
        Some(v) => v,
        None => JVal::Str(e.data_raw@),
    }
}

/// The values of the events of type `k`, in order.
pub open spec fn values_of(evs: Seq<SseEvent>, k: Seq<char>) -> Seq<JVal>
    decreases evs.len(),
{
    if evs.len() == 0 {
        Seq::empty()
    } else {
        values_of(evs.drop_last(), k) + if evs.last().event_type@ == k {
            seq![event_value(evs.last())]
        } else {
            Seq::empty()
        }
    }
}

/// The event types, each once, ascending.
pub open spec fn type_keys(evs: Seq<SseEvent>) -> Seq<Seq<char>>
    decreases evs.len(),
{
    if evs.len() == 0 {
        Seq::empty()
    } else {
        sorted_insert(type_keys(evs.drop_last()), evs.last().event_type@)
    }
}

/// The grouped value: each event type mapped to the array of its events'
/// values, in encounter order.
pub open spec fn sse_value(evs: Seq<SseEvent>) -> JVal {
    let ks = type_keys(evs);
    JVal::Obj(Seq::new(ks.len(), |i: int| (ks[i], JVal::Arr(values_of(evs, ks[i])))))
}

/// Groups event values by event type.
pub fn build_sse_value(events: &Vec<SseEvent>) -> (r: Json)
    ensures
        r@ == sse_value(events@),
{
    let mut keys: Vec<Vec<char>> = Vec::new();
    let mut i: usize = 0;
    proof {
        assert(keys_view(keys@) =~= type_keys(events@.subrange(0, 0)));
    }
    while i < events.len()
        invariant
            0 <= i <= events@.len(),
            keys_view(keys@) == type_keys(events@.subrange(0, i as int)),
        decreases events@.len() - i,
    {
        proof {
            let es = events@.subrange(0, i + 1);
            assert(es.drop_last() =~= events@.subrange(0, i as int));
        }
        insert_sorted(&mut keys, chars_of(events[i].event_type.as_str()));
        i = i + 1;
    }
    proof {
        assert(events@.subrange(0, events@.len() as int) =~= events@);
    }
    let ghost kv = keys_view(keys@);
    let mut out: Vec<(String, Json)> = Vec::new();
    let mut k: usize = 0;
    while k < keys.len()
        invariant
            0 <= k <= keys@.len(),
            kv == keys_view(keys@),
            kv == type_keys(events@),
            out@.len() == k,
            forall|j: int| 0 <= j < k ==> (#[trigger] entries_view(out@)[j]) == (kv[j], JVal::Arr(values_of(events@, kv[j]))),
        decreases keys@.len() - k,
    {
        let key = string_of(keys[k].as_slice());
        let mut vals: Vec<Json> = Vec::new();
        let mut e: usize = 0;
        proof {
            assert(vals@.map_values(|v: Json| jv(v)) =~= values_of(events@.subrange(0, 0), key@));
        }
        while e < events.len()
            invariant
                0 <= e <= events@.len(),
                vals@.map_values(|v: Json| jv(v)) == values_of(events@.subrange(0, e as int), key@),
            decreases events@.len() - e,
        {
            let ghost before = vals@.map_values(|v: Json| jv(v));
            proof {
                let es = events@.subrange(0, e + 1);
                assert(es.drop_last() =~= events@.subrange(0, e as int));
                assert(es.last() == events@[e as int]);
            }
            if events[e].event_type == key {
                let v = match &events[e].data_json {
                    Some(j) => copy_json(j),
                    None => Json::Str(events[e].data_raw.clone()),
                };
                vals.push(v);
                proof {
                    assert(vals@.map_values(|v: Json| jv(v)) =~= before + seq![event_value(events@[e as int])]);
                }
            } else {
                proof {
                    assert(vals@.map_values(|v: Json| jv(v)) =~= before + Seq::<JVal>::empty());
                }
            }
            e = e + 1;
        }
        proof {
            assert(events@.subrange(0, events@.len() as int) =~= events@);
            lemma_arr_view(vals);
        }
        let ghost before = entries_view(out@);
        out.push((key, Json::Arr(vals)));
        proof {
            assert forall|j: int| 0 <= j < k + 1 implies (#[trigger] entries_view(out@)[j]) == (kv[j], JVal::Arr(values_of(events@, kv[j]))) by {
                if j < k {
                    assert(entries_view(out@)[j] == before[j]);
                }
            }
        }
        k = k + 1;
    }
    proof {
        lemma_obj_view(out);
        assert(entries_view(out@) =~= sse_value(events@)->Obj_0);
    }
    Json::Obj(out)
}

/// The name, when the whole text is one `{{name}}` placeholder of word
/// characters.
pub uninterp spec fn whole_placeholder(s: Seq<char>) -> Option<Seq<char>>;

/// Relies on `regex::Regex::captures` with `^\{\{\s*(\w+)\s*\}\}$`: the
/// captured name, if the text matches.
#[verifier::external_body]
fn whole_placeholder_name(s: &str) -> (r: Option<String>)
    ensures
        opt_text(r) == whole_placeholder(s@),
{
    let re = regex::Regex::new(r"^\{\{\s*(\w+)\s*\}\}$").unwrap();
    re.captures(s).map(|c| c[1].to_string())
}

/// An expected value with its placeholders filled: a string that is one
/// placeholder of a saved name becomes that saved value; another string is
/// expanded from the context; other values stay.
pub open spec fn expand_value(v: JVal, ctx: Map<Seq<char>, JVal>, saved: Map<Seq<char>, JVal>) -> JVal {
    match v {
        JVal::Str(s) => match whole_placeholder(s) {
            Some(n) => if saved.contains_key(n) {
                saved[n]
            } else {
                JVal::Str(expand(s, ctx))
            },
            None => JVal::Str(expand(s, ctx)),
        },
        _ => v,
    }
}

/// `expand_value` applied to every string leaf.
pub open spec fn expand_value_deep(v: JVal, ctx: Map<Seq<char>, JVal>, saved: Map<Seq<char>, JVal>) -> JVal
    decreases v,
{
    match v {
        JVal::Str(_) => expand_value(v, ctx, saved),
        JVal::Arr(a) => JVal::Arr(Seq::new(a.len(), |i: int| if 0 <= i < a.len() { expand_value_deep(a[i], ctx, saved) } else { JVal::Null })),
        JVal::Obj(es) => JVal::Obj(Seq::new(es.len(), |i: int| if 0 <= i < es.len() { (es[i].0, expand_value_deep(es[i].1, ctx, saved)) } else { (Seq::empty(), JVal::Null) })),
        _ => v,
    }
}

fn expand_one(v: &Json, ctx: &Vars, saved: &Vars) -> (r: Json)
    ensures
        r@ == expand_value(v@, ctx@, saved@),
{
    match v {
        Json::Str(s) => {
            if let Some(n) = whole_placeholder_name(s.as_str()) {
                if let Some(x) = saved.get(&n) {
                    return copy_json(x);
                }
            }
            Json::Str(expand_variables(s.as_str(), ctx))
        },
        _ => copy_json(v),
    }
}

fn expand_deep(v: &Json, ctx: &Vars, saved: &Vars) -> (r: Json)
    ensures
        r@ == expand_value_deep(v@, ctx@, saved@),
    decreases v,
{
    match v {
        Json::Arr(a) => {
            proof {
                lemma_arr_view(*a);
            }
            let mut out: Vec<Json> = Vec::new();
            let mut i: usize = 0;
            while i < a.len()
                invariant
                    0 <= i <= a@.len(),
                    out@.len() == i,
                    forall|j: int| 0 <= j < i ==> (#[trigger] out@[j])@ == expand_value_deep(a@[j]@, ctx@, saved@),
                    decreases_to!(*v => *a),
                decreases a@.len() - i,
            {
                proof {
                    assert(decreases_to!(*a => a@[i as int]));
                }
                out.push(expand_deep(&a[i], ctx, saved));
                i = i + 1;
            }
            proof {
                lemma_arr_view(out);
                assert(out@.map_values(|x: Json| jv(x)) =~= expand_value_deep(v@, ctx@, saved@)->Arr_0);
            }
            Json::Arr(out)
        },
        Json::Obj(es) => {
            proof {
                lemma_obj_view(*es);
            }
            let mut out: Vec<(String, Json)> = Vec::new();
            let mut i: usize = 0;
            while i < es.len()
                invariant
                    0 <= i <= es@.len(),
                    out@.len() == i,
                    forall|j: int| 0 <= j < i ==> (#[trigger] out@[j]).0@ == es@[j].0@ && out@[j].1@ == expand_value_deep(es@[j].1@, ctx@, saved@),
                    decreases_to!(*v => *es),
                decreases es@.len() - i,
            {
                proof {
                    assert(decreases_to!(*es => es@[i as int]));
                    assert(decreases_to!(es@[i as int] => es@[i as int].1));
                }
                let x = expand_deep(&es[i].1, ctx, saved);
                out.push((es[i].0.clone(), x));
                i = i + 1;
            }
            proof {
                lemma_obj_view(out);
                assert(entries_view(out@) =~= expand_value_deep(v@, ctx@, saved@)->Obj_0);
            }
            Json::Obj(out)
        },
        _ => expand_one(v, ctx, saved),
    }
}

/// The start of every message about the expectation at `idx`.
pub open spec fn ev_head(idx: nat, t: Seq<char>) -> Seq<char> {
    "SSE event["@ + dec(idx) + "] '"@ + t + "': "@
}

/// A field of a JSON object, as `serde_json::Value::get` with a key finds it.
pub open spec fn field_of(v: JVal, k: Seq<char>) -> Option<JVal> {
    match v {
        JVal::Obj(es) => obj_get(es, k),
        _ => None,
    }
}

/// The errors of the exact-match fields.
pub open spec fn field_errors(
    j: JVal,
    data: Seq<(Seq<char>, JVal)>,
    h: Seq<char>,
    ctx: Map<Seq<char>, JVal>,
    saved: Map<Seq<char>, JVal>,
) -> Seq<Seq<char>>
    decreases data.len(),
{
    if data.len() == 0 {
        Seq::empty()
    } else {
        let (k, want0) = data.last();
        let want = expand_value(want0, ctx, saved);
        field_errors(j, data.drop_last(), h, ctx, saved) + match field_of(j, k) {
            Some(got) => if got == want {
                Seq::empty()
            } else {
                seq![h + "field '"@ + k + "' mismatch - expected "@ + json_render(want) + ", got "@ + json_render(got)]
            },
            None => seq![h + "field '"@ + k + "' not found in data"@],
        }
    }
}

/// The errors of the required fields.
pub open spec fn exists_errors(j: Option<JVal>, fields: Seq<Seq<char>>, h: Seq<char>) -> Seq<Seq<char>>
    decreases fields.len(),
{
    if fields.len() == 0 {
        Seq::empty()
    } else {
        let f = fields.last();
        exists_errors(j, fields.drop_last(), h) + match j {
            Some(v) => if field_of(v, f) is Some {
                Seq::empty()
            } else {
                seq![h + "expected field '"@ + f + "' to exist in data"@]
            },
            None => seq![h + "data is not valid JSON, cannot check field existence for '"@ + f + "'"@],
        }
    }
}

/// The saves of one event: (errors, saved variables after them).
pub open spec fn save_outcome(
    j: Option<JVal>,
    save: Seq<(Seq<char>, Seq<char>)>,
    h: Seq<char>,
    saved: Map<Seq<char>, JVal>,
) -> (Seq<Seq<char>>, Map<Seq<char>, JVal>)
    decreases save.len(),
{
    if save.len() == 0 {
        (Seq::empty(), saved)
    } else {
        let (name, path) = save.last();
        let pre = save_outcome(j, save.drop_last(), h, saved);
        match j {
            Some(v) => match resolve(v, path) {
                Some(x) => (pre.0, pre.1.insert(name, x)),
                None => (pre.0.push(h + "save field '"@ + path + "' not found in data"@), pre.1),
            },
            None => pre,
        }
    }
}

/// The expected object of `data_eq`, given a `type` field naming the event
/// when it has none.
pub open spec fn with_type(x: JVal, t: Seq<char>) -> JVal {
    match x {
        JVal::Obj(es) => if obj_get(es, "type"@) is None {
            JVal::Obj(es.push(("type"@, JVal::Str(t))))
        } else {
            x
        },
        _ => x,
    }
}

pub open spec fn prefixed(h: Seq<char>, es: Seq<Seq<char>>) -> Seq<Seq<char>> {
    es.map_values(|e: Seq<char>| h + e)
}

/// Everything checked on the event that an expectation matched:
/// (errors, saved variables after it).
pub open spec fn check_event(
    ev: SseEvent,
    exp: SseEventExpectation,
    h: Seq<char>,
    t: Seq<char>,
    ctx: Map<Seq<char>, JVal>,
    saved: Map<Seq<char>, JVal>,
) -> (Seq<Seq<char>>, Map<Seq<char>, JVal>) {
    let j = opt_json_view(ev.data_json);
    let fields = if exp.data@.len() == 0 {
        Seq::empty()
    } else {
        match j {
            Some(v) => field_errors(v, crate::validator::expects_view(exp.data@), h, ctx, saved),
            None => seq![h + "data is not valid JSON, cannot check fields"@],
        }
    };
    let eq = match exp.data_eq {
        Some(x) => match j {
            Some(v) => prefixed(h, data_eq_errors(v, expand_value_deep(with_type(x@, t), ctx, saved), strings_view(exp.ignore_fields@), Seq::empty())),
            None => seq![h + "data is not valid JSON, cannot run data_eq check"@],
        },
        None => Seq::empty(),
    };
    let cont = match exp.data_contains {
        Some(sub) => if contains(ev.data_raw@, expand(sub@, ctx)) {
            Seq::empty()
        } else {
            seq![h + "data does not contain '"@ + expand(sub@, ctx) + "'"@]
        },
        None => Seq::empty(),
    };
    let ex = exists_errors(j, strings_view(exp.data_exists@), h);
    let sv = save_outcome(j, crate::validator::pairs_view(exp.save@), h, saved);
    (fields + eq + cont + ex + sv.0, sv.1)
}

/// The first event at or after `c` of type `t`.
pub open spec fn find_from(evs: Seq<(Seq<char>, Seq<char>)>, c: int, t: Seq<char>) -> Option<int>
    decreases evs.len() - c,
{
    if c < 0 || c >= evs.len() {
        None
    } else if evs[c].0 == t {
        Some(c)
    } else {
        find_from(evs, c + 1, t)
    }
}

/// State of the ordered check: (cursor, errors, saved variables).
pub type Ordered = (int, Seq<Seq<char>>, Map<Seq<char>, JVal>);

/// The ordered check over the first expectations: each scans forward from
/// the cursor for its (expanded) event type; a miss is an error and leaves
/// the cursor, a match is checked and moves the cursor past it.
pub open spec fn ordered(
    evs: Seq<SseEvent>,
    exps: Seq<SseEventExpectation>,
    ctx: Map<Seq<char>, JVal>,
) -> Ordered
    decreases exps.len(),
{
    if exps.len() == 0 {
        (0, Seq::empty(), Map::empty())
    } else {
        let st = ordered(evs, exps.drop_last(), ctx);
        let idx = (exps.len() - 1) as nat;
        let t = expand(exps.last().event@, ctx);
        match find_from(events_view(evs), st.0, t) {
            None => (st.0, st.1.push("SSE event["@ + dec(idx) + "]: expected event '"@ + t + "' not found after scanning from position"@), st.2),
            Some(p) => {
                let r = check_event(evs[p], exps.last(), ev_head(idx, t), t, ctx, st.2);
                (p + 1, st.1 + r.0, r.1)
            },
        }
    }
}

fn head_text(idx: usize, t: &String) -> (r: Vec<char>)
    ensures
        r@ == ev_head(idx as nat, t@),
{
    let mut out: Vec<char> = Vec::new();
    push_str(&mut out, "SSE event[");
    push_dec(&mut out, idx as u64);
    push_str(&mut out, "] '");
    push_str(&mut out, t.as_str());
    push_str(&mut out, "': ");
    proof {
        assert(out@ =~= ev_head(idx as nat, t@));
    }
    out
}

/// The field `k` of an object.
fn field_get<'a>(v: &'a Json, k: &String) -> (r: Option<&'a Json>)
    ensures
        opt_view(r) == field_of(v@, k@),
{
    match v {
        Json::Obj(es) => {
            proof {
                lemma_obj_view(*es);
            }
            entries_get(es, k)
        },
        _ => None,
    }
}

fn check_fields(j: &Json, data: &Vec<(String, Json)>, h: &Vec<char>, ctx: &Vars, saved: &Vars) -> (r: Vec<String>)
    ensures
        strings_view(r@) == field_errors(j@, crate::validator::expects_view(data@), h@, ctx@, saved@),
{
    let ghost dv = crate::validator::expects_view(data@);
    let mut errors: Vec<String> = Vec::new();
    let mut i: usize = 0;
    proof {
        assert(strings_view(errors@) =~= field_errors(j@, dv.subrange(0, 0), h@, ctx@, saved@));
    }
    while i < data.len()
        invariant
            0 <= i <= data@.len(),
            dv == crate::validator::expects_view(data@),
            strings_view(errors@) == field_errors(j@, dv.subrange(0, i as int), h@, ctx@, saved@),
        decreases data@.len() - i,
    {
        let k = &data[i].0;
        let want = expand_one(&data[i].1, ctx, saved);
        let ghost before = strings_view(errors@);
        proof {
            let ds = dv.subrange(0, i + 1);
            assert(ds.drop_last() =~= dv.subrange(0, i as int));
            assert(ds.last() == (k@, data@[i as int].1@));
        }
        match field_get(j, k) {
            Some(got) => {
                if !crate::json::json_equal(got, &want) {
                    let wt = render_json(&want);
                    let gt = render_json(got);
                    let mut out: Vec<char> = Vec::new();
                    push_all(&mut out, h.as_slice());
                    push_str(&mut out, "field '");
                    push_str(&mut out, k.as_str());
                    push_str(&mut out, "' mismatch - expected ");
                    push_str(&mut out, wt.as_str());
                    push_str(&mut out, ", got ");
                    push_str(&mut out, gt.as_str());
                    errors.push(string_of(out.as_slice()));
                    proof {
                        assert(out@ =~= h@ + "field '"@ + k@ + "' mismatch - expected "@ + json_render(want@) + ", got "@ + json_render(got@));
                        assert(strings_view(errors@) =~= before + seq![h@ + "field '"@ + k@ + "' mismatch - expected "@ + json_render(want@) + ", got "@ + json_render(got@)]);
                    }
                } else {
                    proof {
                        assert(strings_view(errors@) =~= before + Seq::<Seq<char>>::empty());
                    }
                }
            },
            None => {
                let mut out: Vec<char> = Vec::new();
                push_all(&mut out, h.as_slice());
                push_str(&mut out, "field '");
                push_str(&mut out, k.as_str());
                push_str(&mut out, "' not found in data");
                errors.push(string_of(out.as_slice()));
                proof {
                    assert(out@ =~= h@ + "field '"@ + k@ + "' not found in data"@);
                    assert(strings_view(errors@) =~= before + seq![h@ + "field '"@ + k@ + "' not found in data"@]);
                }
            },
        }
        i = i + 1;
    }
    proof {
        assert(dv.subrange(0, dv.len() as int) =~= dv);
    }
    errors
}

fn check_exists(j: &Option<Json>, fields: &Vec<String>, h: &Vec<char>) -> (r: Vec<String>)
    ensures
        strings_view(r@) == exists_errors(opt_json_view(*j), strings_view(fields@), h@),
{
    let ghost fv = strings_view(fields@);
    let mut errors: Vec<String> = Vec::new();
    let mut i: usize = 0;
    proof {
        assert(strings_view(errors@) =~= exists_errors(opt_json_view(*j), fv.subrange(0, 0), h@));
    }
    while i < fields.len()
        invariant
            0 <= i <= fields@.len(),
            fv == strings_view(fields@),
            strings_view(errors@) == exists_errors(opt_json_view(*j), fv.subrange(0, i as int), h@),
        decreases fields@.len() - i,
    {
        let f = &fields[i];
        let ghost before = strings_view(errors@);
        proof {
            let fs = fv.subrange(0, i + 1);
            assert(fs.drop_last() =~= fv.subrange(0, i as int));
            assert(fs.last() == f@);
        }
        match j {
            Some(v) => {
                if field_get(v, f).is_none() {
                    let mut out: Vec<char> = Vec::new();
                    push_all(&mut out, h.as_slice());
                    push_str(&mut out, "expected field '");
                    push_str(&mut out, f.as_str());
                    push_str(&mut out, "' to exist in data");
                    errors.push(string_of(out.as_slice()));
                    proof {
                        assert(out@ =~= h@ + "expected field '"@ + f@ + "' to exist in data"@);
                        assert(strings_view(errors@) =~= before + seq![out@]);
                    }
                } else {
                    proof {
                        assert(strings_view(errors@) =~= before + Seq::<Seq<char>>::empty());
                    }
                }
            },
            None => {
                let mut out: Vec<char> = Vec::new();
                push_all(&mut out, h.as_slice());
                push_str(&mut out, "data is not valid JSON, cannot check field existence for '");
                push_str(&mut out, f.as_str());
                push_str(&mut out, "'");
                errors.push(string_of(out.as_slice()));
                proof {
                    assert(out@ =~= h@ + "data is not valid JSON, cannot check field existence for '"@ + f@ + "'"@);
                    assert(strings_view(errors@) =~= before + seq![out@]);
                }
            },
        }
        i = i + 1;
    }
    proof {
        assert(fv.subrange(0, fv.len() as int) =~= fv);
    }
    errors
}

fn apply_saves(j: &Option<Json>, save: &Vec<(String, String)>, h: &Vec<char>, saved: &mut Vars) -> (r: Vec<String>)
    ensures
        (strings_view(r@), final(saved)@) == save_outcome(opt_json_view(*j), crate::validator::pairs_view(save@), h@, old(saved)@),
{
    let ghost sv = crate::validator::pairs_view(save@);
    let mut errors: Vec<String> = Vec::new();
    let mut i: usize = 0;
    proof {
        assert(sv.subrange(0, 0) =~= Seq::<(Seq<char>, Seq<char>)>::empty());
        assert(strings_view(errors@) =~= Seq::<Seq<char>>::empty());
    }
    while i < save.len()
        invariant
            0 <= i <= save@.len(),
            sv == crate::validator::pairs_view(save@),
            (strings_view(errors@), saved@) == save_outcome(opt_json_view(*j), sv.subrange(0, i as int), h@, old(saved)@),
        decreases save@.len() - i,
    {
        let name = &save[i].0;
        let path = &save[i].1;
        let ghost before = strings_view(errors@);
        proof {
            let ss = sv.subrange(0, i + 1);
            assert(ss.drop_last() =~= sv.subrange(0, i as int));
            assert(ss.last() == (name@, path@));
        }
        match j {
            Some(v) => {
                match resolve_path(v, path.as_str()) {
                    Some(x) => {
                        saved.set(name.clone(), copy_json(x));
                    },
                    None => {
                        let mut out: Vec<char> = Vec::new();
                        push_all(&mut out, h.as_slice());
                        push_str(&mut out, "save field '");
                        push_str(&mut out, path.as_str());
                        push_str(&mut out, "' not found in data");
                        errors.push(string_of(out.as_slice()));
                        proof {
                            assert(out@ =~= h@ + "save field '"@ + path@ + "' not found in data"@);
                            assert(strings_view(errors@) =~= before.push(out@));
                        }
                    },
                }
            },
            None => {},
        }
        i = i + 1;
    }
    proof {
        assert(sv.subrange(0, sv.len() as int) =~= sv);
    }
    errors
}

/// The `data_eq` expectation with its `type` field filled in when absent.
fn add_type(x: &Json, t: &String) -> (r: Json)
    ensures
        r@ == with_type(x@, t@),
{
    match x {
        Json::Obj(es) => {
            proof {
                lemma_obj_view(*es);
            }
            let key = String::from_str("type");
            if entries_get(es, &key).is_none() {
                let mut out: Vec<(String, Json)> = Vec::new();
                let mut i: usize = 0;
                while i < es.len()
                    invariant
                        0 <= i <= es@.len(),
                        out@.len() == i,
                        forall|j: int| 0 <= j < i ==> (#[trigger] out@[j]).0@ == es@[j].0@ && out@[j].1@ == es@[j].1@,
                    decreases es@.len() - i,
                {
                    out.push((es[i].0.clone(), copy_json(&es[i].1)));
                    i = i + 1;
                }
                out.push((key, Json::Str(t.clone())));
                proof {
                    lemma_obj_view(out);
                    assert(entries_view(out@) =~= entries_view(es@).push(("type"@, JVal::Str(t@))));
                }
                Json::Obj(out)
            } else {
                copy_json(x)
            }
        },
        _ => copy_json(x),
    }
}

fn append_strings(errors: &mut Vec<String>, more: Vec<String>)
    ensures
        strings_view(final(errors)@) == strings_view(old(errors)@) + strings_view(more@),
{
    let mut m = more;
    errors.append(&mut m);
    proof {
        assert(strings_view(final(errors)@) =~= strings_view(old(errors)@) + strings_view(more@));
    }
}

fn check_one(
    ev: &SseEvent,
    exp: &SseEventExpectation,
    h: &Vec<char>,
    t: &String,
    ctx: &Vars,
    saved: &mut Vars,
) -> (r: Vec<String>)
    ensures
        (strings_view(r@), final(saved)@) == check_event(*ev, *exp, h@, t@, ctx@, old(saved)@),
{
    let ghost j = opt_json_view(ev.data_json);
    let mut errors: Vec<String> = Vec::new();
    if exp.data.len() > 0 {
        match &ev.data_json {
            Some(v) => {
                errors = check_fields(v, &exp.data, h, ctx, saved);
            },
            None => {
                let mut out: Vec<char> = Vec::new();
                push_all(&mut out, h.as_slice());
                push_str(&mut out, "data is not valid JSON, cannot check fields");
                errors.push(string_of(out.as_slice()));
                proof {
                    assert(out@ =~= h@ + "data is not valid JSON, cannot check fields"@);
                    assert(strings_view(errors@) =~= seq![out@]);
                }
            },
        }
    } else {
        proof {
            assert(strings_view(errors@) =~= Seq::<Seq<char>>::empty());
        }
    }
    let ghost f1 = strings_view(errors@);
    match &exp.data_eq {
        Some(x) => {
            match &ev.data_json {
                Some(v) => {
                    let typed = add_type(x, t);
                    let expanded = expand_deep(&typed, ctx, saved);
                    let errs = validate_data_eq(v, &expanded, exp.ignore_fields.as_slice(), "");
                    let ghost ev_ = strings_view(errs@);
                    let mut k: usize = 0;
                    while k < errs.len()
                        invariant
                            0 <= k <= errs@.len(),
                            ev_ == strings_view(errs@),
                            strings_view(errors@) == f1 + prefixed(h@, ev_.subrange(0, k as int)),
                        decreases errs@.len() - k,
                    {
                        let mut out: Vec<char> = Vec::new();
                        push_all(&mut out, h.as_slice());
                        push_str(&mut out, errs[k].as_str());
                        let ghost before = strings_view(errors@);
                        errors.push(string_of(out.as_slice()));
                        proof {
                            assert(prefixed(h@, ev_.subrange(0, k + 1)) =~= prefixed(h@, ev_.subrange(0, k as int)).push(h@ + ev_[k as int]));
                            assert(strings_view(errors@) =~= before.push(out@));
                        }
                        k = k + 1;
                    }
                    proof {
                        assert(ev_.subrange(0, ev_.len() as int) =~= ev_);
                        reveal_strlit("");
                        assert(""@ =~= Seq::<char>::empty());
                    }
                },
                None => {
                    let mut out: Vec<char> = Vec::new();
                    push_all(&mut out, h.as_slice());
                    push_str(&mut out, "data is not valid JSON, cannot run data_eq check");
                    errors.push(string_of(out.as_slice()));
                    proof {
                        assert(out@ =~= h@ + "data is not valid JSON, cannot run data_eq check"@);
                        assert(strings_view(errors@) =~= f1 + seq![out@]);
                    }
                },
            }
        },
        None => {
            proof {
                assert(strings_view(errors@) =~= f1 + Seq::<Seq<char>>::empty());
            }
        },
    }
    let ghost f2 = strings_view(errors@);
    match &exp.data_contains {
        Some(sub) => {
            let es = expand_variables(sub.as_str(), ctx);
            if !text_contains(ev.data_raw.as_str(), es.as_str()) {
                let mut out: Vec<char> = Vec::new();
                push_all(&mut out, h.as_slice());
                push_str(&mut out, "data does not contain '");
                push_str(&mut out, es.as_str());
                push_str(&mut out, "'");
                errors.push(string_of(out.as_slice()));
                proof {
                    assert(out@ =~= h@ + "data does not contain '"@ + es@ + "'"@);
                    assert(strings_view(errors@) =~= f2 + seq![out@]);
                }
            } else {
                proof {
                    assert(strings_view(errors@) =~= f2 + Seq::<Seq<char>>::empty());
                }
            }
        },
        None => {
            proof {
                assert(strings_view(errors@) =~= f2 + Seq::<Seq<char>>::empty());
            }
        },
    }
    let ex = check_exists(&ev.data_json, &exp.data_exists, h);
    append_strings(&mut errors, ex);
    let sv = apply_saves(&ev.data_json, &exp.save, h, saved);
    append_strings(&mut errors, sv);
    errors
}

/// The events' types, in order.
pub open spec fn types_of(evs: Seq<SseEvent>) -> Seq<Seq<char>> {
    evs.map_values(|e: SseEvent| e.event_type@)
}

/// One error for each required type that no event has.
pub open spec fn missing_type_errors(types: Seq<Seq<char>>, req: Seq<Seq<char>>) -> Seq<Seq<char>>
    decreases req.len(),
{
    if req.len() == 0 {
        Seq::empty()
    } else {
        missing_type_errors(types, req.drop_last()) + if types.contains(req.last()) {
            Seq::empty()
        } else {
            seq!["SSE: expected event type '"@ + req.last() + "' not found"@]
        }
    }
}

/// One error for each forbidden type that some event has.
pub open spec fn forbidden_type_errors(types: Seq<Seq<char>>, forb: Seq<Seq<char>>) -> Seq<Seq<char>>
    decreases forb.len(),
{
    if forb.len() == 0 {
        Seq::empty()
    } else {
        forbidden_type_errors(types, forb.drop_last()) + if types.contains(forb.last()) {
            seq!["SSE: forbidden event type '"@ + forb.last() + "' was found in stream"@]
        } else {
            Seq::empty()
        }
    }
}

/// The whole stream check: (errors, saved variables).
pub open spec fn sse_check(evs: Seq<SseEvent>, expect: SseExpectation, ctx: Map<Seq<char>, JVal>) -> (Seq<Seq<char>>, Map<Seq<char>, JVal>) {
    let types = types_of(evs);
    let o = ordered(evs, expect.events@, ctx);
    (missing_type_errors(types, strings_view(expect.has_events@)) + forbidden_type_errors(types, strings_view(expect.has_no_events@)) + o.1, o.2)
}

fn has_type(events: &Vec<SseEvent>, t: &String) -> (r: bool)
    ensures
        r == types_of(events@).contains(t@),
{
    let mut i: usize = 0;
    while i < events.len()
        invariant
            0 <= i <= events@.len(),
            forall|j: int| 0 <= j < i ==> (#[trigger] types_of(events@)[j]) != t@,
        decreases events@.len() - i,
    {
        if events[i].event_type == *t {
            proof {
                assert(types_of(events@)[i as int] == t@);
            }
            return true;
        }
        i = i + 1;
    }
    false
}

fn type_errors(events: &Vec<SseEvent>, list: &Vec<String>, forbidden: bool) -> (r: Vec<String>)
    ensures
        strings_view(r@) == if forbidden {
            forbidden_type_errors(types_of(events@), strings_view(list@))
        } else {
            missing_type_errors(types_of(events@), strings_view(list@))
        },
{
    let ghost lv = strings_view(list@);
    let ghost tv = types_of(events@);
    let mut errors: Vec<String> = Vec::new();
    let mut i: usize = 0;
    proof {
        assert(strings_view(errors@) =~= Seq::<Seq<char>>::empty());
        assert(lv.subrange(0, 0) =~= Seq::<Seq<char>>::empty());
    }
    while i < list.len()
        invariant
            0 <= i <= list@.len(),
            lv == strings_view(list@),
            tv == types_of(events@),
            strings_view(errors@) == if forbidden {
                forbidden_type_errors(tv, lv.subrange(0, i as int))
            } else {
                missing_type_errors(tv, lv.subrange(0, i as int))
            },
        decreases list@.len() - i,
    {
        let t = &list[i];
        let ghost before = strings_view(errors@);
        proof {
            let ls = lv.subrange(0, i + 1);
            assert(ls.drop_last() =~= lv.subrange(0, i as int));
            assert(ls.last() == t@);
        }
        let found = has_type(events, t);
        if forbidden && found {
            let mut out: Vec<char> = Vec::new();
            push_str(&mut out, "SSE: forbidden event type '");
            push_str(&mut out, t.as_str());
            push_str(&mut out, "' was found in stream");
            errors.push(string_of(out.as_slice()));
            proof {
                assert(out@ =~= "SSE: forbidden event type '"@ + t@ + "' was found in stream"@);
                assert(strings_view(errors@) =~= before + seq![out@]);
            }
        } else if !forbidden && !found {
            let mut out: Vec<char> = Vec::new();
            push_str(&mut out, "SSE: expected event type '");
            push_str(&mut out, t.as_str());
            push_str(&mut out, "' not found");
            errors.push(string_of(out.as_slice()));
            proof {
                assert(out@ =~= "SSE: expected event type '"@ + t@ + "' not found"@);
                assert(strings_view(errors@) =~= before + seq![out@]);
            }
        } else {
            proof {
                assert(strings_view(errors@) =~= before + Seq::<Seq<char>>::empty());
            }
        }
        i = i + 1;
    }
    proof {
        assert(lv.subrange(0, lv.len() as int) =~= lv);
    }
    errors
}

proof fn lemma_find_from_bounds(evs: Seq<(Seq<char>, Seq<char>)>, c: int, t: Seq<char>)
    ensures
        find_from(evs, c, t) matches Some(p) ==> c <= p < evs.len() && evs[p].0 == t,
        find_from(evs, c, t) is None ==> forall|p: int| 0 <= c <= p < evs.len() ==> #[trigger] evs[p].0 != t,
    decreases evs.len() - c,
{
    if 0 <= c < evs.len() && evs[c].0 != t {
        lemma_find_from_bounds(evs, c + 1, t);
        assert forall|p: int| 0 <= c <= p < evs.len() && find_from(evs, c, t) is None implies #[trigger] evs[p].0 != t by {
            if p > c {
                assert(evs[p].0 != t);
            }
        }
    }
}

proof fn lemma_find_from_first(evs: Seq<(Seq<char>, Seq<char>)>, c: int, t: Seq<char>, p: int)
    requires
        0 <= c <= p < evs.len(),
        evs[p].0 == t,
        forall|q: int| c <= q < p ==> #[trigger] evs[q].0 != t,
    ensures
        find_from(evs, c, t) == Some(p),
    decreases p - c,
{
    if c < p {
        lemma_find_from_first(evs, c + 1, t, p);
    }
}

/// Across the ordered check the cursor never moves back: each expectation
/// leaves it where it was or past the event it matched.
pub proof fn lemma_cursor_monotone(evs: Seq<SseEvent>, exps: Seq<SseEventExpectation>, ctx: Map<Seq<char>, JVal>, i: int)
    requires
        0 < i <= exps.len(),
    ensures
        ordered(evs, exps.subrange(0, i - 1), ctx).0 <= ordered(evs, exps.subrange(0, i), ctx).0,
        0 <= ordered(evs, exps.subrange(0, i), ctx).0 <= evs.len(),
    decreases i,
{
    let es = exps.subrange(0, i);
    assert(es.drop_last() =~= exps.subrange(0, i - 1));
    let st = ordered(evs, exps.subrange(0, i - 1), ctx);
    if i > 1 {
        lemma_cursor_monotone(evs, exps, ctx, i - 1);
    } else {
        assert(exps.subrange(0, 0).len() == 0);
    }
    let t = expand(es.last().event@, ctx);
    lemma_find_from_bounds(events_view(evs), st.0, t);
}

/// Runs the ordered expectations over the events, one cursor advancing
/// through them; returns the errors and the variables saved.
pub fn validate_ordered_events(
    events: &Vec<SseEvent>,
    expectations: &Vec<SseEventExpectation>,
    ctx: &Vars,
) -> (r: (Vec<String>, Vars))
    ensures
        strings_view(r.0@) == ordered(events@, expectations@, ctx@).1,
        r.1@ == ordered(events@, expectations@, ctx@).2,
{
    let ghost evv = events_view(events@);
    let mut errors: Vec<String> = Vec::new();
    let mut saved = Vars::new();
    let mut cursor: usize = 0;
    let mut i: usize = 0;
    proof {
        assert(expectations@.subrange(0, 0) =~= Seq::<SseEventExpectation>::empty());
        assert(strings_view(errors@) =~= Seq::<Seq<char>>::empty());
    }
    while i < expectations.len()
        invariant
            0 <= i <= expectations@.len(),
            evv == events_view(events@),
            cursor <= events@.len(),
            ordered(events@, expectations@.subrange(0, i as int), ctx@) == (cursor as int, strings_view(errors@), saved@),
        decreases expectations@.len() - i,
    {
        let exp = &expectations[i];
        let t = expand_variables(exp.event.as_str(), ctx);
        proof {
            let es = expectations@.subrange(0, i + 1);
            assert(es.drop_last() =~= expectations@.subrange(0, i as int));
            assert(es.last() == *exp);
        }
        let mut p: usize = cursor;
        while p < events.len() && events[p].event_type != t
            invariant
                cursor <= p <= events@.len(),
                evv == events_view(events@),
                forall|q: int| cursor <= q < p ==> #[trigger] evv[q].0 != t@,
            decreases events@.len() - p,
        {
            p = p + 1;
        }
        let ghost before = strings_view(errors@);
        if p == events.len() {
            proof {
                lemma_find_from_bounds(evv, cursor as int, t@);
                if let Some(q) = find_from(evv, cursor as int, t@) {
                    assert(evv[q].0 != t@);
                }
            }
            let mut out: Vec<char> = Vec::new();
            push_str(&mut out, "SSE event[");
            push_dec(&mut out, i as u64);
            push_str(&mut out, "]: expected event '");
            push_str(&mut out, t.as_str());
            push_str(&mut out, "' not found after scanning from position");
            errors.push(string_of(out.as_slice()));
            proof {
                assert(out@ =~= "SSE event["@ + dec(i as nat) + "]: expected event '"@ + t@ + "' not found after scanning from position"@);
                assert(strings_view(errors@) =~= before.push(out@));
            }
        } else {
            proof {
                lemma_find_from_first(evv, cursor as int, t@, p as int);
            }
            let h = head_text(i, &t);
            let more = check_one(&events[p], exp, &h, &t, ctx, &mut saved);
            append_strings(&mut errors, more);
            cursor = p + 1;
        }
        i = i + 1;
    }
    proof {
        assert(expectations@.subrange(0, expectations@.len() as int) =~= expectations@);
    }
    (errors, saved)
}

/// Checks the events against the expectations: required types, forbidden
/// types, then the ordered assertions. Returns the errors and the variables
/// the assertions saved.
pub fn validate_sse(events: &Vec<SseEvent>, expect: &SseExpectation, ctx: &Vars) -> (r: (Vec<String>, Vars))
    ensures
        strings_view(r.0@) == sse_check(events@, *expect, ctx@).0,
        r.1@ == sse_check(events@, *expect, ctx@).1,
{
    let mut errors = type_errors(events, &expect.has_events, false);
    let forb = type_errors(events, &expect.has_no_events, true);
    append_strings(&mut errors, forb);
    let (more, saved) = validate_ordered_events(events, &expect.events, ctx);
    append_strings(&mut errors, more);
    (errors, saved)
}

} // verus!
