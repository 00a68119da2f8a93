//! Response checks: deep equality with ignore patterns, headers, substrings
//! and JSON paths.
use vstd::prelude::*;
use crate::json::{
    entries_get, entries_view, get_by_json_path, json_equal, jv, lemma_arr_view, lemma_obj_view,
    obj_get, resolve, Json, JVal,
};
use crate::jsontext::{json_parse, json_render, parse_json, render_json};
use crate::keys::{key_union, keys_view, union_keys};
use crate::text::{
    chars_of, contains, text_contains, dec, push_all, push_dec, push_str, seqs_view, split_chars, split_on, string_of,
};

verus! {

pub open spec fn strings_view(v: Seq<String>) -> Seq<Seq<char>> {
    v.map_values(|s: String| s@)
}

/// A pattern segment matches a path segment when it is `*` or the same text.
pub open spec fn seg_matches(p: Seq<char>, a: Seq<char>) -> bool {
    p == seq!['*'] || p == a
}

/// A pattern matches a path of as many segments, segment by segment.
pub open spec fn pattern_matches(pat: Seq<char>, path: Seq<char>) -> bool {
    let ps = split_on(pat, '.');
    let xs = split_on(path, '.');
    ps.len() == xs.len() && forall|i: int| 0 <= i < ps.len() ==> #[trigger] seg_matches(ps[i], xs[i])
}

/// Some pattern matches the path.
pub open spec fn ignored(path: Seq<char>, ig: Seq<Seq<char>>) -> bool {
    exists|j: int| 0 <= j < ig.len() && #[trigger] pattern_matches(ig[j], path)
}

fn segs_match(ps: &Vec<Vec<char>>, xs: &Vec<Vec<char>>) -> (r: bool)
    ensures
        r == (ps@.len() == xs@.len() && forall|i: int| 0 <= i < ps@.len() ==> #[trigger] seg_matches(seqs_view(ps@)[i], seqs_view(xs@)[i])),
{
    if ps.len() != xs.len() {
        return false;
    }
    let mut i: usize = 0;
    while i < ps.len()
        invariant
            ps@.len() == xs@.len(),
            0 <= i <= ps@.len(),
            forall|j: int| 0 <= j < i ==> #[trigger] seg_matches(seqs_view(ps@)[j], seqs_view(xs@)[j]),
        decreases ps@.len() - i,
    {
        let p = &ps[i];
        let star = p.len() == 1 && p[0] == '*';
        proof {
            if p@.len() == 1 && p@[0] == '*' {
                assert(p@ =~= seq!['*']);
            }
        }
        if !star && !crate::text::chars_equal(p.as_slice(), xs[i].as_slice()) {
            proof {
                assert(!seg_matches(seqs_view(ps@)[i as int], seqs_view(xs@)[i as int]));
            }
            return false;
        }
        i = i + 1;
    }
    true
}

/// Whether some ignore pattern matches the dot-separated path: same number of
/// segments, each `*` or equal.
pub fn is_field_ignored(path: &str, ignore_fields: &[String]) -> (r: bool)
    ensures
        r == ignored(path@, strings_view(ignore_fields@)),
{
    let pv = chars_of(path);
    let xs = split_chars(pv.as_slice(), '.');
    let mut j: usize = 0;
    while j < ignore_fields.len()
        invariant
            0 <= j <= ignore_fields@.len(),
            seqs_view(xs@) == split_on(path@, '.'),
            forall|k: int| 0 <= k < j ==> !pattern_matches(#[trigger] strings_view(ignore_fields@)[k], path@),
        decreases ignore_fields@.len() - j,
    {
        let qv = chars_of(ignore_fields[j].as_str());
        let ps = split_chars(qv.as_slice(), '.');
        if segs_match(&ps, &xs) {
            proof {
                assert(pattern_matches(strings_view(ignore_fields@)[j as int], path@));
            }
            return true;
        }
        j = j + 1;
    }
    false
}

/// The path of a child: the segment alone at the top, else joined by a dot.
pub open spec fn child_path(prefix: Seq<char>, seg: Seq<char>) -> Seq<char> {
    if prefix.len() == 0 {
        seg
    } else {
        prefix + seq!['.'] + seg
    }
}

pub open spec fn msg_unexpected(path: Seq<char>, v: JVal) -> Seq<char> {
    "data_eq '"@ + path + "': unexpected field (value: "@ + json_render(v) + ")"@
}

pub open spec fn msg_missing(path: Seq<char>, v: JVal) -> Seq<char> {
    "data_eq '"@ + path + "': missing field (expected: "@ + json_render(v) + ")"@
}

pub open spec fn msg_length(path: Seq<char>, expected: nat, actual: nat) -> Seq<char> {
    "data_eq '"@ + path + "': array length mismatch - expected "@ + dec(expected) + ", got "@ + dec(actual)
}

pub open spec fn msg_value(path: Seq<char>, expected: JVal, actual: JVal) -> Seq<char> {
    "data_eq '"@ + path + "': value mismatch - expected "@ + json_render(expected) + ", got "@
        + json_render(actual)
}

/// What one key of the sorted union contributes.
pub open spec fn key_errors(
    ae: Seq<(Seq<char>, JVal)>,
    ee: Seq<(Seq<char>, JVal)>,
    k: Seq<char>,
    ig: Seq<Seq<char>>,
    prefix: Seq<char>,
) -> Seq<Seq<char>>
    decreases ae, 0nat, 0int,
    via key_errors_decreases
{
    let cp = child_path(prefix, k);
    if ignored(cp, ig) {
        Seq::empty()
    } else {
        match (obj_get(ae, k), obj_get(ee, k)) {
            (Some(x), Some(y)) => data_eq_errors(x, y, ig, cp),
            (Some(x), None) => seq![msg_unexpected(cp, x)],
            (None, Some(y)) => seq![msg_missing(cp, y)],
            (None, None) => Seq::empty(),
        }
    }
}

/// A found value is one of the entries (stated for termination).
pub open spec fn obj_get_in(es: Seq<(Seq<char>, JVal)>, k: Seq<char>) -> bool {
    obj_get(es, k) matches Some(x) ==> exists|i: int| 0 <= i < es.len() && #[trigger] es[i].1 == x
}

pub proof fn lemma_obj_get_in(es: Seq<(Seq<char>, JVal)>, k: Seq<char>)
    ensures
        obj_get_in(es, k),
    decreases es.len(),
{
    if es.len() > 0 && es[0].0 != k {
        lemma_obj_get_in(es.drop_first(), k);
        if let Some(x) = obj_get(es, k) {
            let i = choose|i: int| 0 <= i < es.drop_first().len() && #[trigger] es.drop_first()[i].1 == x;
            assert(es[i + 1].1 == x);
        }
    } else if es.len() > 0 {
        assert(es[0].1 == obj_get(es, k)->Some_0);
    }
}

/// Every difference between `a` (actual) and `e` (expected) below `prefix`,
/// skipping the subtrees whose paths an ignore pattern matches. Objects are
/// walked over the sorted union of their keys; arrays over their common
/// prefix, after one error for differing lengths; anything else must be equal.
pub open spec fn data_eq_errors(a: JVal, e: JVal, ig: Seq<Seq<char>>, prefix: Seq<char>) -> Seq<Seq<char>>
    decreases a, 1nat, 0int,
{
    if ignored(prefix, ig) {
        Seq::empty()
    } else {
        match (a, e) {
            (JVal::Obj(ae), JVal::Obj(ee)) => obj_errors(ae, ee, key_union(ae, ee), ig, prefix),
            (JVal::Arr(aa), JVal::Arr(ea)) => {
                let head = if aa.len() != ea.len() {
                    seq![msg_length(prefix, ea.len(), aa.len())]
                } else {
                    Seq::empty()
                };
                head + arr_errors(aa, ea, if aa.len() < ea.len() { aa.len() as int } else { ea.len() as int }, ig, prefix)
            },
            _ => if a == e {
                Seq::empty()
            } else {
                seq![msg_value(prefix, e, a)]
            },
        }
    }
}

/// The errors of the first `n` keys, in order.
pub open spec fn obj_errors(
    ae: Seq<(Seq<char>, JVal)>,
    ee: Seq<(Seq<char>, JVal)>,
    keys: Seq<Seq<char>>,
    ig: Seq<Seq<char>>,
    prefix: Seq<char>,
) -> Seq<Seq<char>>
    decreases ae, 0nat, keys.len() as int,
{
    if keys.len() == 0 {
        Seq::empty()
    } else {
        obj_errors(ae, ee, keys.drop_last(), ig, prefix) + key_errors(ae, ee, keys.last(), ig, prefix)
    }
}

/// The errors of the first `n` elements, in order.
pub open spec fn arr_errors(aa: Seq<JVal>, ea: Seq<JVal>, n: int, ig: Seq<Seq<char>>, prefix: Seq<char>) -> Seq<Seq<char>>
    decreases aa, 0nat, n,
    via arr_errors_decreases
{
    if n <= 0 || n > aa.len() || n > ea.len() {
        Seq::empty()
    } else {
        arr_errors(aa, ea, n - 1, ig, prefix) + data_eq_errors(aa[n - 1], ea[n - 1], ig, child_path(prefix, dec((n - 1) as nat)))
    }
}

/// The child path, as characters.
pub fn child_path_chars(prefix: &[char], seg: &[char]) -> (r: Vec<char>)
    ensures
        r@ == child_path(prefix@, seg@),
{
    let mut out: Vec<char> = Vec::new();
    if prefix.len() > 0 {
        push_all(&mut out, prefix);
        out.push('.');
    }
    push_all(&mut out, seg);
    proof {
        if prefix@.len() == 0 {
            assert(out@ =~= seg@);
        } else {
            assert(out@ =~= prefix@ + seq!['.'] + seg@);
        }
    }
    out
}

fn msg_two(head: &str, path: &[char], mid: &str, v: &Json, tail: &str) -> (r: String)
    ensures
        r@ == head@ + path@ + mid@ + json_render(v@) + tail@,
{
    let mut out: Vec<char> = Vec::new();
    push_str(&mut out, head);
    push_all(&mut out, path);
    push_str(&mut out, mid);
    let t = render_json(v);
    push_str(&mut out, t.as_str());
    push_str(&mut out, tail);
    proof {
        assert(out@ =~= head@ + path@ + mid@ + json_render(v@) + tail@);
    }
    string_of(out.as_slice())
}

fn append_strings(errors: &mut Vec<String>, more: Vec<String>)
    ensures
        strings_view(final(errors)@) == strings_view(old(errors)@) + strings_view(more@),
{
    let mut m = more;
    errors.append(&mut m);
    proof {
        assert(strings_view(final(errors)@) =~= strings_view(old(errors)@) + strings_view(more@));
    }
}

/// Recursively compares `actual` with `expected` below `path_prefix`,
/// skipping paths that an ignore pattern matches, and describes every
/// difference (empty when the values agree).
pub fn validate_data_eq(actual: &Json, expected: &Json, ignore_fields: &[String], path_prefix: &str) -> (r: Vec<String>)
    ensures
        strings_view(r@) == data_eq_errors(actual@, expected@, strings_view(ignore_fields@), path_prefix@),
    decreases actual,
{
    let ghost ig = strings_view(ignore_fields@);
    let mut errors: Vec<String> = Vec::new();
    if is_field_ignored(path_prefix, ignore_fields) {
        proof {
            assert(strings_view(errors@) =~= Seq::<Seq<char>>::empty());
        }
        return errors;
    }
    let prefix = chars_of(path_prefix);
    match (actual, expected) {
        (Json::Obj(ae), Json::Obj(ee)) => {
            proof {
                lemma_obj_view(*ae);
                lemma_obj_view(*ee);
            }
            let ghost aev = entries_view(ae@);
            let ghost eev = entries_view(ee@);
            let keys = union_keys(ae, ee);
            let ghost kv = keys_view(keys@);
            let mut i: usize = 0;
            proof {
                assert(strings_view(errors@) =~= Seq::<Seq<char>>::empty());
                assert(kv.subrange(0, 0) =~= Seq::<Seq<char>>::empty());
            }
            while i < keys.len()
                invariant
                    0 <= i <= keys@.len(),
                    kv == keys_view(keys@),
                    kv == key_union(aev, eev),
                    aev == entries_view(ae@),
                    eev == entries_view(ee@),
                    ig == strings_view(ignore_fields@),
                    prefix@ == path_prefix@,
                    actual@ == JVal::Obj(aev),
                    expected@ == JVal::Obj(eev),
                    decreases_to!(*actual => *ae),
                    strings_view(errors@) == obj_errors(aev, eev, kv.subrange(0, i as int), ig, prefix@),
                decreases keys@.len() - i,
            {
                let k = &keys[i];
                let cp = child_path_chars(prefix.as_slice(), k.as_slice());
                let cps = string_of(cp.as_slice());
                let ghost before = strings_view(errors@);
                proof {
                    let ks = kv.subrange(0, i + 1);
                    assert(ks.drop_last() =~= kv.subrange(0, i as int));
                    assert(ks.last() == k@);
                    lemma_obj_get_in(aev, k@);
                }
                if !is_field_ignored(cps.as_str(), ignore_fields) {
                    let key = string_of(k.as_slice());
                    match (entries_get(ae, &key), entries_get(ee, &key)) {
                        (Some(x), Some(y)) => {
                            proof {
                                let j = choose|j: int| 0 <= j < ae@.len() && ae@[j].1 == *x;
                                assert(decreases_to!(*ae => ae@[j]));
                                assert(decreases_to!(ae@[j] => ae@[j].1));
                            }
                            let sub = validate_data_eq(x, y, ignore_fields, cps.as_str());
                            append_strings(&mut errors, sub);
                            proof {
                                assert(strings_view(errors@) == before + key_errors(aev, eev, k@, ig, prefix@));
                            }
                        },
                        (Some(x), None) => {
                            let m = msg_two("data_eq '", cp.as_slice(), "': unexpected field (value: ", x, ")");
                            errors.push(m);
                            proof {
                                assert(strings_view(errors@) =~= before.push(msg_unexpected(cp@, x@)));
                                assert(strings_view(errors@) =~= before + key_errors(aev, eev, k@, ig, prefix@));
                            }
                        },
                        (None, Some(y)) => {
                            let m = msg_two("data_eq '", cp.as_slice(), "': missing field (expected: ", y, ")");
                            errors.push(m);
                            proof {
                                assert(strings_view(errors@) =~= before.push(msg_missing(cp@, y@)));
                                assert(strings_view(errors@) =~= before + key_errors(aev, eev, k@, ig, prefix@));
                            }
                        },
                        (None, None) => {
                            proof {
                                assert(strings_view(errors@) =~= before + Seq::<Seq<char>>::empty());
                            }
                        },
                    }
                } else {
                    proof {
                        assert(strings_view(errors@) =~= before + Seq::<Seq<char>>::empty());
                    }
                }
                proof {
                    assert(strings_view(errors@) == before + key_errors(aev, eev, k@, ig, prefix@));
                }
                i = i + 1;
            }
            proof {
                assert(kv.subrange(0, kv.len() as int) =~= kv);
            }
            errors
        },
        (Json::Arr(aa), Json::Arr(ea)) => {
            proof {
                lemma_arr_view(*aa);
                lemma_arr_view(*ea);
            }
            let ghost aav = aa@.map_values(|v: Json| jv(v));
            let ghost eav = ea@.map_values(|v: Json| jv(v));
            if aa.len() != ea.len() {
                let mut out: Vec<char> = Vec::new();
                push_str(&mut out, "data_eq '");
                push_all(&mut out, prefix.as_slice());
                push_str(&mut out, "': array length mismatch - expected ");
                push_dec(&mut out, ea.len() as u64);
                push_str(&mut out, ", got ");
                push_dec(&mut out, aa.len() as u64);
                proof {
                    assert(out@ =~= msg_length(path_prefix@, ea@.len(), aa@.len()));
                }
                errors.push(string_of(out.as_slice()));
            }
            let ghost head = strings_view(errors@);
            proof {
                if aa@.len() != ea@.len() {
                    assert(head =~= seq![msg_length(path_prefix@, eav.len(), aav.len())]);
                } else {
                    assert(head =~= Seq::<Seq<char>>::empty());
                }
            }
            let n: usize = if aa.len() < ea.len() { aa.len() } else { ea.len() };
            let mut i: usize = 0;
            proof {
                assert(head + arr_errors(aav, eav, 0, ig, prefix@) =~= head);
            }
            while i < n
                invariant
                    0 <= i <= n,
                    n <= aa@.len(),
                    n <= ea@.len(),
                    aav == aa@.map_values(|v: Json| jv(v)),
                    eav == ea@.map_values(|v: Json| jv(v)),
                    ig == strings_view(ignore_fields@),
                    prefix@ == path_prefix@,
                    decreases_to!(*actual => *aa),
                    strings_view(errors@) == head + arr_errors(aav, eav, i as int, ig, prefix@),
                decreases n - i,
            {
                let mut seg: Vec<char> = Vec::new();
                push_dec(&mut seg, i as u64);
                proof {
                    assert(seg@ =~= dec(i as nat));
                    assert(decreases_to!(*aa => aa@[i as int]));
                }
                let cp = child_path_chars(prefix.as_slice(), seg.as_slice());
                let cps = string_of(cp.as_slice());
                let sub = validate_data_eq(&aa[i], &ea[i], ignore_fields, cps.as_str());
                append_strings(&mut errors, sub);
                proof {
                    assert(head + arr_errors(aav, eav, i + 1, ig, prefix@) =~= head + arr_errors(aav, eav, i as int, ig, prefix@) + data_eq_errors(aav[i as int], eav[i as int], ig, cp@));
                }
                i = i + 1;
            }
            errors
        },
        _ => {
            if !json_equal(actual, expected) {
                let m = msg_two("data_eq '", prefix.as_slice(), "': value mismatch - expected ", expected, ", got ");
                let t = render_json(actual);
                let mut out = chars_of(m.as_str());
                push_str(&mut out, t.as_str());
                errors.push(string_of(out.as_slice()));
                proof {
                    assert(strings_view(errors@) =~= seq![msg_value(path_prefix@, expected@, actual@)]);
                }
            } else {
                proof {
                    assert(strings_view(errors@) =~= Seq::<Seq<char>>::empty());
                }
            }
            proof {
                match (actual@, expected@) {
                    (JVal::Obj(_), JVal::Obj(_)) => { assert(false); },
                    (JVal::Arr(_), JVal::Arr(_)) => { assert(false); },
                    _ => {},
                }
            }
            errors
        },
    }
}

/// Comparing a value with itself finds no difference, whatever the ignore
/// patterns and the starting path.
pub proof fn lemma_data_eq_reflexive(v: JVal, ig: Seq<Seq<char>>, prefix: Seq<char>)
    ensures
        data_eq_errors(v, v, ig, prefix) == Seq::<Seq<char>>::empty(),
    decreases v, 1nat, 0int,
{
    if !ignored(prefix, ig) {
        match v {
            JVal::Obj(es) => {
                lemma_obj_errors_reflexive(es, key_union(es, es), ig, prefix);
            },
            JVal::Arr(a) => {
                lemma_arr_errors_reflexive(a, a.len() as int, ig, prefix);
                assert(Seq::<Seq<char>>::empty() + arr_errors(a, a, a.len() as int, ig, prefix) =~= Seq::<Seq<char>>::empty());
            },
            _ => {},
        }
    }
}

proof fn lemma_obj_errors_reflexive(es: Seq<(Seq<char>, JVal)>, keys: Seq<Seq<char>>, ig: Seq<Seq<char>>, prefix: Seq<char>)
    ensures
        obj_errors(es, es, keys, ig, prefix) == Seq::<Seq<char>>::empty(),
    decreases es, 0nat, keys.len() as int,
{
    if keys.len() > 0 {
        lemma_obj_errors_reflexive(es, keys.drop_last(), ig, prefix);
        let k = keys.last();
        let cp = child_path(prefix, k);
        lemma_obj_get_in(es, k);
        if let Some(x) = obj_get(es, k) {
            let i = choose|i: int| 0 <= i < es.len() && #[trigger] es[i].1 == x;
            assert(decreases_to!(es => es[i]));
            lemma_data_eq_reflexive(x, ig, cp);
        }
        assert(key_errors(es, es, k, ig, prefix) =~= Seq::<Seq<char>>::empty());
        assert(obj_errors(es, es, keys, ig, prefix) =~= Seq::<Seq<char>>::empty());
    }
}

proof fn lemma_arr_errors_reflexive(a: Seq<JVal>, n: int, ig: Seq<Seq<char>>, prefix: Seq<char>)
    ensures
        arr_errors(a, a, n, ig, prefix) == Seq::<Seq<char>>::empty(),
    decreases a, 0nat, n,
{
    if 0 < n <= a.len() {
        lemma_arr_errors_reflexive(a, n - 1, ig, prefix);
        vstd::seq::axiom_seq_index_decreases(a, n - 1);
        lemma_data_eq_reflexive(a[n - 1], ig, child_path(prefix, dec((n - 1) as nat)));
        assert(arr_errors(a, a, n, ig, prefix) =~= Seq::<Seq<char>>::empty());
    }
}

/// The view of a list of text pairs.
pub open spec fn pairs_view(v: Seq<(String, String)>) -> Seq<(Seq<char>, Seq<char>)> {
    v.map_values(|p: (String, String)| (p.0@, p.1@))
}

/// The value of the first pair whose name is `k`.
pub open spec fn pair_get(ps: Seq<(Seq<char>, Seq<char>)>, k: Seq<char>) -> Option<Seq<char>>
    decreases ps.len(),
{
    if ps.len() == 0 {
        None
    } else if ps[0].0 == k {
        Some(ps[0].1)
    } else {
        pair_get(ps.drop_first(), k)
    }
}

proof fn lemma_pair_get_skip(ps: Seq<(Seq<char>, Seq<char>)>, k: Seq<char>, i: int)
    requires
        0 <= i <= ps.len(),
        forall|j: int| 0 <= j < i ==> (#[trigger] ps[j]).0 != k,
    ensures
        pair_get(ps, k) == pair_get(ps.subrange(i, ps.len() as int), k),
    decreases i,
{
    if i > 0 {
        let t = ps.drop_first();
        assert forall|j: int| 0 <= j < i - 1 implies (#[trigger] t[j]).0 != k by {
            assert(t[j] == ps[j + 1]);
        }
        lemma_pair_get_skip(t, k, i - 1);
        assert(t.subrange(i - 1, t.len() as int) =~= ps.subrange(i, ps.len() as int));
    } else {
        assert(ps.subrange(0, ps.len() as int) =~= ps);
    }
}

/// The value of the first pair named `key`.
pub fn pairs_get<'a>(ps: &'a Vec<(String, String)>, key: &String) -> (r: Option<&'a String>)
    ensures
        match r {
            Some(v) => pair_get(pairs_view(ps@), key@) == Some(v@),
            None => pair_get(pairs_view(ps@), key@) is None,
        },
{
    let ghost pv = pairs_view(ps@);
    let mut i: usize = 0;
    while i < ps.len()
        invariant
            0 <= i <= ps@.len(),
            pv == pairs_view(ps@),
            forall|j: int| 0 <= j < i ==> (#[trigger] pv[j]).0 != key@,
        decreases ps@.len() - i,
    {
        if ps[i].0 == *key {
            proof {
                lemma_pair_get_skip(pv, key@, i as int);
                assert(pv.subrange(i as int, pv.len() as int)[0] == pv[i as int]);
            }
            return Some(&ps[i].1);
        }
        i = i + 1;
    }
    proof {
        lemma_pair_get_skip(pv, key@, i as int);
    }
    None
}

pub open spec fn msg_header_mismatch(name: Seq<char>, expected: Seq<char>, actual: Seq<char>) -> Seq<char> {
    "ヘッダー '"@ + name + "' の値が期待値と一致しません。期待: "@ + expected + ", 実際: "@ + actual
}

pub open spec fn msg_header_missing(name: Seq<char>) -> Seq<char> {
    "ヘッダー '"@ + name + "' がレスポンスに存在しません"@
}

/// One error for each expected header that is absent or has another value.
pub open spec fn header_errors(hs: Seq<(Seq<char>, Seq<char>)>, ex: Seq<(Seq<char>, Seq<char>)>) -> Seq<Seq<char>>
    decreases ex.len(),
{
    if ex.len() == 0 {
        Seq::empty()
    } else {
        let (name, want) = ex.last();
        header_errors(hs, ex.drop_last()) + match pair_get(hs, name) {
            Some(got) => if got == want { Seq::empty() } else { seq![msg_header_mismatch(name, want, got)] },
            None => seq![msg_header_missing(name)],
        }
    }
}

/// Checks each expected header against the response headers (exact match).
pub fn validate_headers(headers: &Vec<(String, String)>, expectations: &Vec<(String, String)>) -> (r: Vec<String>)
    ensures
        strings_view(r@) == header_errors(pairs_view(headers@), pairs_view(expectations@)),
{
    let ghost hv = pairs_view(headers@);
    let ghost ev = pairs_view(expectations@);
    let mut errors: Vec<String> = Vec::new();
    let mut i: usize = 0;
    proof {
        assert(strings_view(errors@) =~= header_errors(hv, ev.subrange(0, 0)));
    }
    while i < expectations.len()
        invariant
            0 <= i <= expectations@.len(),
            hv == pairs_view(headers@),
            ev == pairs_view(expectations@),
            strings_view(errors@) == header_errors(hv, ev.subrange(0, i as int)),
        decreases expectations@.len() - i,
    {
        let name = &expectations[i].0;
        let want = &expectations[i].1;
        let ghost before = strings_view(errors@);
        proof {
            let es = ev.subrange(0, i + 1);
            assert(es.drop_last() =~= ev.subrange(0, i as int));
            assert(es.last() == (name@, want@));
        }
        match pairs_get(headers, name) {
            Some(got) => {
                if *got != *want {
                    let mut out: Vec<char> = Vec::new();
                    push_str(&mut out, "ヘッダー '");
                    push_str(&mut out, name.as_str());
                    push_str(&mut out, "' の値が期待値と一致しません。期待: ");
                    push_str(&mut out, want.as_str());
                    push_str(&mut out, ", 実際: ");
                    push_str(&mut out, got.as_str());
                    errors.push(string_of(out.as_slice()));
                    proof {
                        assert(out@ =~= msg_header_mismatch(name@, want@, got@));
                        assert(strings_view(errors@) =~= before + seq![msg_header_mismatch(name@, want@, got@)]);
                    }
                } else {
                    proof {
                        assert(strings_view(errors@) =~= before + Seq::<Seq<char>>::empty());
                    }
                }
            },
            None => {
                let mut out: Vec<char> = Vec::new();
                push_str(&mut out, "ヘッダー '");
                push_str(&mut out, name.as_str());
                push_str(&mut out, "' がレスポンスに存在しません");
                errors.push(string_of(out.as_slice()));
                proof {
                    assert(out@ =~= msg_header_missing(name@));
                    assert(strings_view(errors@) =~= before + seq![msg_header_missing(name@)]);
                }
            },
        }
        i = i + 1;
    }
    proof {
        assert(ev.subrange(0, ev.len() as int) =~= ev);
    }
    errors
}

pub open spec fn msg_not_contained(text: Seq<char>) -> Seq<char> {
    "レスポンスボディに期待するテキスト '"@ + text + "' が含まれていません"@
}

/// One error for each text that does not occur in the body.
pub open spec fn contains_errors(body: Seq<char>, texts: Seq<Seq<char>>) -> Seq<Seq<char>>
    decreases texts.len(),
{
    if texts.len() == 0 {
        Seq::empty()
    } else {
        contains_errors(body, texts.drop_last()) + if contains(body, texts.last()) {
            Seq::empty()
        } else {
            seq![msg_not_contained(texts.last())]
        }
    }
}

/// Checks that every text occurs in the body.
pub fn validate_contains(body: &str, texts: &[String]) -> (r: Vec<String>)
    ensures
        strings_view(r@) == contains_errors(body@, strings_view(texts@)),
{
    let ghost tv = strings_view(texts@);
    let mut errors: Vec<String> = Vec::new();
    let mut i: usize = 0;
    proof {
        assert(strings_view(errors@) =~= contains_errors(body@, tv.subrange(0, 0)));
    }
    while i < texts.len()
        invariant
            0 <= i <= texts@.len(),
            tv == strings_view(texts@),
            strings_view(errors@) == contains_errors(body@, tv.subrange(0, i as int)),
        decreases texts@.len() - i,
    {
        let t = &texts[i];
        let ghost before = strings_view(errors@);
        proof {
            let ts = tv.subrange(0, i + 1);
            assert(ts.drop_last() =~= tv.subrange(0, i as int));
            assert(ts.last() == t@);
        }
        if !text_contains(body, t.as_str()) {
            let mut out: Vec<char> = Vec::new();
            push_str(&mut out, "レスポンスボディに期待するテキスト '");
            push_str(&mut out, t.as_str());
            push_str(&mut out, "' が含まれていません");
            errors.push(string_of(out.as_slice()));
            proof {
                assert(out@ =~= msg_not_contained(t@));
                assert(strings_view(errors@) =~= before + seq![msg_not_contained(t@)]);
            }
        } else {
            proof {
                assert(strings_view(errors@) =~= before + Seq::<Seq<char>>::empty());
            }
        }
        i = i + 1;
    }
    proof {
        assert(tv.subrange(0, tv.len() as int) =~= tv);
    }
    errors
}

/// The view of a list of path expectations.
pub open spec fn expects_view(v: Seq<(String, Json)>) -> Seq<(Seq<char>, JVal)> {
    v.map_values(|p: (String, Json)| (p.0@, p.1@))
}

pub open spec fn msg_path_mismatch(path: Seq<char>, expected: JVal, actual: JVal) -> Seq<char> {
    "JSONパス '"@ + path + "' の値が期待値と一致しません。期待: "@ + json_render(expected) + ", 実際: "@
        + json_render(actual)
}

pub open spec fn msg_path_missing(path: Seq<char>) -> Seq<char> {
    "JSONパス '"@ + path + "' がレスポンスに存在しません"@
}

/// One error for each path that is absent from `doc` or holds another value.
pub open spec fn json_path_errors(doc: JVal, ex: Seq<(Seq<char>, JVal)>) -> Seq<Seq<char>>
    decreases ex.len(),
{
    if ex.len() == 0 {
        Seq::empty()
    } else {
        let (path, want) = ex.last();
        json_path_errors(doc, ex.drop_last()) + match resolve(doc, path) {
            Some(got) => if got == want { Seq::empty() } else { seq![msg_path_mismatch(path, want, got)] },
            None => seq![msg_path_missing(path)],
        }
    }
}

pub open spec fn msg_json_parse() -> Seq<char> {
    "JSONパースエラー: レスポンスが有効なJSONではありません"@
}

/// Parses the body as JSON and checks the value at each path; an error when
/// the body is not JSON.
pub fn validate_json(body: &str, expectations: &Vec<(String, Json)>) -> (r: Result<Vec<String>, String>)
    ensures
        match json_parse(body@) {
            None => r matches Err(m) && m@ == msg_json_parse(),
            Some(doc) => r matches Ok(es) && strings_view(es@) == json_path_errors(doc, expects_view(expectations@)),
        },
{
    let doc = match parse_json(body) {
        Some(d) => d,
        None => {
            let mut out: Vec<char> = Vec::new();
            push_str(&mut out, "JSONパースエラー: レスポンスが有効なJSONではありません");
            return Err(string_of(out.as_slice()));
        },
    };
    let ghost xv = expects_view(expectations@);
    let mut errors: Vec<String> = Vec::new();
    let mut i: usize = 0;
    proof {
        assert(strings_view(errors@) =~= json_path_errors(doc@, xv.subrange(0, 0)));
    }
    while i < expectations.len()
        invariant
            0 <= i <= expectations@.len(),
            xv == expects_view(expectations@),
            strings_view(errors@) == json_path_errors(doc@, xv.subrange(0, i as int)),
        decreases expectations@.len() - i,
    {
        let path = &expectations[i].0;
        let want = &expectations[i].1;
        let ghost before = strings_view(errors@);
        proof {
            let es = xv.subrange(0, i + 1);
            assert(es.drop_last() =~= xv.subrange(0, i as int));
            assert(es.last() == (path@, want@));
        }
        match get_by_json_path(&doc, path.as_str()) {
            Some(got) => {
                if !json_equal(got, want) {
                    let mut out: Vec<char> = Vec::new();
                    push_str(&mut out, "JSONパス '");
                    push_str(&mut out, path.as_str());
                    push_str(&mut out, "' の値が期待値と一致しません。期待: ");
                    let wt = render_json(want);
                    push_str(&mut out, wt.as_str());
                    push_str(&mut out, ", 実際: ");
                    let gt = render_json(got);
                    push_str(&mut out, gt.as_str());
                    errors.push(string_of(out.as_slice()));
                    proof {
                        assert(out@ =~= msg_path_mismatch(path@, want@, got@));
                        assert(strings_view(errors@) =~= before + seq![msg_path_mismatch(path@, want@, got@)]);
                    }
                } else {
                    proof {
                        assert(strings_view(errors@) =~= before + Seq::<Seq<char>>::empty());
                    }
                }
            },
            None => {
                let mut out: Vec<char> = Vec::new();
                push_str(&mut out, "JSONパス '");
                push_str(&mut out, path.as_str());
                push_str(&mut out, "' がレスポンスに存在しません");
                errors.push(string_of(out.as_slice()));
                proof {
                    assert(out@ =~= msg_path_missing(path@));
                    assert(strings_view(errors@) =~= before + seq![msg_path_missing(path@)]);
                }
            },
        }
        i = i + 1;
    }
    proof {
        assert(xv.subrange(0, xv.len() as int) =~= xv);
    }
    Ok(errors)
}

#[via_fn]
proof fn key_errors_decreases(
    ae: Seq<(Seq<char>, JVal)>,
    ee: Seq<(Seq<char>, JVal)>,
    k: Seq<char>,
    ig: Seq<Seq<char>>,
    prefix: Seq<char>,
) {
    lemma_obj_get_in(ae, k);
    if let Some(x) = obj_get(ae, k) {
        let i = choose|i: int| 0 <= i < ae.len() && #[trigger] ae[i].1 == x;
        vstd::seq::axiom_seq_index_decreases(ae, i);
    }
}

#[via_fn]
proof fn arr_errors_decreases(aa: Seq<JVal>, ea: Seq<JVal>, n: int, ig: Seq<Seq<char>>, prefix: Seq<char>) {
    if 0 < n <= aa.len() {
        vstd::seq::axiom_seq_index_decreases(aa, n - 1);
    }
}

} // verus!
