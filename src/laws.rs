//! Laws that relate several of the library's functions.
use vstd::prelude::*;
use crate::json::{digits_value, index_digits, is_digit, keys_sorted, obj_get, parse_index, resolve, seq_lt, step, walk, wf, JVal};
use crate::flatten::{flat_elems, flat_entries, flat_into, index_path};
use crate::text::{dec, digit_char};
use crate::keys::{insert_keys, key_union, sorted_insert};
use crate::validator::{arr_errors, data_eq_errors, ignored, key_errors, lemma_data_eq_reflexive, obj_errors};
use crate::text::split_on;
use crate::runner::{
    env_into, expectation_errors, json_errors, length_errors, lengths_view, path_value_errors, step_completed,
    RunState,
};
use crate::expression::Outcome;
use crate::jsontext::opt_json_view;
use crate::model::{RequestInfo, TestStep};
use crate::validator::{contains_errors, expects_view, header_errors, pairs_view, strings_view};

verus! {

proof fn lemma_split_append(p: Seq<char>, s: Seq<char>)
    requires
        forall|i: int| 0 <= i < s.len() ==> s[i] != '.',
    ensures
        split_on(p + seq!['.'] + s, '.') == split_on(p, '.').push(s),
    decreases s.len(),
{
    let t = p + seq!['.'] + s;
    if s.len() == 0 {
        assert(t.drop_last() =~= p);
        assert(t.last() == '.');
        assert(s =~= Seq::<char>::empty());
    } else {
        let s0 = s.drop_last();
        lemma_split_append(p, s0);
        assert(t.drop_last() =~= p + seq!['.'] + s0);
        assert(t.last() == s.last());
        let pre = split_on(p, '.').push(s0);
        assert(s0.push(s.last()) =~= s);
        assert(pre.update(pre.len() - 1, pre.last().push(s.last())) =~= split_on(p, '.').push(s));
    }
}

proof fn lemma_walk_append(v: JVal, segs: Seq<Seq<char>>, s: Seq<char>)
    ensures
        walk(v, segs.push(s)) == match walk(v, segs) {
            Some(x) => walk(x, seq![s]),
            None => None,
        },
    decreases segs.len(),
{
    if segs.len() == 0 {
        assert(segs.push(s) =~= seq![s]);
    } else {
        assert(segs.push(s).drop_first() =~= segs.drop_first().push(s));
        assert(segs.push(s)[0] == segs[0]);
        let r = if segs[0].len() == 0 { Some(v) } else { step(v, segs[0]) };
        if let Some(c) = r {
            lemma_walk_append(c, segs.drop_first(), s);
        }
    }
}

/// Resolving a path walks it one segment at a time: resolving `p.s`, for a
/// segment `s` without dots, resolves `p` and then takes `s` from the node
/// reached (an empty `s` stays on it).
pub proof fn lemma_resolve_walks_segments(v: JVal, p: Seq<char>, s: Seq<char>)
    requires
        forall|i: int| 0 <= i < s.len() ==> s[i] != '.',
    ensures
        resolve(v, p + seq!['.'] + s) == match resolve(v, p) {
            Some(x) => if s.len() == 0 { Some(x) } else { step(x, s) },
            None => None,
        },
{
    lemma_split_append(p, s);
    lemma_walk_append(v, split_on(p, '.'), s);
    if let Some(x) = resolve(v, p) {
        let one = seq![s];
        assert(one.drop_first() =~= Seq::<Seq<char>>::empty());
        assert(one[0] == s);
        let r = if s.len() == 0 { Some(x) } else { step(x, s) };
        if let Some(c) = r {
            assert(walk(c, one.drop_first()) == Some(c));
        }
        assert(walk(x, one) == r);
    }
}

/// Whether every `json` expectation is the value its path reaches in `d`.
pub open spec fn values_taken_from(d: JVal, ex: Seq<(Seq<char>, JVal)>) -> bool {
    forall|i: int| 0 <= i < ex.len() ==> resolve(d, (#[trigger] ex[i]).0) == Some(ex[i].1)
}

/// Whether every `json_lengths` expectation is the length of the array or
/// object its path reaches in `d`.
pub open spec fn lengths_taken_from(d: JVal, ls: Seq<(Seq<char>, usize)>) -> bool {
    forall|i: int| 0 <= i < ls.len() ==> match resolve(d, (#[trigger] ls[i]).0) {
        Some(JVal::Arr(a)) => a.len() == ls[i].1,
        Some(JVal::Obj(es)) => es.len() == ls[i].1,
        _ => false,
    }
}

proof fn lemma_values_pass(d: JVal, ex: Seq<(Seq<char>, JVal)>)
    requires
        values_taken_from(d, ex),
    ensures
        path_value_errors(d, ex) == Seq::<Seq<char>>::empty(),
    decreases ex.len(),
{
    if ex.len() > 0 {
        let t = ex.drop_last();
        assert forall|i: int| 0 <= i < t.len() implies resolve(d, (#[trigger] t[i]).0) == Some(t[i].1) by {
            assert(t[i] == ex[i]);
        }
        lemma_values_pass(d, t);
        assert(resolve(d, ex[ex.len() - 1].0) == Some(ex[ex.len() - 1].1));
        assert(path_value_errors(d, ex) =~= Seq::<Seq<char>>::empty());
    }
}

proof fn lemma_lengths_pass(d: JVal, ls: Seq<(Seq<char>, usize)>)
    requires
        lengths_taken_from(d, ls),
    ensures
        length_errors(d, ls) == Seq::<Seq<char>>::empty(),
    decreases ls.len(),
{
    if ls.len() > 0 {
        let t = ls.drop_last();
        assert forall|i: int| 0 <= i < t.len() implies match resolve(d, (#[trigger] t[i]).0) {
            Some(JVal::Arr(a)) => a.len() == t[i].1,
            Some(JVal::Obj(es)) => es.len() == t[i].1,
            _ => false,
        } by {
            assert(t[i] == ls[i]);
        }
        lemma_lengths_pass(d, t);
        let k = ls.len() - 1;
        assert(match resolve(d, ls[k].0) {
            Some(JVal::Arr(a)) => a.len() == ls[k].1,
            Some(JVal::Obj(es)) => es.len() == ls[k].1,
            _ => false,
        });
        assert(length_errors(d, ls) =~= Seq::<Seq<char>>::empty());
    }
}

/// Expectations read off a response body itself pass against it: when each
/// `json` value is what its path reaches in the parsed body, and each
/// `json_lengths` entry is the length of the array or object its path
/// reaches, the `json` and `json_lengths` checks report nothing.
pub proof fn lemma_extracted_expectations_pass(d: JVal, ex: Seq<(Seq<char>, JVal)>, ls: Seq<(Seq<char>, usize)>)
    requires
        values_taken_from(d, ex),
        lengths_taken_from(d, ls),
    ensures
        json_errors(Some(d), ex, ls) == Seq::<Seq<char>>::empty(),
{
    lemma_values_pass(d, ex);
    lemma_lengths_pass(d, ls);
    assert(Seq::<Seq<char>>::empty() + Seq::<Seq<char>>::empty() =~= Seq::<Seq<char>>::empty());
}

proof fn lemma_seq_lt_irrefl(a: Seq<char>)
    ensures
        !seq_lt(a, a),
    decreases a.len(),
{
    if a.len() > 0 {
        lemma_seq_lt_irrefl(a.drop_first());
    }
}

proof fn lemma_seq_lt_asym(a: Seq<char>, b: Seq<char>)
    ensures
        !(seq_lt(a, b) && seq_lt(b, a)),
    decreases a.len(),
{
    if a.len() > 0 && b.len() > 0 && a[0] == b[0] {
        lemma_seq_lt_asym(a.drop_first(), b.drop_first());
    }
}

proof fn lemma_seq_lt_ne(a: Seq<char>, b: Seq<char>)
    requires
        seq_lt(a, b),
    ensures
        a != b,
{
    lemma_seq_lt_irrefl(a);
}

proof fn lemma_sorted_insert_has(s: Seq<Seq<char>>, k: Seq<char>, x: Seq<char>)
    requires
        s.contains(x) || x == k,
    ensures
        sorted_insert(s, k).contains(x),
    decreases s.len(),
{
    let r = sorted_insert(s, k);
    if s.len() == 0 {
        assert(r[0] == k);
    } else if s[0] == k {
        if x == k {
            assert(r[0] == x);
        }
    } else if seq_lt(k, s[0]) {
        if x == k {
            assert(r[0] == x);
        } else {
            let i = choose|i: int| 0 <= i < s.len() && s[i] == x;
            assert(r[i + 1] == x);
        }
    } else {
        if x == s[0] {
            assert(r[0] == x);
        } else {
            if s.contains(x) {
                let i = choose|i: int| 0 <= i < s.len() && s[i] == x;
                assert(s.drop_first()[i - 1] == x);
            }
            lemma_sorted_insert_has(s.drop_first(), k, x);
            let t = sorted_insert(s.drop_first(), k);
            let j = choose|j: int| 0 <= j < t.len() && t[j] == x;
            assert(r[j + 1] == x);
        }
    }
}

proof fn lemma_insert_keys_has(acc: Seq<Seq<char>>, es: Seq<(Seq<char>, JVal)>, x: Seq<char>)
    requires
        acc.contains(x) || exists|i: int| 0 <= i < es.len() && (#[trigger] es[i]).0 == x,
    ensures
        insert_keys(acc, es).contains(x),
    decreases es.len(),
{
    if es.len() > 0 {
        let acc2 = sorted_insert(acc, es[0].0);
        if acc.contains(x) || es[0].0 == x {
            lemma_sorted_insert_has(acc, es[0].0, x);
        } else {
            let i = choose|i: int| 0 <= i < es.len() && (#[trigger] es[i]).0 == x;
            assert(es.drop_first()[i - 1].0 == x);
        }
        lemma_insert_keys_has(acc2, es.drop_first(), x);
    }
}

proof fn lemma_union_has(ae: Seq<(Seq<char>, JVal)>, ee: Seq<(Seq<char>, JVal)>, x: Seq<char>)
    requires
        (exists|i: int| 0 <= i < ae.len() && (#[trigger] ae[i]).0 == x) || (exists|i: int| 0 <= i < ee.len() && (#[trigger] ee[i]).0 == x),
    ensures
        key_union(ae, ee).contains(x),
{
    if exists|i: int| 0 <= i < ae.len() && (#[trigger] ae[i]).0 == x {
        lemma_insert_keys_has(Seq::empty(), ae, x);
    }
    lemma_insert_keys_has(insert_keys(Seq::empty(), ae), ee, x);
}

proof fn lemma_obj_get_key(es: Seq<(Seq<char>, JVal)>, k: Seq<char>)
    ensures
        obj_get(es, k) matches Some(v) ==> exists|i: int| 0 <= i < es.len() && (#[trigger] es[i]).0 == k && es[i].1 == v,
    decreases es.len(),
{
    if es.len() > 0 && es[0].0 != k {
        lemma_obj_get_key(es.drop_first(), k);
        if let Some(v) = obj_get(es, k) {
            let i = choose|i: int| 0 <= i < es.drop_first().len() && (#[trigger] es.drop_first()[i]).0 == k && es.drop_first()[i].1 == v;
            assert(es[i + 1].0 == k && es[i + 1].1 == v);
        }
    } else if es.len() > 0 {
        assert(es[0].0 == k);
    }
}

proof fn lemma_obj_get_sorted(es: Seq<(Seq<char>, JVal)>, i: int)
    requires
        keys_sorted(es),
        0 <= i < es.len(),
    ensures
        obj_get(es, es[i].0) == Some(es[i].1),
    decreases i,
{
    if i > 0 {
        assert(seq_lt(es[0].0, es[i].0));
        lemma_seq_lt_ne(es[0].0, es[i].0);
        let t = es.drop_first();
        assert(keys_sorted(t)) by {
            assert forall|a: int, b: int| 0 <= a < b < t.len() implies seq_lt(#[trigger] t[a].0, #[trigger] t[b].0) by {
                assert(t[a] == es[a + 1] && t[b] == es[b + 1]);
            }
        }
        assert(t[i - 1] == es[i]);
        lemma_obj_get_sorted(t, i - 1);
    }
}

proof fn lemma_sorted_tail(es: Seq<(Seq<char>, JVal)>)
    requires
        keys_sorted(es),
        es.len() > 0,
    ensures
        keys_sorted(es.drop_first()),
        obj_get(es.drop_first(), es[0].0) is None,
        forall|k: Seq<char>| k != es[0].0 ==> obj_get(es, k) == obj_get(es.drop_first(), k),
{
    let t = es.drop_first();
    assert forall|a: int, b: int| 0 <= a < b < t.len() implies seq_lt(#[trigger] t[a].0, #[trigger] t[b].0) by {
        assert(t[a] == es[a + 1] && t[b] == es[b + 1]);
    }
    lemma_obj_get_key(t, es[0].0);
    if let Some(v) = obj_get(t, es[0].0) {
        let i = choose|i: int| 0 <= i < t.len() && (#[trigger] t[i]).0 == es[0].0 && t[i].1 == v;
        assert(seq_lt(es[0].0, es[i + 1].0));
        lemma_seq_lt_ne(es[0].0, es[i + 1].0);
    }
}

/// Two sorted objects with the same lookups are the same object.
proof fn lemma_sorted_same_lookups(ae: Seq<(Seq<char>, JVal)>, ee: Seq<(Seq<char>, JVal)>)
    requires
        keys_sorted(ae),
        keys_sorted(ee),
        forall|k: Seq<char>| obj_get(ae, k) == obj_get(ee, k),
    ensures
        ae == ee,
    decreases ae.len() + ee.len(),
{
    if ae.len() == 0 && ee.len() == 0 {
        assert(ae =~= ee);
    } else if ae.len() == 0 {
        lemma_obj_get_sorted(ee, 0);
        assert(obj_get(ae, ee[0].0) is None);
    } else if ee.len() == 0 {
        lemma_obj_get_sorted(ae, 0);
        assert(obj_get(ee, ae[0].0) is None);
    } else {
        let a0 = ae[0].0;
        let e0 = ee[0].0;
        lemma_obj_get_sorted(ae, 0);
        lemma_obj_get_sorted(ee, 0);
        lemma_obj_get_key(ee, a0);
        lemma_obj_get_key(ae, e0);
        let j = choose|j: int| 0 <= j < ee.len() && (#[trigger] ee[j]).0 == a0 && ee[j].1 == ae[0].1;
        let i = choose|i: int| 0 <= i < ae.len() && (#[trigger] ae[i]).0 == e0 && ae[i].1 == ee[0].1;
        if a0 != e0 {
            assert(j > 0 && i > 0);
            assert(seq_lt(e0, a0));
            assert(seq_lt(a0, e0));
            lemma_seq_lt_asym(a0, e0);
        }
        assert(ae[0].1 == ee[0].1);
        lemma_sorted_tail(ae);
        lemma_sorted_tail(ee);
        assert forall|k: Seq<char>| obj_get(ae.drop_first(), k) == obj_get(ee.drop_first(), k) by {
            if k != a0 {
                assert(obj_get(ae, k) == obj_get(ee, k));
            }
        }
        lemma_sorted_same_lookups(ae.drop_first(), ee.drop_first());
        assert(ae =~= seq![ae[0]] + ae.drop_first());
        assert(ee =~= seq![ee[0]] + ee.drop_first());
        assert(ae[0] == ee[0]);
    }
}

proof fn lemma_no_patterns(path: Seq<char>)
    ensures
        !ignored(path, Seq::empty()),
{
}

proof fn lemma_obj_errors_prefix(ae: Seq<(Seq<char>, JVal)>, ee: Seq<(Seq<char>, JVal)>, keys: Seq<Seq<char>>, prefix: Seq<char>, n: int)
    requires
        obj_errors(ae, ee, keys, Seq::empty(), prefix).len() == 0,
        0 <= n < keys.len(),
    ensures
        key_errors(ae, ee, keys[n], Seq::empty(), prefix).len() == 0,
    decreases keys.len(),
{
    let t = keys.drop_last();
    if n < keys.len() - 1 {
        assert(t[n] == keys[n]);
        lemma_obj_errors_prefix(ae, ee, t, prefix, n);
    }
}

proof fn lemma_arr_errors_prefix(aa: Seq<JVal>, ea: Seq<JVal>, m: int, prefix: Seq<char>, n: int)
    requires
        arr_errors(aa, ea, m, Seq::empty(), prefix).len() == 0,
        0 <= n < m <= aa.len(),
        m <= ea.len(),
    ensures
        data_eq_errors(aa[n], ea[n], Seq::empty(), crate::validator::child_path(prefix, crate::text::dec(n as nat))).len() == 0,
    decreases m,
{
    if n < m - 1 {
        lemma_arr_errors_prefix(aa, ea, m - 1, prefix, n);
    }
}

/// With no ignore patterns, the validator finds no difference only between
/// equal values (of well-formed trees).
proof fn lemma_data_eq_complete(a: JVal, e: JVal, prefix: Seq<char>)
    requires
        wf(a),
        wf(e),
        data_eq_errors(a, e, Seq::empty(), prefix).len() == 0,
    ensures
        a == e,
    decreases a,
{
    lemma_no_patterns(prefix);
    if a is Obj && e is Obj {
        let ae = a->Obj_0;
        let ee = e->Obj_0;
        {
            crate::json::lemma_wf_children(a);
            crate::json::lemma_wf_children(e);
            let keys = key_union(ae, ee);
            assert forall|k: Seq<char>| obj_get(ae, k) == obj_get(ee, k) by {
                lemma_obj_get_key(ae, k);
                lemma_obj_get_key(ee, k);
                if obj_get(ae, k) is Some || obj_get(ee, k) is Some {
                    lemma_union_has(ae, ee, k);
                    let n = choose|n: int| 0 <= n < keys.len() && keys[n] == k;
                    lemma_obj_errors_prefix(ae, ee, keys, prefix, n);
                    let cp = crate::validator::child_path(prefix, k);
                    lemma_no_patterns(cp);
                    if let (Some(x), Some(y)) = (obj_get(ae, k), obj_get(ee, k)) {
                        let i = choose|i: int| 0 <= i < ae.len() && (#[trigger] ae[i]).0 == k && ae[i].1 == x;
                        let j = choose|j: int| 0 <= j < ee.len() && (#[trigger] ee[j]).0 == k && ee[j].1 == y;
                        assert(wf(ae[i].1));
                        assert(wf(ee[j].1));
                        assert(decreases_to!(ae => ae[i]));
                        lemma_data_eq_complete(x, y, cp);
                    }
                }
            }
            lemma_sorted_same_lookups(ae, ee);
        }
    } else if a is Arr && e is Arr {
        let aa = a->Arr_0;
        let ea = e->Arr_0;
        {
            crate::json::lemma_wf_children(a);
            crate::json::lemma_wf_children(e);
            let m = if aa.len() < ea.len() { aa.len() as int } else { ea.len() as int };
            assert(aa.len() == ea.len());
            assert forall|n: int| 0 <= n < aa.len() implies aa[n] == ea[n] by {
                lemma_arr_errors_prefix(aa, ea, m, prefix, n);
                assert(wf(aa[n]) && wf(ea[n]));
                vstd::seq::axiom_seq_index_decreases(aa, n);
                lemma_data_eq_complete(aa[n], ea[n], crate::validator::child_path(prefix, crate::text::dec(n as nat)));
            }
            assert(aa =~= ea);
        }
    }
}

/// `compare(a, b)`, which is deep equality of the values, holds exactly
/// when the deep-equality validator, with no ignore patterns, finds no
/// difference between them.
pub proof fn lemma_compare_agrees_with_data_eq(a: JVal, b: JVal)
    requires
        wf(a),
        wf(b),
    ensures
        (a == b) <==> data_eq_errors(a, b, Seq::empty(), Seq::empty()).len() == 0,
{
    if a == b {
        lemma_data_eq_reflexive(a, Seq::empty(), Seq::empty());
    }
    if data_eq_errors(a, b, Seq::empty(), Seq::empty()).len() == 0 {
        lemma_data_eq_complete(a, b, Seq::empty());
    }
}

proof fn lemma_dec_digits(n: nat)
    ensures
        dec(n).len() > 0,
        forall|i: int| 0 <= i < dec(n).len() ==> is_digit(#[trigger] dec(n)[i]),
        digits_value(dec(n)) == n,
    decreases n,
{
    let c = digit_char(n % 10);
    assert(c as int == 48 + (n % 10) as int);
    assert('0' as int == 48);
    if n < 10 {
        assert(dec(n) =~= seq![c]);
        assert(seq![c].drop_last() =~= Seq::<char>::empty());
        assert(seq![c].last() == c);
        assert(digits_value(seq![c]) == digits_value(Seq::<char>::empty()) * 10 + (c as int - '0' as int));
        assert(n % 10 == n);
    } else {
        lemma_dec_digits(n / 10);
        let d = dec(n / 10);
        assert(dec(n) == d.push(c));
        assert(d.push(c).drop_last() =~= d);
        assert forall|i: int| 0 <= i < dec(n).len() implies is_digit(#[trigger] dec(n)[i]) by {
            if i < d.len() {
                assert(dec(n)[i] == d[i]);
            }
        }
        vstd::arithmetic::div_mod::lemma_fundamental_div_mod(n as int, 10);
        assert(d.push(c).last() == c);
        assert(digits_value(dec(n)) == digits_value(d) * 10 + (c as int - '0' as int));
        assert(digits_value(d) == (n / 10) as int);
        assert((n / 10) as int * 10 + (n % 10) as int == n as int);
    }
}

/// The decimal text of an index reads back as that index.
proof fn lemma_parse_dec(n: nat)
    requires
        n <= usize::MAX,
    ensures
        parse_index(dec(n)) == Some(n as int),
{
    lemma_dec_digits(n);
    assert(dec(n)[0] != '+');
    assert(index_digits(dec(n)) == dec(n));
}

/// Text without dots splits into itself.
proof fn lemma_split_plain(s: Seq<char>)
    requires
        forall|i: int| 0 <= i < s.len() ==> s[i] != '.',
    ensures
        split_on(s, '.') == seq![s],
    decreases s.len(),
{
    if s.len() > 0 {
        lemma_split_plain(s.drop_last());
        assert(s.drop_last().push(s.last()) =~= s);
        assert(seq![s.drop_last()].update(0, s.drop_last().push(s.last())) =~= seq![s]);
    } else {
        assert(s =~= Seq::<char>::empty());
    }
}

proof fn lemma_split_prepend(s: Seq<char>, p: Seq<char>)
    requires
        forall|i: int| 0 <= i < s.len() ==> s[i] != '.',
    ensures
        split_on(s + seq!['.'] + p, '.') == seq![s] + split_on(p, '.'),
    decreases p.len(),
{
    let t = s + seq!['.'] + p;
    if p.len() == 0 {
        lemma_split_plain(s);
        assert(t.drop_last() =~= s);
        assert(split_on(p, '.') =~= seq![Seq::<char>::empty()]);
        assert(seq![s].push(Seq::<char>::empty()) =~= seq![s] + seq![Seq::<char>::empty()]);
    } else {
        lemma_split_prepend(s, p.drop_last());
        assert(t.drop_last() =~= s + seq!['.'] + p.drop_last());
        assert(t.last() == p.last());
        crate::text::lemma_split_nonempty(p.drop_last(), '.');
        let sp = split_on(p.drop_last(), '.');
        if p.last() == '.' {
            assert((seq![s] + sp).push(Seq::empty()) =~= seq![s] + sp.push(Seq::empty()));
        } else {
            let pre = seq![s] + sp;
            assert(pre.update(pre.len() - 1, pre.last().push(p.last())) =~= seq![s] + sp.update(sp.len() - 1, sp.last().push(p.last())));
        }
    }
}

/// Resolving `s.p`, for a non-empty segment `s` without dots, takes `s`
/// from the value and resolves `p` from there.
proof fn lemma_resolve_prepend(v: JVal, s: Seq<char>, p: Seq<char>)
    requires
        s.len() > 0,
        forall|i: int| 0 <= i < s.len() ==> s[i] != '.',
    ensures
        resolve(v, s + seq!['.'] + p) == match step(v, s) {
            Some(c) => resolve(c, p),
            None => None,
        },
{
    lemma_split_prepend(s, p);
    let segs = seq![s] + split_on(p, '.');
    assert(segs[0] == s);
    assert(segs.drop_first() =~= split_on(p, '.'));
}

/// Object keys are non-empty, free of dots and distinct; arrays fit an
/// index; all the way down.
pub open spec fn plain_keys(v: JVal) -> bool
    decreases v, 1nat, 0int,
{
    match v {
        JVal::Arr(a) => a.len() <= usize::MAX && plain_elems(a, a.len() as int),
        JVal::Obj(es) => (forall|i: int, j: int| 0 <= i < j < es.len() ==> (#[trigger] es[i]).0 != (#[trigger] es[j]).0)
            && plain_entries(es, es.len() as int),
        _ => true,
    }
}

pub open spec fn plain_key(k: Seq<char>) -> bool {
    k.len() > 0 && forall|i: int| 0 <= i < k.len() ==> k[i] != '.'
}

pub open spec fn plain_elems(a: Seq<JVal>, n: int) -> bool
    decreases a, 0nat, n,
    via plain_elems_decreases
{
    if n <= 0 || n > a.len() {
        true
    } else {
        plain_elems(a, n - 1) && plain_keys(a[n - 1])
    }
}

pub open spec fn plain_entries(es: Seq<(Seq<char>, JVal)>, n: int) -> bool
    decreases es, 0nat, n,
    via plain_entries_decreases
{
    if n <= 0 || n > es.len() {
        true
    } else {
        plain_entries(es, n - 1) && plain_key(es[n - 1].0) && plain_keys(es[n - 1].1)
    }
}

#[via_fn]
proof fn plain_elems_decreases(a: Seq<JVal>, n: int) {
    if 0 < n <= a.len() {
        vstd::seq::axiom_seq_index_decreases(a, n - 1);
    }
}

#[via_fn]
proof fn plain_entries_decreases(es: Seq<(Seq<char>, JVal)>, n: int) {
    if 0 < n <= es.len() {
        vstd::seq::axiom_seq_index_decreases(es, n - 1);
    }
}

proof fn lemma_obj_get_distinct(es: Seq<(Seq<char>, JVal)>, i: int)
    requires
        0 <= i < es.len(),
        forall|a: int, b: int| 0 <= a < b < es.len() ==> (#[trigger] es[a]).0 != (#[trigger] es[b]).0,
    ensures
        obj_get(es, es[i].0) == Some(es[i].1),
{
    assert forall|j: int| 0 <= j < i implies (#[trigger] es[j]).0 != es[i].0 by {}
    crate::json::lemma_obj_get_found(es, es[i].0, i);
}

/// What a binding of the flattened context can be: one the context already
/// had, the value itself at `prefix`, or the node that `resolve` reaches in
/// the value along the rest of the key.
pub open spec fn flat_origin(m: Map<Seq<char>, JVal>, r: Map<Seq<char>, JVal>, prefix: Seq<char>, v: JVal, q: Seq<char>) -> bool {
    ||| (m.contains_key(q) && r[q] == m[q])
    ||| (q == prefix && r[q] == v)
    ||| exists|p: Seq<char>| q == prefix + seq!['.'] + p && #[trigger] resolve(v, p) == Some(r[q])
}

proof fn lemma_flat_origin(m: Map<Seq<char>, JVal>, prefix: Seq<char>, v: JVal)
    requires
        plain_keys(v),
        prefix.len() > 0,
    ensures
        forall|q: Seq<char>| #[trigger] flat_into(m, prefix, v).contains_key(q) ==> flat_origin(m, flat_into(m, prefix, v), prefix, v, q),
    decreases v, 1nat, 0int,
{
    let r = flat_into(m, prefix, v);
    match v {
        JVal::Obj(es) => {
            let m0 = if es.len() == 0 { m.insert(prefix, v) } else { m };
            lemma_flat_entries_origin(m, m0, prefix, v, es, es.len() as int);
            assert(r == flat_entries(m0, prefix, es, es.len() as int));
        },
        JVal::Arr(a) => {
            let m0 = if a.len() == 0 { m.insert(prefix, v) } else { m };
            lemma_flat_elems_origin(m, m0, prefix, v, a, a.len() as int);
            assert(r == flat_elems(m0, prefix, a, a.len() as int));
        },
        _ => {
            assert forall|q: Seq<char>| #[trigger] r.contains_key(q) implies flat_origin(m, r, prefix, v, q) by {
                if q != prefix {
                    assert(m.contains_key(q) && r[q] == m[q]);
                }
            }
        },
    }
}

proof fn lemma_flat_entries_origin(
    m: Map<Seq<char>, JVal>,
    m0: Map<Seq<char>, JVal>,
    prefix: Seq<char>,
    v: JVal,
    es: Seq<(Seq<char>, JVal)>,
    n: int,
)
    requires
        v == JVal::Obj(es),
        plain_keys(v),
        prefix.len() > 0,
        0 <= n <= es.len(),
        m0 == (if es.len() == 0 { m.insert(prefix, v) } else { m }),
    ensures
        forall|q: Seq<char>| #[trigger] flat_entries(m0, prefix, es, n).contains_key(q) ==> flat_origin(m, flat_entries(m0, prefix, es, n), prefix, v, q),
    decreases es, 0nat, n,
{
    let r = flat_entries(m0, prefix, es, n);
    if n == 0 {
        assert forall|q: Seq<char>| #[trigger] r.contains_key(q) implies flat_origin(m, r, prefix, v, q) by {
            if !(m.contains_key(q) && r[q] == m[q]) {
                assert(q == prefix && r[q] == v);
            }
        }
    } else {
        lemma_flat_entries_origin(m, m0, prefix, v, es, n - 1);
        let prev = flat_entries(m0, prefix, es, n - 1);
        let k = es[n - 1].0;
        let x = es[n - 1].1;
        let cp = crate::validator::child_path(prefix, k);
        lemma_plain_entry(es, es.len() as int, n - 1);
        vstd::seq::axiom_seq_index_decreases(es, n - 1);
        lemma_flat_origin(prev, cp, x);
        lemma_obj_get_distinct(es, n - 1);
        assert(cp == prefix + seq!['.'] + k);
        assert forall|q: Seq<char>| #[trigger] r.contains_key(q) implies flat_origin(m, r, prefix, v, q) by {
            assert(r == flat_into(prev, cp, x));
            assert(flat_origin(prev, r, cp, x, q));
            if prev.contains_key(q) && r[q] == prev[q] {
                assert(flat_origin(m, prev, prefix, v, q));
                if exists|p: Seq<char>| q == prefix + seq!['.'] + p && #[trigger] resolve(v, p) == Some(prev[q]) {
                    let p = choose|p: Seq<char>| q == prefix + seq!['.'] + p && #[trigger] resolve(v, p) == Some(prev[q]);
                    assert(resolve(v, p) == Some(r[q]));
                }
            } else if q == cp && r[q] == x {
                lemma_split_plain(k);
                assert(k.len() > 0);
                assert(split_on(k, '.')[0] == k);
                assert(split_on(k, '.').drop_first() =~= Seq::<Seq<char>>::empty());
                assert(step(v, k) == Some(x));
                assert(walk(x, Seq::<Seq<char>>::empty()) == Some(x));
                assert(walk(v, split_on(k, '.')) == walk(x, split_on(k, '.').drop_first()));
                assert(resolve(v, k) == Some(x));
            } else {
                let tail = choose|p: Seq<char>| q == cp + seq!['.'] + p && #[trigger] resolve(x, p) == Some(r[q]);
                lemma_resolve_prepend(v, k, tail);
                let p = k + seq!['.'] + tail;
                assert(q =~= prefix + seq!['.'] + p);
                assert(resolve(v, p) == Some(r[q]));
            }
        }
    }
}

proof fn lemma_plain_entry(es: Seq<(Seq<char>, JVal)>, n: int, i: int)
    requires
        plain_entries(es, n),
        0 <= i < n <= es.len(),
    ensures
        plain_key(es[i].0),
        plain_keys(es[i].1),
    decreases n,
{
    if i < n - 1 {
        lemma_plain_entry(es, n - 1, i);
    }
}

proof fn lemma_plain_elem(a: Seq<JVal>, n: int, i: int)
    requires
        plain_elems(a, n),
        0 <= i < n <= a.len(),
    ensures
        plain_keys(a[i]),
    decreases n,
{
    if i < n - 1 {
        lemma_plain_elem(a, n - 1, i);
    }
}

proof fn lemma_flat_elems_origin(
    m: Map<Seq<char>, JVal>,
    m0: Map<Seq<char>, JVal>,
    prefix: Seq<char>,
    v: JVal,
    a: Seq<JVal>,
    n: int,
)
    requires
        v == JVal::Arr(a),
        plain_keys(v),
        prefix.len() > 0,
        0 <= n <= a.len(),
        m0 == (if a.len() == 0 { m.insert(prefix, v) } else { m }),
    ensures
        forall|q: Seq<char>| #[trigger] flat_elems(m0, prefix, a, n).contains_key(q) ==> flat_origin(m, flat_elems(m0, prefix, a, n), prefix, v, q),
    decreases a, 0nat, n,
{
    let r = flat_elems(m0, prefix, a, n);
    if n == 0 {
        assert forall|q: Seq<char>| #[trigger] r.contains_key(q) implies flat_origin(m, r, prefix, v, q) by {
            if !(m.contains_key(q) && r[q] == m[q]) {
                assert(q == prefix && r[q] == v);
            }
        }
    } else {
        lemma_flat_elems_origin(m, m0, prefix, v, a, n - 1);
        let prev = flat_elems(m0, prefix, a, n - 1);
        let x = a[n - 1];
        let d = dec((n - 1) as nat);
        let cp = index_path(prefix, (n - 1) as nat);
        lemma_plain_elem(a, a.len() as int, n - 1);
        vstd::seq::axiom_seq_index_decreases(a, n - 1);
        lemma_flat_origin(prev, cp, x);
        lemma_parse_dec((n - 1) as nat);
        lemma_dec_digits((n - 1) as nat);
        assert forall|i: int| 0 <= i < d.len() implies d[i] != '.' by {
            assert(is_digit(d[i]));
        }
        assert(step(v, d) == Some(x));
        assert forall|q: Seq<char>| #[trigger] r.contains_key(q) implies flat_origin(m, r, prefix, v, q) by {
            assert(r == flat_into(prev, cp, x));
            assert(flat_origin(prev, r, cp, x, q));
            if prev.contains_key(q) && r[q] == prev[q] {
                assert(flat_origin(m, prev, prefix, v, q));
                if exists|p: Seq<char>| q == prefix + seq!['.'] + p && #[trigger] resolve(v, p) == Some(prev[q]) {
                    let p = choose|p: Seq<char>| q == prefix + seq!['.'] + p && #[trigger] resolve(v, p) == Some(prev[q]);
                    assert(resolve(v, p) == Some(r[q]));
                }
            } else if q == cp && r[q] == x {
                lemma_split_plain(d);
                assert(split_on(d, '.')[0] == d);
                assert(split_on(d, '.').drop_first() =~= Seq::<Seq<char>>::empty());
                assert(walk(x, Seq::<Seq<char>>::empty()) == Some(x));
                assert(walk(v, split_on(d, '.')) == walk(x, split_on(d, '.').drop_first()));
                assert(resolve(v, d) == Some(x));
            } else {
                let tail = choose|p: Seq<char>| q == cp + seq!['.'] + p && #[trigger] resolve(x, p) == Some(r[q]);
                lemma_resolve_prepend(v, d, tail);
                let p = d + seq!['.'] + tail;
                assert(q =~= prefix + seq!['.'] + p);
                assert(resolve(v, p) == Some(r[q]));
            }
        }
    }
}

proof fn lemma_env_keeps(m: Map<Seq<char>, JVal>, env: Seq<(Seq<char>, Seq<char>)>, q: Seq<char>)
    requires
        q.len() > 0,
        q[0] == 's',
    ensures
        env_into(m, env).contains_key(q) == m.contains_key(q),
        m.contains_key(q) ==> env_into(m, env)[q] == m[q],
    decreases env.len(),
{
    if env.len() > 0 {
        lemma_env_keeps(m, env.drop_last(), q);
        let k = "env."@ + env.last().0;
        reveal_strlit("env.");
        assert(k[0] == 'e');
        assert(k != q);
    }
}

/// Flattening is consistent: after a step is recorded under `key`, every
/// context key `steps.<key>.<p>` that its flattening wrote holds the node
/// that `<key>.<p>` reaches in the `steps` object. It holds for records
/// whose object keys are plain (non-empty, dot-free, distinct) and a
/// context that had nothing bound under `steps.<key>.` before.
pub proof fn lemma_flattening_consistent(
    m: Map<Seq<char>, JVal>,
    key: Seq<char>,
    rec: JVal,
    es: Seq<(Seq<char>, JVal)>,
    env: Seq<(Seq<char>, Seq<char>)>,
    p: Seq<char>,
)
    requires
        plain_key(key),
        plain_keys(rec),
        obj_get(es, key) == Some(rec),
        forall|q: Seq<char>| m.contains_key(q) ==> !crate::text::has_prefix(q, "steps."@ + key + "."@),
    ensures
        ({
            let c = env_into(flat_into(m, "steps."@ + key, rec).insert("steps"@, JVal::Obj(es)), env);
            let q = "steps."@ + key + "."@ + p;
            c.contains_key(q) ==> c.contains_key("steps"@) && resolve(c["steps"@], key + "."@ + p) == Some(c[q])
        }),
{
    reveal_strlit("steps.");
    reveal_strlit("steps");
    reveal_strlit(".");
    let prefix = "steps."@ + key;
    let q = prefix + "."@ + p;
    let f = flat_into(m, prefix, rec);
    let m2 = f.insert("steps"@, JVal::Obj(es));
    let c = env_into(m2, env);
    assert(q[0] == 's');
    assert("steps"@[0] == 's');
    lemma_env_keeps(m2, env, q);
    lemma_env_keeps(m2, env, "steps"@);
    if c.contains_key(q) {
        assert(q.len() > 5);
        assert(q != "steps"@);
        assert(f.contains_key(q));
        assert(c[q] == f[q]);
        lemma_flat_origin(m, prefix, rec);
        assert(flat_origin(m, f, prefix, rec, q));
        assert(crate::text::has_prefix(q, "steps."@ + key + "."@)) by {
            assert(q.subrange(0, ("steps."@ + key + "."@).len() as int) =~= "steps."@ + key + "."@);
        }
        assert(!m.contains_key(q));
        assert(q != prefix);
        let tail = choose|tail: Seq<char>| q == prefix + seq!['.'] + tail && #[trigger] resolve(rec, tail) == Some(f[q]);
        assert(tail =~= p) by {
            assert forall|i: int| 0 <= i < p.len() implies tail[i] == p[i] by {
                assert(q[prefix.len() + 1 + i] == p[i]);
                assert(q[prefix.len() + 1 + i] == tail[i]);
            }
        }
        lemma_resolve_prepend(JVal::Obj(es), key, p);
        assert(key + "."@ + p =~= key + seq!['.'] + p);
        assert(c["steps"@] == JVal::Obj(es));
    }
}

/// What flattening binds is what the value holds: every binding of
/// `flat_into(m, prefix, v)` is one `m` had, the value itself at `prefix`,
/// or, at `prefix.p`, the node that `p` resolves to in the value (for a
/// non-empty prefix and plain keys).
pub proof fn lemma_flat_bindings_resolve(m: Map<Seq<char>, JVal>, prefix: Seq<char>, v: JVal)
    requires
        plain_keys(v),
        prefix.len() > 0,
    ensures
        forall|q: Seq<char>| #[trigger] flat_into(m, prefix, v).contains_key(q) ==> flat_origin(m, flat_into(m, prefix, v), prefix, v, q),
{
    lemma_flat_origin(m, prefix, v);
}

/// A step whose only expectations are its status, which the response
/// matches, and `json` / `json_lengths` entries read off the parsed body
/// itself, and which has no `test`, succeeds with no error.
pub proof fn lemma_self_expectations_step_passes(
    old_state: RunState,
    new_state: RunState,
    step: TestStep,
    idx: usize,
    info: RequestInfo,
    obs: crate::runner::Observed,
    duration_ms: u64,
    env: Seq<(Seq<char>, Seq<char>)>,
    r: crate::model::StepResult,
    o: Outcome,
    outs: Seq<Outcome>,
)
    requires
        step_completed(old_state, new_state, step, idx, info, obs, duration_ms, env, r, o, outs),
        step.expect.status == obs.status,
        step.expect.headers@.len() == 0,
        step.expect.json_eq is None,
        step.expect.contains@.len() == 0,
        step.expect.sse is None,
        step.test is None,
        opt_json_view(obs.parsed) matches Some(d) && values_taken_from(d, expects_view(step.expect.json@))
            && lengths_taken_from(d, lengths_view(step.expect.json_lengths@)),
    ensures
        r.success,
        r.error is None,
{
    let d = opt_json_view(obs.parsed)->Some_0;
    lemma_extracted_expectations_pass(d, expects_view(step.expect.json@), lengths_view(step.expect.json_lengths@));
    assert(pairs_view(step.expect.headers@) =~= Seq::<(Seq<char>, Seq<char>)>::empty());
    assert(strings_view(step.expect.contains@) =~= Seq::<Seq<char>>::empty());
    let cur = crate::runner::current_value(obs.status, pairs_view(obs.headers@), opt_json_view(obs.parsed), obs.body@, info);
    let v1 = crate::runner::vars_at_check(old_state.vars@, cur, opt_json_view(old_state.previous));
    let ex = expectation_errors(step.expect, obs.status, pairs_view(obs.headers@), obs.body@, opt_json_view(obs.parsed), crate::runner::opt_events(obs.events), v1);
    assert(header_errors(pairs_view(obs.headers@), pairs_view(step.expect.headers@)) =~= Seq::<Seq<char>>::empty());
    assert(crate::runner::expanded_texts(strings_view(step.expect.contains@), v1) =~= Seq::<Seq<char>>::empty());
    assert(contains_errors(obs.body@, crate::runner::expanded_texts(strings_view(step.expect.contains@), v1)) =~= Seq::<Seq<char>>::empty());
    assert(ex.0 =~= Seq::<Seq<char>>::empty());
}

} // verus!
