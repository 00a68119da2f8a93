//! Structured values: the library's own JSON tree and its mathematical view.
use vstd::prelude::*;
use crate::text::{chars_of, seqs_view, split_chars, split_on, string_of};

verus! {

/// A JSON value. Object entries keep their keys unique and in ascending
/// order, as the parsed documents this library works on do.
#[derive(Debug)]
pub enum Json {
    Null,
    Bool(bool),
    /// A non-negative integer.
    PosInt(u64),
    /// A negative integer.
    NegInt(i64),
    /// A finite double, held as its decimal text.
    Float(String),
    Str(String),
    Arr(Vec<Json>),
    Obj(Vec<(String, Json)>),
}

/// The mathematical view of a [`Json`] value.
pub enum JVal {
    Null,
    Bool(bool),
    Int(int),
    Float(Seq<char>),
    Str(Seq<char>),
    Arr(Seq<JVal>),
    Obj(Seq<(Seq<char>, JVal)>),
}

pub open spec fn jv(j: Json) -> JVal
    decreases j,
    via jv_decreases
{
    match j {
        Json::Null => JVal::Null,
        Json::Bool(b) => JVal::Bool(b),
        Json::PosInt(n) => JVal::Int(n as int),
        Json::NegInt(n) => JVal::Int(n as int),
        Json::Float(s) => JVal::Float(s@),
        Json::Str(s) => JVal::Str(s@),
        Json::Arr(v) => JVal::Arr(Seq::new(v@.len(), |i: int| if 0 <= i < v@.len() { jv(v@[i]) } else { JVal::Null })),
        Json::Obj(v) => JVal::Obj(Seq::new(v@.len(), |i: int| if 0 <= i < v@.len() { (v@[i].0@, jv(v@[i].1)) } else { (Seq::empty(), JVal::Null) })),
    }
}

impl Json {
    pub open spec fn view(&self) -> JVal {
        jv(*self)
    }
}

/// Strict lexicographic order of character sequences by code point, which
/// is the byte order of their UTF-8 encodings.
pub open spec fn seq_lt(a: Seq<char>, b: Seq<char>) -> bool
    decreases a.len(),
{
    if a.len() == 0 {
        b.len() > 0
    } else if b.len() == 0 {
        false
    } else if a[0] != b[0] {
        (a[0] as u32) < (b[0] as u32)
    } else {
        seq_lt(a.drop_first(), b.drop_first())
    }
}

/// Keys strictly ascending.
pub open spec fn keys_sorted(es: Seq<(Seq<char>, JVal)>) -> bool {
    forall|i: int, j: int| 0 <= i < j < es.len() ==> seq_lt(#[trigger] es[i].0, #[trigger] es[j].0)
}

/// Every object in the tree has unique, ascending keys.
pub open spec fn wf(v: JVal) -> bool
    decreases v, 1nat, 0int,
{
    match v {
        JVal::Arr(s) => wf_elems(s, s.len() as int),
        JVal::Obj(es) => keys_sorted(es) && wf_values(es, es.len() as int),
        _ => true,
    }
}

/// The first `n` elements are well formed.
pub open spec fn wf_elems(s: Seq<JVal>, n: int) -> bool
    decreases s, 0nat, n,
    via wf_elems_decreases
{
    if n <= 0 || n > s.len() {
        true
    } else {
        wf_elems(s, n - 1) && wf(s[n - 1])
    }
}

/// The values of the first `n` entries are well formed.
pub open spec fn wf_values(es: Seq<(Seq<char>, JVal)>, n: int) -> bool
    decreases es, 0nat, n,
    via wf_values_decreases
{
    if n <= 0 || n > es.len() {
        true
    } else {
        wf_values(es, n - 1) && wf(es[n - 1].1)
    }
}

#[via_fn]
proof fn wf_elems_decreases(s: Seq<JVal>, n: int) {
    if 0 < n <= s.len() {
        vstd::seq::axiom_seq_index_decreases(s, n - 1);
    }
}

#[via_fn]
proof fn wf_values_decreases(es: Seq<(Seq<char>, JVal)>, n: int) {
    if 0 < n <= es.len() {
        vstd::seq::axiom_seq_index_decreases(es, n - 1);
    }
}

/// The children of a well-formed array or object are well formed.
pub proof fn lemma_wf_children(v: JVal)
    requires
        wf(v),
    ensures
        v is Arr ==> forall|i: int| 0 <= i < v->Arr_0.len() ==> #[trigger] wf(v->Arr_0[i]),
        v is Obj ==> keys_sorted(v->Obj_0) && forall|i: int| 0 <= i < v->Obj_0.len() ==> #[trigger] wf(v->Obj_0[i].1),
{
    match v {
        JVal::Arr(s) => {
            assert forall|i: int| 0 <= i < s.len() implies #[trigger] wf(s[i]) by {
                lemma_wf_elems(s, s.len() as int, i);
            }
        },
        JVal::Obj(es) => {
            assert forall|i: int| 0 <= i < es.len() implies #[trigger] wf(es[i].1) by {
                lemma_wf_values(es, es.len() as int, i);
            }
        },
        _ => {},
    }
}

proof fn lemma_wf_elems(s: Seq<JVal>, n: int, i: int)
    requires
        wf_elems(s, n),
        0 <= i < n <= s.len(),
    ensures
        wf(s[i]),
    decreases n,
{
    if i < n - 1 {
        lemma_wf_elems(s, n - 1, i);
    }
}

proof fn lemma_wf_values(es: Seq<(Seq<char>, JVal)>, n: int, i: int)
    requires
        wf_values(es, n),
        0 <= i < n <= es.len(),
    ensures
        wf(es[i].1),
    decreases n,
{
    if i < n - 1 {
        lemma_wf_values(es, n - 1, i);
    }
}

/// The value stored under `k`, if any.
pub open spec fn obj_get(es: Seq<(Seq<char>, JVal)>, k: Seq<char>) -> Option<JVal>
    decreases es.len(),
{
    if es.len() == 0 {
        None
    } else if es[0].0 == k {
        Some(es[0].1)
    } else {
        obj_get(es.drop_first(), k)
    }
}

pub proof fn lemma_obj_get_skip(es: Seq<(Seq<char>, JVal)>, k: Seq<char>, i: int)
    requires
        0 <= i <= es.len(),
        forall|j: int| 0 <= j < i ==> (#[trigger] es[j]).0 != k,
    ensures
        obj_get(es, k) == obj_get(es.subrange(i, es.len() as int), k),
    decreases i,
{
    if i > 0 {
        assert(es[0].0 != k);
        let t = es.drop_first();
        assert forall|j: int| 0 <= j < i - 1 implies (#[trigger] t[j]).0 != k by {
            assert(t[j] == es[j + 1]);
        }
        lemma_obj_get_skip(t, k, i - 1);
        assert(t.subrange(i - 1, t.len() as int) =~= es.subrange(i, es.len() as int));
    } else {
        assert(es.subrange(0, es.len() as int) =~= es);
    }
}

pub proof fn lemma_obj_get_none(es: Seq<(Seq<char>, JVal)>, k: Seq<char>)
    requires
        forall|j: int| 0 <= j < es.len() ==> (#[trigger] es[j]).0 != k,
    ensures
        obj_get(es, k) is None,
{
    lemma_obj_get_skip(es, k, es.len() as int);
}

pub proof fn lemma_obj_get_found(es: Seq<(Seq<char>, JVal)>, k: Seq<char>, i: int)
    requires
        0 <= i < es.len(),
        es[i].0 == k,
        forall|j: int| 0 <= j < i ==> (#[trigger] es[j]).0 != k,
    ensures
        obj_get(es, k) == Some(es[i].1),
{
    lemma_obj_get_skip(es, k, i);
    assert(es.subrange(i, es.len() as int)[0] == es[i]);
}

/// Whether `s` is the decimal text of an index, as `str::parse::<usize>`
/// accepts it: an optional `+`, then one or more ASCII digits.
pub open spec fn is_digit(c: char) -> bool {
    '0' <= c && c <= '9'
}

pub open spec fn digits_value(s: Seq<char>) -> int
    decreases s.len(),
{
    if s.len() == 0 {
        0
    } else {
        digits_value(s.drop_last()) * 10 + (s.last() as int - '0' as int)
    }
}

pub open spec fn index_digits(s: Seq<char>) -> Seq<char> {
    if s.len() > 0 && s[0] == '+' {
        s.drop_first()
    } else {
        s
    }
}

/// The index that `s` denotes, if it is one that fits in `usize`.
pub open spec fn parse_index(s: Seq<char>) -> Option<int> {
    let d = index_digits(s);
    if d.len() > 0 && (forall|i: int| 0 <= i < d.len() ==> is_digit(#[trigger] d[i]))
        && digits_value(d) <= usize::MAX {
        Some(digits_value(d))
    } else {
        None
    }
}

proof fn lemma_digits_value_nonneg(s: Seq<char>)
    requires
        forall|i: int| 0 <= i < s.len() ==> is_digit(#[trigger] s[i]),
    ensures
        digits_value(s) >= 0,
    decreases s.len(),
{
    if s.len() > 0 {
        lemma_digits_value_nonneg(s.drop_last());
        assert(is_digit(s[s.len() - 1]));
    }
}

proof fn lemma_digits_value_mono(s: Seq<char>, k: int)
    requires
        0 <= k <= s.len(),
        forall|i: int| 0 <= i < s.len() ==> is_digit(#[trigger] s[i]),
    ensures
        digits_value(s.subrange(0, k)) <= digits_value(s),
    decreases s.len() - k,
{
    if k < s.len() {
        lemma_digits_value_mono(s, k + 1);
        let t = s.subrange(0, k + 1);
        assert(t.drop_last() =~= s.subrange(0, k));
        assert(is_digit(s[k]));
        assert forall|i: int| 0 <= i < t.drop_last().len() implies is_digit(#[trigger] t.drop_last()[i]) by {
            assert(t.drop_last()[i] == s[i]);
        }
        lemma_digits_value_nonneg(t.drop_last());
    } else {
        assert(s.subrange(0, k) =~= s);
    }
}

/// Reads a segment as an array index.
pub fn index_of_segment(s: &[char]) -> (r: Option<usize>)
    ensures
        match r {
            Some(n) => parse_index(s@) == Some(n as int),
            None => parse_index(s@) is None,
        },
{
    let start: usize = if s.len() > 0 && s[0] == '+' { 1 } else { 0 };
    let ghost d = index_digits(s@);
    proof {
        assert(d =~= s@.subrange(start as int, s@.len() as int));
    }
    if start == s.len() {
        return None;
    }
    let mut k: usize = start;
    let mut acc: usize = 0;
    while k < s.len()
        invariant
            start <= k <= s@.len(),
            d == index_digits(s@),
            d =~= s@.subrange(start as int, s@.len() as int),
            forall|i: int| 0 <= i < k - start ==> is_digit(#[trigger] d[i]),
            acc as int == digits_value(d.subrange(0, k - start)),
        decreases s@.len() - k,
    {
        let c = s[k];
        if !('0' <= c && c <= '9') {
            proof {
                assert(d[k - start] == c);
                assert(!is_digit(d[k - start]));
                assert(!(forall|i: int| 0 <= i < d.len() ==> is_digit(#[trigger] d[i])));
            }
            return None;
        }
        let dig: usize = (c as u32 - '0' as u32) as usize;
        let ghost t = d.subrange(0, k - start + 1);
        proof {
            assert(t.drop_last() =~= d.subrange(0, k - start));
            assert(t.last() == c);
            assert(d[k - start] == c);
            assert(digits_value(t) == acc * 10 + dig);
        }
        if acc > (usize::MAX - dig) / 10 {
            proof {
                let tv = digits_value(t);
                let a = acc as int;
                let dd = dig as int;
                assert(tv > usize::MAX) by (nonlinear_arith)
                    requires
                        tv == a * 10 + dd,
                        a > (usize::MAX - dd) / 10,
                        0 <= dd <= 9,
                ;
                if forall|i: int| 0 <= i < d.len() ==> is_digit(#[trigger] d[i]) {
                    lemma_digits_value_mono(d, k - start + 1);
                }
            }
            return None;
        }
        proof {
            let a = acc as int;
            let dd = dig as int;
            assert(a * 10 + dd <= usize::MAX) by (nonlinear_arith)
                requires
                    a <= (usize::MAX - dd) / 10,
                    0 <= dd <= 9,
            ;
        }
        acc = acc * 10 + dig;
        k = k + 1;
    }
    proof {
        assert(d.subrange(0, d.len() as int) =~= d);
    }
    Some(acc)
}

/// One step of the path walk: a key of an object, or an index of an array.
pub open spec fn step(v: JVal, seg: Seq<char>) -> Option<JVal> {
    match v {
        JVal::Obj(es) => obj_get(es, seg),
        JVal::Arr(a) => match parse_index(seg) {
            Some(i) => if i < a.len() { Some(a[i]) } else { None },
            None => None,
        },
        _ => None,
    }
}

/// Walks `segs` from `v`; empty segments do not descend.
pub open spec fn walk(v: JVal, segs: Seq<Seq<char>>) -> Option<JVal>
    decreases segs.len(),
{
    if segs.len() == 0 {
        Some(v)
    } else {
        let r = if segs[0].len() == 0 { Some(v) } else { step(v, segs[0]) };
        match r {
            Some(c) => walk(c, segs.drop_first()),
            None => None,
        }
    }
}

/// The node that a dot-separated path reaches from `v`.
pub open spec fn resolve(v: JVal, path: Seq<char>) -> Option<JVal> {
    walk(v, split_on(path, '.'))
}

/// The view of object entries.
pub open spec fn entries_view(es: Seq<(String, Json)>) -> Seq<(Seq<char>, JVal)> {
    Seq::new(es.len(), |i: int| (es[i].0@, jv(es[i].1)))
}

pub proof fn lemma_obj_view(v: Vec<(String, Json)>)
    ensures
        jv(Json::Obj(v)) == JVal::Obj(entries_view(v@)),
{
    assert(jv(Json::Obj(v))->Obj_0 =~= entries_view(v@));
}

pub proof fn lemma_arr_view(v: Vec<Json>)
    ensures
        jv(Json::Arr(v)) == JVal::Arr(v@.map_values(|x: Json| jv(x))),
{
    assert(jv(Json::Arr(v))->Arr_0 =~= v@.map_values(|x: Json| jv(x)));
}

pub open spec fn opt_view(r: Option<&Json>) -> Option<JVal> {
    match r {
        Some(x) => Some(x@),
        None => None,
    }
}

/// The value under `key` in object entries.
pub fn entries_get<'a>(es: &'a Vec<(String, Json)>, key: &String) -> (r: Option<&'a Json>)
    ensures
        opt_view(r) == obj_get(entries_view(es@), key@),
        r matches Some(x) ==> exists|i: int| 0 <= i < es@.len() && es@[i].1 == *x,
{
    let ghost ev = entries_view(es@);
    let mut i: usize = 0;
    while i < es.len()
        invariant
            0 <= i <= es@.len(),
            ev == entries_view(es@),
            ev.len() == es@.len(),
            forall|j: int| 0 <= j < es@.len() ==> #[trigger] ev[j] == (es@[j].0@, es@[j].1@),
            forall|j: int| 0 <= j < i ==> (#[trigger] ev[j]).0 != key@,
        decreases es@.len() - i,
    {
        if es[i].0 == *key {
            proof {
                lemma_obj_get_found(ev, key@, i as int);
            }
            return Some(&es[i].1);
        }
        i = i + 1;
    }
    proof {
        lemma_obj_get_none(ev, key@);
    }
    None
}

/// One step of the path walk.
pub fn step_into<'a>(v: &'a Json, seg: &Vec<char>) -> (r: Option<&'a Json>)
    ensures
        opt_view(r) == step(v@, seg@),
{
    match v {
        Json::Obj(es) => {
            let key = string_of(seg.as_slice());
            let r = entries_get(es, &key);
            proof {
                lemma_obj_view(*es);
            }
            r
        },
        Json::Arr(a) => {
            match index_of_segment(seg.as_slice()) {
                Some(n) => {
                    proof {
                        lemma_arr_view(*a);
                    }
                    if n < a.len() {
                        Some(&a[n])
                    } else {
                        None
                    }
                },
                None => None,
            }
        },
        _ => None,
    }
}

/// Resolves a dot-separated path: object keys, array indices, empty
/// segments skipped.
pub fn resolve_path<'a>(v: &'a Json, path: &str) -> (r: Option<&'a Json>)
    ensures
        opt_view(r) == resolve(v@, path@),
{
    let pv = chars_of(path);
    let segs = split_chars(pv.as_slice(), '.');
    let mut cur: &'a Json = v;
    let mut i: usize = 0;
    proof {
        assert(seqs_view(segs@).subrange(0, segs@.len() as int) =~= seqs_view(segs@));
    }
    while i < segs.len()
        invariant
            0 <= i <= segs@.len(),
            seqs_view(segs@) == split_on(path@, '.'),
            walk(v@, seqs_view(segs@)) == walk(cur@, seqs_view(segs@).subrange(i as int, segs@.len() as int)),
        decreases segs@.len() - i,
    {
        let ghost rest = seqs_view(segs@).subrange(i as int, segs@.len() as int);
        proof {
            assert(rest[0] == segs@[i as int]@);
            assert(rest.drop_first() =~= seqs_view(segs@).subrange(i + 1, segs@.len() as int));
        }
        if segs[i].len() > 0 {
            match step_into(cur, &segs[i]) {
                Some(c) => {
                    cur = c;
                },
                None => {
                    return None;
                },
            }
        }
        i = i + 1;
    }
    Some(cur)
}

/// Looks up a dot-separated path, each non-empty segment a key of an
/// object or an index of an array; empty segments do not descend.
pub fn get_by_json_path<'a>(json: &'a Json, path: &str) -> (r: Option<&'a Json>)
    ensures
        opt_view(r) == resolve(json@, path@),
{
    resolve_path(json, path)
}

/// Deep equality of two values, by their views.
pub fn json_equal(a: &Json, b: &Json) -> (r: bool)
    ensures
        r == (a@ == b@),
    decreases a,
{
    match (a, b) {
        (Json::Null, Json::Null) => true,
        (Json::Bool(x), Json::Bool(y)) => *x == *y,
        (Json::PosInt(x), Json::PosInt(y)) => *x == *y,
        (Json::NegInt(x), Json::NegInt(y)) => *x == *y,
        (Json::PosInt(x), Json::NegInt(y)) => (*x as i128) == (*y as i128),
        (Json::NegInt(x), Json::PosInt(y)) => (*x as i128) == (*y as i128),
        (Json::Float(x), Json::Float(y)) => *x == *y,
        (Json::Str(x), Json::Str(y)) => *x == *y,
        (Json::Arr(x), Json::Arr(y)) => {
            proof {
                lemma_arr_view(*x);
                lemma_arr_view(*y);
            }
            if x.len() != y.len() {
                proof {
                    assert(a@->Arr_0.len() != b@->Arr_0.len());
                }
                return false;
            }
            let mut i: usize = 0;
            while i < x.len()
                invariant
                    x@.len() == y@.len(),
                    0 <= i <= x@.len(),
                    forall|j: int| 0 <= j < i ==> (#[trigger] x@[j])@ == y@[j]@,
                    a@ == JVal::Arr(x@.map_values(|v: Json| jv(v))),
                    b@ == JVal::Arr(y@.map_values(|v: Json| jv(v))),
                    decreases_to!(*a => *x),
                decreases x@.len() - i,
            {
                proof {
                    assert(decreases_to!(*x => x@[i as int]));
                }
                if !json_equal(&x[i], &y[i]) {
                    proof {
                        assert(a@->Arr_0[i as int] != b@->Arr_0[i as int]);
                    }
                    return false;
                }
                i = i + 1;
            }
            proof {
                assert(a@->Arr_0 =~= b@->Arr_0);
            }
            true
        },
        (Json::Obj(x), Json::Obj(y)) => {
            proof {
                lemma_obj_view(*x);
                lemma_obj_view(*y);
            }
            if x.len() != y.len() {
                proof {
                    assert(a@->Obj_0.len() != b@->Obj_0.len());
                }
                return false;
            }
            let mut i: usize = 0;
            while i < x.len()
                invariant
                    x@.len() == y@.len(),
                    0 <= i <= x@.len(),
                    forall|j: int| 0 <= j < i ==> (#[trigger] entries_view(x@)[j]) == entries_view(y@)[j],
                    a@ == JVal::Obj(entries_view(x@)),
                    b@ == JVal::Obj(entries_view(y@)),
                    decreases_to!(*a => *x),
                decreases x@.len() - i,
            {
                proof {
                    assert(decreases_to!(*x => x@[i as int]));
                    assert(decreases_to!(x@[i as int] => x@[i as int].1));
                }
                if x[i].0 != y[i].0 || !json_equal(&x[i].1, &y[i].1) {
                    proof {
                        assert(a@->Obj_0[i as int] != b@->Obj_0[i as int]);
                    }
                    return false;
                }
                i = i + 1;
            }
            proof {
                assert(a@->Obj_0 =~= b@->Obj_0);
            }
            true
        },
        _ => false,
    }
}

/// A copy of a value with the same view.
pub fn copy_json(a: &Json) -> (r: Json)
    ensures
        r@ == a@,
    decreases a,
{
    match a {
        Json::Null => Json::Null,
        Json::Bool(x) => Json::Bool(*x),
        Json::PosInt(x) => Json::PosInt(*x),
        Json::NegInt(x) => Json::NegInt(*x),
        Json::Float(x) => Json::Float(x.clone()),
        Json::Str(x) => Json::Str(x.clone()),
        Json::Arr(x) => {
            let mut out: Vec<Json> = Vec::new();
            let mut i: usize = 0;
            while i < x.len()
                invariant
                    0 <= i <= x@.len(),
                    out@.len() == i,
                    forall|j: int| 0 <= j < i ==> (#[trigger] out@[j])@ == x@[j]@,
                    decreases_to!(*a => *x),
                decreases x@.len() - i,
            {
                proof {
                    assert(decreases_to!(*x => x@[i as int]));
                }
                out.push(copy_json(&x[i]));
                i = i + 1;
            }
            proof {
                lemma_arr_view(*x);
                lemma_arr_view(out);
                assert(out@.map_values(|v: Json| jv(v)) =~= x@.map_values(|v: Json| jv(v)));
            }
            Json::Arr(out)
        },
        Json::Obj(x) => {
            let mut out: Vec<(String, Json)> = Vec::new();
            let mut i: usize = 0;
            while i < x.len()
                invariant
                    0 <= i <= x@.len(),
                    out@.len() == i,
                    forall|j: int| 0 <= j < i ==> (#[trigger] out@[j]).0@ == x@[j].0@ && out@[j].1@ == x@[j].1@,
                    decreases_to!(*a => *x),
                decreases x@.len() - i,
            {
                proof {
                    assert(decreases_to!(*x => x@[i as int]));
                    assert(decreases_to!(x@[i as int] => x@[i as int].1));
                }
                let v = copy_json(&x[i].1);
                out.push((x[i].0.clone(), v));
                i = i + 1;
            }
            proof {
                lemma_obj_view(*x);
                lemma_obj_view(out);
                assert(entries_view(out@) =~= entries_view(x@));
            }
            Json::Obj(out)
        },
    }
}

impl Clone for Json {
    fn clone(&self) -> (r: Json)
        ensures
            r@ == self@,
    {
        copy_json(self)
    }
}

impl PartialEq for Json {
    fn eq(&self, other: &Json) -> (r: bool)
        ensures
            r == (self@ == other@),
    {
        json_equal(self, other)
    }
}

impl vstd::std_specs::cmp::PartialEqSpecImpl for Json {
    open spec fn obeys_eq_spec() -> bool {
        true
    }

    open spec fn eq_spec(&self, other: &Json) -> bool {
        self@ == other@
    }
}

#[via_fn]
proof fn jv_decreases(j: Json) {
    match j {
        Json::Arr(v) => {
            assert forall|i: int| 0 <= i < v@.len() implies decreases_to!(j => v@[i]) by {
                assert(decreases_to!(v => v[i]));
            }
        },
        Json::Obj(v) => {
            assert forall|i: int| 0 <= i < v@.len() implies decreases_to!(j => v@[i].1) by {
                assert(decreases_to!(v => v[i]));
            }
        },
        _ => {},
    }
}

} // verus!
