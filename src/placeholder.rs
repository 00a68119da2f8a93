//! `{{ name }}` placeholders: finding them and filling them from a context.
use vstd::prelude::*;
use crate::context::Vars;
use crate::json::{Json, JVal};
use crate::jsontext::{json_render, render_json};
use crate::text::{contains, push_str, string_of};

verus! {

/// How the placeholder pattern `\{\{\s*(?:vars\.)?(.+?)\s*\}\}` cuts a text:
/// for each match in order, the literal text before it, the whole match and
/// the captured name; then the text after the last match.
pub uninterp spec fn placeholder_split(s: Seq<char>) -> (Seq<(Seq<char>, Seq<char>, Seq<char>)>, Seq<char>);

/// The literal pieces and matches put back together.
pub open spec fn rejoin(ms: Seq<(Seq<char>, Seq<char>, Seq<char>)>) -> Seq<char>
    decreases ms.len(),
{
    if ms.len() == 0 {
        Seq::empty()
    } else {
        rejoin(ms.drop_last()) + ms.last().0 + ms.last().1
    }
}

/// Relies on `regex::Regex::captures_iter` with the placeholder pattern: the
/// matches are consecutive and non-overlapping, so the pieces rebuild the
/// text, and every match begins with `{{`.
#[verifier::external_body]
fn split_placeholders(s: &str) -> (r: (Vec<(String, String, String)>, String))
    ensures
        (r.0@.map_values(|t: (String, String, String)| (t.0@, t.1@, t.2@)), r.1@) == placeholder_split(s@),
        rejoin(r.0@.map_values(|t: (String, String, String)| (t.0@, t.1@, t.2@))) + r.1@ == s@,
        !contains(s@, "{{"@) ==> r.0@.len() == 0,
{
    let re = regex::Regex::new(r"\{\{\s*(?:vars\.)?(.+?)\s*\}\}").unwrap();
    let mut last: usize = 0;
    let mut out = Vec::new();
    for c in re.captures_iter(s) {
        let m = c.get(0).unwrap();
        out.push((s[last..m.start()].to_string(), m.as_str().to_string(), c[1].to_string()));
        last = m.end();
    }
    (out, s[last..].to_string())
}

/// What a placeholder becomes: a bound string as it is, another bound value
/// as its compact JSON text, and an unbound name left as written.
pub open spec fn substitute(whole: Seq<char>, key: Seq<char>, ctx: Map<Seq<char>, JVal>) -> Seq<char> {
    if ctx.contains_key(key) {
        match ctx[key] {
            JVal::Str(t) => t,
            v => json_render(v),
        }
    } else {
        whole
    }
}

pub open spec fn fill(ms: Seq<(Seq<char>, Seq<char>, Seq<char>)>, ctx: Map<Seq<char>, JVal>) -> Seq<char>
    decreases ms.len(),
{
    if ms.len() == 0 {
        Seq::empty()
    } else {
        fill(ms.drop_last(), ctx) + ms.last().0 + substitute(ms.last().1, ms.last().2, ctx)
    }
}

/// The text with every placeholder filled from the context.
pub open spec fn expand(s: Seq<char>, ctx: Map<Seq<char>, JVal>) -> Seq<char> {
    fill(placeholder_split(s).0, ctx) + placeholder_split(s).1
}

/// Fills the `{{ name }}` and `{{ vars.name }}` placeholders of `text` from
/// the context. A text in which the pattern finds no placeholder (one
/// without `{{`, say) comes back unchanged, so expanding it again changes
/// nothing.
pub fn expand_variables(text: &str, ctx: &Vars) -> (r: String)
    ensures
        r@ == expand(text@, ctx@),
        placeholder_split(text@).0.len() == 0 ==> r@ == text@,
        !contains(text@, "{{"@) ==> r@ == text@,
{
    let (ms, tail) = split_placeholders(text);
    let ghost mv = ms@.map_values(|t: (String, String, String)| (t.0@, t.1@, t.2@));
    let mut out: Vec<char> = Vec::new();
    let mut i: usize = 0;
    proof {
        assert(mv.subrange(0, 0) =~= Seq::<(Seq<char>, Seq<char>, Seq<char>)>::empty());
    }
    while i < ms.len()
        invariant
            0 <= i <= ms@.len(),
            mv == ms@.map_values(|t: (String, String, String)| (t.0@, t.1@, t.2@)),
            out@ == fill(mv.subrange(0, i as int), ctx@),
        decreases ms@.len() - i,
    {
        let (lit, whole, key) = (&ms[i].0, &ms[i].1, &ms[i].2);
        proof {
            let ps = mv.subrange(0, i + 1);
            assert(ps.drop_last() =~= mv.subrange(0, i as int));
            assert(ps.last() == (lit@, whole@, key@));
        }
        push_str(&mut out, lit.as_str());
        match ctx.get(key) {
            Some(Json::Str(t)) => push_str(&mut out, t.as_str()),
            Some(v) => {
                let t = render_json(v);
                push_str(&mut out, t.as_str());
            },
            None => push_str(&mut out, whole.as_str()),
        }
        proof {
            assert(out@ =~= fill(mv.subrange(0, i + 1), ctx@));
        }
        i = i + 1;
    }
    push_str(&mut out, tail.as_str());
    proof {
        assert(mv.subrange(0, mv.len() as int) =~= mv);
        if mv.len() == 0 {
            assert(fill(mv, ctx@) =~= Seq::<char>::empty());
            assert(rejoin(mv) =~= Seq::<char>::empty());
            assert(out@ =~= text@);
        }
    }
    string_of(out.as_slice())
}

} // verus!
