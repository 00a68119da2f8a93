//! Building the request a step sends: URL resolution, headers, query, body.
use vstd::prelude::*;
use crate::context::Vars;
use crate::jsontext::{json_render, render_json};
use crate::model::{HttpMethod, HttpRequest, RequestInfo, TestConfig};
use crate::placeholder::{expand, expand_variables};
use crate::text::{chars_of, contains, push_str, string_of, text_contains};
use crate::validator::{pair_get, pairs_get, pairs_view};

verus! {

/// The text of a URL as `url::Url::parse` reads it and writes it back, if
/// it is a URL.
pub uninterp spec fn url_parsed(base: Seq<char>) -> Option<Seq<char>>;

/// The text of `rel` resolved against the URL `base`, as `url::Url::join`
/// gives it, if it resolves.
pub uninterp spec fn url_joined(base: Seq<char>, rel: Seq<char>) -> Option<Seq<char>>;

/// Relies on `url::Url::parse` and its `Display`.
#[verifier::external_body]
fn parse_url_text(base: &str) -> (r: Option<String>)
    ensures
        crate::sse::opt_text(r) == url_parsed(base@),
{
    url::Url::parse(base).ok().map(|u| u.to_string())
}

/// Relies on `url::Url::parse`, `Url::join` and `Display`.
#[verifier::external_body]
fn join_url_text(base: &str, rel: &str) -> (r: Option<String>)
    ensures
        crate::sse::opt_text(r) == url_joined(base@, rel@),
{
    url::Url::parse(base).ok().and_then(|u| u.join(rel).ok()).map(|u| u.to_string())
}

/// `s` without its leading slashes.
pub open spec fn strip_slashes(s: Seq<char>) -> Seq<char>
    decreases s.len(),
{
    if s.len() > 0 && s[0] == '/' {
        strip_slashes(s.drop_first())
    } else {
        s
    }
}

fn strip_leading_slashes(s: &[char]) -> (r: Vec<char>)
    ensures
        r@ == strip_slashes(s@),
{
    let mut i: usize = 0;
    proof {
        assert(s@.subrange(0, s@.len() as int) =~= s@);
    }
    while i < s.len() && s[i] == '/'
        invariant
            0 <= i <= s@.len(),
            strip_slashes(s@) == strip_slashes(s@.subrange(i as int, s@.len() as int)),
        decreases s@.len() - i,
    {
        proof {
            let t = s@.subrange(i as int, s@.len() as int);
            assert(t.drop_first() =~= s@.subrange(i + 1, s@.len() as int));
        }
        i = i + 1;
    }
    let mut out: Vec<char> = Vec::new();
    let mut k: usize = i;
    while k < s.len()
        invariant
            i <= k <= s@.len(),
            out@ == s@.subrange(i as int, k as int),
        decreases s@.len() - k,
    {
        out.push(s[k]);
        k = k + 1;
        proof {
            assert(out@ =~= s@.subrange(i as int, k as int));
        }
    }
    out
}

pub open spec fn msg_bad_base(base: Seq<char>) -> Seq<char> {
    "Invalid base_url provided in scenario config: "@ + base
}

pub open spec fn msg_bad_join(base: Seq<char>, url: Seq<char>) -> Seq<char> {
    "Failed to join base_url '"@ + base + "' with path '"@ + url + "'"@
}

/// The final URL: an absolute one (holding `://`) as it is; else joined to
/// the base URL without its leading slashes; with no base URL, as it is.
pub open spec fn final_url(url: Seq<char>, base: Option<Seq<char>>) -> Result<Seq<char>, Seq<char>> {
    if contains(url, "://"@) {
        Ok(url)
    } else {
        match base {
            None => Ok(url),
            Some(b) => match url_parsed(b) {
                None => Err(msg_bad_base(b)),
                Some(p) => if url.len() == 0 {
                    Ok(p)
                } else {
                    match url_joined(b, strip_slashes(url)) {
                        Some(j) => Ok(j),
                        None => Err(msg_bad_join(b, url)),
                    }
                },
            },
        }
    }
}

pub open spec fn text_result(r: Result<String, String>) -> Result<Seq<char>, Seq<char>> {
    match r {
        Ok(s) => Ok(s@),
        Err(e) => Err(e@),
    }
}

/// Resolves a (placeholder-expanded) request URL against the base URL.
pub fn resolve_url(url: &str, base: &Option<String>) -> (r: Result<String, String>)
    ensures
        text_result(r) == final_url(url@, crate::sse::opt_text(*base)),
{
    if text_contains(url, "://") {
        return Ok(String::from_str(url));
    }
    match base {
        None => Ok(String::from_str(url)),
        Some(b) => {
            let parsed = parse_url_text(b.as_str());
            if parsed.is_none() {
                let mut out: Vec<char> = Vec::new();
                push_str(&mut out, "Invalid base_url provided in scenario config: ");
                push_str(&mut out, b.as_str());
                proof {
                    assert(out@ =~= msg_bad_base(b@));
                }
                return Err(string_of(out.as_slice()));
            }
            let uv = chars_of(url);
            if uv.len() == 0 {
                return Ok(parsed.unwrap());
            }
            let rel = strip_leading_slashes(uv.as_slice());
            let rels = string_of(rel.as_slice());
            match join_url_text(b.as_str(), rels.as_str()) {
                Some(j) => Ok(j),
                None => {
                    let mut out: Vec<char> = Vec::new();
                    push_str(&mut out, "Failed to join base_url '");
                    push_str(&mut out, b.as_str());
                    push_str(&mut out, "' with path '");
                    push_str(&mut out, url);
                    push_str(&mut out, "'");
                    proof {
                        assert(out@ =~= msg_bad_join(b@, url@));
                    }
                    Err(string_of(out.as_slice()))
                },
            }
        },
    }
}

/// Request headers, then each default header whose name they lack.
pub open spec fn merged_headers(req: Seq<(Seq<char>, Seq<char>)>, defaults: Seq<(Seq<char>, Seq<char>)>) -> Seq<(Seq<char>, Seq<char>)>
    decreases defaults.len(),
{
    if defaults.len() == 0 {
        req
    } else {
        let acc = merged_headers(req, defaults.drop_last());
        if pair_get(acc, defaults.last().0) is Some {
            acc
        } else {
            acc.push(defaults.last())
        }
    }
}

/// Pairs with their values expanded.
pub open spec fn expand_values(ps: Seq<(Seq<char>, Seq<char>)>, ctx: Map<Seq<char>, crate::json::JVal>) -> Seq<(Seq<char>, Seq<char>)> {
    ps.map_values(|p: (Seq<char>, Seq<char>)| (p.0, expand(p.1, ctx)))
}

/// Default headers merged under the given ones (the given ones win).
pub fn merge_headers(req: &Vec<(String, String)>, defaults: &Vec<(String, String)>) -> (r: Vec<(String, String)>)
    ensures
        pairs_view(r@) == merged_headers(pairs_view(req@), pairs_view(defaults@)),
{
    let mut out: Vec<(String, String)> = Vec::new();
    let mut i: usize = 0;
    while i < req.len()
        invariant
            0 <= i <= req@.len(),
            pairs_view(out@) == pairs_view(req@).subrange(0, i as int),
        decreases req@.len() - i,
    {
        let ghost before = pairs_view(out@);
        out.push((req[i].0.clone(), req[i].1.clone()));
        proof {
            assert(pairs_view(out@) =~= before.push(pairs_view(req@)[i as int]));
        }
        i = i + 1;
        proof {
            assert(pairs_view(out@) =~= pairs_view(req@).subrange(0, i as int));
        }
    }
    let ghost dv = pairs_view(defaults@);
    let mut j: usize = 0;
    proof {
        assert(pairs_view(req@).subrange(0, req@.len() as int) =~= pairs_view(req@));
        assert(dv.subrange(0, 0) =~= Seq::<(Seq<char>, Seq<char>)>::empty());
    }
    while j < defaults.len()
        invariant
            0 <= j <= defaults@.len(),
            dv == pairs_view(defaults@),
            pairs_view(out@) == merged_headers(pairs_view(req@), dv.subrange(0, j as int)),
        decreases defaults@.len() - j,
    {
        proof {
            let ds = dv.subrange(0, j + 1);
            assert(ds.drop_last() =~= dv.subrange(0, j as int));
            assert(ds.last() == dv[j as int]);
        }
        let ghost before = pairs_view(out@);
        if pairs_get(&out, &defaults[j].0).is_none() {
            out.push((defaults[j].0.clone(), defaults[j].1.clone()));
            proof {
                assert(pairs_view(out@) =~= before.push(dv[j as int]));
            }
        }
        j = j + 1;
    }
    proof {
        assert(dv.subrange(0, dv.len() as int) =~= dv);
    }
    out
}

fn expand_pairs(ps: &Vec<(String, String)>, vars: &Vars) -> (r: Vec<(String, String)>)
    ensures
        pairs_view(r@) == expand_values(pairs_view(ps@), vars@),
{
    let mut out: Vec<(String, String)> = Vec::new();
    let mut i: usize = 0;
    while i < ps.len()
        invariant
            0 <= i <= ps@.len(),
            pairs_view(out@) == expand_values(pairs_view(ps@), vars@).subrange(0, i as int),
        decreases ps@.len() - i,
    {
        let v = expand_variables(ps[i].1.as_str(), vars);
        let ghost before = pairs_view(out@);
        out.push((ps[i].0.clone(), v));
        proof {
            assert(pairs_view(out@) =~= before.push(expand_values(pairs_view(ps@), vars@)[i as int]));
        }
        i = i + 1;
        proof {
            assert(pairs_view(out@) =~= expand_values(pairs_view(ps@), vars@).subrange(0, i as int));
        }
    }
    proof {
        assert(expand_values(pairs_view(ps@), vars@).subrange(0, ps@.len() as int) =~= expand_values(pairs_view(ps@), vars@));
    }
    out
}

/// A request ready to send.
#[derive(Debug, Clone)]
pub struct PreparedRequest {
    pub method: HttpMethod,
    pub url: String,
    pub headers: Vec<(String, String)>,
    pub query: Vec<(String, String)>,
    /// The body text, sent as JSON.
    pub body: Option<String>,
    /// Timeout in seconds.
    pub timeout_secs: u64,
}

impl PreparedRequest {
    /// What the step result records of the request.
    pub fn info(&self) -> (r: RequestInfo)
        ensures
            r.method@ == self.method.spec_name(),
            r.url@ == self.url@,
            pairs_view(r.headers@) == pairs_view(self.headers@),
            crate::sse::opt_text(r.body) == crate::sse::opt_text(self.body),
    {
        let mut headers: Vec<(String, String)> = Vec::new();
        let mut i: usize = 0;
        while i < self.headers.len()
            invariant
                0 <= i <= self.headers@.len(),
                pairs_view(headers@) == pairs_view(self.headers@).subrange(0, i as int),
            decreases self.headers@.len() - i,
        {
            let ghost before = pairs_view(headers@);
            headers.push((self.headers[i].0.clone(), self.headers[i].1.clone()));
            proof {
                assert(pairs_view(headers@) =~= before.push(pairs_view(self.headers@)[i as int]));
            }
            i = i + 1;
            proof {
                assert(pairs_view(headers@) =~= pairs_view(self.headers@).subrange(0, i as int));
            }
        }
        proof {
            assert(pairs_view(self.headers@).subrange(0, self.headers@.len() as int) =~= pairs_view(self.headers@));
        }
        let body = match &self.body {
            Some(b) => Some(b.clone()),
            None => None,
        };
        RequestInfo { method: self.method.name(), url: self.url.clone(), headers, body }
    }
}

/// Expands the request's placeholders, resolves its URL and merges the
/// default headers (the request's own win). Fails only where the base URL
/// does not parse or does not join.
pub fn prepare_request(request: &HttpRequest, vars: &Vars, config: &TestConfig) -> (r: Result<PreparedRequest, String>)
    ensures
        ({
            let u = final_url(expand(request.url@, vars@), crate::sse::opt_text(config.base_url));
            match r {
                Ok(p) => u == Ok::<Seq<char>, Seq<char>>(p.url@)
                    && p.method == request.method
                    && pairs_view(p.headers@) == expand_values(merged_headers(pairs_view(request.headers@), pairs_view(config.headers@)), vars@)
                    && pairs_view(p.query@) == expand_values(pairs_view(request.query@), vars@)
                    && crate::sse::opt_text(p.body) == match request.body {
                        Some(b) => Some(expand(json_render(b@), vars@)),
                        None => None,
                    }
                    && p.timeout_secs == config.timeout,
                Err(e) => u == Err::<Seq<char>, Seq<char>>(e@),
            }
        }),
{
    let url0 = expand_variables(request.url.as_str(), vars);
    let url = resolve_url(url0.as_str(), &config.base_url)?;
    let merged = merge_headers(&request.headers, &config.headers);
    let headers = expand_pairs(&merged, vars);
    let query = expand_pairs(&request.query, vars);
    let body = match &request.body {
        Some(b) => {
            let text = render_json(b);
            Some(expand_variables(text.as_str(), vars))
        },
        None => None,
    };
    Ok(PreparedRequest { method: request.method, url, headers, query, body, timeout_secs: config.timeout })
}

} // verus!
