//! Markdown scenario documents: front matter and ```` ```yaml scenario ````
//! blocks, and how a block's config merges into the scenario's.
use vstd::prelude::*;
use crate::model::TestConfig;
use crate::sse::lines_of;
use crate::text::{chars_of, dec, has_prefix, lower_ascii, push_all, push_dec, seqs_view, string_of, trimmed};
use crate::validator::{pairs_view};

verus! {

/// Lines joined with `\n`.
pub open spec fn join_nl(parts: Seq<Seq<char>>) -> Seq<char> {
    crate::sse::join_lines(parts)
}

/// The front matter: the first line must be `---` (surrounding whitespace
/// aside); the text up to the next such line, and the 1-based number of the
/// line after it.
pub open spec fn front_matter(input: Seq<char>) -> Result<(Seq<char>, nat), Seq<char>> {
    let ls = lines_of(input);
    if ls.len() == 0 || trimmed(ls[0]) != "---"@ {
        Err("Markdown front matter must start with '---'"@)
    } else if exists|k: int| 1 <= k < ls.len() && trimmed(ls[k]) == "---"@ {
        let k = choose|k: int| 1 <= k < ls.len() && trimmed(ls[k]) == "---"@ && forall|j: int| 1 <= j < k ==> trimmed(#[trigger] ls[j]) != "---"@;
        Ok((join_nl(ls.subrange(1, k)), if k + 2 > usize::MAX { usize::MAX as nat } else { (k + 2) as nat }))
    } else {
        Err("Closing '---' for front matter not found"@)
    }
}

fn lines_vec(input: &str) -> (r: Vec<Vec<char>>)
    ensures
        seqs_view(r@) == lines_of(input@),
{
    let body = String::from_str(input);
    crate::sse::text_lines(body.as_str())
}

fn is_dashes(line: &Vec<char>) -> (r: bool)
    ensures
        r == (trimmed(line@) == "---"@),
{
    let t = crate::text::trim_chars(line.as_slice());
    let d = chars_of("---");
    crate::text::chars_equal(t.as_slice(), d.as_slice())
}

fn join_range(ls: &Vec<Vec<char>>, a: usize, b: usize) -> (r: String)
    requires
        a <= b <= ls@.len(),
    ensures
        r@ == join_nl(seqs_view(ls@).subrange(a as int, b as int)),
{
    let mut parts: Vec<Vec<char>> = Vec::new();
    let mut i: usize = a;
    while i < b
        invariant
            a <= i <= b <= ls@.len(),
            seqs_view(parts@) == seqs_view(ls@).subrange(a as int, i as int),
        decreases b - i,
    {
        let mut c: Vec<char> = Vec::new();
        push_all(&mut c, ls[i].as_slice());
        let ghost before = seqs_view(parts@);
        parts.push(c);
        proof {
            assert(seqs_view(parts@) =~= before.push(ls@[i as int]@));
        }
        i = i + 1;
        proof {
            assert(seqs_view(parts@) =~= seqs_view(ls@).subrange(a as int, i as int));
        }
    }
    crate::sse::join_parts(&parts)
}

/// Extracts the front matter text and the line where the body starts.
pub fn parse_front_matter(input: &str) -> (r: Result<(String, usize), String>)
    ensures
        match r {
            Ok((fm, n)) => front_matter(input@) == Ok::<(Seq<char>, nat), Seq<char>>((fm@, n as nat)),
            Err(e) => front_matter(input@) == Err::<(Seq<char>, nat), Seq<char>>(e@),
        },
{
    let ls = lines_vec(input);
    let ghost lv = seqs_view(ls@);
    if ls.len() == 0 || !is_dashes(&ls[0]) {
        return Err(String::from_str("Markdown front matter must start with '---'"));
    }
    let mut k: usize = 1;
    while k < ls.len()
        invariant
            1 <= k <= ls@.len(),
            lv == seqs_view(ls@),
            lv == lines_of(input@),
            trimmed(lv[0]) == "---"@,
            forall|j: int| 1 <= j < k ==> trimmed(#[trigger] lv[j]) != "---"@,
        decreases ls@.len() - k,
    {
        if is_dashes(&ls[k]) {
            let body_line: usize = if k > usize::MAX - 2 { usize::MAX } else { k + 2 };
            proof {
                assert(trimmed(lv[k as int]) == "---"@);
                assert(1 <= k < lv.len() && trimmed(lv[k as int]) == "---"@ && forall|j: int| 1 <= j < k ==> trimmed(#[trigger] lv[j]) != "---"@);
                let ls = lines_of(input@);
                let w = choose|k: int| 1 <= k < ls.len() && trimmed(ls[k]) == "---"@ && forall|j: int| 1 <= j < k ==> trimmed(#[trigger] ls[j]) != "---"@;
                assert(w == k) by {
                    if w < k {
                        assert(trimmed(lv[w]) != "---"@);
                    } else if w > k {
                        assert(trimmed(lv[k as int]) != "---"@);
                    }
                }
            }
            let fm = join_range(&ls, 1, k);
            return Ok((fm, body_line));
        }
        k = k + 1;
    }
    Err(String::from_str("Closing '---' for front matter not found"))
}

/// Whether a trimmed line opens a scenario block: three backticks, then
/// `yaml scenario` in any case, spaces around it aside.
pub open spec fn fence_open(t: Seq<char>) -> bool {
    has_prefix(t, "```"@) && lower_ascii(trimmed(t.subrange(3, t.len() as int))) == "yaml scenario"@
}

/// Whether a trimmed line opens a scenario block.
pub fn is_scenario_fence_open(trimmed_line: &str) -> (r: bool)
    ensures
        r == fence_open(trimmed_line@),
{
    let t = chars_of(trimmed_line);
    let ticks = chars_of("```");
    if !crate::text::starts_with(t.as_slice(), ticks.as_slice()) {
        return false;
    }
    proof {
        reveal_strlit("```");
    }
    let mut rest: Vec<char> = Vec::new();
    let mut k: usize = 3;
    while k < t.len()
        invariant
            3 <= k <= t@.len(),
            rest@ == t@.subrange(3, k as int),
        decreases t@.len() - k,
    {
        rest.push(t[k]);
        k = k + 1;
        proof {
            assert(rest@ =~= t@.subrange(3, k as int));
        }
    }
    let info = crate::text::trim_chars(rest.as_slice());
    let low = crate::text::lower_chars(info.as_slice());
    let want = chars_of("yaml scenario");
    crate::text::chars_equal(low.as_slice(), want.as_slice())
}

/// A scenario block: the 1-based line of its opening fence and its text.
#[derive(Debug, Clone)]
pub struct CodeBlock {
    pub line: usize,
    pub content: String,
}

/// Scanning state: inside a block?, its opening line, its lines so far, the
/// blocks closed so far.
pub type Scan = (bool, nat, Seq<Seq<char>>, Seq<(nat, Seq<char>)>);

pub open spec fn scan_line(st: Scan, line: Seq<char>, idx: nat) -> Scan {
    if !st.0 {
        if fence_open(trimmed(line)) {
            (true, idx + 1, Seq::empty(), st.3)
        } else {
            st
        }
    } else if trimmed(line) == "```"@ {
        (false, st.1, st.2, st.3.push((st.1, join_nl(st.2))))
    } else {
        (true, st.1, st.2.push(line), st.3)
    }
}

pub open spec fn scan_lines(ls: Seq<Seq<char>>) -> Scan
    decreases ls.len(),
{
    if ls.len() == 0 {
        (false, 0, Seq::empty(), Seq::empty())
    } else {
        scan_line(scan_lines(ls.drop_last()), ls.last(), (ls.len() - 1) as nat)
    }
}

/// The scenario blocks of a document in order, or an error naming the line
/// of a block that is never closed.
pub open spec fn code_blocks(input: Seq<char>) -> Result<Seq<(nat, Seq<char>)>, Seq<char>> {
    let st = scan_lines(lines_of(input));
    if st.0 {
        Err("Unterminated ```yaml scenario block starting at line "@ + dec(st.1))
    } else {
        Ok(st.3)
    }
}

pub open spec fn blocks_view(v: Seq<CodeBlock>) -> Seq<(nat, Seq<char>)> {
    v.map_values(|b: CodeBlock| (b.line as nat, b.content@))
}

/// Collects the scenario blocks of a Markdown document.
pub fn extract_scenario_code_blocks(input: &str) -> (r: Result<Vec<CodeBlock>, String>)
    ensures
        match r {
            Ok(bs) => code_blocks(input@) == Ok::<Seq<(nat, Seq<char>)>, Seq<char>>(blocks_view(bs@)),
            Err(e) => code_blocks(input@) == Err::<Seq<(nat, Seq<char>)>, Seq<char>>(e@),
        },
{
    let ls = lines_vec(input);
    let ghost lv = seqs_view(ls@);
    let mut blocks: Vec<CodeBlock> = Vec::new();
    let mut in_block = false;
    let mut start: usize = 0;
    let mut content: Vec<Vec<char>> = Vec::new();
    let close = chars_of("```");
    let mut i: usize = 0;
    proof {
        assert(lv.subrange(0, 0) =~= Seq::<Seq<char>>::empty());
        assert(blocks_view(blocks@) =~= Seq::<(nat, Seq<char>)>::empty());
        assert(seqs_view(content@) =~= Seq::<Seq<char>>::empty());
    }
    while i < ls.len()
        invariant
            0 <= i <= ls@.len(),
            lv == seqs_view(ls@),
            lv == lines_of(input@),
            close@ == "```"@,
            scan_lines(lv.subrange(0, i as int)) == (in_block, start as nat, seqs_view(content@), blocks_view(blocks@)),
        decreases ls@.len() - i,
    {
        let line = &ls[i];
        proof {
            let s = lv.subrange(0, i + 1);
            assert(s.drop_last() =~= lv.subrange(0, i as int));
            assert(s.last() == line@);
        }
        let t = crate::text::trim_chars(line.as_slice());
        let ts = string_of(t.as_slice());
        if !in_block {
            if is_scenario_fence_open(ts.as_str()) {
                in_block = true;
                start = i + 1;
                content = Vec::new();
                proof {
                    assert(seqs_view(content@) =~= Seq::<Seq<char>>::empty());
                }
            }
        } else if crate::text::chars_equal(t.as_slice(), close.as_slice()) {
            let text = crate::sse::join_parts(&content);
            let ghost before = blocks_view(blocks@);
            blocks.push(CodeBlock { line: start, content: text });
            proof {
                assert(blocks_view(blocks@) =~= before.push((start as nat, join_nl(seqs_view(content@)))));
            }
            in_block = false;
        } else {
            let mut c: Vec<char> = Vec::new();
            push_all(&mut c, line.as_slice());
            let ghost before = seqs_view(content@);
            content.push(c);
            proof {
                assert(seqs_view(content@) =~= before.push(line@));
            }
        }
        i = i + 1;
    }
    proof {
        assert(lv.subrange(0, lv.len() as int) =~= lv);
    }
    if in_block {
        let mut out = chars_of("Unterminated ```yaml scenario block starting at line ");
        push_dec(&mut out, start as u64);
        return Err(string_of(out.as_slice()));
    }
    Ok(blocks)
}

/// A block's config: each field only where the block sets it.
#[derive(Debug, Clone)]
pub struct MergeableConfig {
    pub base_url: Option<String>,
    pub headers: Option<Vec<(String, String)>>,
    pub timeout: Option<u64>,
    pub continue_on_failure: Option<bool>,
}

/// `m` with each pair set, replacing a pair of the same name.
pub open spec fn set_pairs(m: Seq<(Seq<char>, Seq<char>)>, ps: Seq<(Seq<char>, Seq<char>)>) -> Seq<(Seq<char>, Seq<char>)>
    decreases ps.len(),
{
    if ps.len() == 0 {
        m
    } else {
        set_pair(set_pairs(m, ps.drop_last()), ps.last())
    }
}

/// `m` with the pair's value replacing the first pair of its name, or the
/// pair appended.
pub open spec fn set_pair(m: Seq<(Seq<char>, Seq<char>)>, p: (Seq<char>, Seq<char>)) -> Seq<(Seq<char>, Seq<char>)> {
    if exists|i: int| 0 <= i < m.len() && m[i].0 == p.0 {
        let i = choose|i: int| 0 <= i < m.len() && m[i].0 == p.0 && forall|j: int| 0 <= j < i ==> m[j].0 != p.0;
        m.update(i, p)
    } else {
        m.push(p)
    }
}

fn set_header(hs: &mut Vec<(String, String)>, k: &String, v: &String)
    ensures
        pairs_view(final(hs)@) == set_pair(pairs_view(old(hs)@), (k@, v@)),
{
    let ghost m = pairs_view(hs@);
    let mut i: usize = 0;
    while i < hs.len()
        invariant
            0 <= i <= hs@.len(),
            hs@ == old(hs)@,
            m == pairs_view(hs@),
            forall|j: int| 0 <= j < i ==> m[j].0 != k@,
        decreases hs@.len() - i,
    {
        if hs[i].0 == *k {
            proof {
                let p = (k@, v@);
                assert(m[i as int].0 == p.0);
                assert(0 <= i < m.len() && m[i as int].0 == p.0 && forall|j: int| 0 <= j < i ==> m[j].0 != p.0);
                let w = choose|i: int| 0 <= i < m.len() && m[i].0 == p.0 && forall|j: int| 0 <= j < i ==> m[j].0 != p.0;
                assert(w == i) by {
                    if w < i {
                        assert(m[w].0 != p.0);
                    } else if w > i {
                        assert(m[i as int].0 == p.0);
                    }
                }
            }
            hs.set(i, (k.clone(), v.clone()));
            proof {
                assert(pairs_view(hs@) =~= m.update(i as int, (k@, v@)));
            }
            return;
        }
        i = i + 1;
    }
    hs.push((k.clone(), v.clone()));
    proof {
        assert(pairs_view(hs@) =~= m.push((k@, v@)));
    }
}

/// Merges a block's config into the scenario's: each field the block sets
/// replaces the scenario's; headers are set one by one.
pub fn merge_config(dst: &mut TestConfig, src: &MergeableConfig)
    ensures
        final(dst).base_url == (match src.base_url { Some(b) => Some(b), None => old(dst).base_url }),
        pairs_view(final(dst).headers@) == match src.headers {
            Some(h) => set_pairs(pairs_view(old(dst).headers@), pairs_view(h@)),
            None => pairs_view(old(dst).headers@),
        },
        final(dst).timeout == (match src.timeout { Some(t) => t, None => old(dst).timeout }),
        final(dst).continue_on_failure == (match src.continue_on_failure { Some(c) => c, None => old(dst).continue_on_failure }),
{
    if let Some(b) = &src.base_url {
        dst.base_url = Some(b.clone());
    }
    if let Some(h) = &src.headers {
        let ghost hv = pairs_view(h@);
        let mut i: usize = 0;
        proof {
            assert(hv.subrange(0, 0) =~= Seq::<(Seq<char>, Seq<char>)>::empty());
        }
        while i < h.len()
            invariant
                0 <= i <= h@.len(),
                hv == pairs_view(h@),
                pairs_view(dst.headers@) == set_pairs(pairs_view(old(dst).headers@), hv.subrange(0, i as int)),
                dst.base_url == (match src.base_url { Some(b) => Some(b), None => old(dst).base_url }),
                dst.timeout == old(dst).timeout,
                dst.continue_on_failure == old(dst).continue_on_failure,
            decreases h@.len() - i,
        {
            proof {
                let s = hv.subrange(0, i + 1);
                assert(s.drop_last() =~= hv.subrange(0, i as int));
                assert(s.last() == hv[i as int]);
            }
            set_header(&mut dst.headers, &h[i].0, &h[i].1);
            i = i + 1;
        }
        proof {
            assert(hv.subrange(0, hv.len() as int) =~= hv);
        }
    }
    if let Some(t) = src.timeout {
        dst.timeout = t;
    }
    if let Some(c) = src.continue_on_failure {
        dst.continue_on_failure = c;
    }
}

} // verus!
