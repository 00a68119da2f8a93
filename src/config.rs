//! Which files hold scenarios, and in which format.
use vstd::prelude::*;
use crate::text::{chars_of, has_suffix, split_chars, split_on, seqs_view};

verus! {

/// The directories searched for scenarios.
#[derive(Debug)]
pub struct TestConfigManager {
    pub test_paths: Vec<String>,
}

impl TestConfigManager {
    /// A manager that searches `tests/scenarios`.
    pub fn new() -> (r: TestConfigManager)
        ensures
            r.test_paths@.len() == 1,
            r.test_paths@[0]@ == "tests/scenarios"@,
    {
        let mut v: Vec<String> = Vec::new();
        v.push(String::from_str("tests/scenarios"));
        TestConfigManager { test_paths: v }
    }

    /// Adds a directory to search.
    pub fn add_path(&mut self, path: &str)
        ensures
            final(self).test_paths@.len() == old(self).test_paths@.len() + 1,
            forall|i: int| 0 <= i < old(self).test_paths@.len() ==> final(self).test_paths@[i] == old(self).test_paths@[i],
            final(self).test_paths@.last()@ == path@,
    {
        self.test_paths.push(String::from_str(path));
    }
}

impl Default for TestConfigManager {
    fn default() -> (r: TestConfigManager)
        ensures
            r.test_paths@.len() == 1,
            r.test_paths@[0]@ == "tests/scenarios"@,
    {
        TestConfigManager::new()
    }
}

/// The last component of a path: its last segment that is neither empty
/// nor `.`; none when there is none or it is `..`.
pub open spec fn file_name_in(segs: Seq<Seq<char>>) -> Option<Seq<char>>
    decreases segs.len(),
{
    if segs.len() == 0 {
        None
    } else if segs.last().len() == 0 || segs.last() == "."@ {
        file_name_in(segs.drop_last())
    } else if segs.last() == ".."@ {
        None
    } else {
        Some(segs.last())
    }
}

pub open spec fn file_name(p: Seq<char>) -> Option<Seq<char>> {
    file_name_in(split_on(p, '/'))
}

fn file_name_of(p: &str) -> (r: Option<Vec<char>>)
    ensures
        match r {
            Some(n) => file_name(p@) == Some(n@),
            None => file_name(p@) is None,
        },
{
    let pv = chars_of(p);
    let segs = split_chars(pv.as_slice(), '/');
    let ghost sv = seqs_view(segs@);
    let dot = chars_of(".");
    let dotdot = chars_of("..");
    let mut i: usize = segs.len();
    proof {
        assert(sv.subrange(0, sv.len() as int) =~= sv);
    }
    while i > 0
        invariant
            0 <= i <= segs@.len(),
            sv == seqs_view(segs@),
            sv == split_on(p@, '/'),
            dot@ == "."@,
            dotdot@ == ".."@,
            file_name(p@) == file_name_in(sv.subrange(0, i as int)),
        decreases i,
    {
        let s = &segs[i - 1];
        proof {
            let t = sv.subrange(0, i as int);
            assert(t.drop_last() =~= sv.subrange(0, i - 1));
            assert(t.last() == s@);
        }
        if s.len() == 0 || crate::text::chars_equal(s.as_slice(), dot.as_slice()) {
            i = i - 1;
        } else if crate::text::chars_equal(s.as_slice(), dotdot.as_slice()) {
            return None;
        } else {
            let mut out: Vec<char> = Vec::new();
            crate::text::push_all(&mut out, s.as_slice());
            return Some(out);
        }
    }
    None
}

/// Whether the file name ends with `suffix`.
pub open spec fn name_ends_with(p: Seq<char>, suffix: Seq<char>) -> bool {
    file_name(p) matches Some(n) && has_suffix(n, suffix)
}

/// The extension of a file name: after its last `.`, unless that dot opens
/// the name.
pub open spec fn extension_of(n: Seq<char>) -> Option<Seq<char>> {
    if exists|i: int| 0 < i < n.len() && n[i] == '.' {
        let i = choose|i: int| 0 < i < n.len() && n[i] == '.' && forall|j: int| i < j < n.len() ==> n[j] != '.';
        Some(n.subrange(i + 1, n.len() as int))
    } else {
        None
    }
}

fn extension(n: &Vec<char>) -> (r: Option<Vec<char>>)
    ensures
        match r {
            Some(e) => extension_of(n@) == Some(e@),
            None => extension_of(n@) is None,
        },
{
    let mut i: usize = n.len();
    while i > 1
        invariant
            0 <= i <= n@.len(),
            forall|j: int| i <= j < n@.len() ==> n@[j] != '.',
        decreases i,
    {
        if n[i - 1] == '.' {
            let k0 = i - 1;
            proof {
                let w = choose|w: int| 0 < w < n@.len() && n@[w] == '.' && forall|j: int| w < j < n@.len() ==> n@[j] != '.';
                assert(w == k0) by {
                    if w < k0 {
                        assert(n@[k0 as int] != '.');
                    } else if w > k0 {
                        assert(n@[w] != '.');
                    }
                }
            }
            let mut out: Vec<char> = Vec::new();
            let mut k: usize = i;
            while k < n.len()
                invariant
                    i <= k <= n@.len(),
                    out@ == n@.subrange(i as int, k as int),
                decreases n@.len() - k,
            {
                out.push(n[k]);
                k = k + 1;
                proof {
                    assert(out@ =~= n@.subrange(i as int, k as int));
                }
            }
            return Some(out);
        }
        i = i - 1;
    }
    proof {
        assert forall|w: int| !(0 < w < n@.len() && n@[w] == '.') by {
            if 0 < w < n@.len() {
                assert(w >= i);
            }
        }
    }
    None
}

/// Whether the path names a Markdown scenario (`.scenario.md`).
pub fn is_markdown_scenario(path: &str) -> (r: bool)
    ensures
        r == name_ends_with(path@, ".scenario.md"@),
{
    match file_name_of(path) {
        Some(n) => {
            let suf = chars_of(".scenario.md");
            crate::text::ends_with(n.as_slice(), suf.as_slice())
        },
        None => false,
    }
}

/// Whether the path names a runbook (`.runbook.yml`, `.runbook.yaml`,
/// `.runn.yml` or `.runn.yaml`).
pub fn is_runbook_file(path: &str) -> (r: bool)
    ensures
        r == (name_ends_with(path@, ".runbook.yml"@) || name_ends_with(path@, ".runbook.yaml"@)
            || name_ends_with(path@, ".runn.yml"@) || name_ends_with(path@, ".runn.yaml"@)),
{
    match file_name_of(path) {
        Some(n) => {
            let a = chars_of(".runbook.yml");
            let b = chars_of(".runbook.yaml");
            let c = chars_of(".runn.yml");
            let d = chars_of(".runn.yaml");
            crate::text::ends_with(n.as_slice(), a.as_slice()) || crate::text::ends_with(n.as_slice(), b.as_slice())
                || crate::text::ends_with(n.as_slice(), c.as_slice()) || crate::text::ends_with(n.as_slice(), d.as_slice())
        },
        None => false,
    }
}

/// Whether the path names a scenario file: Markdown, runbook, or YAML
/// (`.yaml` / `.yml`).
pub fn is_scenario_file(path: &str) -> (r: bool)
    ensures
        r == (name_ends_with(path@, ".scenario.md"@)
            || name_ends_with(path@, ".runbook.yml"@) || name_ends_with(path@, ".runbook.yaml"@)
            || name_ends_with(path@, ".runn.yml"@) || name_ends_with(path@, ".runn.yaml"@)
            || (file_name(path@) matches Some(n) && (extension_of(n) == Some("yaml"@) || extension_of(n) == Some("yml"@)))),
{
    if is_markdown_scenario(path) {
        return true;
    }
    if is_runbook_file(path) {
        return true;
    }
    match file_name_of(path) {
        Some(n) => match extension(&n) {
            Some(e) => {
                let y1 = chars_of("yaml");
                let y2 = chars_of("yml");
                crate::text::chars_equal(e.as_slice(), y1.as_slice()) || crate::text::chars_equal(e.as_slice(), y2.as_slice())
            },
            None => false,
        },
        None => false,
    }
}

/// The format of a scenario file.
#[derive(Debug, Clone, Copy, PartialEq, Eq, Structural)]
pub enum ScenarioFormat {
    Markdown,
    Runbook,
    Yaml,
}

/// How a scenario file is read: Markdown, then runbook, else YAML.
pub fn scenario_format(path: &str) -> (r: ScenarioFormat)
    ensures
        r == (if name_ends_with(path@, ".scenario.md"@) {
            ScenarioFormat::Markdown
        } else if name_ends_with(path@, ".runbook.yml"@) || name_ends_with(path@, ".runbook.yaml"@)
            || name_ends_with(path@, ".runn.yml"@) || name_ends_with(path@, ".runn.yaml"@) {
            ScenarioFormat::Runbook
        } else {
            ScenarioFormat::Yaml
        }),
{
    if is_markdown_scenario(path) {
        ScenarioFormat::Markdown
    } else if is_runbook_file(path) {
        ScenarioFormat::Runbook
    } else {
        ScenarioFormat::Yaml
    }
}

} // verus!
