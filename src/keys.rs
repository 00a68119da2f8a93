//! Ordered key sets: the sorted union of two objects' keys.
use vstd::prelude::*;
use crate::json::{entries_view, seq_lt, Json, JVal};

verus! {

proof fn lemma_seq_lt_skip(a: Seq<char>, b: Seq<char>, i: int)
    requires
        0 <= i <= a.len(),
        i <= b.len(),
        a.subrange(0, i) == b.subrange(0, i),
    ensures
        seq_lt(a, b) == seq_lt(a.subrange(i, a.len() as int), b.subrange(i, b.len() as int)),
    decreases i,
{
    if i > 0 {
        assert(a[0] == a.subrange(0, i)[0]);
        assert(b[0] == b.subrange(0, i)[0]);
        assert(a.drop_first().subrange(0, i - 1) =~= a.subrange(0, i).drop_first());
        assert(b.drop_first().subrange(0, i - 1) =~= b.subrange(0, i).drop_first());
        lemma_seq_lt_skip(a.drop_first(), b.drop_first(), i - 1);
        assert(a.drop_first().subrange(i - 1, a.len() - 1) =~= a.subrange(i, a.len() as int));
        assert(b.drop_first().subrange(i - 1, b.len() - 1) =~= b.subrange(i, b.len() as int));
    } else {
        assert(a.subrange(0, a.len() as int) =~= a);
        assert(b.subrange(0, b.len() as int) =~= b);
    }
}

/// Code-point lexicographic order.
pub fn text_lt(a: &[char], b: &[char]) -> (r: bool)
    ensures
        r == seq_lt(a@, b@),
{
    let mut i: usize = 0;
    while i < a.len() && i < b.len() && a[i] == b[i]
        invariant
            0 <= i <= a@.len(),
            i <= b@.len(),
            a@.subrange(0, i as int) == b@.subrange(0, i as int),
        decreases a@.len() - i,
    {
        proof {
            assert(a@.subrange(0, i + 1) =~= a@.subrange(0, i as int).push(a@[i as int]));
            assert(b@.subrange(0, i + 1) =~= b@.subrange(0, i as int).push(b@[i as int]));
        }
        i = i + 1;
    }
    proof {
        lemma_seq_lt_skip(a@, b@, i as int);
        let ra = a@.subrange(i as int, a@.len() as int);
        let rb = b@.subrange(i as int, b@.len() as int);
        if ra.len() > 0 && rb.len() > 0 {
            assert(ra[0] == a@[i as int]);
            assert(rb[0] == b@[i as int]);
        }
    }
    if i == a.len() {
        i < b.len()
    } else if i == b.len() {
        false
    } else {
        (a[i] as u32) < (b[i] as u32)
    }
}

/// `s` with `k` placed at its sorted position, unless it is already there.
pub open spec fn sorted_insert(s: Seq<Seq<char>>, k: Seq<char>) -> Seq<Seq<char>>
    decreases s.len(),
{
    if s.len() == 0 {
        seq![k]
    } else if s[0] == k {
        s
    } else if seq_lt(k, s[0]) {
        seq![k] + s
    } else {
        seq![s[0]] + sorted_insert(s.drop_first(), k)
    }
}

/// The keys of `es` inserted one by one into `acc`.
pub open spec fn insert_keys(acc: Seq<Seq<char>>, es: Seq<(Seq<char>, JVal)>) -> Seq<Seq<char>>
    decreases es.len(),
{
    if es.len() == 0 {
        acc
    } else {
        insert_keys(sorted_insert(acc, es[0].0), es.drop_first())
    }
}

/// The keys of both objects, each once, in ascending order.
pub open spec fn key_union(ae: Seq<(Seq<char>, JVal)>, ee: Seq<(Seq<char>, JVal)>) -> Seq<Seq<char>> {
    insert_keys(insert_keys(Seq::empty(), ae), ee)
}

proof fn lemma_sorted_insert_skip(s: Seq<Seq<char>>, k: Seq<char>, i: int)
    requires
        0 <= i <= s.len(),
        forall|j: int| 0 <= j < i ==> (#[trigger] s[j]) != k && !seq_lt(k, s[j]),
    ensures
        sorted_insert(s, k) == s.subrange(0, i) + sorted_insert(s.subrange(i, s.len() as int), k),
    decreases i,
{
    if i > 0 {
        assert(s[0] != k && !seq_lt(k, s[0]));
        let t = s.drop_first();
        assert forall|j: int| 0 <= j < i - 1 implies (#[trigger] t[j]) != k && !seq_lt(k, t[j]) by {
            assert(t[j] == s[j + 1]);
        }
        lemma_sorted_insert_skip(t, k, i - 1);
        assert(t.subrange(i - 1, t.len() as int) =~= s.subrange(i, s.len() as int));
        assert(seq![s[0]] + t.subrange(0, i - 1) =~= s.subrange(0, i));
        assert(seq![s[0]] + (t.subrange(0, i - 1) + sorted_insert(s.subrange(i, s.len() as int), k))
            =~= s.subrange(0, i) + sorted_insert(s.subrange(i, s.len() as int), k));
    } else {
        assert(s.subrange(0, s.len() as int) =~= s);
        assert(s.subrange(0, 0) + sorted_insert(s, k) =~= sorted_insert(s, k));
    }
}

pub open spec fn keys_view(v: Seq<Vec<char>>) -> Seq<Seq<char>> {
    v.map_values(|x: Vec<char>| x@)
}

/// Places `k` at its sorted position in `keys`, unless it is already there.
pub fn insert_sorted(keys: &mut Vec<Vec<char>>, k: Vec<char>)
    ensures
        keys_view(final(keys)@) == sorted_insert(keys_view(old(keys)@), k@),
{
    let ghost s = keys_view(keys@);
    let mut i: usize = 0;
    while i < keys.len()
        invariant
            0 <= i <= keys@.len(),
            s == keys_view(keys@),
            keys@ == old(keys)@,
            forall|j: int| 0 <= j < i ==> (#[trigger] s[j]) != k@ && !seq_lt(k@, s[j]),
        decreases keys@.len() - i,
    {
        let same = crate::text::chars_equal(keys[i].as_slice(), k.as_slice());
        if same {
            proof {
                lemma_sorted_insert_skip(s, k@, i as int);
                let rest = s.subrange(i as int, s.len() as int);
                assert(rest[0] == k@);
                assert(s.subrange(0, i as int) + rest =~= s);
            }
            return;
        }
        if text_lt(k.as_slice(), keys[i].as_slice()) {
            proof {
                lemma_sorted_insert_skip(s, k@, i as int);
                let rest = s.subrange(i as int, s.len() as int);
                assert(rest[0] == keys@[i as int]@);
            }
            keys.insert(i, k);
            proof {
                let rest = s.subrange(i as int, s.len() as int);
                assert(keys_view(keys@) =~= s.subrange(0, i as int) + (seq![k@] + rest));
            }
            return;
        }
        i = i + 1;
    }
    proof {
        lemma_sorted_insert_skip(s, k@, i as int);
        assert(s.subrange(i as int, s.len() as int) =~= Seq::<Seq<char>>::empty());
        assert(s.subrange(0, i as int) =~= s);
    }
    keys.push(k);
    proof {
        assert(keys_view(keys@) =~= s + seq![k@]);
    }
}

fn insert_entry_keys(out: &mut Vec<Vec<char>>, es: &Vec<(String, Json)>)
    ensures
        keys_view(final(out)@) == insert_keys(keys_view(old(out)@), entries_view(es@)),
{
    let ghost ev = entries_view(es@);
    let ghost target = insert_keys(keys_view(out@), ev);
    let mut i: usize = 0;
    proof {
        assert(ev.subrange(0, ev.len() as int) =~= ev);
    }
    while i < es.len()
        invariant
            0 <= i <= es@.len(),
            ev == entries_view(es@),
            target == insert_keys(keys_view(old(out)@), ev),
            insert_keys(keys_view(out@), ev.subrange(i as int, ev.len() as int)) == target,
        decreases es@.len() - i,
    {
        let k = crate::text::chars_of(es[i].0.as_str());
        proof {
            let rest = ev.subrange(i as int, ev.len() as int);
            assert(rest[0].0 == k@);
            assert(rest.drop_first() =~= ev.subrange(i + 1, ev.len() as int));
        }
        insert_sorted(out, k);
        i = i + 1;
    }
    proof {
        assert(ev.subrange(i as int, ev.len() as int) =~= Seq::<(Seq<char>, JVal)>::empty());
    }
}

/// The keys of both objects, each once, in ascending order.
pub fn union_keys(a: &Vec<(String, Json)>, e: &Vec<(String, Json)>) -> (r: Vec<Vec<char>>)
    ensures
        keys_view(r@) == key_union(entries_view(a@), entries_view(e@)),
{
    let mut out: Vec<Vec<char>> = Vec::new();
    proof {
        assert(keys_view(out@) =~= Seq::<Seq<char>>::empty());
    }
    insert_entry_keys(&mut out, a);
    insert_entry_keys(&mut out, e);
    out
}

} // verus!
