//! The variable context of a scenario run: names bound to values.
use vstd::prelude::*;
use crate::json::{copy_json, entries_view, lemma_obj_get_found, lemma_obj_get_none, obj_get, Json, JVal};

verus! {

/// The values visible to placeholders and expressions, by name.
pub struct Vars {
    pub entries: Vec<(String, Json)>,
}

/// The mapping that entries describe: the first entry of each name wins.
pub open spec fn entries_map(es: Seq<(Seq<char>, JVal)>) -> Map<Seq<char>, JVal> {
    Map::new(|k: Seq<char>| obj_get(es, k) is Some, |k: Seq<char>| obj_get(es, k)->Some_0)
}

impl Vars {
    pub open spec fn view(&self) -> Map<Seq<char>, JVal> {
        entries_map(entries_view(self.entries@))
    }

    /// An empty context.
    pub fn new() -> (r: Vars)
        ensures
            r@ == Map::<Seq<char>, JVal>::empty(),
    {
        let r = Vars { entries: Vec::new() };
        proof {
            assert(r@ =~= Map::<Seq<char>, JVal>::empty());
        }
        r
    }

    /// The value bound to `key`.
    pub fn get(&self, key: &String) -> (r: Option<&Json>)
        ensures
            match r {
                Some(v) => self@.contains_key(key@) && self@[key@] == v@,
                None => !self@.contains_key(key@),
            },
    {
        crate::json::entries_get(&self.entries, key)
    }

    /// Binds `key` to `value`, replacing an earlier binding.
    pub fn set(&mut self, key: String, value: Json)
        ensures
            final(self)@ == old(self)@.insert(key@, value@),
    {
        let ghost ev = entries_view(self.entries@);
        let mut i: usize = 0;
        while i < self.entries.len()
            invariant
                0 <= i <= self.entries@.len(),
                ev == entries_view(self.entries@),
                self.entries@ == old(self).entries@,
                forall|j: int| 0 <= j < i ==> (#[trigger] ev[j]).0 != key@,
            decreases self.entries@.len() - i,
        {
            if self.entries[i].0 == key {
                let ghost kv = key@;
                let ghost vv = value@;
                self.entries.set(i, (key, value));
                proof {
                    let nv = entries_view(self.entries@);
                    assert forall|j: int| 0 <= j < i implies (#[trigger] nv[j]).0 != kv by {
                        assert(nv[j] == ev[j]);
                    }
                    lemma_obj_get_found(nv, kv, i as int);
                    assert forall|k: Seq<char>| k != kv implies obj_get(nv, k) == obj_get(ev, k) by {
                        lemma_obj_get_same(ev, nv, k, i as int);
                    }
                    assert(self@ =~= old(self)@.insert(kv, vv));
                }
                return;
            }
            i = i + 1;
        }
        let ghost kv = key@;
        let ghost vv = value@;
        self.entries.push((key, value));
        proof {
            let nv = entries_view(self.entries@);
            assert forall|j: int| 0 <= j < i implies (#[trigger] nv[j]).0 != kv by {
                assert(nv[j] == ev[j]);
            }
            lemma_obj_get_found(nv, kv, i as int);
            assert forall|k: Seq<char>| k != kv implies obj_get(nv, k) == obj_get(ev, k) by {
                lemma_obj_get_push(ev, nv, k);
            }
            lemma_obj_get_none(ev, kv);
            assert(self@ =~= old(self)@.insert(kv, vv));
        }
    }

    /// Binds `key` to `value` only where it is not bound yet.
    pub fn set_default(&mut self, key: String, value: Json)
        ensures
            final(self)@ == if old(self)@.contains_key(key@) { old(self)@ } else { old(self)@.insert(key@, value@) },
    {
        if self.get(&key).is_none() {
            self.set(key, value);
        }
    }

    /// A copy with the same bindings.
    pub fn copy(&self) -> (r: Vars)
        ensures
            r@ == self@,
    {
        let mut out: Vec<(String, Json)> = Vec::new();
        let mut i: usize = 0;
        while i < self.entries.len()
            invariant
                0 <= i <= self.entries@.len(),
                out@.len() == i,
                forall|j: int| 0 <= j < i ==> (#[trigger] out@[j]).0@ == self.entries@[j].0@ && out@[j].1@ == self.entries@[j].1@,
            decreases self.entries@.len() - i,
        {
            out.push((self.entries[i].0.clone(), copy_json(&self.entries[i].1)));
            i = i + 1;
        }
        let r = Vars { entries: out };
        proof {
            assert(entries_view(r.entries@) =~= entries_view(self.entries@));
        }
        r
    }
}

proof fn lemma_obj_get_same(a: Seq<(Seq<char>, JVal)>, b: Seq<(Seq<char>, JVal)>, k: Seq<char>, i: int)
    requires
        a.len() == b.len(),
        0 <= i < a.len(),
        a[i].0 != k,
        b[i].0 != k,
        forall|j: int| 0 <= j < a.len() && j != i ==> #[trigger] a[j] == b[j],
    ensures
        obj_get(a, k) == obj_get(b, k),
    decreases a.len(),
{
    if a.len() > 0 {
        if i > 0 {
            assert forall|j: int| 0 <= j < a.len() - 1 && j != i - 1 implies #[trigger] a.drop_first()[j] == b.drop_first()[j] by {
                assert(a[j + 1] == b[j + 1]);
            }
            assert(a[0] == b[0]);
            lemma_obj_get_same(a.drop_first(), b.drop_first(), k, i - 1);
        } else {
            assert(a.drop_first() =~= b.drop_first()) by {
                assert forall|j: int| 0 <= j < a.len() - 1 implies a.drop_first()[j] == b.drop_first()[j] by {
                    assert(a[j + 1] == b[j + 1]);
                }
            }
        }
    }
}

proof fn lemma_obj_get_push(a: Seq<(Seq<char>, JVal)>, b: Seq<(Seq<char>, JVal)>, k: Seq<char>)
    requires
        b.len() == a.len() + 1,
        b[a.len() as int].0 != k,
        forall|j: int| 0 <= j < a.len() ==> #[trigger] a[j] == b[j],
    ensures
        obj_get(a, k) == obj_get(b, k),
    decreases a.len(),
{
    if a.len() > 0 {
        assert forall|j: int| 0 <= j < a.len() - 1 implies #[trigger] a.drop_first()[j] == b.drop_first()[j] by {
            assert(a[j + 1] == b[j + 1]);
        }
        assert(a[0] == b[0]);
        lemma_obj_get_push(a.drop_first(), b.drop_first(), k);
    } else {
        assert(b.drop_first().len() == 0);
        assert(obj_get(b.drop_first(), k) is None);
    }
}

} // verus!
