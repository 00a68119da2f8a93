//! Flattening a value into dotted context keys, one per leaf.
use vstd::prelude::*;
use crate::context::Vars;
use crate::json::{copy_json, entries_view, jv, lemma_arr_view, lemma_obj_view, Json, JVal};
use crate::text::{chars_of, dec, push_dec, string_of};
use crate::validator::child_path;

verus! {

/// The key of array element `i` below `prefix`.
pub open spec fn index_path(prefix: Seq<char>, i: nat) -> Seq<char> {
    prefix + seq!['.'] + dec(i)
}

/// `m` with every leaf of `v` bound under its dotted path below `prefix`;
/// an empty object or array is a leaf too. Later leaves override earlier
/// ones of the same path.
pub open spec fn flat_into(m: Map<Seq<char>, JVal>, prefix: Seq<char>, v: JVal) -> Map<Seq<char>, JVal>
    decreases v, 1nat, 0int,
{
    match v {
        JVal::Obj(es) => flat_entries(if es.len() == 0 { m.insert(prefix, v) } else { m }, prefix, es, es.len() as int),
        JVal::Arr(a) => flat_elems(if a.len() == 0 { m.insert(prefix, v) } else { m }, prefix, a, a.len() as int),
        _ => m.insert(prefix, v),
    }
}

/// The first `n` entries flattened, in order.
pub open spec fn flat_entries(m: Map<Seq<char>, JVal>, prefix: Seq<char>, es: Seq<(Seq<char>, JVal)>, n: int) -> Map<Seq<char>, JVal>
    decreases es, 0nat, n,
    via flat_entries_decreases
{
    if n <= 0 || n > es.len() {
        m
    } else {
        flat_into(flat_entries(m, prefix, es, n - 1), child_path(prefix, es[n - 1].0), es[n - 1].1)
    }
}

/// The first `n` elements flattened, in order.
pub open spec fn flat_elems(m: Map<Seq<char>, JVal>, prefix: Seq<char>, a: Seq<JVal>, n: int) -> Map<Seq<char>, JVal>
    decreases a, 0nat, n,
    via flat_elems_decreases
{
    if n <= 0 || n > a.len() {
        m
    } else {
        flat_into(flat_elems(m, prefix, a, n - 1), index_path(prefix, (n - 1) as nat), a[n - 1])
    }
}

#[via_fn]
proof fn flat_entries_decreases(m: Map<Seq<char>, JVal>, prefix: Seq<char>, es: Seq<(Seq<char>, JVal)>, n: int) {
    if 0 < n <= es.len() {
        vstd::seq::axiom_seq_index_decreases(es, n - 1);
    }
}

#[via_fn]
proof fn flat_elems_decreases(m: Map<Seq<char>, JVal>, prefix: Seq<char>, a: Seq<JVal>, n: int) {
    if 0 < n <= a.len() {
        vstd::seq::axiom_seq_index_decreases(a, n - 1);
    }
}

/// Binds every leaf of `value` in `vars` under its dotted path below
/// `prefix`.
pub fn flatten_value(prefix: &str, value: &Json, vars: &mut Vars)
    ensures
        final(vars)@ == flat_into(old(vars)@, prefix@, value@),
    decreases value,
{
    match value {
        Json::Obj(es) => {
            proof {
                lemma_obj_view(*es);
            }
            let ghost ev = entries_view(es@);
            if es.len() == 0 {
                vars.set(String::from_str(prefix), copy_json(value));
            }
            let ghost start = vars@;
            let pv = chars_of(prefix);
            let mut i: usize = 0;
            while i < es.len()
                invariant
                    0 <= i <= es@.len(),
                    ev == entries_view(es@),
                    value@ == JVal::Obj(ev),
                    pv@ == prefix@,
                    decreases_to!(*value => *es),
                    vars@ == flat_entries(start, prefix@, ev, i as int),
                decreases es@.len() - i,
            {
                proof {
                    assert(decreases_to!(*es => es@[i as int]));
                    assert(decreases_to!(es@[i as int] => es@[i as int].1));
                }
                let kv = chars_of(es[i].0.as_str());
                let cp = crate::validator::child_path_chars(pv.as_slice(), kv.as_slice());
                let cps = string_of(cp.as_slice());
                flatten_value(cps.as_str(), &es[i].1, vars);
                i = i + 1;
            }
        },
        Json::Arr(a) => {
            proof {
                lemma_arr_view(*a);
            }
            let ghost av = a@.map_values(|x: Json| jv(x));
            if a.len() == 0 {
                vars.set(String::from_str(prefix), copy_json(value));
            }
            let ghost start = vars@;
            let mut i: usize = 0;
            while i < a.len()
                invariant
                    0 <= i <= a@.len(),
                    av == a@.map_values(|x: Json| jv(x)),
                    value@ == JVal::Arr(av),
                    decreases_to!(*value => *a),
                    vars@ == flat_elems(start, prefix@, av, i as int),
                decreases a@.len() - i,
            {
                proof {
                    assert(decreases_to!(*a => a@[i as int]));
                }
                let mut p = chars_of(prefix);
                p.push('.');
                push_dec(&mut p, i as u64);
                proof {
                    assert(p@ =~= index_path(prefix@, i as nat));
                }
                let ps = string_of(p.as_slice());
                flatten_value(ps.as_str(), &a[i], vars);
                i = i + 1;
            }
        },
        _ => {
            vars.set(String::from_str(prefix), copy_json(value));
        },
    }
}

} // verus!
