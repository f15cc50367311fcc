//! Directory entries in the order of their names.

use crate::text::{lemma_text_order, lemma_text_order_trans, text_less, text_lt};
use vstd::prelude::*;

verus! {

/// Names come in order, none twice.
pub open spec fn sorted_names(v: Seq<(String, u64)>) -> bool {
    forall|i: int, j: int|
        0 <= i < j < v.len() ==> text_lt((#[trigger] v[i]).0@, (#[trigger] v[j]).0@)
}

/// Some entry has the name `name`.
pub open spec fn has_name(v: Seq<(String, u64)>, name: Seq<char>) -> bool {
    exists|k: int| 0 <= k < v.len() && (#[trigger] v[k]).0@ == name
}

/// Puts an entry with a new name where it belongs, and says where.
pub fn insert_sorted(out: &mut Vec<(String, u64)>, entry: (String, u64)) -> (at: usize)
    requires
        sorted_names(old(out)@),
        !has_name(old(out)@, entry.0@),
    ensures
        sorted_names(final(out)@),
        at <= old(out)@.len(),
        final(out)@ == old(out)@.insert(at as int, entry),
{
    let ghost before = out@;
    let ghost name = entry.0@;
    let mut at: usize = 0;
    while at < out.len() && text_less(out[at].0.as_str(), entry.0.as_str())
        invariant
            at <= out@.len(),
            out@ == before,
            name == entry.0@,
            forall|k: int| 0 <= k < at ==> text_lt((#[trigger] out@[k]).0@, name),
        decreases out@.len() - at,
    {
        at += 1;
    }
    proof {
        assert forall|k: int| at <= k < before.len() implies text_lt(
            name,
            (#[trigger] before[k]).0@,
        ) by {
            lemma_text_order(name, before[at as int].0@);
            if k > at {
                lemma_text_order_trans(name, before[at as int].0@, before[k].0@);
            }
        }
    }
    out.insert(at, entry);
    assert(out@ =~= before.insert(at as int, entry));
    at
}

} // verus!
