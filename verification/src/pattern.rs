//! Finding, cutting out and replacing pieces of a text.

use crate::text::{chars_of, text_of};
use vstd::prelude::*;

verus! {

/// The text `p` stands in `s` at position `i`.
pub open spec fn found_at(s: Seq<char>, p: Seq<char>, i: int) -> bool {
    0 <= i && i + p.len() <= s.len() && s.subrange(i, i + p.len()) == p
}

/// The first position from `i` on at which `p` stands in `s`.
pub open spec fn first_from(s: Seq<char>, p: Seq<char>, i: int) -> Option<int>
    decreases s.len() - i + 1,
{
    if i < 0 || i + p.len() > s.len() {
        None
    } else if found_at(s, p, i) {
        Some(i)
    } else {
        first_from(s, p, i + 1)
    }
}

/// The first position at which `p` stands in `s`.
pub open spec fn first_at(s: Seq<char>, p: Seq<char>) -> Option<int> {
    first_from(s, p, 0)
}

/// The text before the first `p`; all of it where there is none.
pub open spec fn before_first(s: Seq<char>, p: Seq<char>) -> Seq<char> {
    match first_at(s, p) {
        Some(i) => s.take(i),
        None => s,
    }
}

/// The texts before and after the first `p`.
pub open spec fn cut_first(s: Seq<char>, p: Seq<char>) -> Option<(Seq<char>, Seq<char>)> {
    match first_at(s, p) {
        Some(i) => Some((s.take(i), s.skip(i + p.len()))),
        None => None,
    }
}

/// The text with each `from` replaced by `to`, from left to right.
pub open spec fn replaced(s: Seq<char>, from: Seq<char>, to: Seq<char>) -> Seq<char>
    decreases s.len(),
    when from.len() > 0
    via replaced_decreases
{
    match first_at(s, from) {
        Some(i) => s.take(i) + to + replaced(s.skip(i + from.len()), from, to),
        None => s,
    }
}

#[via_fn]
proof fn replaced_decreases(s: Seq<char>, from: Seq<char>, to: Seq<char>) {
    lemma_first_from(s, from, 0);
}

/// The first position found is one, and none before it is.
pub proof fn lemma_first_from(s: Seq<char>, p: Seq<char>, i: int)
    requires
        0 <= i,
    ensures
        match first_from(s, p, i) {
            Some(k) => i <= k && found_at(s, p, k) && (forall|j: int|
                i <= j < k ==> !#[trigger] found_at(s, p, j)),
            None => forall|j: int| i <= j ==> !#[trigger] found_at(s, p, j),
        },
    decreases s.len() - i + 1,
{
    if i + p.len() <= s.len() && !found_at(s, p, i) {
        lemma_first_from(s, p, i + 1);
    }
}

/// Where `p` stands at `k`, and at no place before, it is found at `k`.
pub proof fn lemma_first_at(s: Seq<char>, p: Seq<char>, k: int)
    requires
        found_at(s, p, k),
        forall|j: int| 0 <= j < k ==> !#[trigger] found_at(s, p, j),
    ensures
        first_at(s, p) == Some(k),
{
    lemma_first_from(s, p, 0);
}

fn stands_at(s: &Vec<char>, p: &Vec<char>, i: usize) -> (r: bool)
    requires
        i + p@.len() <= s@.len(),
    ensures
        r == found_at(s@, p@, i as int),
{
    let n: usize = s.len();
    let mut k: usize = 0;
    while k < p.len()
        invariant
            n == s@.len(),
            i + p@.len() <= n,
            k <= p@.len(),
            forall|j: int| 0 <= j < k ==> s@[i + j] == p@[j],
        decreases p@.len() - k,
    {
        if s[i + k] != p[k] {
            assert(s@.subrange(i as int, i + p@.len())[k as int] != p@[k as int]);
            return false;
        }
        k += 1;
    }
    assert(s@.subrange(i as int, i + p@.len()) =~= p@);
    true
}

fn find_from(s: &Vec<char>, p: &Vec<char>, from: usize) -> (r: Option<usize>)
    requires
        from <= s@.len(),
    ensures
        (match r {
            Some(i) => Some(i as int),
            None => None,
        }) == first_from(s@, p@, from as int),
{
    if p.len() > s.len() {
        return None;
    }
    let last: usize = s.len() - p.len();
    let mut i: usize = from;
    while i <= last
        invariant
            last == s@.len() - p@.len(),
            from <= i <= s@.len() + 1,
            last < i ==> i <= last + 1 || i == from,
            first_from(s@, p@, from as int) == first_from(s@, p@, i as int),
        decreases s@.len() + 1 - i,
    {
        if stands_at(s, p, i) {
            return Some(i);
        }
        if i == last {
            return None;
        }
        i += 1;
    }
    None
}

/// Whether `p` stands somewhere in `s`.
pub fn contains(s: &str, p: &str) -> (r: bool)
    ensures
        r == (first_at(s@, p@) is Some),
{
    let a = chars_of(s);
    let b = chars_of(p);
    find_from(&a, &b, 0).is_some()
}

/// Cuts a text at the first `p`.
pub fn split_first(s: &str, p: &str) -> (r: Option<(String, String)>)
    ensures
        (match r {
            Some((a, b)) => Some((a@, b@)),
            None => None,
        }) == cut_first(s@, p@),
{
    let a = chars_of(s);
    let b = chars_of(p);
    let n: usize = a.len();
    proof {
        lemma_first_from(s@, p@, 0);
    }
    match find_from(&a, &b, 0) {
        Some(i) => {
            assert(a@.subrange(0, i as int) =~= a@.take(i as int));
            assert(a@.subrange(i + b@.len(), a@.len() as int) =~= a@.skip(i + b@.len()));
            Some((text_of(&a, 0, i), text_of(&a, i + b.len(), n)))
        },
        None => None,
    }
}

/// The text before the first `p`; all of it where there is none.
pub fn until(s: &str, p: &str) -> (r: String)
    ensures
        r@ == before_first(s@, p@),
{
    match split_first(s, p) {
        Some((a, _)) => a,
        None => crate::text::copy_text(s),
    }
}

/// Replaces each `from` by `to`.
pub fn replace(s: &str, from: &str, to: &str) -> (r: String)
    requires
        from@.len() > 0,
    ensures
        r@ == replaced(s@, from@, to@),
{
    let a = chars_of(s);
    let b = chars_of(from);
    let n: usize = a.len();
    let mut out = String::new();
    let mut i: usize = 0;
    assert(a@.skip(0) =~= a@);
    assert(out@ =~= Seq::<char>::empty());
    loop
        invariant
            a@ == s@,
            n == a@.len(),
            b@ == from@,
            b@.len() > 0,
            i <= a@.len(),
            replaced(s@, from@, to@) == out@ + replaced(a@.skip(i as int), from@, to@),
        decreases a@.len() - i,
    {
        let ghost rest = a@.skip(i as int);
        let ghost before = out@;
        proof {
            lemma_first_in_skip(a@, b@, i as int);
            lemma_first_from(a@, b@, i as int);
        }
        match find_from(&a, &b, i) {
            Some(k) => {
                let piece = text_of(&a, i, k);
                assert(piece@ =~= rest.take(k - i));
                out = out.concat(piece.as_str()).concat(to);
                assert(rest.skip(k - i + b@.len()) =~= a@.skip(k + b@.len()));
                i = k + b.len();
                assert(before + replaced(rest, from@, to@) =~= out@ + replaced(
                    a@.skip(i as int),
                    from@,
                    to@,
                ));
            },
            None => {
                let piece = text_of(&a, i, n);
                assert(piece@ =~= rest);
                out = out.concat(piece.as_str());
                return out;
            },
        }
    }
}

/// What is found from `i` on is found at the front of what follows `i`.
proof fn lemma_first_in_skip(s: Seq<char>, p: Seq<char>, i: int)
    requires
        0 <= i <= s.len(),
    ensures
        first_at(s.skip(i), p) == (match first_from(s, p, i) {
            Some(k) => Some(k - i),
            None => None,
        }),
{
    let t = s.skip(i);
    lemma_first_from(s, p, i);
    lemma_first_from(t, p, 0);
    assert forall|j: int| 0 <= j implies #[trigger] found_at(t, p, j) == found_at(s, p, i + j) by {
        if j + p.len() <= t.len() {
            assert(t.subrange(j, j + p.len()) =~= s.subrange(i + j, i + j + p.len()));
        }
    }
    match first_from(s, p, i) {
        Some(k) => {
            assert(found_at(t, p, k - i));
            assert forall|j: int| 0 <= j < k - i implies !#[trigger] found_at(t, p, j) by {
                assert(!found_at(s, p, i + j));
            }
        },
        None => {
            assert forall|j: int| 0 <= j implies !#[trigger] found_at(t, p, j) by {
                assert(!found_at(s, p, i + j));
            }
        },
    }
}

/// Replacing looks at one place after the other.
pub proof fn lemma_replaced_step(s: Seq<char>, from: Seq<char>, to: Seq<char>)
    requires
        from.len() > 0,
    ensures
        s.len() == 0 ==> replaced(s, from, to) == s,
        found_at(s, from, 0) ==> replaced(s, from, to) == to + replaced(
            s.skip(from.len() as int),
            from,
            to,
        ),
        s.len() > 0 && !found_at(s, from, 0) ==> replaced(s, from, to) == seq![s[0]] + replaced(
            s.skip(1),
            from,
            to,
        ),
{
    lemma_first_from(s, from, 0);
    if found_at(s, from, 0) {
        assert(s.take(0) + to =~= to);
    } else if s.len() > 0 {
        let t = s.skip(1);
        lemma_first_in_skip(s, from, 1);
        lemma_first_from(t, from, 0);
        assert(first_at(s, from) == first_from(s, from, 1)) by {
            if from.len() > s.len() {
                lemma_first_from(s, from, 1);
            }
        }
        match first_at(t, from) {
            Some(k) => {
                assert(s.take(k + 1) =~= seq![s[0]] + t.take(k));
                assert(s.skip(k + 1 + from.len()) =~= t.skip(k + from.len()));
                assert(replaced(s, from, to) =~= seq![s[0]] + replaced(t, from, to));
            },
            None => {
                assert(s =~= seq![s[0]] + t);
            },
        }
    }
}

} // verus!
