//! The least-recently-used cache of directory lookups.

use lru::LruCache;
use std::num::NonZeroUsize;
use vstd::prelude::*;

verus! {

/// The hasher that [`LruCache`] uses.
#[verifier::external_type_specification]
#[verifier::external_body]
pub struct ExDefaultHasher(lru::DefaultHasher);

/// A cache that drops the entry that was not used for longest.
#[verifier::external_type_specification]
#[verifier::external_body]
#[verifier::reject_recursive_types(K)]
#[verifier::reject_recursive_types(V)]
#[verifier::reject_recursive_types(S)]
pub struct ExLruCache<K, V, S>(LruCache<K, V, S>);

/// A cached lookup: parent and name, and the inode that was found.
pub type Lookup = ((u64, Seq<char>), u64);

/// The entries of a cache, the one that was used last first.
pub uninterp spec fn cache_entries(c: LruCache<(u64, String), u64>) -> Seq<
    ((u64, Seq<char>), u64),
>;

/// How many entries a cache can hold.
pub uninterp spec fn cache_limit(c: LruCache<(u64, String), u64>) -> nat;

/// The inode that is cached for `k`.
pub open spec fn cached_ino(s: Seq<Lookup>, k: (u64, Seq<char>)) -> Option<u64>
    decreases s.len(),
{
    if s.len() == 0 {
        None
    } else if s[0].0 == k {
        Some(s[0].1)
    } else {
        cached_ino(s.skip(1), k)
    }
}

/// The entries other than that for `k`.
pub open spec fn without_key(s: Seq<Lookup>, k: (u64, Seq<char>)) -> Seq<Lookup>
    decreases s.len(),
{
    if s.len() == 0 {
        Seq::empty()
    } else if s.last().0 == k {
        without_key(s.drop_last(), k)
    } else {
        without_key(s.drop_last(), k).push(s.last())
    }
}

/// The entries after `k` was used and stands for `ino`: it comes first, and a
/// full cache has dropped its last entry to make room for a new one.
pub open spec fn used(s: Seq<Lookup>, limit: nat, k: (u64, Seq<char>), ino: u64) -> Seq<Lookup> {
    if cached_ino(s, k) is None && s.len() == limit {
        seq![(k, ino)] + s.drop_last()
    } else {
        seq![(k, ino)] + without_key(s, k)
    }
}

/// `LruCache::new` makes an empty cache for `cap` entries. It reserves room for
/// them, so the number is bounded here.
#[verifier::external_body]
pub(crate) fn new_cache(cap: usize) -> (c: LruCache<(u64, String), u64>)
    requires
        0 < cap <= 1_000_000,
    ensures
        cache_entries(c).len() == 0,
        cache_limit(c) == cap,
{
    LruCache::new(NonZeroUsize::new(cap).unwrap())
}

/// `LruCache::get` finds the value of a key and makes the entry the one that was
/// used last. A key that is not there changes nothing.
#[verifier::external_body]
pub(crate) fn cache_get(c: &mut LruCache<(u64, String), u64>, k: &(u64, String)) -> (r: Option<
    u64,
>)
    ensures
        r == cached_ino(cache_entries(*old(c)), (k.0, k.1@)),
        cache_entries(*final(c)) == (match r {
            Some(ino) => used(cache_entries(*old(c)), cache_limit(*old(c)), (k.0, k.1@), ino),
            None => cache_entries(*old(c)),
        }),
        cache_limit(*final(c)) == cache_limit(*old(c)),
{
    c.get(k).copied()
}

/// `LruCache::put` stores a value for a key and makes the entry the one that
/// was used last. A new key in a full cache replaces the entry that was not
/// used for longest.
#[verifier::external_body]
pub(crate) fn cache_put(c: &mut LruCache<(u64, String), u64>, k: (u64, String), ino: u64)
    ensures
        cache_entries(*final(c)) == used(
            cache_entries(*old(c)),
            cache_limit(*old(c)),
            (k.0, k.1@),
            ino,
        ),
        cache_limit(*final(c)) == cache_limit(*old(c)),
{
    let _ = c.put(k, ino);
}

/// `LruCache::pop` takes out the entry of a key, where there is one, and leaves
/// the others in their order.
#[verifier::external_body]
pub(crate) fn cache_pop(c: &mut LruCache<(u64, String), u64>, k: &(u64, String))
    ensures
        cache_entries(*final(c)) == without_key(cache_entries(*old(c)), (k.0, k.1@)),
        cache_limit(*final(c)) == cache_limit(*old(c)),
{
    let _ = c.pop(k);
}

// ── What the entries are ────────────────────────────────────────────────────

/// A lookup that is cached is among the entries.
pub proof fn lemma_cached(s: Seq<Lookup>, k: (u64, Seq<char>))
    ensures
        cached_ino(s, k) matches Some(ino) ==> s.contains((k, ino)),
    decreases s.len(),
{
    if s.len() > 0 {
        if s[0].0 == k {
            assert(s[0] == (k, s[0].1));
        } else {
            lemma_cached(s.skip(1), k);
            if cached_ino(s, k) is Some {
                let x = (k, cached_ino(s, k)->0);
                let i = choose|i: int| 0 <= i < s.skip(1).len() && s.skip(1)[i] == x;
                assert(s[i + 1] == x);
            }
        }
    }
}

/// Without a key, the entries are some of those that were there, and none has
/// the key.
pub proof fn lemma_without_key(s: Seq<Lookup>, k: (u64, Seq<char>))
    ensures
        forall|i: int|
            0 <= i < without_key(s, k).len() ==> s.contains(#[trigger] without_key(s, k)[i])
                && without_key(s, k)[i].0 != k,
    decreases s.len(),
{
    if s.len() > 0 {
        let f = s.drop_last();
        lemma_without_key(f, k);
        assert forall|i: int| 0 <= i < without_key(s, k).len() implies s.contains(
            #[trigger] without_key(s, k)[i],
        ) && without_key(s, k)[i].0 != k by {
            if i < without_key(f, k).len() {
                let x = without_key(f, k)[i];
                assert(f.contains(x));
                let j = choose|j: int| 0 <= j < f.len() && f[j] == x;
                assert(s[j] == x);
            } else {
                assert(s[s.len() - 1] == s.last());
            }
        }
    }
}

/// After a lookup was used, every entry is the one for it or was there before.
pub proof fn lemma_used(s: Seq<Lookup>, limit: nat, k: (u64, Seq<char>), ino: u64)
    requires
        limit > 0,
    ensures
        forall|i: int|
            0 <= i < used(s, limit, k, ino).len() ==> #[trigger] used(s, limit, k, ino)[i] == (
                k,
                ino,
            ) || s.contains(used(s, limit, k, ino)[i]),
{
    lemma_without_key(s, k);
    let u = used(s, limit, k, ino);
    assert forall|i: int| 0 <= i < u.len() implies #[trigger] u[i] == (k, ino) || s.contains(
        u[i],
    ) by {
        if i > 0 {
            if cached_ino(s, k) is None && s.len() == limit {
                assert(u[i] == s[i - 1]);
            } else {
                assert(u[i] == without_key(s, k)[i - 1]);
            }
        }
    }
}

} // verus!
