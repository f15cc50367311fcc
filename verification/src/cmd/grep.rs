//! `unisonfs grep`: what is asked for, and how results are shown.

use crate::api::dto::SearchReq;
use crate::text::{
    copy_text, drop_front, has_prefix, is_char, opt_str_view, starts_with, trim_start_char,
};
use vstd::prelude::*;

verus! {

/// Results of a regex scan, where no limit is given.
pub const LITERAL_LIMIT: u32 = 50;

/// Results of a semantic search, where no limit is given.
pub const SEMANTIC_LIMIT: u32 = 10;

/// The limit that was given, or else the usual one.
pub open spec fn limit_or(limit: Option<u32>, usual: u32) -> Option<u32> {
    match limit {
        Some(l) => Some(l),
        None => Some(usual),
    }
}

/// How many results a regex scan asks for.
pub fn literal_limit(limit: Option<u32>) -> (r: Option<u32>)
    ensures
        r == limit_or(limit, 50),
        r == (match limit {
            Some(l) => Some(l),
            None => Some(LITERAL_LIMIT),
        }),
{
    match limit {
        Some(l) => Some(l),
        None => Some(LITERAL_LIMIT),
    }
}

/// The semantic search for a query.
pub fn search_request(query: String, limit: Option<u32>, kind: Vec<String>) -> (r: SearchReq)
    ensures
        r.k == limit_or(limit, 10),
        r.q == query,
        r.k == (match limit {
            Some(l) => Some(l),
            None => Some(SEMANTIC_LIMIT),
        }),
        r.kind == kind,
        r.memory_type is None,
        r.as_of is None,
{
    SearchReq {
        q: query,
        k: match limit {
            Some(l) => Some(l),
            None => Some(SEMANTIC_LIMIT),
        },
        kind,
        memory_type: None,
        as_of: None,
    }
}

/// The path prefix that a search is restricted to, as brain paths have it: with
/// one slash in front, whether it was given with one or not.
pub open spec fn scope_prefix(scope: Seq<char>) -> Seq<char> {
    "/"@ + drop_front(scope, is_char('/'))
}

/// A result is under the path prefix that the search is restricted to.
pub open spec fn under_scope(path: Seq<char>, scope: Option<Seq<char>>) -> bool {
    match scope {
        Some(s) => has_prefix(path, scope_prefix(s)),
        None => true,
    }
}

/// See [`under_scope`].
pub fn in_scope(path: &str, scope: Option<&str>) -> (r: bool)
    ensures
        r == under_scope(path@, opt_str_view(scope)),
        r == (match opt_str_view(scope) {
            Some(s) => has_prefix(path@, scope_prefix(s)),
            None => true,
        }),
{
    match scope {
        Some(s) => {
            let prefix = copy_text("/").concat(trim_start_char(s, '/').as_str());
            starts_with(path, prefix.as_str())
        },
        None => true,
    }
}

/// The title of a document, or what stands for it.
pub open spec fn shown_title(title: Option<Seq<char>>) -> Seq<char> {
    match title {
        Some(t) => t,
        None => "(no title)"@,
    }
}

/// A result of a regex scan.
pub fn literal_line(path: &str, title: Option<&str>) -> (r: String)
    ensures
        r@ == path@ + ": "@ + shown_title(opt_str_view(title)),
{
    copy_text(path).concat(": ").concat(
        match title {
            Some(t) => t,
            None => "(no title)",
        },
    )
}

/// A result of a semantic search. `score` is the score with three decimals.
pub fn semantic_line(path: &str, score: &str, title: Option<&str>, highlight: Option<&str>) -> (r:
    String)
    ensures
        r@ == path@ + " ["@ + score@ + "] — "@ + shown_title(opt_str_view(title)) + (
        match highlight {
            Some(h) => "\n  "@ + h@,
            None => Seq::empty(),
        }),
{
    let line = copy_text(path).concat(" [").concat(score).concat("] — ").concat(
        match title {
            Some(t) => t,
            None => "(no title)",
        },
    );
    match highlight {
        Some(h) => {
            let more = copy_text("\n  ").concat(h);
            line.concat(more.as_str())
        },
        None => {
            assert(line@ + Seq::<char>::empty() =~= line@);
            line
        },
    }
}

} // verus!
