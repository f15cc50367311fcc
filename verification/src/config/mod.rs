//! Configuration: where files are kept. The directories come from the platform.

pub mod credentials;

use crate::paths::{join_path, path_in};
use crate::text::{ascii_alphanumeric, ascii_letter_or_digit, chars_of, copy_text};
use vstd::prelude::*;

verus! {

/// The directory of the cache, where the platform has none.
pub const FALLBACK_CACHE_DIR: &'static str = "/tmp/unisonfs";

/// The directory of the daemons' state, where the platform has none.
pub const FALLBACK_RUNTIME_DIR: &'static str = "/tmp/unisonfs-run";

/// The platform's directory, or the one to use in its place.
pub fn cache_dir(platform: Option<String>) -> (r: String)
    ensures
        r@ == (match platform {
            Some(d) => d@,
            None => FALLBACK_CACHE_DIR@,
        }),
{
    match platform {
        Some(d) => d,
        None => copy_text(FALLBACK_CACHE_DIR),
    }
}

/// The platform's directory, or the one to use in its place.
pub fn runtime_dir(platform: Option<String>) -> (r: String)
    ensures
        r@ == (match platform {
            Some(d) => d@,
            None => FALLBACK_RUNTIME_DIR@,
        }),
{
    match platform {
        Some(d) => d,
        None => copy_text(FALLBACK_RUNTIME_DIR),
    }
}

/// The cache of a workspace.
pub open spec fn workspace_db(cache_dir: Seq<char>, workspace_id: Seq<char>) -> Seq<char> {
    path_in(path_in(cache_dir, workspace_id), "brain.db"@)
}

pub fn cache_db_path(cache_dir: &str, workspace_id: &str) -> (r: String)
    ensures
        r@ == workspace_db(cache_dir@, workspace_id@),
{
    join_path(join_path(cache_dir, workspace_id).as_str(), "brain.db")
}

/// The character that stands for `c` in a tag's directory.
pub open spec fn tag_char(c: char) -> char {
    if ascii_alphanumeric(c) || c == '-' || c == '_' {
        c
    } else {
        '_'
    }
}

/// A tag as part of a directory's name: ASCII letters, digits, `-` and `_` as
/// they are, `_` for the rest.
pub open spec fn safe_tag(tag: Seq<char>) -> Seq<char> {
    tag.map_values(|c: char| tag_char(c))
}

fn make_safe_tag(tag: &str) -> (r: String)
    ensures
        r@ == safe_tag(tag@),
{
    let v = chars_of(tag);
    let mut out = String::new();
    let mut i: usize = 0;
    assert(out@ =~= safe_tag(tag@.take(0)));
    while i < v.len()
        invariant
            i <= v@.len(),
            v@ == tag@,
            out@ == safe_tag(tag@.take(i as int)),
        decreases v@.len() - i,
    {
        let c = v[i];
        let s = if ascii_letter_or_digit(c) || c == '-' || c == '_' {
            c
        } else {
            '_'
        };
        out.push(s);
        assert(out@ =~= safe_tag(tag@.take(i + 1)));
        i += 1;
    }
    assert(tag@.take(tag@.len() as int) =~= tag@);
    out
}

/// The cache of a workspace under one mount tag.
pub open spec fn tagged_db(cache_dir: Seq<char>, workspace_id: Seq<char>, tag: Seq<char>) -> Seq<
    char,
> {
    if tag.len() == 0 {
        workspace_db(cache_dir, workspace_id)
    } else {
        path_in(path_in(cache_dir, workspace_id + "__"@ + safe_tag(tag)), "brain.db"@)
    }
}

/// Cache DB path scoped by both workspace_id and mount tag.
/// Falls back to [`cache_db_path`] when the tag is empty.
pub fn cache_db_path_for_tag(cache_dir: &str, workspace_id: &str, tag: &str) -> (r: String)
    ensures
        r@ == tagged_db(cache_dir@, workspace_id@, tag@),
{
    if tag.is_empty() {
        return cache_db_path(cache_dir, workspace_id);
    }
    let name = copy_text(workspace_id).concat("__").concat(make_safe_tag(tag).as_str());
    join_path(join_path(cache_dir, name.as_str()).as_str(), "brain.db")
}

/// Path without a tag; for caches made before tags.
pub fn legacy_cache_db_path(cache_dir: &str, workspace_id: &str) -> (r: String)
    ensures
        r@ == workspace_db(cache_dir@, workspace_id@),
{
    cache_db_path(cache_dir, workspace_id)
}

pub fn daemon_log_path(cache_dir: &str) -> (r: String)
    ensures
        r@ == path_in(cache_dir@, "daemon.log"@),
{
    join_path(cache_dir, "daemon.log")
}

} // verus!
