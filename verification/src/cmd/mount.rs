//! `unisonfs mount`: tags, paths, imports and the daemon's arguments.

use crate::paths::{file_name, name_in};
use crate::text::{
    copy_text, decimal, ends_with, has_prefix, has_suffix, opt_view, pieces, print_nat, split_on,
    starts_with, texts, trim, trimmed,
};
use vstd::prelude::*;

verus! {

/// The tag of a mount: the one given, or the last name of its path.
pub open spec fn mount_tag(given: Option<Seq<char>>, mount_path: Seq<char>) -> Seq<char> {
    match given {
        Some(t) => t,
        None => match name_in(mount_path) {
            Some(n) => n,
            None => "brain"@,
        },
    }
}

/// The tag of a mount: the one given, or the last name of its path.
pub fn tag_for(given: Option<String>, mount_path: &str) -> (r: String)
    ensures
        r@ == mount_tag(opt_view(given), mount_path@),
{
    match given {
        Some(t) => t,
        None => match file_name(mount_path) {
            Some(n) => n,
            None => copy_text("brain"),
        },
    }
}

/// Whether a tag can be mounted.
#[derive(Debug, PartialEq, Eq)]
pub enum TagState {
    Free,
    /// Files of a daemon that is gone are to be removed first.
    Stale,
    /// The tag is mounted; the text says so.
    Taken(String),
}

/// A daemon that is alive has the tag.
pub open spec fn is_taken(pid: Option<u32>, alive: bool) -> bool {
    pid is Some && alive
}

/// Guards against mounting a tag twice: `pid` is what its pid file says.
pub fn tag_state(tag: &str, mount_path: &str, pid: Option<u32>, alive: bool) -> (r: TagState)
    ensures
        match pid {
            None => r is Free,
            Some(p) => if alive {
                r is Taken && r->Taken_0@ == "tag '"@ + tag@ + "' is already mounted (pid "@
                    + decimal(p as nat) + "). Use `unisonfs unmount "@ + mount_path@ + "` first."@
            } else {
                r is Stale
            },
        },
        r is Taken <==> is_taken(pid, alive),
        r is Free <==> pid is None,
{
    match pid {
        None => TagState::Free,
        Some(p) => if alive {
            TagState::Taken(
                copy_text("tag '").concat(tag).concat("' is already mounted (pid ").concat(
                    print_nat(p as u64).as_str(),
                ).concat("). Use `unisonfs unmount ").concat(mount_path).concat("` first."),
            )
        } else {
            TagState::Stale
        },
    }
}

/// The texts among `parts` that hold more than whitespace, trimmed.
pub open spec fn trimmed_parts(parts: Seq<Seq<char>>) -> Seq<Seq<char>>
    decreases parts.len(),
{
    if parts.len() == 0 {
        Seq::empty()
    } else if trimmed(parts.last()).len() == 0 {
        trimmed_parts(parts.drop_last())
    } else {
        trimmed_parts(parts.drop_last()).push(trimmed(parts.last()))
    }
}

/// The brain path prefixes of `--memory-paths`, which are separated by commas.
pub fn memory_paths(list: &str) -> (r: Vec<String>)
    ensures
        texts(r@) == trimmed_parts(pieces(list@, ',')),
{
    let parts = split_on(list, ',');
    let ghost all = texts(parts@);
    let mut out: Vec<String> = Vec::new();
    let mut i: usize = 0;
    assert(all.take(0) =~= Seq::empty());
    assert(texts(out@) =~= Seq::empty());
    while i < parts.len()
        invariant
            i <= parts@.len(),
            all == texts(parts@),
            texts(out@) == trimmed_parts(all.take(i as int)),
        decreases parts@.len() - i,
    {
        let ghost before = texts(out@);
        assert(all.take(i + 1).drop_last() =~= all.take(i as int));
        assert(all.take(i + 1).last() == parts@[i as int]@);
        let t = trim(parts[i].as_str());
        if !t.as_str().is_empty() {
            out.push(t);
            assert(texts(out@) =~= before.push(t@));
        }
        i += 1;
    }
    assert(all.take(all.len() as int) =~= all);
    out
}

/// Where a local file is imported to: `.md` files that are not hidden become
/// private notes, others are left alone.
pub open spec fn import_target(name: Seq<char>) -> Option<Seq<char>> {
    if has_suffix(name, ".md"@) && !has_prefix(name, "."@) {
        Some("/private/notes/"@ + name)
    } else {
        None
    }
}

/// The brain path that a local file is imported to, if it is imported.
pub fn import_path(name: &str) -> (r: Option<String>)
    ensures
        opt_view(r) == import_target(name@),
{
    if ends_with(name, ".md") && !starts_with(name, ".") {
        Some(copy_text("/private/notes/").concat(name))
    } else {
        None
    }
}

/// What the daemon is started with.
#[derive(Debug)]
pub struct DaemonArgs {
    pub mount_path: String,
    pub tag: String,
    pub sync_interval: u64,
    pub deletion_scan_interval: u64,
    pub memory_paths: String,
    pub no_import: bool,
    pub no_sync: bool,
    pub no_agent_hint: bool,
}

pub open spec fn flag(name: Seq<char>, on: bool) -> Seq<Seq<char>> {
    if on {
        seq![name]
    } else {
        Seq::empty()
    }
}

/// The arguments that the daemon's process is started with.
pub open spec fn daemon_command(a: DaemonArgs) -> Seq<Seq<char>> {
    seq![
        "daemon-inner"@,
        "--mountpoint"@,
        a.mount_path@,
        "--tag"@,
        a.tag@,
        "--delta-interval-secs"@,
        decimal(a.sync_interval as nat),
        "--deletion-scan-interval-secs"@,
        decimal(a.deletion_scan_interval as nat),
    ] + (if a.memory_paths@.len() == 0 {
        Seq::empty()
    } else {
        seq!["--memory-paths"@, a.memory_paths@]
    }) + flag("--no-import"@, a.no_import) + flag("--no-sync"@, a.no_sync) + flag(
        "--no-agent-hint"@,
        a.no_agent_hint,
    )
}

/// The arguments that the daemon's process is started with.
pub fn daemon_args(a: &DaemonArgs) -> (r: Vec<String>)
    ensures
        texts(r@) == daemon_command(*a),
{
    let mut out: Vec<String> = Vec::new();
    out.push(copy_text("daemon-inner"));
    out.push(copy_text("--mountpoint"));
    out.push(copy_text(a.mount_path.as_str()));
    out.push(copy_text("--tag"));
    out.push(copy_text(a.tag.as_str()));
    out.push(copy_text("--delta-interval-secs"));
    out.push(print_nat(a.sync_interval));
    out.push(copy_text("--deletion-scan-interval-secs"));
    out.push(print_nat(a.deletion_scan_interval));
    if !a.memory_paths.as_str().is_empty() {
        out.push(copy_text("--memory-paths"));
        out.push(copy_text(a.memory_paths.as_str()));
    }
    if a.no_import {
        out.push(copy_text("--no-import"));
    }
    if a.no_sync {
        out.push(copy_text("--no-sync"));
    }
    if a.no_agent_hint {
        out.push(copy_text("--no-agent-hint"));
    }
    assert(texts(out@) =~= daemon_command(*a));
    out
}

} // verus!
