//! Daemon lifecycle: state files, the protocol, and what the commands decide.

pub mod lifecycle;
pub mod protocol;

use crate::paths::{join_path, path_in};
use crate::text::{copy_text, parse_u32, text_u32, trim, trimmed};
use vstd::prelude::*;

verus! {

/// Path to the daemon's pid file for a given mount tag.
pub fn pid_path(runtime_dir: &str, tag: &str) -> (r: String)
    ensures
        r@ == path_in(runtime_dir@, tag@ + ".pid"@),
{
    join_path(runtime_dir, copy_text(tag).concat(".pid").as_str())
}

/// Path to the daemon's unix socket for a given mount tag.
pub fn socket_path(runtime_dir: &str, tag: &str) -> (r: String)
    ensures
        r@ == path_in(runtime_dir@, tag@ + ".sock"@),
{
    join_path(runtime_dir, copy_text(tag).concat(".sock").as_str())
}

/// Path to the per-mount daemon log file.
pub fn log_path(cache_dir: &str, tag: &str) -> (r: String)
    ensures
        r@ == path_in(cache_dir@, tag@ + ".log"@),
{
    join_path(cache_dir, copy_text(tag).concat(".log").as_str())
}

/// Path to the startup progress file.
pub fn startup_path(runtime_dir: &str, tag: &str) -> (r: String)
    ensures
        r@ == path_in(runtime_dir@, tag@ + ".startup"@),
{
    join_path(runtime_dir, copy_text(tag).concat(".startup").as_str())
}

/// The PID in the text of a pid file.
pub fn read_pid(data: &str) -> (r: Option<u32>)
    ensures
        r == text_u32(trimmed(data@)),
{
    parse_u32(trim(data).as_str())
}

} // verus!
