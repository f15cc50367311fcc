//! `unisonfs status`, `whoami` and `list`: what is shown.

use crate::api::dto::WhoamiInfo;
use crate::daemon::protocol::DaemonStatus;
use crate::text::{copy_text, decimal, int_text, join, joined, print_int, print_nat, texts};
use vstd::prelude::*;

verus! {

/// The lines that show a daemon's status at `now`.
pub open spec fn status_text(s: DaemonStatus, now: i64) -> Seq<Seq<char>> {
    seq![
        "Tag:            "@ + s.tag@,
        "Mount:          "@ + s.mount_path@,
        "PID:            "@ + decimal(s.pid as nat),
        "Push queue:     "@ + decimal(s.push_queue_len as nat) + " items"@,
        match s.last_pull_at {
            Some(ts) => "Last pull:      "@ + int_text(now - ts) + "ms ago"@,
            None => "Last pull:      never"@,
        },
    ]
}

/// The lines that show a daemon's status at `now`.
pub fn status_lines(s: &DaemonStatus, now: i64) -> (r: Vec<String>)
    requires
        s.last_pull_at is Some ==> i64::MIN <= now - s.last_pull_at->0 <= i64::MAX,
    ensures
        texts(r@) == status_text(*s, now),
{
    let last = match s.last_pull_at {
        Some(ts) => copy_text("Last pull:      ").concat(print_int(now - ts).as_str()).concat(
            "ms ago",
        ),
        None => copy_text("Last pull:      never"),
    };
    let mut out: Vec<String> = Vec::new();
    out.push(copy_text("Tag:            ").concat(s.tag.as_str()));
    out.push(copy_text("Mount:          ").concat(s.mount_path.as_str()));
    out.push(copy_text("PID:            ").concat(print_nat(s.pid as u64).as_str()));
    out.push(
        copy_text("Push queue:     ").concat(print_nat(s.push_queue_len as u64).as_str()).concat(
            " items",
        ),
    );
    out.push(last);
    assert(texts(out@) =~= status_text(*s, now));
    out
}

pub open spec fn yes_no(b: bool) -> Seq<char> {
    if b {
        "true"@
    } else {
        "false"@
    }
}

/// The lines that show an account.
pub open spec fn whoami_text(w: WhoamiInfo, api_url: Seq<char>) -> Seq<Seq<char>> {
    seq![
        "User:    "@ + w.user_email@ + " ("@ + w.user_id@ + ")"@,
        "Tenant:  "@ + w.tenant_name@ + " ("@ + w.tenant_id@ + ") [verified: "@ + yes_no(
            w.tenant_verified,
        ) + "]"@,
        "Scopes:  "@ + joined(texts(w.scopes@), ", "@),
        "API URL: "@ + api_url,
    ]
}

/// The lines that show an account.
pub fn whoami_lines(w: &WhoamiInfo, api_url: &str) -> (r: Vec<String>)
    ensures
        texts(r@) == whoami_text(*w, api_url@),
{
    let verified = if w.tenant_verified {
        "true"
    } else {
        "false"
    };
    let mut out: Vec<String> = Vec::new();
    out.push(
        copy_text("User:    ").concat(w.user_email.as_str()).concat(" (").concat(
            w.user_id.as_str(),
        ).concat(")"),
    );
    out.push(
        copy_text("Tenant:  ").concat(w.tenant_name.as_str()).concat(" (").concat(
            w.tenant_id.as_str(),
        ).concat(") [verified: ").concat(verified).concat("]"),
    );
    out.push(copy_text("Scopes:  ").concat(join(&w.scopes, ", ").as_str()));
    out.push(copy_text("API URL: ").concat(api_url));
    assert(texts(out@) =~= whoami_text(*w, api_url@));
    out
}

/// A running mount in the list.
pub fn list_line(tag: &str, pid: u32) -> (r: String)
    ensures
        r@ == tag@ + " (pid "@ + decimal(pid as nat) + ")"@,
{
    copy_text(tag).concat(" (pid ").concat(print_nat(pid as u64).as_str()).concat(")")
}

} // verus!
