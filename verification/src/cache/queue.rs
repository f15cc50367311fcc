//! The queue of pushes that wait to be sent to the brain.
//!
//! There is at most one job per brain path: a later request replaces an earlier
//! one. A request that arrives while the job for its path is under way waits
//! beside it and takes its place once it succeeds.

use super::db::Db;
use super::rows::{changed, ChangeView, QueueRow, QueueView, Tables};
use crate::table::Row;
use crate::text::{
    copy_opt, copy_text, drop_front, has_prefix, is_char, lemma_pieces_nonempty, opt_str_view,
    opt_view, own_opt, pieces, same_text, split_on, starts_with, texts, trim_start_char,
};
use vstd::prelude::*;

verus! {

#[derive(Debug, Clone, Copy, PartialEq, Eq, Structural)]
pub enum PushOp {
    Write,
    Delete,
    Rename,
}

/// The name of an operation.
pub open spec fn op_text(op: PushOp) -> Seq<char> {
    match op {
        PushOp::Write => "write"@,
        PushOp::Delete => "delete"@,
        PushOp::Rename => "rename"@,
    }
}

/// The operation with the name `s`.
pub open spec fn op_named(s: Seq<char>) -> Option<PushOp> {
    if s == "write"@ {
        Some(PushOp::Write)
    } else if s == "delete"@ {
        Some(PushOp::Delete)
    } else if s == "rename"@ {
        Some(PushOp::Rename)
    } else {
        None
    }
}

/// Every operation is found by its name.
pub proof fn lemma_op_round_trip(op: PushOp)
    ensures
        op_named(op_text(op)) == Some(op),
{
    reveal_strlit("write");
    reveal_strlit("delete");
    reveal_strlit("rename");
    assert("write"@[0] == 'w');
    assert("delete"@[0] == 'd');
    assert("rename"@[0] == 'r');
}

impl PushOp {
    pub fn as_str(self) -> (r: &'static str)
        ensures
            r@ == op_text(self),
    {
        match self {
            PushOp::Write => "write",
            PushOp::Delete => "delete",
            PushOp::Rename => "rename",
        }
    }

    pub fn parse(s: &str) -> (r: Option<Self>)
        ensures
            r == op_named(s@),
    {
        if same_text(s, "write") {
            Some(PushOp::Write)
        } else if same_text(s, "delete") {
            Some(PushOp::Delete)
        } else if same_text(s, "rename") {
            Some(PushOp::Rename)
        } else {
            None
        }
    }
}

/// A job that was claimed from the queue.
#[derive(Debug)]
pub struct PushJob {
    pub brain_path: String,
    pub op: PushOp,
    pub content_ino: Option<u64>,
    pub rename_to: Option<String>,
    pub attempt: i64,
}

/// A [`PushJob`] with its texts as character sequences.
pub struct PushJobView {
    pub brain_path: Seq<char>,
    pub op: PushOp,
    pub content_ino: Option<u64>,
    pub rename_to: Option<Seq<char>>,
    pub attempt: i64,
}

impl View for PushJob {
    type V = PushJobView;

    open spec fn view(&self) -> PushJobView {
        PushJobView {
            brain_path: self.brain_path@,
            op: self.op,
            content_ino: self.content_ino,
            rename_to: opt_view(self.rename_to),
            attempt: self.attempt,
        }
    }
}

/// Files that the operating system leaves behind, by the first and the last
/// component of a path without its leading slashes.
pub open spec fn is_noise(path: Seq<char>) -> bool {
    let trimmed = drop_front(path, is_char('/'));
    let parts = pieces(trimmed, '/');
    let first = parts.first();
    let basename = parts.last();
    trimmed.len() > 0 && {
        ||| has_prefix(first, ".Spotlight-V100"@)
        ||| has_prefix(first, ".Trashes"@)
        ||| has_prefix(first, ".fseventsd"@)
        ||| has_prefix(first, ".TemporaryItems"@)
        ||| has_prefix(basename, "._"@)
        ||| basename == ".DS_Store"@
        ||| basename == ".localized"@
        ||| basename == ".apdisk"@
        ||| basename == ".VolumeIcon.icns"@
        ||| basename == ".metadata_never_index"@
        ||| basename == ".metadata_never_index_unless_rootfs"@
        ||| basename == ".com.apple.timemachine.donotpresent"@
        ||| basename == "Icon\r"@
    }
}

/// Filter out OS-generated noise paths.
pub fn is_noise_path(path: &str) -> (r: bool)
    ensures
        r == is_noise(path@),
{
    let trimmed = trim_start_char(path, '/');
    if trimmed.as_str().is_empty() {
        return false;
    }
    let parts = split_on(trimmed.as_str(), '/');
    proof {
        lemma_pieces_nonempty(trimmed@, '/');
        assert(texts(parts@)[0] == parts@[0]@);
        assert(texts(parts@).last() == parts@[parts@.len() - 1]@);
    }
    let first = parts[0].as_str();
    let basename = parts[parts.len() - 1].as_str();
    starts_with(first, ".Spotlight-V100") || starts_with(first, ".Trashes") || starts_with(
        first,
        ".fseventsd",
    ) || starts_with(first, ".TemporaryItems") || starts_with(basename, "._") || same_text(
        basename,
        ".DS_Store",
    ) || same_text(basename, ".localized") || same_text(basename, ".apdisk") || same_text(
        basename,
        ".VolumeIcon.icns",
    ) || same_text(basename, ".metadata_never_index") || same_text(
        basename,
        ".metadata_never_index_unless_rootfs",
    ) || same_text(basename, ".com.apple.timemachine.donotpresent") || same_text(
        basename,
        "Icon\r",
    )
}

// ── What the operations do ──────────────────────────────────────────────────

/// The queue after a request for `path`.
pub open spec fn enqueued(
    t: Tables,
    path: Seq<char>,
    op: PushOp,
    content_ino: Option<u64>,
    rename_to: Option<Seq<char>>,
    now_ms: i64,
) -> Tables {
    if is_noise(path) {
        t
    } else {
        let row = match t.queue.get(path) {
            Some(row) => if row.inflight_started_at is Some {
                QueueView {
                    pending_op: Some(op_text(op)),
                    pending_content_ino: content_ino,
                    pending_rename_to: rename_to,
                    updated_at: now_ms,
                    ..row
                }
            } else {
                QueueView {
                    op: op_text(op),
                    content_ino,
                    rename_to,
                    attempt: 0,
                    last_error: None,
                    updated_at: now_ms,
                    ..row
                }
            },
            None => QueueView {
                op: op_text(op),
                content_ino,
                rename_to,
                attempt: 0,
                updated_at: now_ms,
                inflight_started_at: None,
                pending_op: None,
                pending_content_ino: None,
                pending_rename_to: None,
                last_error: None,
                last_status: None,
                poisoned: false,
            },
        };
        changed(t, ChangeView::PutJob(path, row))
    }
}

/// A job can be claimed at `now_ms`: it is not under way, not poisoned, and due.
pub open spec fn claimable(row: QueueView, now_ms: i64) -> bool {
    row.inflight_started_at is None && !row.poisoned && row.updated_at <= now_ms
}

/// `path` has a job that can be claimed, and none that can be is older.
pub open spec fn is_next(t: Tables, path: Seq<char>, now_ms: i64) -> bool {
    &&& t.queue.contains_key(path)
    &&& claimable(t.queue[path], now_ms)
    &&& forall|q: Seq<char>| #[trigger]
        t.queue.contains_key(q) && claimable(t.queue[q], now_ms) ==> t.queue[path].updated_at
            <= t.queue[q].updated_at
}

/// The job that the queue holds for `path`, when its operation is `op`.
pub open spec fn job_of(t: Tables, path: Seq<char>, op: PushOp) -> PushJobView {
    PushJobView {
        brain_path: path,
        op,
        content_ino: t.queue[path].content_ino,
        rename_to: t.queue[path].rename_to,
        attempt: t.queue[path].attempt,
    }
}

/// The queue while the job for `path` is under way since `now_ms`.
pub open spec fn claimed(t: Tables, path: Seq<char>, now_ms: i64) -> Tables {
    changed(
        t,
        ChangeView::PutJob(
            path,
            QueueView { inflight_started_at: Some(now_ms), ..t.queue[path] },
        ),
    )
}

/// A claim of the oldest job that can be claimed, if there is one. A job whose
/// operation has no known name is left where it is.
pub open spec fn claim(t: Tables, now_ms: i64, after: Tables, job: Option<PushJobView>) -> bool {
    if exists|p: Seq<char>| #[trigger] t.queue.contains_key(p) && claimable(t.queue[p], now_ms) {
        exists|p: Seq<char>| #[trigger]
            is_next(t, p, now_ms) && match op_named(t.queue[p].op) {
                Some(op) => job == Some(job_of(t, p, op)) && after == claimed(t, p, now_ms),
                None => job is None && after == t,
            }
    } else {
        job is None && after == t
    }
}

/// The queue after the job for `path` succeeded: what arrived meanwhile takes
/// its place, or nothing is left of it.
pub open spec fn succeeded(t: Tables, path: Seq<char>, now_ms: i64) -> Tables {
    match t.queue.get(path) {
        Some(row) => match row.pending_op {
            Some(op) => changed(
                t,
                ChangeView::PutJob(
                    path,
                    QueueView {
                        op,
                        content_ino: row.pending_content_ino,
                        rename_to: row.pending_rename_to,
                        pending_op: None,
                        pending_content_ino: None,
                        pending_rename_to: None,
                        inflight_started_at: None,
                        attempt: 0,
                        last_error: None,
                        updated_at: now_ms,
                        ..row
                    },
                ),
            ),
            None => changed(t, ChangeView::DropJob(path)),
        },
        None => t,
    }
}

/// Another request for `path` arrived while its job was under way.
pub open spec fn is_followed(t: Tables, path: Seq<char>) -> bool {
    match t.queue.get(path) {
        Some(row) => row.pending_op is Some,
        None => false,
    }
}

/// One more than `n`, where there is room.
pub open spec fn bumped(n: i64) -> i64 {
    if n < i64::MAX {
        (n + 1) as i64
    } else {
        n
    }
}

/// The queue after the job for `path` failed and is to be tried again at `due`.
pub open spec fn failed(t: Tables, path: Seq<char>, error: Seq<char>, due: i64) -> Tables {
    match t.queue.get(path) {
        Some(row) => changed(
            t,
            ChangeView::PutJob(
                path,
                QueueView {
                    inflight_started_at: None,
                    attempt: bumped(row.attempt),
                    last_error: Some(error),
                    updated_at: due,
                    ..row
                },
            ),
        ),
        None => t,
    }
}

/// The queue after the job for `path` was given up.
pub open spec fn poisoned(
    t: Tables,
    path: Seq<char>,
    http_status: u16,
    reason: Seq<char>,
    now_ms: i64,
) -> Tables {
    match t.queue.get(path) {
        Some(row) => changed(
            t,
            ChangeView::PutJob(
                path,
                QueueView {
                    poisoned: true,
                    inflight_started_at: None,
                    last_error: Some(reason),
                    last_status: Some(http_status as i64),
                    updated_at: now_ms,
                    ..row
                },
            ),
        ),
        None => t,
    }
}

impl Db {
    /// Enqueue a push-queue op with latest-wins coalescing semantics. Returns
    /// whether the push worker should be woken.
    pub fn push_queue_upsert(
        &mut self,
        brain_path: &str,
        op: PushOp,
        content_ino: Option<u64>,
        rename_to: Option<&str>,
        now_ms: i64,
    ) -> (r: bool)
        requires
            old(self).wf(),
        ensures
            final(self).follows(*old(self)),
            final(self).tables() == enqueued(
                old(self).tables(),
                brain_path@,
                op,
                content_ino,
                opt_str_view(rename_to),
                now_ms,
            ),
            r == !is_noise(brain_path@),
    {
        if is_noise_path(brain_path) {
            return false;
        }
        let row = match self.job(brain_path) {
            Some(row) => {
                let mut new = row;
                if new.inflight_started_at.is_some() {
                    new.pending_op = Some(copy_text(op.as_str()));
                    new.pending_content_ino = content_ino;
                    new.pending_rename_to = own_opt(rename_to);
                } else {
                    new.op = copy_text(op.as_str());
                    new.content_ino = content_ino;
                    new.rename_to = own_opt(rename_to);
                    new.attempt = 0;
                    new.last_error = None;
                }
                new.updated_at = now_ms;
                new
            },
            None => QueueRow {
                op: copy_text(op.as_str()),
                content_ino,
                rename_to: own_opt(rename_to),
                attempt: 0,
                updated_at: now_ms,
                inflight_started_at: None,
                pending_op: None,
                pending_content_ino: None,
                pending_rename_to: None,
                last_error: None,
                last_status: None,
                poisoned: false,
            },
        };
        self.put_job(brain_path, row);
        true
    }

    /// Claim the next queued job.
    pub fn push_queue_claim_next(&mut self, now_ms: i64) -> (r: Option<PushJob>)
        requires
            old(self).wf(),
        ensures
            final(self).follows(*old(self)),
            claim(
                old(self).tables(),
                now_ms,
                final(self).tables(),
                match r {
                    Some(job) => Some(job@),
                    None => None,
                },
            ),
    {
        let ghost t = self.tables();
        match self.next_job(now_ms) {
            Some((path, row)) => {
                match PushOp::parse(row.op.as_str()) {
                    Some(op) => {
                        let job = PushJob {
                            brain_path: path,
                            op,
                            content_ino: row.content_ino,
                            rename_to: copy_opt(&row.rename_to),
                            attempt: row.attempt,
                        };
                        let mut new = row;
                        new.inflight_started_at = Some(now_ms);
                        self.put_job(job.brain_path.as_str(), new);
                        assert(is_next(t, path@, now_ms));
                        assert(job@ == job_of(t, path@, op));
                        Some(job)
                    },
                    None => {
                        assert(is_next(t, path@, now_ms));
                        None
                    },
                }
            },
            None => None,
        }
    }

    /// Whether another request for `brain_path` arrived while its job was under
    /// way.
    pub(crate) fn push_queue_is_followed(&self, brain_path: &str) -> (r: bool)
        requires
            self.wf(),
        ensures
            r == is_followed(self.tables(), brain_path@),
    {
        match self.job(brain_path) {
            Some(row) => row.pending_op.is_some(),
            None => false,
        }
    }

    pub fn push_queue_finalize_success(&mut self, brain_path: &str, now_ms: i64)
        requires
            old(self).wf(),
        ensures
            final(self).follows(*old(self)),
            final(self).tables() == succeeded(old(self).tables(), brain_path@, now_ms),
    {
        match self.job(brain_path) {
            Some(row) => {
                match copy_opt(&row.pending_op) {
                    Some(op) => {
                        let mut new = row;
                        new.op = op;
                        new.content_ino = new.pending_content_ino;
                        new.rename_to = copy_opt(&new.pending_rename_to);
                        new.pending_op = None;
                        new.pending_content_ino = None;
                        new.pending_rename_to = None;
                        new.inflight_started_at = None;
                        new.attempt = 0;
                        new.last_error = None;
                        new.updated_at = now_ms;
                        self.put_job(brain_path, new);
                    },
                    None => self.drop_job(brain_path),
                }
            },
            None => {},
        }
    }

    pub fn push_queue_finalize_failure(
        &mut self,
        brain_path: &str,
        error: &str,
        now_ms: i64,
        backoff_ms: i64,
    )
        requires
            old(self).wf(),
            i64::MIN <= now_ms + backoff_ms <= i64::MAX,
        ensures
            final(self).follows(*old(self)),
            final(self).tables() == failed(
                old(self).tables(),
                brain_path@,
                error@,
                (now_ms + backoff_ms) as i64,
            ),
    {
        match self.job(brain_path) {
            Some(row) => {
                let mut new = row;
                new.inflight_started_at = None;
                if new.attempt < i64::MAX {
                    new.attempt = new.attempt + 1;
                }
                new.last_error = Some(copy_text(error));
                new.updated_at = now_ms + backoff_ms;
                self.put_job(brain_path, new);
            },
            None => {},
        }
    }

    pub fn push_queue_poison(
        &mut self,
        brain_path: &str,
        http_status: u16,
        reason: &str,
        now_ms: i64,
    )
        requires
            old(self).wf(),
        ensures
            final(self).follows(*old(self)),
            final(self).tables() == poisoned(
                old(self).tables(),
                brain_path@,
                http_status,
                reason@,
                now_ms,
            ),
    {
        match self.job(brain_path) {
            Some(row) => {
                let mut new = row;
                new.poisoned = true;
                new.inflight_started_at = None;
                new.last_error = Some(copy_text(reason));
                new.last_status = Some(http_status as i64);
                new.updated_at = now_ms;
                self.put_job(brain_path, new);
            },
            None => {},
        }
    }
}

// ── Laws ────────────────────────────────────────────────────────────────────

/// A request adds a job only where its path has none: duplicates coalesce.
pub proof fn law_requests_coalesce(
    t: Tables,
    path: Seq<char>,
    op: PushOp,
    content_ino: Option<u64>,
    rename_to: Option<Seq<char>>,
    now_ms: i64,
)
    requires
        t.queue.dom().finite(),
    ensures
        enqueued(t, path, op, content_ino, rename_to, now_ms).queue.len() == t.queue.len() + (if
        is_noise(path) || t.queue.contains_key(path) {
            0int
        } else {
            1int
        }),
        forall|q: Seq<char>|
            q != path ==> #[trigger] enqueued(
                t,
                path,
                op,
                content_ino,
                rename_to,
                now_ms,
            ).queue.get(q) == t.queue.get(q),
{
}

/// Of two requests for a path whose job is not under way, the later one counts.
pub proof fn law_latest_request_wins(
    t: Tables,
    path: Seq<char>,
    op1: PushOp,
    ino1: Option<u64>,
    to1: Option<Seq<char>>,
    ms1: i64,
    op2: PushOp,
    ino2: Option<u64>,
    to2: Option<Seq<char>>,
    ms2: i64,
)
    requires
        t.queue.contains_key(path) ==> t.queue[path].inflight_started_at is None,
    ensures
        enqueued(enqueued(t, path, op1, ino1, to1, ms1), path, op2, ino2, to2, ms2) == enqueued(
            t,
            path,
            op2,
            ino2,
            to2,
            ms2,
        ),
{
    let a = enqueued(enqueued(t, path, op1, ino1, to1, ms1), path, op2, ino2, to2, ms2);
    let b = enqueued(t, path, op2, ino2, to2, ms2);
    assert(a.queue =~= b.queue);
}

/// A request that arrives while the job for its path is under way is not lost:
/// once that job succeeds, the request is queued, fresh and due.
pub proof fn law_request_during_push_is_kept(
    t: Tables,
    path: Seq<char>,
    op: PushOp,
    content_ino: Option<u64>,
    rename_to: Option<Seq<char>>,
    now_ms: i64,
    done_ms: i64,
)
    requires
        !is_noise(path),
        t.queue.contains_key(path),
        t.queue[path].inflight_started_at is Some,
        !t.queue[path].poisoned,
    ensures
        ({
            let after = succeeded(
                enqueued(t, path, op, content_ino, rename_to, now_ms),
                path,
                done_ms,
            );
            &&& after.queue.contains_key(path)
            &&& job_of(after, path, op) == (PushJobView {
                brain_path: path,
                op,
                content_ino,
                rename_to,
                attempt: 0,
            })
            &&& op_named(after.queue[path].op) == Some(op)
            &&& claimable(after.queue[path], done_ms)
        }),
{
    lemma_op_round_trip(op);
}

/// A job under way is not claimed again, nor is a poisoned one.
pub proof fn law_claim_skips_busy_and_poisoned(
    t: Tables,
    now_ms: i64,
    after: Tables,
    job: PushJobView,
)
    requires
        claim(t, now_ms, after, Some(job)),
    ensures
        t.queue.contains_key(job.brain_path),
        t.queue[job.brain_path].inflight_started_at is None,
        !t.queue[job.brain_path].poisoned,
        t.queue[job.brain_path].updated_at <= now_ms,
        after.queue[job.brain_path].inflight_started_at == Some(now_ms),
{
}

/// A claimed job that succeeds with nothing new for its path leaves the queue
/// as if it had never been there.
pub proof fn law_success_removes_job(t: Tables, path: Seq<char>, now_ms: i64, done_ms: i64)
    requires
        t.queue.contains_key(path),
        t.queue[path].pending_op is None,
    ensures
        succeeded(claimed(t, path, now_ms), path, done_ms).queue == t.queue.remove(path),
{
    assert(succeeded(claimed(t, path, now_ms), path, done_ms).queue =~= t.queue.remove(path));
}

/// A claimed job that fails is back in the queue with one more attempt, and can
/// be claimed once it is due and not before.
pub proof fn law_failure_requeues_job(
    t: Tables,
    path: Seq<char>,
    now_ms: i64,
    error: Seq<char>,
    due: i64,
    later_ms: i64,
)
    requires
        t.queue.contains_key(path),
        claimable(t.queue[path], now_ms),
        t.queue[path].attempt < i64::MAX,
    ensures
        ({
            let row = failed(claimed(t, path, now_ms), path, error, due).queue[path];
            &&& row.attempt == t.queue[path].attempt + 1
            &&& row.op == t.queue[path].op
            &&& row.content_ino == t.queue[path].content_ino
            &&& row.rename_to == t.queue[path].rename_to
            &&& claimable(row, later_ms) == (due <= later_ms)
        }),
{
}

/// A job that was given up is never claimed again, whatever is requested for
/// its path afterwards.
pub proof fn law_poison_is_final(
    t: Tables,
    path: Seq<char>,
    http_status: u16,
    reason: Seq<char>,
    now_ms: i64,
    op: PushOp,
    content_ino: Option<u64>,
    rename_to: Option<Seq<char>>,
    later_ms: i64,
    claim_ms: i64,
)
    requires
        t.queue.contains_key(path),
    ensures
        ({
            let given_up = poisoned(t, path, http_status, reason, now_ms);
            let after = enqueued(given_up, path, op, content_ino, rename_to, later_ms);
            &&& !claimable(given_up.queue[path], claim_ms)
            &&& !claimable(after.queue[path], claim_ms)
        }),
{
}

} // verus!
