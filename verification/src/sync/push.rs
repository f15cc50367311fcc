//! Pushing: drains the push queue and sends writes to the brain.
//!
//! The queue and the requests are decided here; sending them is not. Each
//! decision takes the reply to the last request and says what comes next.

use crate::api::dto::{BrainDocument, PutDocReq};
use crate::api::error::{api_error_text, ApiError, ApiErrorView};
use crate::cache::db::Db;
use crate::cache::file::min_of;
use crate::cache::handle::{mount_written, push_path};
use crate::cache::laws::{is_queued, law_local_write_is_queued};
use crate::cache::model::{
    content, dirty_since, ino_by_remote_path, remote_hash, remote_path, with_content_hash,
    with_dirty, with_mirrored,
};
use crate::cache::queue::{
    claim, claimable, failed, is_followed, is_next, is_noise, poisoned, succeeded, PushJob,
    PushJobView, PushOp,
};
use crate::cache::rows::{changed, ChangeView, Tables};
use crate::text::{
    has_prefix, copy_text, drop_front, from_utf8_lossy, int_text, is_char, lines_of, lossy_text,
    opt_view, print_int, split_last, split_last_slash, split_lines, starts_with, texts, trim,
    trim_start_char, trimmed,
};
use crate::vfs::types::Timestamp;
use vstd::prelude::*;

verus! {

/// Maximum retries before poisoning a push job.
pub const MAX_ATTEMPTS: i64 = 10;

/// Base backoff in milliseconds.
pub const BASE_BACKOFF_MS: i64 = 500;

/// Sync metadata key for the last successful push timestamp.
pub const SYNC_META_LAST_PUSH_AT: &'static str = "last_push_at";

// ── Retries ─────────────────────────────────────────────────────────────────

/// Two to the power of `n`.
pub open spec fn doubled(n: int) -> int
    decreases n,
{
    if n <= 0 {
        1
    } else {
        2 * doubled(n - 1)
    }
}

/// How long a failed push waits before it is tried again: the base backoff,
/// doubled with every attempt, sixty times the base at most.
pub open spec fn backoff_ms(attempt: int) -> int {
    BASE_BACKOFF_MS * min_of(doubled(attempt), 60)
}

proof fn lemma_doubled(n: int)
    requires
        n >= 6,
    ensures
        doubled(n) >= 64,
    decreases n,
{
    reveal_with_fuel(doubled, 7);
    if n > 6 {
        lemma_doubled(n - 1);
    }
}

/// See [`backoff_ms`].
pub fn backoff(attempt: i64) -> (r: i64)
    requires
        0 <= attempt,
    ensures
        r == backoff_ms(attempt as int),
        BASE_BACKOFF_MS <= r <= 30_000,
{
    proof {
        reveal_with_fuel(doubled, 7);
        if attempt >= 6 {
            lemma_doubled(attempt as int);
        }
    }
    if attempt == 0 {
        500
    } else if attempt == 1 {
        1_000
    } else if attempt == 2 {
        2_000
    } else if attempt == 3 {
        4_000
    } else if attempt == 4 {
        8_000
    } else if attempt == 5 {
        16_000
    } else {
        30_000
    }
}

/// An error that no retry can mend.
pub open spec fn fatal(e: ApiErrorView) -> bool {
    e is Auth || e is Forbidden || e is FsContract || e is Rejected
}

/// The HTTP status that a given-up job is marked with.
pub open spec fn fatal_status(e: ApiErrorView) -> u16 {
    match e {
        ApiErrorView::Rejected(status, _) => status,
        ApiErrorView::Forbidden(_) => 403,
        ApiErrorView::Auth => 401,
        _ => 422,
    }
}

fn is_fatal(e: &ApiError) -> (r: bool)
    ensures
        r == fatal(e@),
{
    matches!(
        e,
        ApiError::Auth | ApiError::Forbidden(_) | ApiError::FsContract(_) | ApiError::Rejected { .. }
    )
}

fn status_of(e: &ApiError) -> (r: u16)
    ensures
        r == fatal_status(e@),
{
    match e {
        ApiError::Rejected { status, .. } => *status,
        ApiError::Forbidden(_) => 403,
        ApiError::Auth => 401,
        _ => 422,
    }
}

// ── Draining the queue ──────────────────────────────────────────────────────

/// What the push worker does next.
#[derive(Debug)]
pub enum PushStep {
    /// Nothing can be sent now.
    Idle,
    /// A job was given up; look again.
    GaveUp,
    /// Send a job.
    Execute(PushJob),
}

/// A job was claimed and, where it was tried too often, given up.
pub open spec fn step_taken(t: Tables, now_ms: i64, after: Tables, step: PushStep) -> bool {
    match step {
        PushStep::Idle => claim(t, now_ms, after, None),
        PushStep::GaveUp => exists|job: PushJobView, mid: Tables|
            {
                &&& #[trigger] claim(t, now_ms, mid, Some(job))
                &&& job.attempt >= MAX_ATTEMPTS
                &&& after == poisoned(mid, job.brain_path, 0, "max attempts exceeded"@, now_ms)
            },
        PushStep::Execute(job) => job@.attempt < MAX_ATTEMPTS && claim(
            t,
            now_ms,
            after,
            Some(job@),
        ),
    }
}

/// Claims the next job to send, or gives it up where it was tried too often.
pub fn next_push(db: &mut Db, now_ms: i64) -> (r: PushStep)
    requires
        old(db).wf(),
    ensures
        final(db).follows(*old(db)),
        step_taken(old(db).tables(), now_ms, final(db).tables(), r),
{
    let ghost t = db.tables();
    match db.push_queue_claim_next(now_ms) {
        Some(job) => {
            if job.attempt >= MAX_ATTEMPTS {
                let ghost mid = db.tables();
                db.push_queue_poison(job.brain_path.as_str(), 0, "max attempts exceeded", now_ms);
                assert(claim(t, now_ms, mid, Some(job@)));
                PushStep::GaveUp
            } else {
                PushStep::Execute(job)
            }
        },
        None => PushStep::Idle,
    }
}

/// The tables after a job was sent: the queue moves on, the time is recorded,
/// and the pushed file is clean and has the hash that the brain reports of it,
/// or the deleted one is forgotten. Where another request for the path arrived
/// meanwhile, the file is not clean yet, and one that was made anew is not
/// forgotten.
pub open spec fn push_succeeded(
    t: Tables,
    job: PushJobView,
    hash: Option<Seq<char>>,
    now_ms: i64,
) -> Tables {
    let t1 = succeeded(t, job.brain_path, now_ms);
    let t2 = changed(
        t1,
        ChangeView::PutMeta(SYNC_META_LAST_PUSH_AT@, int_text(now_ms as int)),
    );
    let followed = is_followed(t, job.brain_path);
    match job.op {
        PushOp::Write => match job.content_ino {
            Some(ino) => {
                let t3 = with_mirrored(t2, ino, Some(now_ms), Some("pushed"@), Some(now_ms));
                let t4 = if followed {
                    t3
                } else {
                    with_dirty(t3, ino, None)
                };
                with_content_hash(t4, ino, hash)
            },
            None => t2,
        },
        PushOp::Delete => match ino_by_remote_path(t2, job.brain_path) {
            Some(ino) => if followed {
                t2
            } else {
                changed(with_dirty(t2, ino, None), ChangeView::DropRemote(ino))
            },
            None => t2,
        },
        PushOp::Rename => t2,
    }
}

/// The tables after a job failed: it is given up where no retry can help, and
/// waits for its next attempt otherwise.
pub open spec fn push_failed(t: Tables, job: PushJobView, e: ApiErrorView, now_ms: i64) -> Tables {
    if fatal(e) {
        poisoned(t, job.brain_path, fatal_status(e), api_error_text(e), now_ms)
    } else {
        failed(
            t,
            job.brain_path,
            api_error_text(e),
            (now_ms + backoff_ms(job.attempt as int)) as i64,
        )
    }
}

/// The tables after a job ended: well, with the hash that the brain reports of
/// what was written, or with an error.
pub open spec fn push_recorded(
    t: Tables,
    job: PushJobView,
    result: Result<Option<String>, ApiError>,
    now_ms: i64,
) -> Tables {
    match result {
        Ok(hash) => push_succeeded(t, job, opt_view(hash), now_ms),
        Err(e) => push_failed(t, job, e@, now_ms),
    }
}

/// Records how a job ended: well, with the hash that the brain reports of what
/// was written, or with an error.
pub fn finish_push(
    db: &mut Db,
    job: &PushJob,
    result: &Result<Option<String>, ApiError>,
    now_ms: i64,
)
    requires
        old(db).wf(),
        0 <= job.attempt,
        now_ms <= i64::MAX - 30_000,
    ensures
        final(db).follows(*old(db)),
        final(db).tables() == (match *result {
            Ok(hash) => push_succeeded(old(db).tables(), job@, opt_view(hash), now_ms),
            Err(e) => push_failed(old(db).tables(), job@, e@, now_ms),
        }),
        final(db).tables() == push_recorded(old(db).tables(), job@, *result, now_ms),
{
    let path = job.brain_path.as_str();
    match result {
        Ok(hash) => {
            let followed = db.push_queue_is_followed(path);
            db.push_queue_finalize_success(path, now_ms);
            db.sync_meta_set(SYNC_META_LAST_PUSH_AT, print_int(now_ms).as_str());
            match job.op {
                PushOp::Write => {
                    match job.content_ino {
                        Some(ino) => {
                            db.set_mirrored_state(ino, Some(now_ms), Some("pushed"), Some(now_ms));
                            if !followed {
                                db.set_dirty_since(ino, None);
                            }
                            db.set_remote_content_hash(
                                ino,
                                match hash {
                                    Some(h) => Some(h.as_str()),
                                    None => None,
                                },
                            );
                        },
                        None => {},
                    }
                },
                PushOp::Delete => {
                    match db.ino_by_remote_path(path) {
                        Some(ino) => {
                            if !followed {
                                db.set_dirty_since(ino, None);
                                db.delete_remote_path(ino);
                            }
                        },
                        None => {},
                    }
                },
                PushOp::Rename => {},
            }
        },
        Err(e) => {
            let text = e.message();
            if is_fatal(e) {
                db.push_queue_poison(path, status_of(e), text.as_str(), now_ms);
            } else {
                let wait: i64 = backoff(job.attempt);
                db.push_queue_finalize_failure(path, text.as_str(), now_ms, wait);
            }
        },
    }
}

/// What the drain before shutdown does next.
#[derive(Copy, Clone, Debug, PartialEq, Eq, Structural)]
pub enum DrainStep {
    /// Time is up; what is left stays queued.
    TimedOut,
    /// The queue is empty.
    Drained,
    /// Nothing can be sent yet; wait a little.
    Wait,
    /// Send what can be sent.
    Send,
}

/// How the drain before shutdown goes on after `elapsed_ms` of at most
/// `timeout_ms`.
pub open spec fn drain_decided(t: Tables, elapsed_ms: u64, timeout_ms: u64, now_ms: i64) -> DrainStep {
    if elapsed_ms >= timeout_ms {
        DrainStep::TimedOut
    } else if t.queue.len() == 0 {
        DrainStep::Drained
    } else if exists|p: Seq<char>| #[trigger]
        t.queue.contains_key(p) && claimable(t.queue[p], now_ms) {
        DrainStep::Send
    } else {
        DrainStep::Wait
    }
}

/// Decides how the drain before shutdown goes on after `elapsed_ms` of at most
/// `timeout_ms`. The queue is only looked at: no job is taken from it.
pub fn drain_step(db: &Db, elapsed_ms: u64, timeout_ms: u64, now_ms: i64) -> (r: DrainStep)
    requires
        db.wf(),
    ensures
        r == drain_decided(db.tables(), elapsed_ms, timeout_ms, now_ms),
        r == (if elapsed_ms >= timeout_ms {
            DrainStep::TimedOut
        } else if db.tables().queue.len() == 0 {
            DrainStep::Drained
        } else if exists|p: Seq<char>| #[trigger]
            db.tables().queue.contains_key(p) && claimable(db.tables().queue[p], now_ms) {
            DrainStep::Send
        } else {
            DrainStep::Wait
        }),
{
    if elapsed_ms >= timeout_ms {
        return DrainStep::TimedOut;
    }
    if db.push_queue_len() == 0 {
        return DrainStep::Drained;
    }
    match db.next_job(now_ms) {
        Some((path, _)) => {
            assert(is_next(db.tables(), path@, now_ms));
            DrainStep::Send
        },
        None => DrainStep::Wait,
    }
}

// ── Sending one job ─────────────────────────────────────────────────────────

/// A request that a job makes.
#[derive(Debug)]
pub enum PushCall {
    Put(PutDocReq),
    Delete(String),
    Get(String),
}

/// Which request of a job is under way.
#[derive(Copy, Clone, Debug, PartialEq, Eq, Structural)]
pub enum PushPhase {
    /// The document is being written.
    Write,
    /// The document is being deleted.
    Delete,
    /// The document is being read before it is written under its new path.
    RenameRead,
    /// The document is being written under its new path.
    RenameWrite,
    /// The document is being deleted under its old path.
    RenameDelete,
}

/// The reply to a request.
#[derive(Debug)]
pub enum PushReply {
    Put(Result<BrainDocument, ApiError>),
    Delete(Result<(), ApiError>),
    Get(Result<BrainDocument, ApiError>),
}

/// How the sending of a job goes on.
#[derive(Debug)]
pub enum PushNext {
    /// Make a request.
    Call(PushPhase, PushCall),
    /// The job has ended: well, with the hash of what was written where there is
    /// one, or with an error.
    End(Result<Option<String>, ApiError>),
}

/// The title that a line of markdown gives: the text of a heading of the first
/// level.
pub open spec fn title_of_line(line: Seq<char>) -> Option<Seq<char>> {
    let text = trimmed(drop_front(line, is_char('#')));
    if has_prefix(line, "#"@) && !has_prefix(line, "##"@) && text.len() > 0 {
        Some(text)
    } else {
        None
    }
}

/// The first title from line `i` on.
pub open spec fn first_title(lines: Seq<Seq<char>>, i: int) -> Option<Seq<char>>
    decreases lines.len() - i,
{
    if i < 0 || i >= lines.len() {
        None
    } else {
        match title_of_line(lines[i]) {
            Some(t) => Some(t),
            None => first_title(lines, i + 1),
        }
    }
}

/// The title of a markdown document: its first heading of the first level.
pub open spec fn title_of(body: Seq<char>) -> Option<Seq<char>> {
    first_title(lines_of(body), 0)
}

/// Extract the first H1 heading from markdown as the document title.
pub fn extract_title(body_md: &str) -> (r: Option<String>)
    ensures
        opt_view(r) == title_of(body_md@),
{
    let lines = split_lines(body_md);
    let ghost all = lines_of(body_md@);
    let mut i: usize = 0;
    while i < lines.len()
        invariant
            texts(lines@) == all,
            i <= lines@.len(),
            first_title(all, 0) == first_title(all, i as int),
            all == lines_of(body_md@),
        decreases lines@.len() - i,
    {
        let line = lines[i].as_str();
        assert(all[i as int] == line@);
        let stripped = trim_start_char(line, '#');
        let text = trim(stripped.as_str());
        if starts_with(line, "#") && !starts_with(line, "##") && !text.as_str().is_empty() {
            return Some(text);
        }
        i += 1;
    }
    None
}

/// The request that writes `body` to `path` as a note, where the brain holds
/// the version with the hash `expected` or none is known.
pub open spec fn is_note(
    req: PutDocReq,
    path: Seq<char>,
    body: Seq<char>,
    title: Option<Seq<char>>,
    expected: Option<Seq<char>>,
) -> bool {
    &&& req.path@ == path
    &&& req.body_md@ == body
    &&& opt_view(req.kind) == Some("note"@)
    &&& opt_view(req.title) == title
    &&& req.tldr is None
    &&& req.tags is None
    &&& req.visibility is None
    &&& opt_view(req.expected_content_hash) == expected
}

/// A request that writes a note over the version with the hash `expected`. The
/// brain answers with a conflict where it holds another one.
pub fn note_request(
    path: &str,
    body_md: String,
    title: Option<String>,
    expected: Option<String>,
) -> (r: PutDocReq)
    ensures
        is_note(r, path@, body_md@, opt_view(title), opt_view(expected)),
{
    PutDocReq {
        path: copy_text(path),
        body_md,
        kind: Some(copy_text("note")),
        title,
        tldr: None,
        tags: None,
        visibility: None,
        expected_content_hash: expected,
    }
}

/// The request that imports a local file as a note.
pub fn import_request(path: &str, contents: &[u8]) -> (r: PutDocReq)
    ensures
        is_note(r, path@, lossy_text(contents@), None, None),
{
    note_request(path, from_utf8_lossy(contents), None, None)
}

/// Where a document goes that is renamed to `new_name`: its last component is
/// replaced. A path without a slash goes to the private notes.
pub open spec fn renamed_path(path: Seq<char>, new_name: Seq<char>) -> Seq<char> {
    match split_last(path, '/').0 {
        Some(parent) => parent + "/"@ + new_name,
        None => "/private/notes/"@ + new_name,
    }
}

/// See [`renamed_path`].
pub fn new_path(path: &str, new_name: &str) -> (r: String)
    ensures
        r@ == renamed_path(path@, new_name@),
{
    match split_last_slash(path).0 {
        Some(parent) => parent.concat("/").concat(new_name),
        None => copy_text("/private/notes/").concat(new_name),
    }
}

/// How the sending of a job starts.
pub open spec fn starts(t: Tables, job: PushJobView, next: PushNext) -> bool {
    match job.op {
        PushOp::Write => {
            let ino: u64 = match job.content_ino {
                Some(ino) => ino,
                None => 0,
            };
            let body = lossy_text(content(t, ino));
            next matches PushNext::Call(PushPhase::Write, PushCall::Put(req)) && is_note(
                req,
                job.brain_path,
                body,
                title_of(body),
                remote_hash(t, ino),
            )
        },
        PushOp::Delete => next matches PushNext::Call(PushPhase::Delete, PushCall::Delete(p)) && p@
            == job.brain_path,
        PushOp::Rename => match job.rename_to {
            Some(_) => next matches PushNext::Call(PushPhase::RenameRead, PushCall::Get(p)) && p@
                == job.brain_path,
            None => ends_well(next, None),
        },
    }
}

/// Starts to send a job.
pub fn start_push(db: &Db, job: &PushJob) -> (r: PushNext)
    requires
        db.wf(),
    ensures
        starts(db.tables(), job@, r),
{
    match job.op {
        PushOp::Write => {
            let ino: u64 = match job.content_ino {
                Some(ino) => ino,
                None => 0,
            };
            let bytes = db.read_all_content(ino);
            let body = from_utf8_lossy(bytes.as_slice());
            let title = extract_title(body.as_str());
            let expected = db.remote_content_hash(ino);
            PushNext::Call(
                PushPhase::Write,
                PushCall::Put(note_request(job.brain_path.as_str(), body, title, expected)),
            )
        },
        PushOp::Delete => PushNext::Call(
            PushPhase::Delete,
            PushCall::Delete(copy_text(job.brain_path.as_str())),
        ),
        PushOp::Rename => match &job.rename_to {
            Some(_) => PushNext::Call(
                PushPhase::RenameRead,
                PushCall::Get(copy_text(job.brain_path.as_str())),
            ),
            None => PushNext::End(Ok(None)),
        },
    }
}

/// The body of a document that is renamed, when reading it gave `reply`: what
/// the brain holds, or what the cache holds where the brain has no such
/// document, or an error.
pub open spec fn rename_body(
    t: Tables,
    path: Seq<char>,
    reply: Result<BrainDocument, ApiError>,
) -> Result<Seq<char>, ApiErrorView> {
    match reply {
        Ok(doc) => Ok(
            match doc.body_md {
                Some(b) => b@,
                None => Seq::empty(),
            },
        ),
        Err(ApiError::NotFound) => Ok(
            match ino_by_remote_path(t, path) {
                Some(ino) => lossy_text(content(t, ino)),
                None => Seq::empty(),
            },
        ),
        Err(e) => Err(e@),
    }
}

/// How the sending of a job goes on after a reply. Replies that do not belong
/// to the phase end the job with a success, as nothing is left to do.
pub open spec fn goes_on(
    t: Tables,
    job: PushJobView,
    phase: PushPhase,
    reply: PushReply,
    next: PushNext,
) -> bool {
    match (phase, reply) {
        (PushPhase::Write, PushReply::Put(r)) => match r {
            Ok(doc) => ends_well(next, opt_view(doc.content_hash)),
            Err(e) => fails(next, e@),
        },
        (PushPhase::Delete, PushReply::Delete(r)) => match r {
            Ok(_) => ends_well(next, None),
            Err(ApiError::NotFound) => ends_well(next, None),
            Err(e) => fails(next, e@),
        },
        (PushPhase::RenameRead, PushReply::Get(r)) => match (
            job.rename_to,
            rename_body(t, job.brain_path, r),
        ) {
            (Some(new_name), Ok(body)) => next matches PushNext::Call(
                PushPhase::RenameWrite,
                PushCall::Put(req),
            ) && is_note(req, renamed_path(job.brain_path, new_name), body, None, None),
            (_, Err(e)) => fails(next, e),
            (None, Ok(_)) => ends_well(next, None),
        },
        (PushPhase::RenameWrite, PushReply::Put(r)) => match r {
            Ok(_) => next matches PushNext::Call(PushPhase::RenameDelete, PushCall::Delete(p))
                && p@ == job.brain_path,
            Err(e) => fails(next, e@),
        },
        _ => ends_well(next, None),
    }
}

/// The job ends well, and the brain reports `hash` of what was written.
pub open spec fn ends_well(next: PushNext, hash: Option<Seq<char>>) -> bool {
    next matches PushNext::End(Ok(h)) && opt_view(h) == hash
}

/// The job ends with an error.
pub open spec fn fails(next: PushNext, e: ApiErrorView) -> bool {
    next matches PushNext::End(Err(x)) && x@ == e
}

/// Goes on with a job after a reply.
pub fn advance_push(db: &Db, job: &PushJob, phase: PushPhase, reply: PushReply) -> (r: PushNext)
    requires
        db.wf(),
    ensures
        goes_on(db.tables(), job@, phase, reply, r),
{
    match (phase, reply) {
        (PushPhase::Write, PushReply::Put(r)) => match r {
            Ok(doc) => PushNext::End(Ok(doc.content_hash)),
            Err(e) => PushNext::End(Err(e)),
        },
        (PushPhase::Delete, PushReply::Delete(r)) => match r {
            Ok(_) => PushNext::End(Ok(None)),
            Err(ApiError::NotFound) => PushNext::End(Ok(None)),
            Err(e) => PushNext::End(Err(e)),
        },
        (PushPhase::RenameRead, PushReply::Get(r)) => {
            let body = match r {
                Ok(doc) => match doc.body_md {
                    Some(b) => b,
                    None => String::new(),
                },
                Err(ApiError::NotFound) => match db.ino_by_remote_path(job.brain_path.as_str()) {
                    Some(ino) => {
                        let bytes = db.read_all_content(ino);
                        from_utf8_lossy(bytes.as_slice())
                    },
                    None => String::new(),
                },
                Err(e) => {
                    return PushNext::End(Err(e));
                },
            };
            match &job.rename_to {
                Some(new_name) => {
                    let path = new_path(job.brain_path.as_str(), new_name.as_str());
                    PushNext::Call(
                        PushPhase::RenameWrite,
                        PushCall::Put(note_request(path.as_str(), body, None, None)),
                    )
                },
                None => PushNext::End(Ok(None)),
            }
        },
        (PushPhase::RenameWrite, PushReply::Put(r)) => match r {
            Ok(_) => PushNext::Call(
                PushPhase::RenameDelete,
                PushCall::Delete(copy_text(job.brain_path.as_str())),
            ),
            Err(e) => PushNext::End(Err(e)),
        },
        _ => PushNext::End(Ok(None)),
    }
}

// ── Laws ────────────────────────────────────────────────────────────────────

/// Once a write is pushed its file has the hash that the brain reports. Where no
/// other request arrived meanwhile it is clean, and its job has left the queue.
/// Otherwise that request is the job now, and the mark of the file stays. Its
/// content is the same either way.
pub proof fn law_push_settles_write(
    t: Tables,
    job: PushJobView,
    ino: u64,
    hash: Option<Seq<char>>,
    now_ms: i64,
)
    requires
        job.op == PushOp::Write,
        job.content_ino == Some(ino),
        t.queue.contains_key(job.brain_path),
    ensures
        ({
            let after = push_succeeded(t, job, hash, now_ms);
            let row = t.queue[job.brain_path];
            &&& match row.pending_op {
                None => dirty_since(after, ino) is None && !after.queue.contains_key(
                    job.brain_path,
                ),
                Some(op) => dirty_since(after, ino) == dirty_since(t, ino)
                    && after.queue.contains_key(job.brain_path) && after.queue[job.brain_path].op == op
                    && after.queue[job.brain_path].content_ino == row.pending_content_ino
                    && after.queue[job.brain_path].inflight_started_at is None,
            }
            &&& content(after, ino) == content(t, ino)
            &&& t.remotes.contains_key(ino) ==> remote_hash(after, ino) == hash
        }),
{
    let after = push_succeeded(t, job, hash, now_ms);
    assert(after.chunks == t.chunks);
}

/// An edit while a push of the file is under way outlasts the push: the file has
/// what was written and the mark of the edit, and the edit is queued.
pub proof fn law_edit_outlasts_push(
    t: Tables,
    job: PushJobView,
    ino: u64,
    offset: int,
    data: Seq<u8>,
    now: Timestamp,
    ms: i64,
    hash: Option<Seq<char>>,
    now_ms: i64,
)
    requires
        t.inodes.contains_key(ino),
        data.len() > 0,
        push_path(t, ino) == Some(job.brain_path),
        !is_noise(job.brain_path),
        t.queue.contains_key(job.brain_path),
        t.queue[job.brain_path].inflight_started_at is Some,
        job.op != PushOp::Write || job.content_ino == Some(ino),
    ensures
        ({
            let edited = mount_written(t, ino, offset, data, now, ms);
            let after = push_succeeded(edited, job, hash, now_ms);
            &&& content(after, ino) == content(edited, ino)
            &&& dirty_since(after, ino) == Some(ms)
            &&& remote_path(after, ino) == Some(job.brain_path)
            &&& is_queued(after, job.brain_path, PushOp::Write, Some(ino))
        }),
{
    law_local_write_is_queued(t, ino, offset, data, now, ms);
    let edited = mount_written(t, ino, offset, data, now, ms);
    let after = push_succeeded(edited, job, hash, now_ms);
    assert(is_followed(edited, job.brain_path));
    assert(after.chunks == edited.chunks);
}

/// The next write of a file is sent over the version that the last one left:
/// it expects the hash that the brain reported then.
pub proof fn law_next_write_expects_what_was_pushed(
    t: Tables,
    job: PushJobView,
    ino: u64,
    hash: Option<Seq<char>>,
    now_ms: i64,
    later: PushJobView,
    next: PushNext,
)
    requires
        job.op == PushOp::Write,
        job.content_ino == Some(ino),
        t.remotes.contains_key(ino),
        later.op == PushOp::Write,
        later.content_ino == Some(ino),
        starts(push_succeeded(t, job, hash, now_ms), later, next),
    ensures
        next matches PushNext::Call(PushPhase::Write, PushCall::Put(req)) && opt_view(
            req.expected_content_hash,
        ) == hash,
{
}

/// A push that failed loses nothing: every file keeps its content and its dirty
/// mark, and the job stays in the queue.
pub proof fn law_failed_push_loses_nothing(t: Tables, job: PushJobView, e: ApiErrorView, now_ms: i64)
    requires
        t.queue.contains_key(job.brain_path),
    ensures
        push_failed(t, job, e, now_ms).inodes == t.inodes,
        push_failed(t, job, e, now_ms).chunks == t.chunks,
        push_failed(t, job, e, now_ms).remotes == t.remotes,
        push_failed(t, job, e, now_ms).queue.contains_key(job.brain_path),
        push_failed(t, job, e, now_ms).queue[job.brain_path].op == t.queue[job.brain_path].op,
        push_failed(t, job, e, now_ms).queue[job.brain_path].content_ino
            == t.queue[job.brain_path].content_ino,
{
}

/// A job waits longer the more often it failed, and never longer than half a
/// minute.
pub proof fn law_backoff_grows_to_a_bound(attempt: int, later: int)
    requires
        0 <= attempt <= later,
    ensures
        BASE_BACKOFF_MS <= backoff_ms(attempt) <= backoff_ms(later) <= 30_000,
{
    lemma_doubled_grows(attempt, later);
    lemma_doubled_grows(0, attempt);
}

proof fn lemma_doubled_grows(a: int, b: int)
    requires
        0 <= a <= b,
    ensures
        1 <= doubled(a) <= doubled(b),
    decreases b,
{
    if a < b {
        lemma_doubled_grows(a, b - 1);
    } else if a > 0 {
        lemma_doubled_grows(a - 1, a - 1);
    }
}

} // verus!
