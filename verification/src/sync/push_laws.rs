//! What pushing does for the brain, whatever it is asked for and answered.

use super::push::{
    backoff_ms, drain_decided, first_title, goes_on, push_failed, push_recorded, push_succeeded,
    renamed_path, starts, step_taken, title_of, title_of_line, DrainStep, PushCall, PushNext,
    PushPhase, PushReply, PushStep, SYNC_META_LAST_PUSH_AT,
};
use crate::api::client::refusal;
use crate::api::dto::BrainDocument;
use crate::api::error::{api_error_text, ApiError, ApiErrorView};
use crate::cache::model::{content, dirty_since, ino_by_remote_path, remote_path};
use crate::cache::queue::{
    claim, claimable, claimed, is_next, job_of, op_named, poisoned, succeeded, PushJobView, PushOp,
};
use crate::cache::rows::{changed, ChangeView, Tables};
use crate::text::{
    drop_front, has_prefix, int_text, is_char, joined, lemma_first_line, lemma_has_separator,
    lemma_join_pieces, lemma_pieces_extend, lemma_pieces_nonempty, lemma_split_joined, lines_of,
    lossy_text, opt_view, pieces, text_i64, trimmed, without_cr,
};
use vstd::prelude::*;

verus! {

// ── Failures ────────────────────────────────────────────────────────────────

/// The server refused the request itself: sending it again gives the same answer.
pub open spec fn refused(e: ApiErrorView) -> bool {
    match e {
        ApiErrorView::Auth => true,
        ApiErrorView::Forbidden(_) => true,
        ApiErrorView::FsContract(_) => true,
        ApiErrorView::Rejected(_, _) => true,
        ApiErrorView::NotFound => false,
        ApiErrorView::Conflict(_) => false,
        ApiErrorView::RateLimited => false,
        ApiErrorView::Server(_, _) => false,
        ApiErrorView::Network(_) => false,
    }
}

/// A job is given up exactly where the server refused the request. After every
/// other failure it can be claimed again: once its wait is over and not before,
/// with one attempt more on its count and for what it was queued for.
pub proof fn law_only_refusals_end_a_job(
    t: Tables,
    job: PushJobView,
    e: ApiErrorView,
    now_ms: i64,
    later_ms: i64,
)
    requires
        t.queue.contains_key(job.brain_path),
        !t.queue[job.brain_path].poisoned,
        t.queue[job.brain_path].attempt < i64::MAX,
        0 <= job.attempt,
        now_ms <= i64::MAX - 30_000,
    ensures
        ({
            let before = t.queue[job.brain_path];
            let after = push_failed(t, job, e, now_ms);
            let row = after.queue[job.brain_path];
            &&& after.queue.contains_key(job.brain_path)
            &&& row.poisoned == refused(e)
            &&& claimable(row, later_ms) == (!refused(e) && later_ms - now_ms >= backoff_ms(
                job.attempt as int,
            ))
            &&& !refused(e) ==> row.attempt == before.attempt + 1
            &&& row.op == before.op && row.content_ino == before.content_ino && row.rename_to
                == before.rename_to
            &&& row.pending_op == before.pending_op && row.pending_content_ino
                == before.pending_content_ino && row.pending_rename_to == before.pending_rename_to
            &&& forall|q: Seq<char>|
                q != job.brain_path ==> #[trigger] after.queue.contains_key(q)
                    == t.queue.contains_key(q) && after.queue[q] == t.queue[q]
        }),
{
    super::push::law_backoff_grows_to_a_bound(job.attempt as int, job.attempt as int);
}

/// The first retry waits half a second, and each further one twice as long as
/// the one before, up to half a minute.
pub proof fn law_waits_double(attempt: int)
    requires
        0 <= attempt,
    ensures
        backoff_ms(0) == 500,
        backoff_ms(attempt + 1) == (if 2 * backoff_ms(attempt) < 30_000 {
            2 * backoff_ms(attempt)
        } else {
            30_000
        }),
{
    super::push::law_backoff_grows_to_a_bound(attempt, attempt + 1);
    assert(super::push::doubled(attempt + 1) == 2 * super::push::doubled(attempt));
}

// ── The queue ───────────────────────────────────────────────────────────────

/// The worker sends the oldest job that is due and was tried fewer than ten
/// times. One that was tried more often is given up in its place, and all others
/// stay as they are. It rests only where nothing is due.
pub proof fn law_worker_takes_oldest_due_job(
    t: Tables,
    now_ms: i64,
    after: Tables,
    step: PushStep,
    q: Seq<char>,
)
    requires
        step_taken(t, now_ms, after, step),
        t.queue.contains_key(q),
        claimable(t.queue[q], now_ms),
        forall|p: Seq<char>| #[trigger]
            t.queue.contains_key(p) ==> op_named(t.queue[p].op) is Some,
    ensures
        step !is Idle,
        exists|p: Seq<char>|
            {
                &&& #[trigger] t.queue.contains_key(p)
                &&& claimable(t.queue[p], now_ms)
                &&& t.queue[p].updated_at <= t.queue[q].updated_at
                &&& after.queue.contains_key(p)
                &&& !claimable(after.queue[p], now_ms)
                &&& forall|o: Seq<char>|
                    o != p ==> #[trigger] after.queue.contains_key(o) == t.queue.contains_key(o)
                        && after.queue[o] == t.queue[o]
                &&& match step {
                    PushStep::Execute(job) => job@.brain_path == p && t.queue[p].attempt < 10
                        && op_named(t.queue[p].op) == Some(job@.op) && job@.content_ino
                        == t.queue[p].content_ino && job@.rename_to == t.queue[p].rename_to
                        && job@.attempt == t.queue[p].attempt && !after.queue[p].poisoned
                        == !t.queue[p].poisoned,
                    _ => t.queue[p].attempt >= 10 && after.queue[p].poisoned,
                }
            },
        after.inodes == t.inodes,
        after.chunks == t.chunks,
        after.remotes == t.remotes,
{
    match step {
        PushStep::GaveUp => {
            let (job, mid) = choose|job: PushJobView, mid: Tables|
                {
                    &&& #[trigger] claim(t, now_ms, mid, Some(job))
                    &&& job.attempt >= super::push::MAX_ATTEMPTS
                    &&& after == poisoned(
                        mid,
                        job.brain_path,
                        0,
                        "max attempts exceeded"@,
                        now_ms,
                    )
                };
            let p = choose|p: Seq<char>| #[trigger]
                is_next(t, p, now_ms) && match op_named(t.queue[p].op) {
                    Some(op) => Some(job) == Some(job_of(t, p, op)) && mid
                        == claimed(t, p, now_ms),
                    None => false,
                };
            assert(t.queue.contains_key(p));
        },
        PushStep::Execute(job) => {
            let p = choose|p: Seq<char>| #[trigger]
                is_next(t, p, now_ms) && match op_named(t.queue[p].op) {
                    Some(op) => Some(job@) == Some(job_of(t, p, op)) && after
                        == claimed(t, p, now_ms),
                    None => false,
                };
            assert(t.queue.contains_key(p));
        },
        PushStep::Idle => {},
    }
}

/// A push that succeeded leaves every file as it was, but for the mark and the
/// record of the one that was pushed, and records the time.
pub proof fn law_success_changes_no_content(
    t: Tables,
    job: PushJobView,
    hash: Option<Seq<char>>,
    now_ms: i64,
    ino: u64,
)
    ensures
        ({
            let after = push_succeeded(t, job, hash, now_ms);
            &&& content(after, ino) == content(t, ino)
            &&& after.dentries == t.dentries
            &&& after.inodes.contains_key(ino) == t.inodes.contains_key(ino)
            &&& job.op == PushOp::Write && job.content_ino != Some(ino) ==> dirty_since(after, ino)
                == dirty_since(t, ino) && after.remotes.get(ino) == t.remotes.get(ino)
            &&& job.op == PushOp::Delete && ino_by_remote_path(t, job.brain_path) != Some(ino)
                ==> dirty_since(after, ino) == dirty_since(t, ino) && after.remotes.get(ino)
                == t.remotes.get(ino)
            &&& job.op == PushOp::Rename ==> dirty_since(after, ino) == dirty_since(t, ino)
                && after.remotes == t.remotes
            &&& after.meta.contains_key(SYNC_META_LAST_PUSH_AT@) && text_i64(
                after.meta[SYNC_META_LAST_PUSH_AT@],
            ) == Some(now_ms)
            &&& forall|q: Seq<char>|
                q != job.brain_path ==> #[trigger] after.queue.contains_key(q)
                    == t.queue.contains_key(q) && after.queue[q] == t.queue[q]
        }),
{
    let after = push_succeeded(t, job, hash, now_ms);
    crate::text::law_int_text_round_trip(now_ms);
    assert(after.chunks == t.chunks);
    let t2 = changed(
        succeeded(t, job.brain_path, now_ms),
        ChangeView::PutMeta(SYNC_META_LAST_PUSH_AT@, int_text(now_ms as int)),
    );
    assert(t2.remotes == t.remotes);
    assert(forall|i: u64| remote_path(t2, i) == remote_path(t, i));
    assert((|i: u64| remote_path(t2, i) == Some(job.brain_path)) =~= (|i: u64|
        remote_path(t, i) == Some(job.brain_path)));
    assert(ino_by_remote_path(t2, job.brain_path) == ino_by_remote_path(t, job.brain_path));
}

// ── The brain ───────────────────────────────────────────────────────────────

/// The documents of a brain: paths and bodies.
pub type Brain = Map<Seq<char>, Seq<char>>;

/// The brain after a request was carried out.
pub open spec fn brain_after(brain: Brain, next: PushNext) -> Brain {
    match next {
        PushNext::Call(_, PushCall::Put(req)) => brain.insert(req.path@, req.body_md@),
        PushNext::Call(_, PushCall::Delete(path)) => brain.remove(path@),
        _ => brain,
    }
}

/// The reply says that the request was carried out, and what a read found.
pub open spec fn well_answered(brain: Brain, next: PushNext, reply: PushReply) -> bool {
    match (next, reply) {
        (PushNext::Call(_, PushCall::Put(_)), PushReply::Put(Ok(_))) => true,
        (PushNext::Call(_, PushCall::Delete(_)), PushReply::Delete(Ok(_))) => true,
        (PushNext::Call(_, PushCall::Get(path)), PushReply::Get(Ok(doc))) => brain.contains_pair(
            path@,
            match opt_view(doc.body_md) {
                Some(b) => b,
                None => Seq::empty(),
            },
        ),
        _ => false,
    }
}

/// The request that is under way in `next`, answered with `reply`, leads on to
/// `then`.
pub open spec fn leads_on(
    t: Tables,
    job: PushJobView,
    next: PushNext,
    reply: PushReply,
    then: PushNext,
) -> bool {
    next matches PushNext::Call(phase, _) && goes_on(t, job, phase, reply, then)
}

/// A write brings the content of its file to its path, and leaves every other
/// document as it is. It ends with the hash that the brain reports.
pub proof fn law_write_reaches_the_brain(
    t: Tables,
    later: Tables,
    job: PushJobView,
    ino: u64,
    brain: Brain,
    first: PushNext,
    reply: PushReply,
    last: PushNext,
)
    requires
        job.op == PushOp::Write,
        job.content_ino == Some(ino),
        starts(t, job, first),
        well_answered(brain, first, reply),
        leads_on(later, job, first, reply, last),
    ensures
        brain_after(brain, first) == brain.insert(
            job.brain_path,
            lossy_text(content(t, ino)),
        ),
        last matches PushNext::End(Ok(h)) && (reply matches PushReply::Put(Ok(doc)) && opt_view(h)
            == opt_view(doc.content_hash)),
{
}

/// A deletion takes the document at its path away, and leaves every other one as
/// it is. That there is none is no failure.
pub proof fn law_deletion_reaches_the_brain(
    t: Tables,
    later: Tables,
    job: PushJobView,
    brain: Brain,
    first: PushNext,
    reply: PushReply,
    last: PushNext,
)
    requires
        job.op == PushOp::Delete,
        starts(t, job, first),
        well_answered(brain, first, reply) || (reply matches PushReply::Delete(Err(e)) && e@
            is NotFound),
        leads_on(later, job, first, reply, last),
    ensures
        brain_after(brain, first) == brain.remove(job.brain_path),
        last matches PushNext::End(Ok(h)) && h is None,
{
}

/// A rename whose requests are all carried out leaves the body under the new path
/// and nothing under the old one, where the two differ. Every other document
/// stays as it is.
pub proof fn law_rename_moves_the_document(
    t: Tables,
    job: PushJobView,
    new_name: Seq<char>,
    brain: Brain,
    n0: PushNext,
    r0: PushReply,
    n1: PushNext,
    r1: PushReply,
    n2: PushNext,
    r2: PushReply,
    n3: PushNext,
)
    requires
        job.op == PushOp::Rename,
        job.rename_to == Some(new_name),
        starts(t, job, n0),
        well_answered(brain, n0, r0),
        leads_on(t, job, n0, r0, n1),
        well_answered(brain_after(brain, n0), n1, r1),
        leads_on(t, job, n1, r1, n2),
        well_answered(brain_after(brain_after(brain, n0), n1), n2, r2),
        leads_on(t, job, n2, r2, n3),
    ensures
        ({
            let old_path = job.brain_path;
            let new_path = renamed_path(job.brain_path, new_name);
            let after = brain_after(brain_after(brain_after(brain, n0), n1), n2);
            &&& n3 matches PushNext::End(Ok(_))
            &&& brain.contains_key(old_path)
            &&& new_path != old_path ==> after.contains_pair(new_path, brain[old_path])
            &&& !after.contains_key(old_path)
            &&& forall|p: Seq<char>|
                p != old_path && p != new_path ==> #[trigger] after.contains_key(p)
                    == brain.contains_key(p) && after[p] == brain[p]
        }),
{
}

/// A rename whose document the brain does not have writes what the cache holds of
/// it under the new path.
pub proof fn law_rename_of_missing_document_writes_cache(
    t: Tables,
    job: PushJobView,
    new_name: Seq<char>,
    ino: u64,
    n0: PushNext,
    reply: PushReply,
    n1: PushNext,
)
    requires
        job.op == PushOp::Rename,
        job.rename_to == Some(new_name),
        ino_by_remote_path(t, job.brain_path) == Some(ino),
        starts(t, job, n0),
        reply matches PushReply::Get(Err(e)) && e == crate::api::error::ApiError::NotFound,
        leads_on(t, job, n0, reply, n1),
    ensures
        n1 matches PushNext::Call(_, PushCall::Put(req)) && req.path@ == renamed_path(
            job.brain_path,
            new_name,
        ) && req.body_md@ == lossy_text(content(t, ino)),
{
}

/// A failure ends a job with that failure, and nothing further is asked for. The
/// exceptions are a deletion or a read of what is not there, and the last step of
/// a rename: its document is where it belongs by then.
pub proof fn law_failures_are_reported(
    t: Tables,
    job: PushJobView,
    phase: PushPhase,
    reply: PushReply,
    next: PushNext,
)
    requires
        goes_on(t, job, phase, reply, next),
        match (phase, reply) {
            (PushPhase::Write, PushReply::Put(Err(_))) => true,
            (PushPhase::RenameWrite, PushReply::Put(Err(_))) => true,
            (PushPhase::Delete, PushReply::Delete(Err(e))) => !(e@ is NotFound),
            (PushPhase::RenameRead, PushReply::Get(Err(e))) => !(e@ is NotFound),
            _ => false,
        },
    ensures
        next matches PushNext::End(Err(x)) && match reply {
            PushReply::Put(r) => r matches Err(e) && x@ == e@,
            PushReply::Delete(r) => r matches Err(e) && x@ == e@,
            PushReply::Get(r) => r matches Err(e) && x@ == e@,
        },
{
}

/// A renamed document stays in its directory and has the new name. A path without
/// directories goes to the private notes.
pub proof fn law_renamed_document_stays_in_place(path: Seq<char>, new_name: Seq<char>)
    requires
        !new_name.contains('/'),
    ensures
        pieces(renamed_path(path, new_name), '/').last() == new_name,
        path.contains('/') ==> pieces(renamed_path(path, new_name), '/').drop_last() == pieces(
            path,
            '/',
        ).drop_last(),
        !path.contains('/') ==> renamed_path(path, new_name) == "/private/notes/"@ + new_name,
        path.contains('/') && new_name == pieces(path, '/').last() ==> renamed_path(path, new_name)
            == path,
{
    reveal_strlit("/");
    reveal_strlit("/private/notes/");
    let parts = pieces(path, '/');
    lemma_pieces_nonempty(path, '/');
    lemma_join_pieces(path, '/');
    assert("/"@ =~= seq!['/']);
    if parts.len() > 1 {
        let all = parts.drop_last().push(new_name);
        assert(all.drop_last() =~= parts.drop_last());
        assert forall|i: int| 0 <= i < all.len() implies !#[trigger] all[i].contains('/') by {
            if i < parts.len() - 1 {
                assert(all[i] == parts[i]);
            }
        }
        assert(renamed_path(path, new_name) =~= joined(all, seq!['/']));
        lemma_split_joined(all, '/');
        if new_name == parts.last() {
            assert(all =~= parts);
        }
        lemma_has_separator(path, '/');
    } else {
        lemma_has_separator(path, '/');
        let front = "/private/notes/"@;
        lemma_pieces_extend(front, new_name, '/');
        assert(front.last() == '/');
        assert(pieces(front, '/').last() == Seq::<char>::empty());
        assert(Seq::<char>::empty() + new_name =~= new_name);
    }
}

// ── Titles ──────────────────────────────────────────────────────────────────

proof fn lemma_later_titles(first: Seq<char>, lines: Seq<Seq<char>>, i: int)
    requires
        0 <= i,
    ensures
        first_title(seq![first] + lines, i + 1) == first_title(lines, i),
    decreases lines.len() - i,
{
    let all = seq![first] + lines;
    if i < lines.len() {
        assert(all[i + 1] == lines[i]);
        lemma_later_titles(first, lines, i + 1);
    }
}

/// A line that begins with one `#` and says something gives a document its title:
/// the text of the line, without the space around it.
pub proof fn law_heading_is_the_title(text: Seq<char>, rest: Seq<char>)
    requires
        !text.contains('\n'),
        trimmed(text).len() > 0,
        text[0] != '#',
        text.last() != '\r',
    ensures
        title_of((seq!['#'] + text).push('\n') + rest) == Some(trimmed(text)),
{
    let line = seq!['#'] + text;
    reveal_strlit("#");
    reveal_strlit("##");
    lemma_trimmed_empty();
    assert(text.len() > 0) by {
        if text.len() == 0 {
            assert(text =~= Seq::empty());
        }
    }
    assert(!line.contains('\n')) by {
        if line.contains('\n') {
            let k = choose|k: int| 0 <= k < line.len() && line[k] == '\n';
            assert(text[k - 1] == '\n');
        }
    }
    lemma_first_line(line, rest);
    assert(line.last() == text.last());
    assert(without_cr(line) == line);
    let lines = seq![line] + lines_of(rest);
    assert(lines[0] == line);
    assert(line.skip(1) =~= text);
    assert(drop_front(text, is_char('#')) == text);
    assert(line.take(1) =~= "#"@);
    assert(line.take(2)[1] == text[0]);
    assert("##"@[1] == '#');
    assert(!has_prefix(line, "##"@));
    assert(drop_front(line, is_char('#')) == text);
}

proof fn lemma_trimmed_empty()
    ensures
        trimmed(Seq::<char>::empty()).len() == 0,
{
}

/// A line that is no heading of the first level has no part in the title.
pub proof fn law_title_is_in_a_heading(line: Seq<char>, rest: Seq<char>)
    requires
        !line.contains('\n'),
        line.len() == 0 || line[0] != '#' || (line.len() > 1 && line[1] == '#'),
    ensures
        title_of(line.push('\n') + rest) == title_of(rest),
        title_of(line) is None,
{
    reveal_strlit("#");
    reveal_strlit("##");
    lemma_first_line(line, rest);
    let first = without_cr(line);
    let lines = seq![first] + lines_of(rest);
    assert(lines[0] == first);
    lemma_no_title(line);
    lemma_later_titles(first, lines_of(rest), 0);
    lemma_has_separator(line, '\n');
    lemma_pieces_nonempty(line, '\n');
    lemma_join_pieces(line, '\n');
    assert(pieces(line, '\n') =~= seq![line]);
    assert(seq![line].drop_last() =~= Seq::<Seq<char>>::empty());
    if line.len() > 0 {
        assert(lines_of(line) =~= seq![line]);
        assert(first_title(seq![line], 1) is None);
        assert(title_of_line(line) is None);
    } else {
        assert(lines_of(line) =~= Seq::<Seq<char>>::empty());
    }
}

proof fn lemma_no_title(line: Seq<char>)
    requires
        line.len() == 0 || line[0] != '#' || (line.len() > 1 && line[1] == '#'),
    ensures
        title_of_line(line) is None,
        title_of_line(without_cr(line)) is None,
{
    reveal_strlit("#");
    reveal_strlit("##");
    let cut = without_cr(line);
    if line.len() > 0 && line[0] != '#' {
        assert(has_prefix(line, "#"@) ==> line.take(1)[0] == '#');
        assert(has_prefix(cut, "#"@) ==> cut.take(1)[0] == '#');
    } else if line.len() > 1 {
        assert(line.take(2) =~= "##"@);
        assert(cut.len() >= 2);
        assert(cut.take(2) =~= "##"@);
    }
}

/// The drain before shutdown ends when time is up or the queue is empty. Until
/// then it sends exactly while the worker has something to do.
pub proof fn law_drain_sends_what_is_due(
    t: Tables,
    elapsed_ms: u64,
    timeout_ms: u64,
    now_ms: i64,
    after: Tables,
    step: PushStep,
)
    requires
        step_taken(t, now_ms, after, step),
        t.queue.dom().finite(),
        forall|p: Seq<char>| #[trigger]
            t.queue.contains_key(p) ==> op_named(t.queue[p].op) is Some,
    ensures
        match drain_decided(t, elapsed_ms, timeout_ms, now_ms) {
            DrainStep::TimedOut => elapsed_ms >= timeout_ms,
            DrainStep::Drained => elapsed_ms < timeout_ms && forall|p: Seq<char>|
                !#[trigger] t.queue.contains_key(p),
            DrainStep::Wait => elapsed_ms < timeout_ms && step is Idle && exists|p: Seq<char>|
                #[trigger] t.queue.contains_key(p),
            DrainStep::Send => elapsed_ms < timeout_ms && !(step is Idle),
        },
{
    if elapsed_ms < timeout_ms {
        if t.queue.len() == 0 {
            assert(t.queue.dom() =~= Set::empty());
            assert forall|p: Seq<char>| !#[trigger] t.queue.contains_key(p) by {
                assert(!t.queue.dom().contains(p));
            }
        } else if exists|p: Seq<char>| #[trigger]
            t.queue.contains_key(p) && claimable(t.queue[p], now_ms) {
            let q = choose|p: Seq<char>| #[trigger]
                t.queue.contains_key(p) && claimable(t.queue[p], now_ms);
            law_worker_takes_oldest_due_job(t, now_ms, after, step, q);
        } else {
            if forall|p: Seq<char>| !#[trigger] t.queue.contains_key(p) {
                assert(t.queue.dom() =~= Set::empty());
            }
            match step {
                PushStep::GaveUp => {
                    let (job, mid) = choose|job: PushJobView, mid: Tables|
                        #[trigger] claim(t, now_ms, mid, Some(job));
                },
                _ => {},
            }
        }
    }
}

/// A job is given up exactly where the server refuses its request: with a status
/// that is neither its own failure nor says that it is busy, that there is a
/// conflict or that there is no such document.
pub proof fn law_status_decides_over_a_job(
    t: Tables,
    job: PushJobView,
    status: u16,
    body: Seq<char>,
    now_ms: i64,
)
    requires
        t.queue.contains_key(job.brain_path),
        !t.queue[job.brain_path].poisoned,
        !(200 <= status <= 299),
    ensures
        push_failed(t, job, crate::api::client::refusal(status, body), now_ms).queue[
            job.brain_path
        ].poisoned <==> !(500 <= status <= 599) && status != 404 && status != 409 && status != 429,
{
}

// ── The record of a push ────────────────────────────────────────────────────

/// A push that went well takes its job out of the queue, unless something new was
/// asked for meanwhile, and is noted with its time. One that failed leaves the job
/// where it was, and says so in it.
pub proof fn law_push_is_recorded(
    t: Tables,
    job: PushJobView,
    hash: Option<String>,
    e: ApiError,
    now_ms: i64,
)
    requires
        t.queue.contains_key(job.brain_path),
    ensures
        ({
            let after = push_recorded(t, job, Ok(hash), now_ms);
            &&& t.queue[job.brain_path].pending_op is None ==> !after.queue.contains_key(
                job.brain_path,
            )
            &&& t.queue[job.brain_path].pending_op is Some ==> after.queue.contains_key(
                job.brain_path,
            ) && after.queue[job.brain_path].op == t.queue[job.brain_path].pending_op->0
            &&& after.meta.contains_key(SYNC_META_LAST_PUSH_AT@)
            &&& text_i64(after.meta[SYNC_META_LAST_PUSH_AT@]) == Some(now_ms)
        }),
        ({
            let after = push_recorded(t, job, Err(e), now_ms);
            &&& after.queue.contains_key(job.brain_path)
            &&& after.queue[job.brain_path].op == t.queue[job.brain_path].op
            &&& after.queue[job.brain_path].inflight_started_at is None
            &&& after.queue[job.brain_path].last_error == Some(api_error_text(e@))
            &&& after.meta == t.meta && after.remotes == t.remotes && after.inodes == t.inodes
        }),
{
    crate::text::law_int_text_round_trip(now_ms);
}

/// A write that reached the brain notes the hash that it has there and that it was
/// pushed, and the file is no longer dirty unless it was written again meanwhile.
pub proof fn law_pushed_write_is_noted(
    t: Tables,
    job: PushJobView,
    ino: u64,
    hash: Option<Seq<char>>,
    now_ms: i64,
)
    requires
        job.op == PushOp::Write,
        job.content_ino == Some(ino),
        t.remotes.contains_key(ino),
        t.inodes.contains_key(ino),
        t.queue.contains_key(job.brain_path),
    ensures
        ({
            let after = push_succeeded(t, job, hash, now_ms);
            &&& after.remotes[ino].content_hash == hash
            &&& after.remotes[ino].mirrored_updated_at == Some(now_ms)
            &&& after.remotes[ino].last_status == Some("pushed"@)
            &&& after.remotes[ino].last_status_at == Some(now_ms)
            &&& after.remotes[ino].remote_path == t.remotes[ino].remote_path
            &&& t.queue[job.brain_path].pending_op is None ==> dirty_since(after, ino) is None
            &&& t.queue[job.brain_path].pending_op is Some ==> dirty_since(after, ino)
                == dirty_since(t, ino)
        }),
{
}

/// A deletion that reached the brain leaves no record of the document, unless it
/// was written again meanwhile.
pub proof fn law_pushed_deletion_is_noted(
    t: Tables,
    job: PushJobView,
    ino: u64,
    hash: Option<Seq<char>>,
    now_ms: i64,
)
    requires
        job.op == PushOp::Delete,
        ino_by_remote_path(t, job.brain_path) == Some(ino),
        t.queue.contains_key(job.brain_path),
    ensures
        ({
            let after = push_succeeded(t, job, hash, now_ms);
            &&& t.queue[job.brain_path].pending_op is None ==> !after.remotes.contains_key(ino)
            &&& t.queue[job.brain_path].pending_op is None ==> dirty_since(after, ino) is None
            &&& t.queue[job.brain_path].pending_op is Some ==> after.remotes == t.remotes
            &&& forall|i: u64|
                i != ino ==> #[trigger] after.remotes.get(i) == t.remotes.get(i)
        }),
{
    let t1 = succeeded(t, job.brain_path, now_ms);
    let t2 = changed(
        t1,
        ChangeView::PutMeta(SYNC_META_LAST_PUSH_AT@, int_text(now_ms as int)),
    );
    let p = |i: u64| remote_path(t, i) == Some(job.brain_path);
    let q = |i: u64| remote_path(t2, i) == Some(job.brain_path);
    assert(p =~= q);
    assert(ino_by_remote_path(t2, job.brain_path) == Some(ino));
}

// ── What is sent ────────────────────────────────────────────────────────────

/// A file is written to the brain as a note under its path, with its content and
/// the title in it, over the version that is on record and no other.
pub proof fn law_write_request_is_that_of_the_file(
    t: Tables,
    job: PushJobView,
    ino: u64,
    next: PushNext,
)
    requires
        job.op == PushOp::Write,
        job.content_ino == Some(ino),
        starts(t, job, next),
    ensures
        next matches PushNext::Call(_, PushCall::Put(req)) && {
            &&& req.path@ == job.brain_path
            &&& req.body_md@ == lossy_text(content(t, ino))
            &&& opt_view(req.kind) == Some("note"@)
            &&& opt_view(req.title) == title_of(req.body_md@)
            &&& t.remotes.contains_key(ino) ==> opt_view(req.expected_content_hash)
                == t.remotes[ino].content_hash
            &&& !t.remotes.contains_key(ino) ==> req.expected_content_hash is None
            &&& req.tldr is None && req.tags is None && req.visibility is None
        },
{
}

/// A renamed document is written under its new path as a note with its body, over
/// whatever is there.
pub proof fn law_rename_request_is_that_of_the_document(
    t: Tables,
    job: PushJobView,
    name: Seq<char>,
    doc: BrainDocument,
    next: PushNext,
)
    requires
        job.rename_to == Some(name),
        goes_on(t, job, PushPhase::RenameRead, PushReply::Get(Ok(doc)), next),
    ensures
        next matches PushNext::Call(_, PushCall::Put(req)) && {
            &&& req.path@ == renamed_path(job.brain_path, name)
            &&& doc.body_md is Some ==> req.body_md@ == doc.body_md->0@
            &&& doc.body_md is None ==> req.body_md@.len() == 0
            &&& opt_view(req.kind) == Some("note"@)
            &&& req.title is None && req.expected_content_hash is None
            &&& req.tldr is None && req.tags is None && req.visibility is None
        },
{
}

/// A job that is given up is marked with the status that the server answered.
pub proof fn law_given_up_job_has_the_status(
    t: Tables,
    job: PushJobView,
    status: u16,
    body: Seq<char>,
    now_ms: i64,
)
    requires
        t.queue.contains_key(job.brain_path),
        refused(refusal(status, body)),
    ensures
        push_failed(t, job, refusal(status, body), now_ms).queue[job.brain_path].poisoned,
        push_failed(t, job, refusal(status, body), now_ms).queue[job.brain_path].last_status
            == Some(status as i64),
{
}

} // verus!
