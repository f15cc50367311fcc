//! A pull under way: which request comes next, and what its reply leads to.
//!
//! A pull goes through the changes feed page by page, from the persisted cursor
//! on or, without one, from the beginning. Where the server has no feed it goes
//! through the full list of documents. It is driven from outside: each step
//! takes the reply to what the last one asked for.

use super::pull::{
    body_bytes, bootstrap_fallback, bootstrapped, change_fetched, change_planned, cursor_fallback,
    delta_start, end_delta_page, feed_error, finish_change, law_changes_keep_tables_sound,
    law_lists_keep_tables_sound, law_pruning_keeps_tables_sound, legacy_delta_pull,
    legacy_full_pull, list_pull_ended, list_start, listed, map_changes_err, mark_pull_success,
    plan_change, pruned, pull_err, pull_error_text, pull_marked, to_invalidate, watermark,
    Bootstrap, BootstrapView, ChangePlan, DeltaStart, ListPull, PullErrorView, PullFallback,
    PullProgress, SYNC_META_CHANGES_CURSOR, SYNC_META_LAST_PULL_AT, SYNC_META_LAST_SEEN,
};
use crate::api::dto::{BrainDocument, ChangeEntry, ChangesResp, ListDocsResp};
use crate::api::error::{api_error_text, ApiError, ApiErrorView};
use crate::cache::fs::{
    components, dirs_made, doc_upserted, parent_part, path_dirs_made, walked, FsState, UnisonFs,
};
use crate::cache::model::all_remote_ids;
use crate::cache::rows::{changed, ChangeView, Tables};
use crate::cache::sound::{lemma_same_shape, sound};
use crate::text::{copy_opt, copy_text, opt_view};
use crate::vfs::error::{error_text, VfsErrorView};
use crate::vfs::types::Timestamp;
use vstd::prelude::*;

verus! {

// ── What goes in and out ────────────────────────────────────────────────────

/// What a pull asks for next.
#[derive(Debug, PartialEq, Eq)]
pub enum PullWant {
    /// A page of the changes feed, from a cursor on.
    Page(Option<String>),
    /// A turn, without any reply: the next change can be looked at.
    Turn,
    /// The document at a path.
    Doc(String),
    /// The full list of documents.
    List,
    /// Nothing more. It ended with so many documents reconciled, or failed.
    Done(Result<usize, String>),
}

/// A [`PullWant`] with its texts as character sequences.
pub enum PullWantView {
    Page(Option<Seq<char>>),
    Turn,
    Doc(Seq<char>),
    List,
    Done(Result<nat, Seq<char>>),
}

impl View for PullWant {
    type V = PullWantView;

    open spec fn view(&self) -> PullWantView {
        match *self {
            PullWant::Page(c) => PullWantView::Page(opt_view(c)),
            PullWant::Turn => PullWantView::Turn,
            PullWant::Doc(p) => PullWantView::Doc(p@),
            PullWant::List => PullWantView::List,
            PullWant::Done(Ok(n)) => PullWantView::Done(Ok(n as nat)),
            PullWant::Done(Err(e)) => PullWantView::Done(Err(e@)),
        }
    }
}

/// What a pull was given.
#[derive(Debug)]
pub enum PullGot {
    Page(Result<ChangesResp, ApiError>),
    Turn,
    Doc(Result<BrainDocument, ApiError>),
    List(Result<ListDocsResp, ApiError>),
}

/// What a step led to.
#[derive(Debug)]
pub struct PullStep {
    pub want: PullWant,
    /// An inode whose content changed, with the directory entry under which the
    /// kernel may have cached it.
    pub inval: Option<(u64, u64, String)>,
}

/// What a pull waits for.
#[derive(Debug, Clone, Copy, PartialEq, Eq, Structural)]
pub enum Stage {
    Page,
    Turn,
    Doc,
    List,
    Ended,
}

/// A pull under way.
#[derive(Debug)]
pub struct Pull {
    full: bool,
    resync: bool,
    boot: Option<Bootstrap>,
    reconciled: usize,
    changes: Vec<ChangeEntry>,
    at: usize,
    next_cursor: Option<String>,
    has_more: bool,
    stage: Stage,
}

/// The state of a [`Pull`].
pub struct PullView {
    /// The pull at startup, not one of those that follow.
    pub full: bool,
    /// It starts over because its cursor had expired.
    pub resync: bool,
    /// The bootstrap, in a pull that did not start from a cursor.
    pub boot: Option<BootstrapView>,
    /// How many changes changed local state, in a pull from a cursor on.
    pub reconciled: nat,
    /// The page that is being applied.
    pub changes: Seq<ChangeEntry>,
    /// How many of its changes are applied.
    pub at: nat,
    /// The cursor behind the page.
    pub next_cursor: Option<Seq<char>>,
    /// There is more behind the page.
    pub has_more: bool,
    pub stage: Stage,
}

impl View for Pull {
    type V = PullView;

    closed spec fn view(&self) -> PullView {
        PullView {
            full: self.full,
            resync: self.resync,
            boot: match self.boot {
                Some(b) => Some(b@),
                None => None,
            },
            reconciled: self.reconciled as nat,
            changes: self.changes@,
            at: self.at as nat,
            next_cursor: opt_view(self.next_cursor),
            has_more: self.has_more,
            stage: self.stage,
        }
    }
}

// ── Steps ───────────────────────────────────────────────────────────────────

/// The pull ends.
pub open spec fn ended(v: PullView, s: FsState, r: Result<nat, Seq<char>>) -> (
    PullView,
    FsState,
    PullWantView,
) {
    (PullView { stage: Stage::Ended, ..v }, s, PullWantView::Done(r))
}

/// All of a page was applied. A pull from a cursor on persists the cursor behind
/// the page at once, a bootstrap when it has seen the last page. Either asks for
/// the next page, or ends.
pub open spec fn page_over(v: PullView, s: FsState, now_ms: i64) -> (
    PullView,
    FsState,
    PullWantView,
) {
    let more = v.next_cursor is Some && v.has_more;
    match v.boot {
        None => {
            let t = match v.next_cursor {
                Some(c) => changed(s.t, ChangeView::PutMeta(SYNC_META_CHANGES_CURSOR@, c)),
                None => s.t,
            };
            if more {
                (
                    PullView { stage: Stage::Page, ..v },
                    FsState { t, ..s },
                    PullWantView::Page(v.next_cursor),
                )
            } else {
                ended(v, FsState { t: pull_marked(t, now_ms), ..s }, Ok(v.reconciled))
            }
        },
        Some(b) => {
            let b1 = BootstrapView {
                since: match v.next_cursor {
                    Some(c) => Some(c),
                    None => b.since,
                },
                ..b
            };
            let v1 = PullView { boot: Some(b1), ..v };
            if more {
                (PullView { stage: Stage::Page, ..v1 }, s, PullWantView::Page(b1.since))
            } else {
                ended(v1, bootstrapped(s, b1, now_ms), Ok(b1.reconciled))
            }
        },
    }
}

/// The next change of the page gets its turn, if there is one.
pub open spec fn next_turn(v: PullView, s: FsState, now_ms: i64) -> (
    PullView,
    FsState,
    PullWantView,
) {
    if v.at < v.changes.len() {
        (PullView { stage: Stage::Turn, ..v }, s, PullWantView::Turn)
    } else {
        page_over(v, s, now_ms)
    }
}

/// A page arrived.
pub open spec fn page_arrived(v: PullView, s: FsState, page: ChangesResp, now_ms: i64) -> (
    PullView,
    FsState,
    PullWantView,
) {
    next_turn(
        PullView {
            boot: match v.boot {
                Some(b) => Some(BootstrapView { page: b.page + 1, ..b }),
                None => None,
            },
            changes: page.changes@,
            at: 0,
            next_cursor: opt_view(page.next_cursor),
            has_more: page.has_more,
            ..v
        },
        s,
        now_ms,
    )
}

/// A page could not be had. A pull whose cursor has expired starts over, once;
/// where there is no feed the full list is asked for.
pub open spec fn page_failed(v: PullView, s: FsState, e: ApiErrorView) -> (
    PullView,
    FsState,
    PullWantView,
) {
    if v.resync {
        ended(v, s, Err(pull_error_text(feed_error(e))))
    } else {
        match feed_error(e) {
            PullErrorView::Other(text) => ended(v, s, Err(text)),
            PullErrorView::ResyncRequired => (
                PullView {
                    resync: true,
                    boot: Some(
                        BootstrapView { since: None, seen: Set::empty(), reconciled: 0, page: 0 },
                    ),
                    stage: Stage::Page,
                    ..v
                },
                s,
                PullWantView::Page(None),
            ),
            PullErrorView::NoChangesFeed => (
                PullView { stage: Stage::List, ..v },
                s,
                PullWantView::List,
            ),
        }
    }
}

/// A change is through, and changed local state or not.
pub open spec fn change_over(v: PullView, s: FsState, counts: bool, now_ms: i64) -> (
    PullView,
    FsState,
    PullWantView,
) {
    let n: nat = if counts {
        1
    } else {
        0
    };
    next_turn(
        PullView {
            at: v.at + 1,
            boot: match v.boot {
                Some(b) => Some(BootstrapView { reconciled: b.reconciled + n, ..b }),
                None => None,
            },
            reconciled: match v.boot {
                Some(_) => v.reconciled,
                None => v.reconciled + n,
            },
            ..v
        },
        s,
        now_ms,
    )
}

/// A change has its turn: it is dealt with, or its document asked for.
pub open spec fn change_turned(v: PullView, s: FsState, now_ms: i64) -> (
    PullView,
    FsState,
    PullWantView,
) {
    let ch = v.changes[v.at as int];
    let v1 = PullView {
        boot: match v.boot {
            Some(b) => Some(
                BootstrapView {
                    seen: if ch.deleted {
                        b.seen
                    } else {
                        b.seen.insert(ch.id@)
                    },
                    ..b
                },
            ),
            None => None,
        },
        ..v
    };
    let (s1, plan) = change_planned(s, ch, now_ms);
    match plan {
        ChangePlan::Done(counts) => change_over(v1, s1, counts, now_ms),
        ChangePlan::Fetch => (
            PullView { stage: Stage::Doc, ..v1 },
            s1,
            PullWantView::Doc(ch.path@),
        ),
    }
}

/// The document of a change arrived, or could not be had.
pub open spec fn doc_arrived(
    v: PullView,
    s: FsState,
    owner: (u32, u32),
    reply: Result<BrainDocument, ApiError>,
    now: Timestamp,
    now_ms: i64,
) -> (PullView, FsState, PullWantView) {
    let ch = v.changes[v.at as int];
    let (s1, r) = change_fetched(s, owner.0, owner.1, ch, reply, now, now_ms);
    match r {
        Ok(counts) => change_over(v, s1, counts, now_ms),
        Err(e) => ended(v, s1, Err(e)),
    }
}

/// The full list arrived: all of it is pulled at startup, and later what is
/// newer than the watermark.
pub open spec fn list_pulled(
    full: bool,
    s: FsState,
    owner: (u32, u32),
    docs: Seq<BrainDocument>,
    now: Timestamp,
    now_ms: i64,
) -> (FsState, Result<nat, VfsErrorView>) {
    let last_seen = if full {
        Seq::empty()
    } else {
        watermark(s.t)
    };
    let p = listed(list_start(s, last_seen), docs, last_seen, owner.0, owner.1, now, now_ms);
    match p.error {
        Some(e) => (p.s, Err(e)),
        None => (
            FsState {
                t: list_pull_ended(
                    p.s.t,
                    p.newest,
                    p.newest.len() > 0 && (full || p.newest != last_seen),
                    now_ms,
                ),
                ..p.s
            },
            Ok(p.reconciled),
        ),
    }
}

/// What an error that the list came with is called.
pub open spec fn list_failure(full: bool, e: ApiErrorView) -> Seq<char> {
    (if full {
        "full pull failed: "@
    } else {
        "delta pull failed: "@
    }) + api_error_text(e)
}

/// The full list arrived, or could not be had.
pub open spec fn list_arrived(
    v: PullView,
    s: FsState,
    owner: (u32, u32),
    reply: Result<ListDocsResp, ApiError>,
    now: Timestamp,
    now_ms: i64,
) -> (PullView, FsState, PullWantView) {
    match reply {
        Err(e) => ended(v, s, Err(list_failure(v.full, e@))),
        Ok(list) => {
            let (s1, r) = list_pulled(v.full, s, owner, list.documents@, now, now_ms);
            ended(
                v,
                s1,
                match r {
                    Ok(n) => Ok(n),
                    Err(e) => Err(error_text(e)),
                },
            )
        },
    }
}

/// The pull, the filesystem and what is asked for after a step.
pub open spec fn stepped(
    v: PullView,
    s: FsState,
    owner: (u32, u32),
    got: PullGot,
    now: Timestamp,
    now_ms: i64,
) -> (PullView, FsState, PullWantView) {
    match got {
        PullGot::Page(Ok(page)) => page_arrived(v, s, page, now_ms),
        PullGot::Page(Err(e)) => page_failed(v, s, e@),
        PullGot::Turn => change_turned(v, s, now_ms),
        PullGot::Doc(reply) => doc_arrived(v, s, owner, reply, now, now_ms),
        PullGot::List(reply) => list_arrived(v, s, owner, reply, now, now_ms),
    }
}

/// The pull waits for a change only where the page has one left.
pub open spec fn in_page(v: PullView) -> bool {
    v.stage == Stage::Turn || v.stage == Stage::Doc ==> v.at < v.changes.len()
}

/// What was given is what the pull waits for. A pull that did not start from a
/// persisted cursor has none that could have expired.
pub open spec fn expects(v: PullView, got: PullGot) -> bool {
    match got {
        PullGot::Page(r) => v.stage == Stage::Page && (v.boot is Some && !v.resync ==> !(
        r matches Err(e) && feed_error(e@) is ResyncRequired)),
        PullGot::Turn => v.stage == Stage::Turn,
        PullGot::Doc(_) => v.stage == Stage::Doc,
        PullGot::List(_) => v.stage == Stage::List,
    }
}

/// The counts can still grow.
pub open spec fn has_room(v: PullView) -> bool {
    &&& v.reconciled < usize::MAX
    &&& v.boot matches Some(b) ==> b.reconciled < usize::MAX && b.page < u32::MAX - 1
}

/// What the kernel is to forget after a step.
pub open spec fn forgets(
    v: PullView,
    s: FsState,
    owner: (u32, u32),
    got: PullGot,
    now: Timestamp,
    now_ms: i64,
) -> Option<(u64, u64, Seq<char>)> {
    match got {
        PullGot::Doc(reply) => to_invalidate(
            s,
            owner.0,
            owner.1,
            v.changes[v.at as int],
            reply,
            now,
            now_ms,
        ),
        _ => None,
    }
}

impl Pull {
    pub closed spec fn wf(&self) -> bool {
        &&& self.boot matches Some(b) ==> b.wf()
        &&& in_page(self@)
    }

    /// Starts a pull: at startup from the beginning, and later from the persisted
    /// cursor on, if there is one.
    pub fn start(fs: &UnisonFs, full: bool) -> (r: (Pull, PullWant))
        requires
            fs.wf(),
        ensures
            r.0.wf(),
            r.0@.full == full,
            !r.0@.resync,
            r.0@.reconciled == 0,
            r.0@.stage == Stage::Page,
            has_room(r.0@),
            ({
                let cursor = fs.state().t.meta.get(SYNC_META_CHANGES_CURSOR@);
                if full || cursor is None {
                    &&& r.0@.boot == Some(
                        BootstrapView { since: None, seen: Set::empty(), reconciled: 0, page: 0 },
                    )
                    &&& r.1@ == PullWantView::Page(None)
                } else {
                    r.0@.boot is None && r.1@ == PullWantView::Page(cursor)
                }
            }),
    {
        let cursor = if full {
            None
        } else {
            match delta_start(fs.db()) {
                DeltaStart::From(c) => Some(c),
                DeltaStart::Bootstrap => None,
            }
        };
        let pull = Pull {
            full,
            resync: false,
            boot: if cursor.is_some() {
                None
            } else {
                Some(Bootstrap::new())
            },
            reconciled: 0,
            changes: Vec::new(),
            at: 0,
            next_cursor: None,
            has_more: false,
            stage: Stage::Page,
        };
        (pull, PullWant::Page(cursor))
    }

    /// Whether the counts can still grow.
    pub fn has_room(&self) -> (r: bool)
        ensures
            r == has_room(self@),
    {
        self.reconciled < usize::MAX && match &self.boot {
            Some(b) => b.reconciled() < usize::MAX && b.page() < u32::MAX - 1,
            None => true,
        }
    }

    /// Whether the pull started without a cursor, rather than starting over
    /// because it had expired.
    pub fn is_bootstrap(&self) -> (r: bool)
        ensures
            r == (self@.boot is Some && !self@.resync),
    {
        self.boot.is_some() && !self.resync
    }

    /// How far a bootstrap is.
    pub fn progress(&self) -> (r: Option<PullProgress>)
        requires
            self.wf(),
            has_room(self@),
        ensures
            match self@.boot {
                Some(b) => r == Some(
                    PullProgress {
                        page: b.page as u32,
                        total_pages: (b.page + (if self@.has_more {
                            1int
                        } else {
                            0int
                        })) as u32,
                        total_items: b.seen.len() as usize,
                        reconciled: b.reconciled as usize,
                    },
                ),
                None => r is None,
            },
    {
        match &self.boot {
            Some(b) => Some(b.progress(self.has_more)),
            None => None,
        }
    }

    /// Takes what was asked for, and says what comes next.
    pub fn step(&mut self, fs: &mut UnisonFs, got: PullGot, now: Timestamp, now_ms: i64) -> (r:
        PullStep)
        requires
            old(self).wf(),
            old(fs).wf(),
            expects(old(self)@, got),
            has_room(old(self)@),
        ensures
            final(self).wf(),
            final(fs).follows(*old(fs)),
            (final(self)@, final(fs).state(), r.want@) == stepped(
                old(self)@,
                old(fs).state(),
                old(fs).owner(),
                got,
                now,
                now_ms,
            ),
            (match r.inval {
                Some(x) => Some((x.0, x.1, x.2@)),
                None => None,
            }) == forgets(old(self)@, old(fs).state(), old(fs).owner(), got, now, now_ms),
    {
        match got {
            PullGot::Page(Ok(page)) => PullStep {
                want: self.take_page(fs, page, now_ms),
                inval: None,
            },
            PullGot::Page(Err(e)) => PullStep { want: self.fail_page(e), inval: None },
            PullGot::Turn => PullStep { want: self.take_turn(fs, now_ms), inval: None },
            PullGot::Doc(reply) => self.take_doc(fs, reply, now, now_ms),
            PullGot::List(reply) => PullStep {
                want: self.take_list(fs, reply, now, now_ms),
                inval: None,
            },
        }
    }

    fn take_page(&mut self, fs: &mut UnisonFs, page: ChangesResp, now_ms: i64) -> (r: PullWant)
        requires
            old(self).wf(),
            old(fs).wf(),
            has_room(old(self)@),
        ensures
            final(self).wf(),
            final(fs).follows(*old(fs)),
            (final(self)@, final(fs).state(), r@) == page_arrived(
                old(self)@,
                old(fs).state(),
                page,
                now_ms,
            ),
    {
        match &mut self.boot {
            Some(b) => {
                b.start_page();
            },
            None => {},
        }
        self.changes = page.changes;
        self.at = 0;
        self.next_cursor = page.next_cursor;
        self.has_more = page.has_more;
        self.stage = Stage::Page;
        self.go_on(fs, now_ms)
    }

    /// Lets the next change have its turn, or ends the page.
    fn go_on(&mut self, fs: &mut UnisonFs, now_ms: i64) -> (r: PullWant)
        requires
            old(self).boot matches Some(b) ==> b.wf(),
            old(self).at <= old(self).changes@.len(),
            old(fs).wf(),
        ensures
            final(self).wf(),
            final(fs).follows(*old(fs)),
            (final(self)@, final(fs).state(), r@) == next_turn(old(self)@, old(fs).state(), now_ms),
    {
        if self.at < self.changes.len() {
            self.stage = Stage::Turn;
            return PullWant::Turn;
        }
        match &mut self.boot {
            None => {
                let next = copy_opt(&self.next_cursor);
                match end_delta_page(fs.db_mut(), next, self.has_more) {
                    Some(c) => {
                        self.stage = Stage::Page;
                        PullWant::Page(Some(c))
                    },
                    None => {
                        mark_pull_success(fs.db_mut(), now_ms);
                        self.stage = Stage::Ended;
                        PullWant::Done(Ok(self.reconciled))
                    },
                }
            },
            Some(b) => {
                let next = copy_opt(&self.next_cursor);
                if b.end_page(next, self.has_more) {
                    let since = match b.cursor() {
                        Some(c) => Some(copy_text(c)),
                        None => None,
                    };
                    self.stage = Stage::Page;
                    PullWant::Page(since)
                } else {
                    let n: usize = b.finish(fs, now_ms);
                    self.stage = Stage::Ended;
                    PullWant::Done(Ok(n))
                }
            },
        }
    }

    fn fail_page(&mut self, e: ApiError) -> (r: PullWant)
        requires
            old(self).wf(),
            expects(old(self)@, PullGot::Page(Err(e))),
        ensures
            final(self).wf(),
            forall|s: FsState|
                (final(self)@, s, r@) == #[trigger] page_failed(old(self)@, s, e@),
    {
        let e = map_changes_err(e);
        if self.resync {
            self.stage = Stage::Ended;
            return PullWant::Done(Err(pull_err(e)));
        }
        let fallback = if self.boot.is_some() {
            bootstrap_fallback(e)
        } else {
            cursor_fallback(e)
        };
        match fallback {
            PullFallback::Bootstrap => {
                self.resync = true;
                self.boot = Some(Bootstrap::new());
                self.stage = Stage::Page;
                PullWant::Page(None)
            },
            PullFallback::Legacy => {
                self.stage = Stage::List;
                PullWant::List
            },
            PullFallback::Fail(text) => {
                self.stage = Stage::Ended;
                PullWant::Done(Err(text))
            },
        }
    }

    /// Counts a change, and goes on.
    fn count(&mut self, fs: &mut UnisonFs, counts: bool, now_ms: i64) -> (r: PullWant)
        requires
            old(self).boot matches Some(b) ==> b.wf(),
            old(self).at < old(self).changes.len(),
            old(fs).wf(),
            has_room(old(self)@),
        ensures
            final(self).wf(),
            final(fs).follows(*old(fs)),
            (final(self)@, final(fs).state(), r@) == change_over(
                old(self)@,
                old(fs).state(),
                counts,
                now_ms,
            ),
    {
        self.at = self.at + 1;
        match &mut self.boot {
            Some(b) => {
                b.applied(counts);
            },
            None => {
                if counts {
                    self.reconciled = self.reconciled + 1;
                }
            },
        }
        self.go_on(fs, now_ms)
    }

    fn take_turn(&mut self, fs: &mut UnisonFs, now_ms: i64) -> (r: PullWant)
        requires
            old(self).wf(),
            old(fs).wf(),
            old(self)@.stage == Stage::Turn,
            has_room(old(self)@),
        ensures
            final(self).wf(),
            final(fs).follows(*old(fs)),
            (final(self)@, final(fs).state(), r@) == change_turned(
                old(self)@,
                old(fs).state(),
                now_ms,
            ),
    {
        let at: usize = self.at;
        match &mut self.boot {
            Some(b) => {
                b.saw(&self.changes[at]);
            },
            None => {},
        }
        match plan_change(fs, &self.changes[at], now_ms) {
            ChangePlan::Done(counts) => self.count(fs, counts, now_ms),
            ChangePlan::Fetch => {
                self.stage = Stage::Doc;
                PullWant::Doc(copy_text(self.changes[at].path.as_str()))
            },
        }
    }

    fn take_doc(
        &mut self,
        fs: &mut UnisonFs,
        reply: Result<BrainDocument, ApiError>,
        now: Timestamp,
        now_ms: i64,
    ) -> (r: PullStep)
        requires
            old(self).wf(),
            old(fs).wf(),
            old(self)@.stage == Stage::Doc,
            has_room(old(self)@),
        ensures
            final(self).wf(),
            final(fs).follows(*old(fs)),
            (final(self)@, final(fs).state(), r.want@) == doc_arrived(
                old(self)@,
                old(fs).state(),
                old(fs).owner(),
                reply,
                now,
                now_ms,
            ),
            (match r.inval {
                Some(x) => Some((x.0, x.1, x.2@)),
                None => None,
            }) == forgets(
                old(self)@,
                old(fs).state(),
                old(fs).owner(),
                PullGot::Doc(reply),
                now,
                now_ms,
            ),
    {
        let at: usize = self.at;
        match finish_change(fs, &self.changes[at], &reply, now, now_ms) {
            Ok(applied) => PullStep {
                want: self.count(fs, applied.changed, now_ms),
                inval: applied.inval,
            },
            Err(text) => {
                self.stage = Stage::Ended;
                PullStep { want: PullWant::Done(Err(text)), inval: None }
            },
        }
    }

    fn take_list(
        &mut self,
        fs: &mut UnisonFs,
        reply: Result<ListDocsResp, ApiError>,
        now: Timestamp,
        now_ms: i64,
    ) -> (r: PullWant)
        requires
            old(self).wf(),
            old(fs).wf(),
        ensures
            final(self).wf(),
            final(fs).follows(*old(fs)),
            (final(self)@, final(fs).state(), r@) == list_arrived(
                old(self)@,
                old(fs).state(),
                old(fs).owner(),
                reply,
                now,
                now_ms,
            ),
    {
        self.stage = Stage::Ended;
        match reply {
            Err(e) => {
                let what = if self.full {
                    "full pull failed: "
                } else {
                    "delta pull failed: "
                };
                PullWant::Done(Err(copy_text(what).concat(e.message().as_str())))
            },
            Ok(list) => {
                let pulled = if self.full {
                    legacy_full_pull(fs, &list.documents, now, now_ms)
                } else {
                    legacy_delta_pull(fs, &list.documents, now, now_ms)
                };
                match pulled {
                    Ok(n) => PullWant::Done(Ok(n)),
                    Err(e) => PullWant::Done(Err(e.message())),
                }
            },
        }
    }
}

// ── Laws ────────────────────────────────────────────────────────────────────

/// The persisted cursor.
pub open spec fn saved_cursor(t: Tables) -> Option<Seq<char>> {
    t.meta.get(SYNC_META_CHANGES_CURSOR@)
}

pub proof fn lemma_keys_differ()
    ensures
        SYNC_META_CHANGES_CURSOR@ != SYNC_META_LAST_PULL_AT@,
        SYNC_META_CHANGES_CURSOR@ != SYNC_META_LAST_SEEN@,
{
    reveal_strlit("changes_cursor");
    reveal_strlit("last_pull_at");
    reveal_strlit("last_seen_updated_at");
    assert(SYNC_META_CHANGES_CURSOR@.len() == 14);
    assert(SYNC_META_LAST_PULL_AT@.len() == 12);
    assert(SYNC_META_LAST_SEEN@.len() == 20);
}

proof fn lemma_walked_keeps_meta(s: FsState, parts: Seq<Seq<char>>)
    ensures
        walked(s, parts).0.t == s.t,
    decreases parts.len(),
{
    if parts.len() > 0 {
        lemma_walked_keeps_meta(s, parts.drop_last());
    }
}

proof fn lemma_dirs_keep_meta(
    s: FsState,
    parts: Seq<Seq<char>>,
    uid: u32,
    gid: u32,
    now: Timestamp,
)
    ensures
        dirs_made(s, parts, uid, gid, now).0.t.meta == s.t.meta,
    decreases parts.len(),
{
    if parts.len() > 0 {
        lemma_dirs_keep_meta(s, parts.drop_last(), uid, gid, now);
    }
}

proof fn lemma_upsert_keeps_meta(
    s: FsState,
    path: Seq<char>,
    content: Seq<u8>,
    uid: u32,
    gid: u32,
    now: Timestamp,
)
    ensures
        doc_upserted(s, path, content, uid, gid, now).0.t.meta == s.t.meta,
{
    lemma_dirs_keep_meta(s, components(path).drop_last(), uid, gid, now);
    let s1 = path_dirs_made(s, path, uid, gid, now).0;
    lemma_walked_keeps_meta(s1, components(parent_part(path)));
}

pub proof fn lemma_prune_keeps_meta(s: FsState, ids: Seq<Seq<char>>, seen: Set<Seq<char>>)
    ensures
        pruned(s, ids, seen).0.t.meta == s.t.meta,
    decreases ids.len(),
{
    if ids.len() > 0 {
        lemma_prune_keeps_meta(s, ids.drop_last(), seen);
    }
}

pub proof fn lemma_list_keeps_meta(
    start: ListPull,
    docs: Seq<BrainDocument>,
    last_seen: Seq<char>,
    uid: u32,
    gid: u32,
    now: Timestamp,
    now_ms: i64,
)
    ensures
        listed(start, docs, last_seen, uid, gid, now, now_ms).s.t.meta == start.s.t.meta,
    decreases docs.len(),
{
    if docs.len() > 0 {
        lemma_list_keeps_meta(start, docs.drop_last(), last_seen, uid, gid, now, now_ms);
        let p = listed(start, docs.drop_last(), last_seen, uid, gid, now, now_ms);
        let doc = docs.last();
        lemma_upsert_keeps_meta(
            p.s,
            doc.path@,
            body_bytes(opt_view(doc.body_md)),
            uid,
            gid,
            now,
        );
    }
}

proof fn lemma_fetch_keeps_meta(
    s: FsState,
    uid: u32,
    gid: u32,
    ch: ChangeEntry,
    reply: Result<BrainDocument, ApiError>,
    now: Timestamp,
    now_ms: i64,
)
    ensures
        change_fetched(s, uid, gid, ch, reply, now, now_ms).0.t.meta == s.t.meta,
{
    match reply {
        Ok(doc) => {
            lemma_upsert_keeps_meta(
                s,
                ch.path@,
                body_bytes(opt_view(doc.body_md)),
                uid,
                gid,
                now,
            );
        },
        Err(_) => {},
    }
}

/// The cursor that the page which is being applied leads to.
pub open spec fn page_cursor(v: PullView) -> Option<Seq<char>> {
    match v.boot {
        Some(b) => b.since,
        None => v.next_cursor,
    }
}

/// The persisted cursor is where it was, or all changes of the page are applied
/// and it is where the page leads. It has not moved where the pull has failed.
pub open spec fn cursor_in_order(before: FsState, after: (PullView, FsState, PullWantView)) -> bool {
    saved_cursor(after.1.t) == saved_cursor(before.t) || {
        &&& after.0.at == after.0.changes.len()
        &&& saved_cursor(after.1.t) == page_cursor(after.0)
        &&& !(after.2 matches PullWantView::Done(Err(_)))
    }
}

proof fn lemma_next_turn_cursor(v: PullView, s: FsState, now_ms: i64)
    requires
        v.at <= v.changes.len(),
    ensures
        cursor_in_order(s, next_turn(v, s, now_ms)),
{
    lemma_keys_differ();
    match v.boot {
        Some(b) => {
            lemma_prune_keeps_meta(s, all_remote_ids(s.t), b.seen);
        },
        None => {},
    }
}

proof fn lemma_turn_cursor(v: PullView, s: FsState, now_ms: i64)
    requires
        v.at < v.changes.len(),
    ensures
        cursor_in_order(s, change_turned(v, s, now_ms)),
{
    let ch = v.changes[v.at as int];
    let (planned, plan) = change_planned(s, ch, now_ms);
    assert(planned.t.meta == s.t.meta);
    if let ChangePlan::Done(counts) = plan {
        let n: nat = if counts {
            1
        } else {
            0
        };
        let turned = PullView {
            at: v.at + 1,
            boot: match v.boot {
                Some(b) => Some(
                    BootstrapView {
                        seen: if ch.deleted {
                            b.seen
                        } else {
                            b.seen.insert(ch.id@)
                        },
                        reconciled: b.reconciled + n,
                        ..b
                    },
                ),
                None => None,
            },
            reconciled: match v.boot {
                Some(_) => v.reconciled,
                None => v.reconciled + n,
            },
            ..v
        };
        lemma_next_turn_cursor(turned, planned, now_ms);
    }
}

proof fn lemma_doc_cursor(
    v: PullView,
    s: FsState,
    owner: (u32, u32),
    reply: Result<BrainDocument, ApiError>,
    now: Timestamp,
    now_ms: i64,
)
    requires
        v.at < v.changes.len(),
    ensures
        cursor_in_order(s, doc_arrived(v, s, owner, reply, now, now_ms)),
{
    let ch = v.changes[v.at as int];
    lemma_fetch_keeps_meta(s, owner.0, owner.1, ch, reply, now, now_ms);
    let (s1, r) = change_fetched(s, owner.0, owner.1, ch, reply, now, now_ms);
    if let Ok(counts) = r {
        let n: nat = if counts {
            1
        } else {
            0
        };
        let turned = PullView {
            at: v.at + 1,
            boot: match v.boot {
                Some(b) => Some(BootstrapView { reconciled: b.reconciled + n, ..b }),
                None => None,
            },
            reconciled: match v.boot {
                Some(_) => v.reconciled,
                None => v.reconciled + n,
            },
            ..v
        };
        lemma_next_turn_cursor(turned, s1, now_ms);
    }
}

proof fn lemma_list_cursor(
    v: PullView,
    s: FsState,
    owner: (u32, u32),
    reply: Result<ListDocsResp, ApiError>,
    now: Timestamp,
    now_ms: i64,
)
    ensures
        cursor_in_order(s, list_arrived(v, s, owner, reply, now, now_ms)),
{
    lemma_keys_differ();
    if let Ok(list) = reply {
        let last_seen = if v.full {
            Seq::empty()
        } else {
            watermark(s.t)
        };
        lemma_list_keeps_meta(
            list_start(s, last_seen),
            list.documents@,
            last_seen,
            owner.0,
            owner.1,
            now,
            now_ms,
        );
    }
}

/// The persisted cursor moves only when all changes of a page are applied, and
/// then to where the page leads. So a step that fails leaves it where it was,
/// and what failed is delivered again.
pub proof fn law_cursor_waits_for_whole_pages(
    v: PullView,
    s: FsState,
    owner: (u32, u32),
    got: PullGot,
    now: Timestamp,
    now_ms: i64,
)
    requires
        in_page(v),
        expects(v, got),
    ensures
        cursor_in_order(s, stepped(v, s, owner, got, now, now_ms)),
{
    match got {
        PullGot::Page(Ok(page)) => {
            let arrived = PullView {
                boot: match v.boot {
                    Some(b) => Some(BootstrapView { page: b.page + 1, ..b }),
                    None => None,
                },
                changes: page.changes@,
                at: 0,
                next_cursor: opt_view(page.next_cursor),
                has_more: page.has_more,
                ..v
            };
            lemma_next_turn_cursor(arrived, s, now_ms);
        },
        PullGot::Page(Err(_)) => {},
        PullGot::Turn => lemma_turn_cursor(v, s, now_ms),
        PullGot::Doc(reply) => lemma_doc_cursor(v, s, owner, reply, now, now_ms),
        PullGot::List(reply) => lemma_list_cursor(v, s, owner, reply, now, now_ms),
    }
}

proof fn lemma_next_turn_sound(v: PullView, s: FsState, now_ms: i64)
    requires
        sound(s.t),
    ensures
        sound(next_turn(v, s, now_ms).1.t),
{
    match v.boot {
        Some(b) => {
            law_pruning_keeps_tables_sound(s, all_remote_ids(s.t), b.seen);
            let p = pruned(s, all_remote_ids(s.t), b.seen).0;
            lemma_same_shape(p.t, bootstrapped(s, b, now_ms).t);
            let b1 = BootstrapView { since: v.next_cursor, ..b };
            lemma_same_shape(p.t, bootstrapped(s, b1, now_ms).t);
        },
        None => {
            lemma_same_shape(s.t, page_over(v, s, now_ms).1.t);
        },
    }
}

/// A pull keeps the tables sound at every step.
pub proof fn law_pulls_keep_tables_sound(
    v: PullView,
    s: FsState,
    owner: (u32, u32),
    got: PullGot,
    now: Timestamp,
    now_ms: i64,
)
    requires
        sound(s.t),
    ensures
        sound(stepped(v, s, owner, got, now, now_ms).1.t),
{
    let ch = v.changes[v.at as int];
    match got {
        PullGot::Page(Ok(page)) => {
            let boot = match v.boot {
                Some(b) => Some(BootstrapView { page: b.page + 1, ..b }),
                None => None,
            };
            lemma_next_turn_sound(
                PullView {
                    boot,
                    changes: page.changes@,
                    at: 0,
                    next_cursor: opt_view(page.next_cursor),
                    has_more: page.has_more,
                    ..v
                },
                s,
                now_ms,
            );
        },
        PullGot::Page(Err(_)) => {},
        PullGot::Turn => {
            let none: Result<BrainDocument, ApiError> = Err(ApiError::NotFound);
            law_changes_keep_tables_sound(s, owner.0, owner.1, ch, none, now, now_ms);
            let (s1, plan) = change_planned(s, ch, now_ms);
            if let ChangePlan::Done(counts) = plan {
                let v1 = PullView {
                    boot: match v.boot {
                        Some(b) => Some(
                            BootstrapView {
                                seen: if ch.deleted {
                                    b.seen
                                } else {
                                    b.seen.insert(ch.id@)
                                },
                                ..b
                            },
                        ),
                        None => None,
                    },
                    ..v
                };
                lemma_change_over_sound(v1, s1, counts, now_ms);
            }
        },
        PullGot::Doc(reply) => {
            law_changes_keep_tables_sound(s, owner.0, owner.1, ch, reply, now, now_ms);
            let (s1, r) = change_fetched(s, owner.0, owner.1, ch, reply, now, now_ms);
            if let Ok(counts) = r {
                lemma_change_over_sound(v, s1, counts, now_ms);
            }
        },
        PullGot::List(reply) => {
            if let Ok(list) = reply {
                let last_seen = if v.full {
                    Seq::empty()
                } else {
                    watermark(s.t)
                };
                let start = list_start(s, last_seen);
                let docs = list.documents@;
                law_lists_keep_tables_sound(
                    start,
                    docs,
                    last_seen,
                    owner.0,
                    owner.1,
                    now,
                    now_ms,
                );
                let p = listed(start, docs, last_seen, owner.0, owner.1, now, now_ms);
                lemma_same_shape(p.s.t, list_pulled(v.full, s, owner, docs, now, now_ms).0.t);
            }
        },
    }
}

proof fn lemma_change_over_sound(v: PullView, s: FsState, counts: bool, now_ms: i64)
    requires
        sound(s.t),
    ensures
        sound(change_over(v, s, counts, now_ms).1.t),
{
    let n: nat = if counts {
        1
    } else {
        0
    };
    lemma_next_turn_sound(
        PullView {
            at: v.at + 1,
            boot: match v.boot {
                Some(b) => Some(BootstrapView { reconciled: b.reconciled + n, ..b }),
                None => None,
            },
            reconciled: match v.boot {
                Some(_) => v.reconciled,
                None => v.reconciled + n,
            },
            ..v
        },
        s,
        now_ms,
    );
}

/// A bootstrap that asks for another page has neither pruned anything nor
/// persisted a cursor at the end of the last one.
pub proof fn law_bootstrap_prunes_at_the_end(v: PullView, s: FsState, now_ms: i64)
    requires
        v.boot is Some,
    ensures
        ({
            let (v1, s1, want) = page_over(v, s, now_ms);
            want matches PullWantView::Page(_) ==> s1 == s
        }),
{
}

} // verus!
