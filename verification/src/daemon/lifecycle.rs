//! The life of a mount, from start to shutdown: what is done, in which order,
//! and which failures end it.

use vstd::prelude::*;

verus! {

/// Seconds that the daemon waits for its tasks when it shuts down.
pub const DAEMON_DRAIN_SECS: u64 = 30;

/// One thing to do in the life of a mount.
#[derive(Debug, Clone, Copy, PartialEq, Eq, Structural)]
pub enum Action {
    /// Make the directory of the state files.
    CreateStateDir,
    /// Write the first startup report.
    ReportInit,
    /// Pick the backend by the name given.
    ChooseBackend,
    /// Find the API token.
    ResolveToken,
    /// Ask the API whose token it is.
    VerifyToken,
    /// Delete the cache file.
    WipeCache,
    /// Open the cache file.
    OpenCache,
    /// Open a cache that is not saved.
    OpenMemoryCache,
    /// Fetch the profile, in the background.
    WarmProfile,
    /// Tell the API which paths to sync.
    SetMemoryPaths,
    /// Report that the deletion scan begins.
    ReportScan,
    /// Scan for deletions and pull all documents.
    InitialPull,
    /// Import local files, in the background.
    ImportFiles,
    /// Report that the filesystem is being mounted.
    ReportMounting,
    /// Make the directory to mount at, where it is missing.
    CreateMountPoint,
    /// Start the background loops, with or without those that pull.
    StartSync(bool),
    /// Write the hint for agents.
    InstallHint,
    /// Write the pid file.
    WritePid,
    /// Report that the mount is live.
    ReportReady,
    /// Say where the brain is mounted.
    Announce,
    /// Mount: afterwards the filesystem is live.
    Mount,
    /// Stay until the filesystem is unmounted, the mount is told to stop, or
    /// nothing was asked of it for too long.
    Wait,
    /// Tell the background loops to stop.
    SignalShutdown,
    /// Wait so many seconds for the background loops.
    DrainTasks(u64),
    /// Scan for deletions a last time.
    FinalScan,
    /// Unmount, where the filesystem is still mounted.
    Unmount,
    /// Remove the hint for agents.
    RemoveHint,
    /// Remove the marker file.
    RemoveMarker,
    /// Remove the startup report.
    ClearReport,
    /// Remove pid, socket and startup files.
    RemoveStateFiles,
}

/// A failure of the action ends the life of the mount at once. Other actions
/// are best effort.
pub open spec fn is_vital(a: Action) -> bool {
    match a {
        Action::CreateStateDir => true,
        Action::ChooseBackend => true,
        Action::ResolveToken => true,
        Action::VerifyToken => true,
        Action::OpenCache => true,
        Action::OpenMemoryCache => true,
        Action::CreateMountPoint => true,
        Action::WritePid => true,
        Action::Mount => true,
        Action::Wait => true,
        _ => false,
    }
}

/// Whether a failure of the action ends the life of the mount at once.
pub fn ends_on_failure(a: Action) -> (r: bool)
    ensures
        r == is_vital(a),
{
    matches!(
        a,
        Action::CreateStateDir
            | Action::ChooseBackend
            | Action::ResolveToken
            | Action::VerifyToken
            | Action::OpenCache
            | Action::OpenMemoryCache
            | Action::CreateMountPoint
            | Action::WritePid
            | Action::Mount
            | Action::Wait
    )
}

/// What the life of a daemon depends on.
#[derive(Debug, Clone, Copy, PartialEq, Eq, Structural)]
pub struct DaemonFlags {
    /// Some brain path prefixes were given.
    pub memory_paths: bool,
    pub no_import: bool,
    pub no_sync: bool,
    pub no_agent_hint: bool,
}

/// What the life of a mount in the foreground depends on.
#[derive(Debug, Clone, Copy, PartialEq, Eq, Structural)]
pub struct ForegroundFlags {
    /// Some brain path prefixes were given.
    pub memory_paths: bool,
    pub no_import: bool,
    pub no_sync: bool,
    pub no_agent_hint: bool,
    pub clean: bool,
    pub ephemeral: bool,
    pub drain_timeout: u64,
}

/// The action, where it is wanted.
pub open spec fn only_if(wanted: bool, a: Action) -> Seq<Action> {
    if wanted {
        seq![a]
    } else {
        Seq::empty()
    }
}

/// What a daemon does, in order.
pub open spec fn daemon_life(f: DaemonFlags) -> Seq<Action> {
    seq![
        Action::CreateStateDir,
        Action::ReportInit,
        Action::ResolveToken,
        Action::VerifyToken,
        Action::OpenCache,
        Action::WarmProfile,
    ] + only_if(f.memory_paths, Action::SetMemoryPaths) + seq![
        Action::ReportScan,
        Action::InitialPull,
    ] + only_if(!f.no_import, Action::ImportFiles) + seq![
        Action::ReportMounting,
        Action::CreateMountPoint,
        Action::Mount,
        Action::ReportReady,
        Action::StartSync(!f.no_sync),
    ] + only_if(!f.no_agent_hint, Action::InstallHint) + seq![
        Action::Wait,
        Action::SignalShutdown,
        Action::DrainTasks(DAEMON_DRAIN_SECS),
        Action::FinalScan,
        Action::Unmount,
    ] + only_if(!f.no_agent_hint, Action::RemoveHint) + seq![
        Action::RemoveMarker,
        Action::ClearReport,
        Action::RemoveStateFiles,
    ]
}

/// What a mount in the foreground does, in order.
pub open spec fn foreground_life(f: ForegroundFlags) -> Seq<Action> {
    seq![Action::ChooseBackend, Action::VerifyToken] + only_if(
        f.clean && !f.ephemeral,
        Action::WipeCache,
    ) + seq![
        if f.ephemeral {
            Action::OpenMemoryCache
        } else {
            Action::OpenCache
        },
        Action::WarmProfile,
    ] + only_if(f.memory_paths, Action::SetMemoryPaths) + seq![Action::InitialPull] + only_if(
        !f.no_import,
        Action::ImportFiles,
    ) + seq![Action::CreateMountPoint] + only_if(!f.no_agent_hint, Action::InstallHint) + seq![
        Action::WritePid,
        Action::StartSync(!f.no_sync),
        Action::Announce,
        Action::Mount,
        Action::Wait,
        Action::SignalShutdown,
        Action::DrainTasks(f.drain_timeout),
        Action::FinalScan,
        Action::Unmount,
    ] + only_if(!f.no_agent_hint, Action::RemoveHint) + seq![Action::RemoveStateFiles]
}

/// What a daemon does, in order.
pub fn daemon_plan(f: DaemonFlags) -> (r: Vec<Action>)
    ensures
        r@ == daemon_life(f),
{
    let mut v: Vec<Action> = Vec::new();
    v.push(Action::CreateStateDir);
    v.push(Action::ReportInit);
    v.push(Action::ResolveToken);
    v.push(Action::VerifyToken);
    v.push(Action::OpenCache);
    v.push(Action::WarmProfile);
    if f.memory_paths {
        v.push(Action::SetMemoryPaths);
    }
    v.push(Action::ReportScan);
    v.push(Action::InitialPull);
    if !f.no_import {
        v.push(Action::ImportFiles);
    }
    v.push(Action::ReportMounting);
    v.push(Action::CreateMountPoint);
    v.push(Action::Mount);
    v.push(Action::ReportReady);
    v.push(Action::StartSync(!f.no_sync));
    if !f.no_agent_hint {
        v.push(Action::InstallHint);
    }
    v.push(Action::Wait);
    v.push(Action::SignalShutdown);
    v.push(Action::DrainTasks(DAEMON_DRAIN_SECS));
    v.push(Action::FinalScan);
    v.push(Action::Unmount);
    if !f.no_agent_hint {
        v.push(Action::RemoveHint);
    }
    v.push(Action::RemoveMarker);
    v.push(Action::ClearReport);
    v.push(Action::RemoveStateFiles);
    assert(v@ =~= daemon_life(f));
    v
}

/// What a mount in the foreground does, in order.
#[verifier::rlimit(40)]
pub fn foreground_plan(f: ForegroundFlags) -> (r: Vec<Action>)
    ensures
        r@ == foreground_life(f),
{
    let mut v: Vec<Action> = Vec::new();
    v.push(Action::ChooseBackend);
    v.push(Action::VerifyToken);
    if f.clean && !f.ephemeral {
        v.push(Action::WipeCache);
    }
    v.push(
        if f.ephemeral {
            Action::OpenMemoryCache
        } else {
            Action::OpenCache
        },
    );
    v.push(Action::WarmProfile);
    if f.memory_paths {
        v.push(Action::SetMemoryPaths);
    }
    v.push(Action::InitialPull);
    if !f.no_import {
        v.push(Action::ImportFiles);
    }
    v.push(Action::CreateMountPoint);
    if !f.no_agent_hint {
        v.push(Action::InstallHint);
    }
    v.push(Action::WritePid);
    v.push(Action::StartSync(!f.no_sync));
    v.push(Action::Announce);
    v.push(Action::Mount);
    v.push(Action::Wait);
    v.push(Action::SignalShutdown);
    v.push(Action::DrainTasks(f.drain_timeout));
    v.push(Action::FinalScan);
    v.push(Action::Unmount);
    if !f.no_agent_hint {
        v.push(Action::RemoveHint);
    }
    v.push(Action::RemoveStateFiles);
    assert(v@ =~= foreground_life(f));
    v
}

/// What is done next: the action at `at`, or nothing once the plan is through
/// or a vital action has failed.
pub open spec fn next_of(plan: Seq<Action>, at: int, last_failed: bool) -> Option<Action> {
    if at < 0 || at >= plan.len() || (at > 0 && last_failed && is_vital(plan[at - 1])) {
        None
    } else {
        Some(plan[at])
    }
}

/// What is done next, when `at` actions are behind and the last of them failed
/// or not.
pub fn next_action(plan: &Vec<Action>, at: usize, last_failed: bool) -> (r: Option<Action>)
    ensures
        r == next_of(plan@, at as int, last_failed),
{
    if at >= plan.len() || (at > 0 && last_failed && ends_on_failure(plan[at - 1])) {
        None
    } else {
        Some(plan[at])
    }
}

/// A mount that nothing was asked of for `idle_secs` is to stop.
pub open spec fn idle_too_long(idle_secs: int, timeout_secs: int) -> bool {
    0 < timeout_secs <= idle_secs
}

/// Whether a mount that nothing was asked of for `idle_secs` is to stop. A
/// timeout of zero is none.
pub fn inactive(idle_secs: u64, timeout_secs: u64) -> (r: bool)
    ensures
        r == (timeout_secs > 0 && idle_secs >= timeout_secs),
        r == idle_too_long(idle_secs as int, timeout_secs as int),
{
    timeout_secs > 0 && idle_secs >= timeout_secs
}

/// `a` stands before `b`.
pub open spec fn comes_before(plan: Seq<Action>, a: Action, b: Action) -> bool {
    exists|i: int, j: int| 0 <= i < j < plan.len() && #[trigger] plan[i] == a && #[trigger] plan[j] == b
}

/// A daemon has verified its token before it opens the cache, and pulled all
/// documents before it mounts. It reports that it is ready only once the mount
/// is live, and starts its loops then. Once it is to end it stops the loops, waits
/// for them, unmounts what is still mounted and removes its state files.
pub proof fn law_daemon_order(f: DaemonFlags)
    ensures
        comes_before(daemon_life(f), Action::VerifyToken, Action::OpenCache),
        comes_before(daemon_life(f), Action::InitialPull, Action::Mount),
        comes_before(daemon_life(f), Action::Mount, Action::ReportReady),
        comes_before(daemon_life(f), Action::ReportReady, Action::StartSync(!f.no_sync)),
        comes_before(daemon_life(f), Action::StartSync(!f.no_sync), Action::Wait),
        comes_before(daemon_life(f), Action::Wait, Action::SignalShutdown),
        comes_before(
            daemon_life(f),
            Action::SignalShutdown,
            Action::DrainTasks(DAEMON_DRAIN_SECS),
        ),
        comes_before(daemon_life(f), Action::DrainTasks(DAEMON_DRAIN_SECS), Action::Unmount),
        comes_before(daemon_life(f), Action::Unmount, Action::RemoveStateFiles),
        daemon_life(f).last() == Action::RemoveStateFiles,
        daemon_life(f).contains(Action::InstallHint) == !f.no_agent_hint,
        daemon_life(f).contains(Action::RemoveHint) == !f.no_agent_hint,
{
    let v = daemon_life(f);
    let a: int = if f.memory_paths {
        1
    } else {
        0
    };
    let b: int = if f.no_import {
        a
    } else {
        a + 1
    };
    let c: int = if f.no_agent_hint {
        b
    } else {
        b + 1
    };
    let d: int = if f.no_agent_hint {
        c
    } else {
        c + 1
    };
    assert(v[3] == Action::VerifyToken && v[4] == Action::OpenCache);
    assert(v[7 + a] == Action::InitialPull);
    assert(v[10 + b] == Action::Mount);
    assert(v[11 + b] == Action::ReportReady);
    assert(v[12 + b] == Action::StartSync(!f.no_sync));
    assert(v[13 + c] == Action::Wait);
    assert(v[14 + c] == Action::SignalShutdown);
    assert(v[15 + c] == Action::DrainTasks(DAEMON_DRAIN_SECS));
    assert(v[17 + c] == Action::Unmount);
    assert(v[20 + d] == Action::RemoveStateFiles);
    assert(v.len() == 21 + d);
    if !f.no_agent_hint {
        assert(v[13 + b] == Action::InstallHint);
        assert(v[18 + c] == Action::RemoveHint);
    }
}

/// A mount in the foreground has pulled all documents before it mounts. Once it is
/// to end it stops its loops, waits for them, unmounts what is still mounted and
/// removes its state files.
pub proof fn law_foreground_order(f: ForegroundFlags)
    ensures
        comes_before(foreground_life(f), Action::InitialPull, Action::Mount),
        comes_before(foreground_life(f), Action::Mount, Action::Wait),
        comes_before(foreground_life(f), Action::Wait, Action::SignalShutdown),
        comes_before(
            foreground_life(f),
            Action::SignalShutdown,
            Action::DrainTasks(f.drain_timeout),
        ),
        comes_before(foreground_life(f), Action::DrainTasks(f.drain_timeout), Action::Unmount),
        comes_before(foreground_life(f), Action::Unmount, Action::RemoveStateFiles),
        foreground_life(f).last() == Action::RemoveStateFiles,
{
    let v = foreground_life(f);
    let w: int = if f.clean && !f.ephemeral {
        1
    } else {
        0
    };
    let a: int = if f.memory_paths {
        w + 1
    } else {
        w
    };
    let b: int = if f.no_import {
        a
    } else {
        a + 1
    };
    let c: int = if f.no_agent_hint {
        b
    } else {
        b + 1
    };
    assert(v[4 + a] == Action::InitialPull);
    assert(v[9 + c] == Action::Mount);
    assert(v[10 + c] == Action::Wait);
    assert(v[11 + c] == Action::SignalShutdown);
    assert(v[12 + c] == Action::DrainTasks(f.drain_timeout));
    assert(v[14 + c] == Action::Unmount);
    assert(v[v.len() - 1] == Action::RemoveStateFiles);
}

/// The action touches the cache file.
pub open spec fn touches_cache_file(a: Action) -> bool {
    a == Action::WipeCache || a == Action::OpenCache
}

/// No action of the plan touches the cache file.
pub open spec fn spares_cache_file(plan: Seq<Action>) -> bool {
    forall|i: int| 0 <= i < plan.len() ==> !touches_cache_file(#[trigger] plan[i])
}

proof fn lemma_spares(a: Seq<Action>, b: Seq<Action>)
    requires
        spares_cache_file(a),
        spares_cache_file(b),
    ensures
        spares_cache_file(a + b),
{
}

/// An ephemeral mount neither wipes nor opens the cache file.
pub proof fn law_ephemeral_spares_cache_file(f: ForegroundFlags)
    requires
        f.ephemeral,
    ensures
        spares_cache_file(foreground_life(f)),
{
    let a = seq![Action::ChooseBackend, Action::VerifyToken] + only_if(
        f.clean && !f.ephemeral,
        Action::WipeCache,
    );
    let b = a + seq![Action::OpenMemoryCache, Action::WarmProfile];
    let c = b + only_if(f.memory_paths, Action::SetMemoryPaths);
    let d = c + seq![Action::InitialPull];
    let e = d + only_if(!f.no_import, Action::ImportFiles);
    let g = e + seq![Action::CreateMountPoint];
    let h = g + only_if(!f.no_agent_hint, Action::InstallHint);
    let i = h + seq![
        Action::WritePid,
        Action::StartSync(!f.no_sync),
        Action::Announce,
        Action::Mount,
        Action::Wait,
        Action::SignalShutdown,
        Action::DrainTasks(f.drain_timeout),
        Action::FinalScan,
        Action::Unmount,
    ];
    let j = i + only_if(!f.no_agent_hint, Action::RemoveHint);
    assert(spares_cache_file(a));
    lemma_spares(a, seq![Action::OpenMemoryCache, Action::WarmProfile]);
    lemma_spares(b, only_if(f.memory_paths, Action::SetMemoryPaths));
    lemma_spares(c, seq![Action::InitialPull]);
    lemma_spares(d, only_if(!f.no_import, Action::ImportFiles));
    lemma_spares(e, seq![Action::CreateMountPoint]);
    lemma_spares(g, only_if(!f.no_agent_hint, Action::InstallHint));
    assert(spares_cache_file(
        seq![
            Action::WritePid,
            Action::StartSync(!f.no_sync),
            Action::Announce,
            Action::Mount,
            Action::Wait,
            Action::SignalShutdown,
            Action::DrainTasks(f.drain_timeout),
            Action::FinalScan,
            Action::Unmount,
        ],
    ));
    lemma_spares(
        h,
        seq![
            Action::WritePid,
            Action::StartSync(!f.no_sync),
            Action::Announce,
            Action::Mount,
            Action::Wait,
            Action::SignalShutdown,
            Action::DrainTasks(f.drain_timeout),
            Action::FinalScan,
            Action::Unmount,
        ],
    );
    lemma_spares(i, only_if(!f.no_agent_hint, Action::RemoveHint));
    lemma_spares(j, seq![Action::RemoveStateFiles]);
}

/// The action is not in the plan.
pub open spec fn lacks_action(plan: Seq<Action>, a: Action) -> bool {
    forall|i: int| 0 <= i < plan.len() ==> #[trigger] plan[i] != a
}

proof fn lemma_lacks_action(p: Seq<Action>, q: Seq<Action>, a: Action)
    ensures
        lacks_action(p + q, a) <==> lacks_action(p, a) && lacks_action(q, a),
{
    let r = p + q;
    if lacks_action(r, a) {
        assert forall|i: int| 0 <= i < p.len() implies #[trigger] p[i] != a by {
            assert(r[i] == p[i]);
        }
        assert forall|i: int| 0 <= i < q.len() implies #[trigger] q[i] != a by {
            assert(r[p.len() + i] == q[i]);
        }
    }
}

proof fn lemma_daemon_lacks(f: DaemonFlags, a: Action)
    requires
        a == Action::StartSync(f.no_sync) || a is SetMemoryPaths && !f.memory_paths || a
            is ImportFiles && f.no_import,
    ensures
        lacks_action(daemon_life(f), a),
{
    let p0 = seq![
        Action::CreateStateDir,
        Action::ReportInit,
        Action::ResolveToken,
        Action::VerifyToken,
        Action::OpenCache,
        Action::WarmProfile,
    ];
    let q1 = only_if(f.memory_paths, Action::SetMemoryPaths);
    let q2 = seq![Action::ReportScan, Action::InitialPull];
    let q3 = only_if(!f.no_import, Action::ImportFiles);
    let q4 = seq![
        Action::ReportMounting,
        Action::CreateMountPoint,
        Action::Mount,
        Action::ReportReady,
        Action::StartSync(!f.no_sync),
    ];
    let q5 = only_if(!f.no_agent_hint, Action::InstallHint);
    let q6 = seq![
        Action::Wait,
        Action::SignalShutdown,
        Action::DrainTasks(DAEMON_DRAIN_SECS),
        Action::FinalScan,
        Action::Unmount,
    ];
    let q7 = only_if(!f.no_agent_hint, Action::RemoveHint);
    let q8 = seq![Action::RemoveMarker, Action::ClearReport, Action::RemoveStateFiles];
    let p1 = p0 + q1;
    let p2 = p1 + q2;
    let p3 = p2 + q3;
    let p4 = p3 + q4;
    let p5 = p4 + q5;
    let p6 = p5 + q6;
    let p7 = p6 + q7;
    assert(daemon_life(f) == p7 + q8);
    lemma_lacks_action(p0, q1, a);
    lemma_lacks_action(p1, q2, a);
    lemma_lacks_action(p2, q3, a);
    lemma_lacks_action(p3, q4, a);
    lemma_lacks_action(p4, q5, a);
    lemma_lacks_action(p5, q6, a);
    lemma_lacks_action(p6, q7, a);
    lemma_lacks_action(p7, q8, a);
}

#[verifier::rlimit(60)]
proof fn lemma_foreground_lacks(f: ForegroundFlags, a: Action)
    requires
        a == Action::StartSync(f.no_sync) || a is SetMemoryPaths && !f.memory_paths || a
            is ImportFiles && f.no_import || a is WipeCache && !f.clean || (a is InstallHint || a
            is RemoveHint) && f.no_agent_hint,
    ensures
        lacks_action(foreground_life(f), a),
{
    let p0 = seq![Action::ChooseBackend, Action::VerifyToken];
    let q1 = only_if(f.clean && !f.ephemeral, Action::WipeCache);
    let q2 = seq![
        if f.ephemeral {
            Action::OpenMemoryCache
        } else {
            Action::OpenCache
        },
        Action::WarmProfile,
    ];
    let q3 = only_if(f.memory_paths, Action::SetMemoryPaths);
    let q4 = seq![Action::InitialPull];
    let q5 = only_if(!f.no_import, Action::ImportFiles);
    let q6 = seq![Action::CreateMountPoint];
    let q7 = only_if(!f.no_agent_hint, Action::InstallHint);
    let q8 = seq![
        Action::WritePid,
        Action::StartSync(!f.no_sync),
        Action::Announce,
        Action::Mount,
        Action::Wait,
        Action::SignalShutdown,
        Action::DrainTasks(f.drain_timeout),
        Action::FinalScan,
        Action::Unmount,
    ];
    let q9 = only_if(!f.no_agent_hint, Action::RemoveHint);
    let q10 = seq![Action::RemoveStateFiles];
    let p1 = p0 + q1;
    let p2 = p1 + q2;
    let p3 = p2 + q3;
    let p4 = p3 + q4;
    let p5 = p4 + q5;
    let p6 = p5 + q6;
    let p7 = p6 + q7;
    let p8 = p7 + q8;
    let p9 = p8 + q9;
    assert(lacks_action(p0, a));
    assert(lacks_action(q1, a));
    assert(lacks_action(q2, a));
    assert(lacks_action(q3, a));
    assert(lacks_action(q4, a));
    assert(lacks_action(q5, a));
    assert(lacks_action(q6, a));
    assert(lacks_action(q7, a));
    assert(lacks_action(q8, a));
    assert(lacks_action(q9, a));
    assert(lacks_action(q10, a));
    assert(foreground_life(f) == p9 + q10);
    lemma_lacks_action(p0, q1, a);
    lemma_lacks_action(p1, q2, a);
    lemma_lacks_action(p2, q3, a);
    lemma_lacks_action(p3, q4, a);
    lemma_lacks_action(p4, q5, a);
    lemma_lacks_action(p5, q6, a);
    lemma_lacks_action(p6, q7, a);
    lemma_lacks_action(p7, q8, a);
    lemma_lacks_action(p8, q9, a);
    lemma_lacks_action(p9, q10, a);
}

/// What is left out of a life, and what is done in it, is what the flags say.
#[verifier::rlimit(60)]
pub proof fn law_daemon_does_what_was_wanted(f: DaemonFlags)
    ensures
        !f.memory_paths ==> lacks_action(daemon_life(f), Action::SetMemoryPaths),
        f.no_import ==> lacks_action(daemon_life(f), Action::ImportFiles),
        daemon_life(f).contains(Action::StartSync(!f.no_sync)),
        lacks_action(daemon_life(f), Action::StartSync(f.no_sync)),
        f.memory_paths ==> comes_before(
            daemon_life(f),
            Action::SetMemoryPaths,
            Action::InitialPull,
        ),
        !f.no_import ==> comes_before(daemon_life(f), Action::InitialPull, Action::ImportFiles),
        !f.no_agent_hint ==> comes_before(daemon_life(f), Action::Mount, Action::InstallHint),
        !f.no_agent_hint ==> comes_before(daemon_life(f), Action::Unmount, Action::RemoveHint),
        comes_before(daemon_life(f), Action::ResolveToken, Action::VerifyToken),
        comes_before(
            daemon_life(f),
            Action::DrainTasks(DAEMON_DRAIN_SECS),
            Action::FinalScan,
        ),
        comes_before(daemon_life(f), Action::FinalScan, Action::Unmount),
        daemon_life(f)[0] == Action::CreateStateDir,
        daemon_life(f).contains(Action::RemoveMarker),
        daemon_life(f).contains(Action::CreateMountPoint),
{
    lemma_daemon_lacks(f, Action::StartSync(f.no_sync));
    if !f.memory_paths {
        lemma_daemon_lacks(f, Action::SetMemoryPaths);
    }
    if f.no_import {
        lemma_daemon_lacks(f, Action::ImportFiles);
    }
    let v = daemon_life(f);
    let a: int = if f.memory_paths {
        1
    } else {
        0
    };
    let b: int = if f.no_import {
        a
    } else {
        a + 1
    };
    let c: int = if f.no_agent_hint {
        b
    } else {
        b + 1
    };
    let d: int = if f.no_agent_hint {
        c
    } else {
        c + 1
    };
    assert(v[2] == Action::ResolveToken && v[3] == Action::VerifyToken);
    assert(v[7 + a] == Action::InitialPull);
    assert(v[9 + b] == Action::CreateMountPoint);
    assert(v[10 + b] == Action::Mount);
    assert(v[12 + b] == Action::StartSync(!f.no_sync));
    assert(v[15 + c] == Action::DrainTasks(DAEMON_DRAIN_SECS));
    assert(v[16 + c] == Action::FinalScan);
    assert(v[17 + c] == Action::Unmount);
    assert(v[18 + d] == Action::RemoveMarker);
    if f.memory_paths {
        assert(v[6] == Action::SetMemoryPaths);
    }
    if !f.no_import {
        assert(v[8 + a] == Action::ImportFiles);
    }
    if !f.no_agent_hint {
        assert(v[13 + b] == Action::InstallHint);
        assert(v[18 + c] == Action::RemoveHint);
    }
}

/// A mount in the foreground opens the cache file unless it is ephemeral, and has
/// wiped it before where a clean one was wanted. It has verified its token before.
#[verifier::rlimit(60)]
pub proof fn law_foreground_does_what_was_wanted(f: ForegroundFlags)
    ensures
        comes_before(
            foreground_life(f),
            Action::VerifyToken,
            if f.ephemeral {
                Action::OpenMemoryCache
            } else {
                Action::OpenCache
            },
        ),
        f.clean && !f.ephemeral ==> comes_before(
            foreground_life(f),
            Action::WipeCache,
            Action::OpenCache,
        ),
        !f.clean ==> lacks_action(foreground_life(f), Action::WipeCache),
        f.memory_paths ==> comes_before(
            foreground_life(f),
            Action::SetMemoryPaths,
            Action::InitialPull,
        ),
        !f.memory_paths ==> lacks_action(foreground_life(f), Action::SetMemoryPaths),
        !f.no_import ==> comes_before(foreground_life(f), Action::InitialPull, Action::ImportFiles),
        f.no_import ==> lacks_action(foreground_life(f), Action::ImportFiles),
        foreground_life(f).contains(Action::StartSync(!f.no_sync)),
        lacks_action(foreground_life(f), Action::StartSync(f.no_sync)),
        !f.no_agent_hint ==> comes_before(
            foreground_life(f),
            Action::InstallHint,
            Action::RemoveHint,
        ),
        f.no_agent_hint ==> lacks_action(foreground_life(f), Action::InstallHint),
        f.no_agent_hint ==> lacks_action(foreground_life(f), Action::RemoveHint),
        comes_before(foreground_life(f), Action::CreateMountPoint, Action::Mount),
        comes_before(foreground_life(f), Action::WritePid, Action::Mount),
        comes_before(foreground_life(f), Action::FinalScan, Action::Unmount),
{
    lemma_foreground_lacks(f, Action::StartSync(f.no_sync));
    if !f.clean {
        lemma_foreground_lacks(f, Action::WipeCache);
    }
    if !f.memory_paths {
        lemma_foreground_lacks(f, Action::SetMemoryPaths);
    }
    if f.no_import {
        lemma_foreground_lacks(f, Action::ImportFiles);
    }
    if f.no_agent_hint {
        lemma_foreground_lacks(f, Action::InstallHint);
        lemma_foreground_lacks(f, Action::RemoveHint);
    }
    let v = foreground_life(f);
    let w: int = if f.clean && !f.ephemeral {
        1
    } else {
        0
    };
    let a: int = if f.memory_paths {
        w + 1
    } else {
        w
    };
    let b: int = if f.no_import {
        a
    } else {
        a + 1
    };
    let c: int = if f.no_agent_hint {
        b
    } else {
        b + 1
    };
    assert(v[1] == Action::VerifyToken);
    if f.clean && !f.ephemeral {
        assert(v[2] == Action::WipeCache);
    }
    assert(touches_cache_file(v[2 + w]) || v[2 + w] == Action::OpenMemoryCache);
    if f.memory_paths {
        assert(v[4 + w] == Action::SetMemoryPaths);
    }
    assert(v[4 + a] == Action::InitialPull);
    if !f.no_import {
        assert(v[5 + a] == Action::ImportFiles);
    }
    assert(v[5 + b] == Action::CreateMountPoint);
    if !f.no_agent_hint {
        assert(v[6 + b] == Action::InstallHint);
        assert(v[15 + c] == Action::RemoveHint);
    }
    assert(v[6 + c] == Action::WritePid);
    assert(v[7 + c] == Action::StartSync(!f.no_sync));
    assert(v[9 + c] == Action::Mount);
    assert(v[13 + c] == Action::FinalScan);
    assert(v[14 + c] == Action::Unmount);
}

/// A life goes on action by action. It ends early only where an action failed that
/// the rest cannot do without: a report, a hint, a scan, a background task or
/// clearing up is not one.
pub proof fn law_life_goes_on(plan: Seq<Action>, at: int, failed: bool)
    requires
        0 <= at < plan.len(),
    ensures
        at == 0 || !failed ==> next_of(plan, at, failed) == Some(plan[at]),
        at > 0 && failed && (plan[at - 1] is ReportInit || plan[at - 1] is ReportScan || plan[at
            - 1] is ReportMounting || plan[at - 1] is ReportReady || plan[at - 1] is Announce
            || plan[at - 1] is WipeCache || plan[at - 1] is WarmProfile || plan[at - 1]
            is SetMemoryPaths || plan[at - 1] is InitialPull || plan[at - 1] is ImportFiles
            || plan[at - 1] is StartSync || plan[at - 1] is InstallHint || plan[at - 1]
            is SignalShutdown || plan[at - 1] is DrainTasks || plan[at - 1] is FinalScan || plan[at
            - 1] is Unmount || plan[at - 1] is RemoveHint || plan[at - 1] is RemoveMarker
            || plan[at - 1] is ClearReport || plan[at - 1] is RemoveStateFiles) ==> next_of(
            plan,
            at,
            failed,
        ) == Some(plan[at]),
        at > 0 && failed && (plan[at - 1] is CreateStateDir || plan[at - 1] is ChooseBackend
            || plan[at - 1] is ResolveToken || plan[at - 1] is VerifyToken || plan[at - 1]
            is OpenCache || plan[at - 1] is OpenMemoryCache || plan[at - 1] is CreateMountPoint
            || plan[at - 1] is WritePid || plan[at - 1] is Mount || plan[at - 1] is Wait)
            ==> next_of(plan, at, failed) is None,
        next_of(plan, plan.len() as int, failed) is None,
{
}

/// A mount stops once it was idle for as long as the timeout, and without a timeout
/// never. One that stops would stop if it were idle longer.
pub proof fn law_idle_mounts_stop(timeout: int, longer: int)
    requires
        0 < timeout,
        0 <= longer,
    ensures
        idle_too_long(timeout + longer, timeout),
        longer < timeout ==> !idle_too_long(longer, timeout),
        !idle_too_long(longer, 0),
{
}

} // verus!
