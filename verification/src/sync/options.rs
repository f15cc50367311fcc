//! Knobs of the sync engine, and when its loops run.

use super::pull::PullProgress;
use super::scan::DeletionScanProgress;
use crate::cache::fs::UnisonFs;
use crate::clock::since_epoch;
use vstd::prelude::*;

verus! {

/// Poll cadence in seconds while the wake stream is healthy: a slow safety net
/// behind the events.
pub const STREAM_FALLBACK_SECS: u64 = 300;

/// Milliseconds between two refreshes of the profile, at least.
pub const REWARM_AFTER_MS: i64 = 30_000;

#[derive(Debug, Clone, Copy, PartialEq, Eq, Structural)]
pub enum InitialPullProgress {
    DeletionScan(DeletionScanProgress),
    Pull(PullProgress),
}

/// Knobs for the sync engine. The intervals are in seconds.
#[derive(Debug, Clone, Copy, PartialEq, Eq, Structural)]
pub struct SyncOptions {
    pub delta_interval: u64,
    pub deletion_scan_interval: u64,
    pub pull_enabled: bool,
}

impl Default for SyncOptions {
    /// A poll every fifteen seconds and a full deletion scan every six hours.
    fn default() -> (r: Self)
        ensures
            r == (SyncOptions {
                delta_interval: 15,
                deletion_scan_interval: 21_600,
                pull_enabled: true,
            }),
    {
        SyncOptions { delta_interval: 15, deletion_scan_interval: 21_600, pull_enabled: true }
    }
}

/// How long the delta loop waits, in seconds, before jitter: its interval, or
/// the slow cadence while events arrive.
pub open spec fn interval_for(base_secs: u64, stream_healthy: bool) -> u64 {
    if stream_healthy && base_secs < STREAM_FALLBACK_SECS {
        STREAM_FALLBACK_SECS
    } else {
        base_secs
    }
}

/// See [`interval_for`].
pub fn poll_interval(base_secs: u64, stream_healthy: bool) -> (r: u64)
    ensures
        r == interval_for(base_secs, stream_healthy),
        r == (if stream_healthy && base_secs < STREAM_FALLBACK_SECS {
            STREAM_FALLBACK_SECS
        } else {
            base_secs
        }),
{
    if stream_healthy && base_secs < STREAM_FALLBACK_SECS {
        STREAM_FALLBACK_SECS
    } else {
        base_secs
    }
}

/// An interval with jitter, when the clock reads `nanos` beyond a second: up to
/// `max_jitter_secs` more or less, never below a second.
pub open spec fn jitter_applied(base_secs: u64, max_jitter_secs: i64, nanos: u32) -> int {
    let jitter = nanos as int % (2 * max_jitter_secs + 1) - max_jitter_secs;
    if base_secs + jitter < 1 {
        1
    } else {
        base_secs + jitter
    }
}

/// See [`jitter_applied`].
pub fn jittered_by(base_secs: u64, max_jitter_secs: i64, nanos: u32) -> (r: u64)
    requires
        0 <= max_jitter_secs <= 0x3fff_ffff_ffff_ffff,
        base_secs + max_jitter_secs <= i64::MAX,
    ensures
        r == jitter_applied(base_secs, max_jitter_secs, nanos),
{
    let span: i64 = 2 * max_jitter_secs + 1;
    let jitter: i64 = nanos as i64 % span - max_jitter_secs;
    let secs: i64 = base_secs as i64 + jitter;
    if secs < 1 {
        1
    } else {
        secs as u64
    }
}

/// Adds uniform jitter of up to `max_jitter_secs` to an interval, never going
/// below a second.
pub fn jittered(base_secs: u64, max_jitter_secs: i64) -> (r: u64)
    requires
        0 <= max_jitter_secs <= 0x3fff_ffff_ffff_ffff,
        base_secs + max_jitter_secs <= i64::MAX,
    ensures
        exists|nanos: u32| r == #[trigger] jitter_applied(base_secs, max_jitter_secs, nanos),
        1 <= r <= base_secs + max_jitter_secs || r == 1,
        r >= base_secs - max_jitter_secs,
{
    let nanos: u32 = match since_epoch() {
        Some(d) => d.1,
        None => 0,
    };
    jittered_by(base_secs, max_jitter_secs, nanos)
}

/// The profile is to be fetched again: at most once in thirty seconds.
pub open spec fn warm_due(last_ms: Option<i64>, now_ms: i64) -> bool {
    match last_ms {
        Some(last) => now_ms - last >= REWARM_AFTER_MS,
        None => true,
    }
}

/// See [`warm_due`].
pub fn rewarm_due(last_ms: Option<i64>, now_ms: i64) -> (r: bool)
    ensures
        r == warm_due(last_ms, now_ms),
        r == (match last_ms {
            Some(last) => now_ms - last >= REWARM_AFTER_MS,
            None => true,
        }),
{
    match last_ms {
        Some(last) => now_ms as i128 - last as i128 >= REWARM_AFTER_MS as i128,
        None => true,
    }
}

/// Jitter never moves an interval by more than it may.
pub proof fn law_jitter_is_bounded(base_secs: u64, max_jitter_secs: i64, nanos: u32)
    requires
        0 <= max_jitter_secs,
    ensures
        jitter_applied(base_secs, max_jitter_secs, nanos) >= 1,
        jitter_applied(base_secs, max_jitter_secs, nanos) >= base_secs - max_jitter_secs,
        jitter_applied(base_secs, max_jitter_secs, nanos) <= base_secs + max_jitter_secs
            || jitter_applied(base_secs, max_jitter_secs, nanos) == 1,
{
}

/// Orchestrates background sync for a mount.
#[derive(Debug)]
pub struct SyncEngine;

/// The background loops of a mount.
#[derive(Debug, Clone, Copy, PartialEq, Eq, Structural)]
pub struct SyncTasks {
    /// Pulls changes every few seconds, or when woken.
    pub delta: bool,
    /// Listens for events of the brain.
    pub stream: bool,
    /// Compares the brain's documents with the cache now and then.
    pub deletion: bool,
    /// Pulls what reads have missed.
    pub hydration: bool,
    /// Sends what was written.
    pub push: bool,
}

/// The loops of a mount: writes are pushed in any case, and the loops that pull
/// run unless pulls are disabled.
pub open spec fn tasks_for(pull_enabled: bool, has_api: bool) -> SyncTasks {
    SyncTasks {
        delta: pull_enabled,
        stream: pull_enabled && has_api,
        deletion: pull_enabled,
        hydration: pull_enabled,
        push: true,
    }
}

/// Without pulls nothing that pulls runs, and writes are still pushed.
pub proof fn law_writes_push_without_pulls(has_api: bool)
    ensures
        tasks_for(false, has_api).push,
        !tasks_for(false, has_api).delta,
        !tasks_for(false, has_api).stream,
        !tasks_for(false, has_api).deletion,
        !tasks_for(false, has_api).hydration,
{
}

impl SyncEngine {
    /// The loops to start: writes are pushed in any case, and the loops that
    /// pull run unless pulls are disabled.
    pub fn start(opts: &SyncOptions, has_api: bool) -> (r: SyncTasks)
        ensures
            r == tasks_for(opts.pull_enabled, has_api),
    {
        SyncTasks {
            delta: opts.pull_enabled,
            stream: opts.pull_enabled && has_api,
            deletion: opts.pull_enabled,
            hydration: opts.pull_enabled,
            push: true,
        }
    }

    /// Whether the initial pull scans for deletions first: there is nothing to
    /// delete while no document is on record.
    pub fn scans_first(fs: &UnisonFs) -> (r: bool)
        requires
            fs.wf(),
        ensures
            r == (fs.state().t.remotes.len() != 0),
    {
        fs.remote_count() != 0
    }
}

/// Without events the delta loop keeps its interval. With them it waits five
/// minutes at least, and never less than its interval.
pub proof fn law_events_slow_the_poll(base_secs: u64)
    ensures
        interval_for(base_secs, false) == base_secs,
        interval_for(base_secs, true) >= base_secs,
        interval_for(base_secs, true) >= 300,
        interval_for(base_secs, true) == base_secs || interval_for(base_secs, true) == 300,
{
}

/// The profile is fetched at first, then not for half a minute, and then again.
pub proof fn law_profile_is_fetched_now_and_then(last_ms: i64, now_ms: i64)
    ensures
        warm_due(None, now_ms),
        now_ms < last_ms + 30_000 ==> !warm_due(Some(last_ms), now_ms),
        now_ms >= last_ms + 30_000 ==> warm_due(Some(last_ms), now_ms),
{
}

/// With pulls every loop runs. Only that for events needs the API.
pub proof fn law_pulls_run_every_loop(has_api: bool)
    ensures
        tasks_for(true, has_api).delta,
        tasks_for(true, has_api).deletion,
        tasks_for(true, has_api).hydration,
        tasks_for(true, has_api).push,
        tasks_for(true, has_api).stream == has_api,
{
}

/// Every whole number of seconds within the jitter can come out: the jitter goes
/// round with the clock.
pub proof fn law_jitter_goes_round(base_secs: u64, max_jitter_secs: i64, nanos: u32)
    requires
        0 <= max_jitter_secs,
        base_secs > max_jitter_secs,
        nanos < u32::MAX,
    ensures
        ({
            let a = jitter_applied(base_secs, max_jitter_secs, nanos);
            let b = jitter_applied(base_secs, max_jitter_secs, (nanos + 1) as u32);
            b == (if a == base_secs + max_jitter_secs {
                base_secs - max_jitter_secs
            } else {
                a + 1
            })
        }),
{
    let m = 2 * max_jitter_secs + 1;
    vstd::arithmetic::div_mod::lemma_fundamental_div_mod(nanos as int, m);
    let q = nanos as int / m;
    let r = nanos as int % m;
    if r + 1 < m {
        vstd::arithmetic::div_mod::lemma_fundamental_div_mod_converse(nanos + 1, m, q, r + 1);
    } else {
        assert(nanos + 1 == m * (q + 1)) by (nonlinear_arith)
            requires
                nanos == m * q + r,
                r + 1 == m,
        ;
        vstd::arithmetic::div_mod::lemma_fundamental_div_mod_converse(nanos + 1, m, q + 1, 0);
    }
}

} // verus!
