//! Startup progress of the daemon, which its parent reads from a file.

use crate::clock::Monotonic;
use crate::paths::{join_path, path_in};
use crate::text::{copy_text, decimal, opt_view, print_nat};
use vstd::prelude::*;

verus! {

/// Phases that a daemon startup goes through, in order.
#[derive(Debug, Clone, Copy, PartialEq, Eq, Structural)]
pub enum Phase {
    /// Initial startup: process launched, cache opening.
    Init,
    /// Performing the initial deletion scan against the remote.
    DeletionScan,
    /// Pulling all brain documents into the local cache.
    InitialPull,
    /// Mount FUSE/NFS filesystem.
    Mounting,
    /// All done — mount is live.
    Ready,
    /// Non-recoverable error.
    Failed,
}

/// What a phase is called.
pub open spec fn phase_name(p: Phase) -> Seq<char> {
    match p {
        Phase::Init => "Initialising"@,
        Phase::DeletionScan => "Scanning for deletions"@,
        Phase::InitialPull => "Pulling brain documents"@,
        Phase::Mounting => "Mounting filesystem"@,
        Phase::Ready => "Ready"@,
        Phase::Failed => "Failed"@,
    }
}

impl Phase {
    pub fn label(&self) -> (r: String)
        ensures
            r@ == phase_name(*self),
    {
        match self {
            Phase::Init => copy_text("Initialising"),
            Phase::DeletionScan => copy_text("Scanning for deletions"),
            Phase::InitialPull => copy_text("Pulling brain documents"),
            Phase::Mounting => copy_text("Mounting filesystem"),
            Phase::Ready => copy_text("Ready"),
            Phase::Failed => copy_text("Failed"),
        }
    }
}

/// A progress snapshot written by the daemon to the startup file.
#[derive(Debug)]
pub struct StartupProgress {
    pub phase: Phase,
    /// Human-readable description of what's happening now.
    pub message: String,
    /// 0–100 estimate; `None` means indeterminate.
    pub pct: Option<u8>,
    /// What went wrong, when the phase is `Failed`.
    pub error: Option<String>,
}

/// A [`StartupProgress`] with its texts as character sequences.
pub struct ProgressView {
    pub phase: Phase,
    pub message: Seq<char>,
    pub pct: Option<u8>,
    pub error: Option<Seq<char>>,
}

impl View for StartupProgress {
    type V = ProgressView;

    open spec fn view(&self) -> ProgressView {
        ProgressView {
            phase: self.phase,
            message: self.message@,
            pct: self.pct,
            error: opt_view(self.error),
        }
    }
}

/// Progress without an error.
pub open spec fn progress(phase: Phase, message: Seq<char>, pct: Option<u8>) -> ProgressView {
    ProgressView { phase, message, pct, error: None }
}

impl StartupProgress {
    pub fn init() -> (r: Self)
        ensures
            r@ == progress(Phase::Init, "Starting unisonfs daemon"@, Some(0)),
    {
        StartupProgress {
            phase: Phase::Init,
            message: copy_text("Starting unisonfs daemon"),
            pct: Some(0),
            error: None,
        }
    }

    /// `share` is how much of the first thirty percent the pages done make up.
    pub fn deletion_scan(page: u32, total: u32, share: u8) -> (r: Self)
        ensures
            r@ == progress(
                Phase::DeletionScan,
                "Deletion scan: page "@ + decimal(page as nat) + "/"@ + decimal(total as nat),
                if total == 0 {
                    None
                } else {
                    Some(share)
                },
            ),
    {
        StartupProgress {
            phase: Phase::DeletionScan,
            message: copy_text("Deletion scan: page ").concat(
                print_nat(page as u64).as_str(),
            ).concat("/").concat(print_nat(total as u64).as_str()),
            pct: if total == 0 {
                None
            } else {
                Some(share)
            },
            error: None,
        }
    }

    /// `share` is how much of the following sixty percent the documents done
    /// make up.
    pub fn initial_pull(done: usize, total: usize, share: u8) -> (r: Self)
        requires
            share <= 225,
        ensures
            r@ == progress(
                Phase::InitialPull,
                "Pulling brain documents: "@ + decimal(done as nat) + "/"@ + decimal(total as nat),
                if total == 0 {
                    None
                } else {
                    Some((30 + share) as u8)
                },
            ),
    {
        StartupProgress {
            phase: Phase::InitialPull,
            message: copy_text("Pulling brain documents: ").concat(
                print_nat(done as u64).as_str(),
            ).concat("/").concat(print_nat(total as u64).as_str()),
            pct: if total == 0 {
                None
            } else {
                Some(30 + share)
            },
            error: None,
        }
    }

    pub fn mounting() -> (r: Self)
        ensures
            r@ == progress(Phase::Mounting, "Mounting filesystem"@, Some(90)),
    {
        StartupProgress {
            phase: Phase::Mounting,
            message: copy_text("Mounting filesystem"),
            pct: Some(90),
            error: None,
        }
    }

    /// `secs` is the time that the startup took, written in seconds.
    pub fn ready(docs: usize, secs: &str) -> (r: Self)
        ensures
            r@ == progress(
                Phase::Ready,
                "Mounted ("@ + decimal(docs as nat) + " docs, "@ + secs@ + "s)"@,
                Some(100),
            ),
    {
        StartupProgress {
            phase: Phase::Ready,
            message: copy_text("Mounted (").concat(print_nat(docs as u64).as_str()).concat(
                " docs, ",
            ).concat(secs).concat("s)"),
            pct: Some(100),
            error: None,
        }
    }

    pub fn failed(err: &str) -> (r: Self)
        ensures
            r@ == (ProgressView {
                phase: Phase::Failed,
                message: "Startup failed: "@ + err@,
                pct: None,
                error: Some(err@),
            }),
    {
        StartupProgress {
            phase: Phase::Failed,
            message: copy_text("Startup failed: ").concat(err),
            pct: None,
            error: Some(copy_text(err)),
        }
    }
}

/// Where startup progress is written, and when the startup began.
#[derive(Debug)]
pub struct StartupReporter {
    path: String,
    started: Monotonic,
}

impl StartupReporter {
    /// The file that progress is written to.
    pub closed spec fn file(&self) -> Seq<char> {
        self.path@
    }

    pub fn new(state_dir: &str, tag: &str) -> (r: Self)
        ensures
            r.file() == path_in(state_dir@, tag@ + ".startup"@),
    {
        StartupReporter {
            path: join_path(state_dir, copy_text(tag).concat(".startup").as_str()),
            started: Monotonic::new(),
        }
    }

    /// The nanoseconds since the startup began, as far as the clock can tell.
    pub fn elapsed(&self) -> (r: u128) {
        self.started.nanos()
    }

    pub fn path(&self) -> (r: &str)
        ensures
            r@ == self.file(),
    {
        self.path.as_str()
    }
}

/// Milliseconds between two looks at the startup file.
pub const POLL_MS: u64 = 200;

/// What follows a look at the startup file.
#[derive(Debug, Clone, Copy, PartialEq, Eq, Structural)]
pub enum WaitStep {
    /// The snapshot is the last one.
    Finished,
    TimedOut,
    /// Look again after so many milliseconds.
    Sleep(u64),
}

/// What follows a look that saw `seen`.
pub open spec fn wait_step(seen: Option<Phase>, time_is_over: bool) -> WaitStep {
    match seen {
        Some(Phase::Ready) => WaitStep::Finished,
        Some(Phase::Failed) => WaitStep::Finished,
        _ => if time_is_over {
            WaitStep::TimedOut
        } else {
            WaitStep::Sleep(POLL_MS)
        },
    }
}

/// Decides whether to look again: not once the daemon is ready or has failed,
/// nor when the time is over.
pub fn wait_for_ready(seen: Option<Phase>, time_is_over: bool) -> (r: WaitStep)
    ensures
        r == (if seen == Some(Phase::Ready) || seen == Some(Phase::Failed) {
            WaitStep::Finished
        } else if time_is_over {
            WaitStep::TimedOut
        } else {
            WaitStep::Sleep(POLL_MS)
        }),
        r == wait_step(seen, time_is_over),
{
    match seen {
        Some(Phase::Ready) | Some(Phase::Failed) => WaitStep::Finished,
        _ => if time_is_over {
            WaitStep::TimedOut
        } else {
            WaitStep::Sleep(POLL_MS)
        },
    }
}

/// What the parent says when the wait is over: a line, or an error.
pub open spec fn startup_says(last: Option<ProgressView>) -> Result<Seq<char>, Seq<char>> {
    match last {
        None => Ok(" (timed out waiting for daemon)"@),
        Some(p) => if p.phase == Phase::Failed {
            Err(
                "daemon startup failed: "@ + (match p.error {
                    Some(e) => e,
                    None => ""@,
                }),
            )
        } else {
            Ok(" "@ + p.message)
        },
    }
}

/// What the parent says when the wait is over: a line, or an error.
pub fn startup_outcome(last: &Option<StartupProgress>) -> (r: Result<String, String>)
    ensures
        (match r {
            Ok(s) => Ok(s@),
            Err(e) => Err(e@),
        }) == startup_says(
            match *last {
                Some(p) => Some(p@),
                None => None,
            },
        ),
{
    match last {
        None => Ok(copy_text(" (timed out waiting for daemon)")),
        Some(p) => match p.phase {
            Phase::Failed => Err(
                copy_text("daemon startup failed: ").concat(
                    match &p.error {
                        Some(e) => e.as_str(),
                        None => "",
                    },
                ),
            ),
            _ => Ok(copy_text(" ").concat(p.message.as_str())),
        },
    }
}

} // verus!
