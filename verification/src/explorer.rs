//! Closing Explorer and starting it again, as decisions between the Win32
//! calls that the application makes.
//!
//! The request to close is queued with `PostMessageW` and cannot be withdrawn,
//! so the moment it is sent somebody owes the machine a shell. That debt is
//! kept in one process, the one running [`CloseAndStart`], which has no
//! deadline; [`RestartWatch`] runs in the process that started it and only
//! watches.

use vstd::prelude::*;

use crate::reinstall::Restart;
use crate::units::{decimal, decimal_string, signed_decimal, signed_decimal_string};

verus! {

/// How long the shell is given to close. It is the whole budget: whoever
/// runs the exchange owes the start until the shell has actually gone, and a
/// wait that ends early ends with the old shell still running, which is the
/// one state where starting nothing is right.
pub const CLOSE_TIMEOUT_MS: u32 = 600_000;

/// How long the caller is kept waiting before being told the exchange is
/// still going. Ending this wait ends nothing else.
pub const REPORT_AFTER_MS: u32 = 30_000;

/// The next thing the exchange needs done.
#[derive(Debug, PartialEq, Eq)]
pub enum CloseAction {
    /// Read whether this process's token is elevated.
    CheckElevation,
    /// Look for the running shell and open a handle to its process.
    FindShell,
    /// Queue the request to close. It cannot be withdrawn.
    AskToClose,
    /// Wait on the shell's process handle, at most this many milliseconds.
    WaitUntilGone(u32),
    /// Start a new shell.
    StartShell,
    /// The exchange is over.
    Finish(Result<(), String>),
}

/// What the last action found.
#[derive(Debug, PartialEq, Eq)]
pub enum CloseEvent {
    Elevation(Result<bool, String>),
    /// `Ok(true)`: a shell is running and its process handle is open;
    /// `Ok(false)`: no shell is running at all.
    Shell(Result<bool, String>),
    Asked(Result<(), String>),
    Gone(Result<(), String>),
    Started(Result<(), String>),
}

/// Where the exchange stands.
#[derive(Debug, Clone, Copy, PartialEq, Eq, Structural)]
pub enum CloseAndStart {
    /// Nothing checked yet.
    Begin,
    /// The token is not elevated; looking for the shell.
    Ordinary,
    /// A shell is running and a handle to it is open.
    Found,
    /// The shell was asked to close: from here on a start is owed.
    Asked,
    /// Starting the new shell.
    Starting,
    Done,
}

impl CloseAndStart {
    /// Whether `event` answers the action this stage asked for.
    pub open spec fn expects(self, event: CloseEvent) -> bool {
        match self {
            CloseAndStart::Begin => event is Elevation,
            CloseAndStart::Ordinary => event is Shell,
            CloseAndStart::Found => event is Asked,
            CloseAndStart::Asked => event is Gone,
            CloseAndStart::Starting => event is Started,
            CloseAndStart::Done => false,
        }
    }

    /// The stage that follows `event`.
    pub open spec fn next(self, event: CloseEvent) -> CloseAndStart {
        match (self, event) {
            (CloseAndStart::Begin, CloseEvent::Elevation(Ok(false))) => CloseAndStart::Ordinary,
            (CloseAndStart::Ordinary, CloseEvent::Shell(Ok(true))) => CloseAndStart::Found,
            (CloseAndStart::Ordinary, CloseEvent::Shell(Ok(false))) => CloseAndStart::Starting,
            (CloseAndStart::Found, CloseEvent::Asked(Ok(()))) => CloseAndStart::Asked,
            (CloseAndStart::Asked, CloseEvent::Gone(Ok(()))) => CloseAndStart::Starting,
            _ => CloseAndStart::Done,
        }
    }

    /// The exchange begins by checking the token.
    pub fn begin() -> (r: (CloseAndStart, CloseAction))
        ensures
            r.0 == CloseAndStart::Begin,
            r.1 == CloseAction::CheckElevation,
    {
        (CloseAndStart::Begin, CloseAction::CheckElevation)
    }
}

/// The next stage and action once `event` is known. Explorer is never
/// started from an elevated process, nor when the token cannot be read;
/// a shell that was asked to close is waited for, for the whole budget,
/// before another is started; a shell that could not be looked for or
/// opened is an error, not an absence.
pub fn close_and_start(stage: CloseAndStart, event: CloseEvent) -> (r: (CloseAndStart, CloseAction))
    requires
        stage.expects(event),
    ensures
        r.0 == stage.next(event),
        r.1 == CloseAction::StartShell <==> r.0 == CloseAndStart::Starting,
        match (stage, event) {
            (CloseAndStart::Begin, CloseEvent::Elevation(Ok(false))) => r.0 == CloseAndStart::Ordinary
                && r.1 == CloseAction::FindShell,
            (CloseAndStart::Begin, CloseEvent::Elevation(Ok(true))) => r.0 == CloseAndStart::Done
                && finishes_with_error(r.1, elevated_refusal()),
            (CloseAndStart::Begin, CloseEvent::Elevation(Err(e))) => r.0 == CloseAndStart::Done
                && finishes_with_error(r.1, unknown_elevation() + e@),
            (CloseAndStart::Ordinary, CloseEvent::Shell(Ok(true))) => r.0 == CloseAndStart::Found
                && r.1 == CloseAction::AskToClose,
            (CloseAndStart::Ordinary, CloseEvent::Shell(Ok(false))) => r.0
                == CloseAndStart::Starting && r.1 == CloseAction::StartShell,
            (CloseAndStart::Ordinary, CloseEvent::Shell(Err(e))) => r.0 == CloseAndStart::Done
                && r.1 == CloseAction::Finish(Err(e)),
            (CloseAndStart::Found, CloseEvent::Asked(Ok(()))) => r.0 == CloseAndStart::Asked
                && r.1 == CloseAction::WaitUntilGone(CLOSE_TIMEOUT_MS),
            (CloseAndStart::Found, CloseEvent::Asked(Err(e))) => r.0 == CloseAndStart::Done
                && r.1 == CloseAction::Finish(Err(e)),
            (CloseAndStart::Asked, CloseEvent::Gone(Ok(()))) => r.0 == CloseAndStart::Starting
                && r.1 == CloseAction::StartShell,
            (CloseAndStart::Asked, CloseEvent::Gone(Err(e))) => r.0 == CloseAndStart::Done
                && r.1 == CloseAction::Finish(Err(e)),
            (CloseAndStart::Starting, CloseEvent::Started(Ok(()))) => r.0 == CloseAndStart::Done
                && r.1 == CloseAction::Finish(Ok(())),
            (CloseAndStart::Starting, CloseEvent::Started(Err(e))) => r.0 == CloseAndStart::Done
                && finishes_with_error(r.1, not_started_again() + e@),
            _ => false,
        },
{
    match (stage, event) {
        (CloseAndStart::Begin, CloseEvent::Elevation(Ok(false))) => (
            CloseAndStart::Ordinary,
            CloseAction::FindShell,
        ),
        (CloseAndStart::Begin, CloseEvent::Elevation(Ok(true))) => (
            CloseAndStart::Done,
            CloseAction::Finish(
                Err(
                    String::from_str(
                        "refusing to start Explorer from an elevated process: it would keep those rights for the whole session",
                    ),
                ),
            ),
        ),
        (CloseAndStart::Begin, CloseEvent::Elevation(Err(e))) => {
            let mut m = String::from_str("cannot tell whether this process is elevated: ");
            m.append(e.as_str());
            (CloseAndStart::Done, CloseAction::Finish(Err(m)))
        },
        (CloseAndStart::Ordinary, CloseEvent::Shell(Ok(found))) => {
            if found {
                (CloseAndStart::Found, CloseAction::AskToClose)
            } else {
                (CloseAndStart::Starting, CloseAction::StartShell)
            }
        },
        (CloseAndStart::Ordinary, CloseEvent::Shell(Err(e))) => (
            CloseAndStart::Done,
            CloseAction::Finish(Err(e)),
        ),
        (CloseAndStart::Found, CloseEvent::Asked(Ok(()))) => (
            CloseAndStart::Asked,
            CloseAction::WaitUntilGone(CLOSE_TIMEOUT_MS),
        ),
        (CloseAndStart::Found, CloseEvent::Asked(Err(e))) => (
            CloseAndStart::Done,
            CloseAction::Finish(Err(e)),
        ),
        (CloseAndStart::Asked, CloseEvent::Gone(Ok(()))) => (
            CloseAndStart::Starting,
            CloseAction::StartShell,
        ),
        (CloseAndStart::Asked, CloseEvent::Gone(Err(e))) => (
            CloseAndStart::Done,
            CloseAction::Finish(Err(e)),
        ),
        (CloseAndStart::Starting, CloseEvent::Started(Ok(()))) => (
            CloseAndStart::Done,
            CloseAction::Finish(Ok(())),
        ),
        (CloseAndStart::Starting, CloseEvent::Started(Err(e))) => {
            let mut m = String::from_str("Explorer was closed but could not be started again: ");
            m.append(e.as_str());
            (CloseAndStart::Done, CloseAction::Finish(Err(m)))
        },
        (_, _) => {
            proof {
                assert(false);
            }
            (CloseAndStart::Done, CloseAction::Finish(Ok(())))
        },
    }
}

/// The exchange ends with this error message.
pub open spec fn finishes_with_error(a: CloseAction, text: Seq<char>) -> bool {
    a matches CloseAction::Finish(Err(m)) && m@ == text
}

pub open spec fn elevated_refusal() -> Seq<char> {
    "refusing to start Explorer from an elevated process: it would keep those rights for the whole session"@
}

pub open spec fn unknown_elevation() -> Seq<char> {
    "cannot tell whether this process is elevated: "@
}

pub open spec fn not_started_again() -> Seq<char> {
    "Explorer was closed but could not be started again: "@
}

/// The next thing the watching process needs done.
#[derive(Debug, PartialEq, Eq)]
pub enum WatchAction {
    /// Read whether this process's token is elevated.
    CheckElevation,
    /// Find this executable, to run it as the child that does the exchange.
    LocateSelf,
    /// Start the child (`restart-explorer`), detached from the console.
    SpawnChild,
    /// Wait for the child, at most this many milliseconds.
    WaitForChild(u32),
    /// Collect the child's exit status.
    CollectExit,
    /// What to tell the person.
    Report(Restart),
}

/// What the last action found.
#[derive(Debug, PartialEq, Eq)]
pub enum WatchEvent {
    Elevation(Result<bool, String>),
    Located(Result<(), String>),
    /// The child's process id, or why it could not be started.
    Spawned(Result<u32, String>),
    /// Whether the child ended within the wait.
    Waited(bool),
    /// The child's exit code (`None` when it has none), or why it could not
    /// be collected.
    Exited(Result<Option<i32>, String>),
}

/// Where the watch stands.
#[derive(Debug, Clone, Copy, PartialEq, Eq, Structural)]
pub enum RestartWatch {
    Begin,
    /// The token is not elevated.
    Ordinary,
    /// The executable was found.
    Located,
    /// The child is running under this process id.
    Running(u32),
    /// The child ended; its status is being collected.
    Ended,
    Done,
}

/// The watch reports a skipped restart with this reason.
pub open spec fn reports_skipped(a: WatchAction, text: Seq<char>) -> bool {
    a matches WatchAction::Report(Restart::Skipped(m)) && m@ == text
}

/// The watch reports a restart still running, with this detail.
pub open spec fn reports_pending(a: WatchAction, text: Seq<char>) -> bool {
    a matches WatchAction::Report(Restart::Pending(m)) && m@ == text
}

/// The watch reports a failed restart with this reason.
pub open spec fn reports_failed(a: WatchAction, text: Seq<char>) -> bool {
    a matches WatchAction::Report(Restart::Failed(m)) && m@ == text
}

pub open spec fn elevated_skip() -> Seq<char> {
    "this process is elevated, and the new Explorer would keep those rights for the whole session"@
}

pub open spec fn pending_text(pid: u32) -> Seq<char> {
    "Explorer has not closed yet; it will be started again as soon as it does (process "@ + decimal(
        pid as nat,
    ) + ")"@
}

impl RestartWatch {
    pub open spec fn expects(self, event: WatchEvent) -> bool {
        match self {
            RestartWatch::Begin => event is Elevation,
            RestartWatch::Ordinary => event is Located,
            RestartWatch::Located => event is Spawned,
            RestartWatch::Running(_) => event is Waited,
            RestartWatch::Ended => event is Exited,
            RestartWatch::Done => false,
        }
    }

    /// The stage that follows `event`.
    pub open spec fn next(self, event: WatchEvent) -> RestartWatch {
        match (self, event) {
            (RestartWatch::Begin, WatchEvent::Elevation(Ok(false))) => RestartWatch::Ordinary,
            (RestartWatch::Ordinary, WatchEvent::Located(Ok(()))) => RestartWatch::Located,
            (RestartWatch::Located, WatchEvent::Spawned(Ok(pid))) => RestartWatch::Running(pid),
            (RestartWatch::Running(_), WatchEvent::Waited(true)) => RestartWatch::Ended,
            _ => RestartWatch::Done,
        }
    }

    /// The watch begins by checking the token.
    pub fn begin() -> (r: (RestartWatch, WatchAction))
        ensures
            r.0 == RestartWatch::Begin,
            r.1 == WatchAction::CheckElevation,
    {
        (RestartWatch::Begin, WatchAction::CheckElevation)
    }
}

/// Restarts Explorer in a child process that cannot be talked out of it,
/// and watches: the next stage and action once `event` is known. Nothing is
/// started from an elevated process or on a token that could not be read; a
/// child that outlasts the wait is reported as still running, not as
/// finished or failed; only a child that exited with code 0 counts as a
/// restart.
pub fn restart(watch: RestartWatch, event: WatchEvent) -> (r: (RestartWatch, WatchAction))
    requires
        watch.expects(event),
    ensures
        r.0 == watch.next(event),
        r.1 == WatchAction::SpawnChild <==> r.0 == RestartWatch::Located,
        match (watch, event) {
            (RestartWatch::Begin, WatchEvent::Elevation(Ok(false))) => r.0 == RestartWatch::Ordinary
                && r.1 == WatchAction::LocateSelf,
            (RestartWatch::Begin, WatchEvent::Elevation(Ok(true))) => r.0 == RestartWatch::Done
                && reports_skipped(r.1, elevated_skip()),
            (RestartWatch::Begin, WatchEvent::Elevation(Err(e))) => r.0 == RestartWatch::Done
                && reports_skipped(
                r.1,
                "could not tell whether this process is elevated ("@ + e@
                    + "), and starting an elevated Explorer is not a risk worth taking on a guess"@,
            ),
            (RestartWatch::Ordinary, WatchEvent::Located(Ok(()))) => r.0 == RestartWatch::Located
                && r.1 == WatchAction::SpawnChild,
            (RestartWatch::Ordinary, WatchEvent::Located(Err(e))) => r.0 == RestartWatch::Done
                && reports_failed(r.1, "cannot locate own executable: "@ + e@),
            (RestartWatch::Located, WatchEvent::Spawned(Ok(pid))) => r.0 == RestartWatch::Running(pid)
                && r.1 == WatchAction::WaitForChild(REPORT_AFTER_MS),
            (RestartWatch::Located, WatchEvent::Spawned(Err(e))) => r.0 == RestartWatch::Done
                && reports_failed(r.1, "cannot start the Explorer restart: "@ + e@),
            (RestartWatch::Running(pid), WatchEvent::Waited(false)) => r.0 == RestartWatch::Done
                && reports_pending(r.1, pending_text(pid)),
            (RestartWatch::Running(_), WatchEvent::Waited(true)) => r.0 == RestartWatch::Ended && r.1
                == WatchAction::CollectExit,
            (RestartWatch::Ended, WatchEvent::Exited(Ok(Some(0i32)))) => r.0 == RestartWatch::Done
                && r.1 == WatchAction::Report(Restart::Restarted),
            (RestartWatch::Ended, WatchEvent::Exited(Ok(code))) => r.0 == RestartWatch::Done
                && reports_failed(
                r.1,
                "the Explorer restart gave up with exit code "@ + signed_decimal(
                    match code {
                        Some(c) => c as int,
                        None => -1,
                    },
                ),
            ),
            (RestartWatch::Ended, WatchEvent::Exited(Err(e))) => r.0 == RestartWatch::Done
                && reports_failed(r.1, "lost track of the Explorer restart: "@ + e@),
            _ => false,
        },
{
    match (watch, event) {
        (RestartWatch::Begin, WatchEvent::Elevation(Ok(elevated))) => {
            if elevated {
                (
                    RestartWatch::Done,
                    WatchAction::Report(
                        Restart::Skipped(
                            String::from_str(
                                "this process is elevated, and the new Explorer would keep those rights for the whole session",
                            ),
                        ),
                    ),
                )
            } else {
                (RestartWatch::Ordinary, WatchAction::LocateSelf)
            }
        },
        (RestartWatch::Begin, WatchEvent::Elevation(Err(e))) => {
            let mut m = String::from_str("could not tell whether this process is elevated (");
            m.append(e.as_str());
            m.append("), and starting an elevated Explorer is not a risk worth taking on a guess");
            (RestartWatch::Done, WatchAction::Report(Restart::Skipped(m)))
        },
        (RestartWatch::Ordinary, WatchEvent::Located(Ok(()))) => (
            RestartWatch::Located,
            WatchAction::SpawnChild,
        ),
        (RestartWatch::Ordinary, WatchEvent::Located(Err(e))) => {
            let mut m = String::from_str("cannot locate own executable: ");
            m.append(e.as_str());
            (RestartWatch::Done, WatchAction::Report(Restart::Failed(m)))
        },
        (RestartWatch::Located, WatchEvent::Spawned(Ok(pid))) => (
            RestartWatch::Running(pid),
            WatchAction::WaitForChild(REPORT_AFTER_MS),
        ),
        (RestartWatch::Located, WatchEvent::Spawned(Err(e))) => {
            let mut m = String::from_str("cannot start the Explorer restart: ");
            m.append(e.as_str());
            (RestartWatch::Done, WatchAction::Report(Restart::Failed(m)))
        },
        (RestartWatch::Running(pid), WatchEvent::Waited(finished)) => {
            if finished {
                (RestartWatch::Ended, WatchAction::CollectExit)
            } else {
                let mut m = String::from_str(
                    "Explorer has not closed yet; it will be started again as soon as it does (process ",
                );
                let id = decimal_string(pid as u64);
                m.append(id.as_str());
                m.append(")");
                (RestartWatch::Done, WatchAction::Report(Restart::Pending(m)))
            }
        },
        (RestartWatch::Ended, WatchEvent::Exited(Ok(code))) => {
            if code == Some(0i32) {
                (RestartWatch::Done, WatchAction::Report(Restart::Restarted))
            } else {
                let shown: i64 = match code {
                    Some(c) => c as i64,
                    None => -1,
                };
                let mut m = String::from_str("the Explorer restart gave up with exit code ");
                let n = signed_decimal_string(shown);
                m.append(n.as_str());
                (RestartWatch::Done, WatchAction::Report(Restart::Failed(m)))
            }
        },
        (RestartWatch::Ended, WatchEvent::Exited(Err(e))) => {
            let mut m = String::from_str("lost track of the Explorer restart: ");
            m.append(e.as_str());
            (RestartWatch::Done, WatchAction::Report(Restart::Failed(m)))
        },
        (_, _) => {
            proof {
                assert(false);
            }
            (RestartWatch::Done, WatchAction::Report(Restart::NotRequested))
        },
    }
}

/// The stage an exchange reaches through `events`, or `None` when an event
/// does not answer the action asked for.
pub open spec fn close_walk(events: Seq<CloseEvent>) -> Option<CloseAndStart>
    decreases events.len(),
{
    if events.len() == 0 {
        Some(CloseAndStart::Begin)
    } else {
        match close_walk(events.drop_last()) {
            Some(s) => if s.expects(events.last()) {
                Some(s.next(events.last()))
            } else {
                None
            },
            None => None,
        }
    }
}

/// A new shell is only started by a process whose token was read and found
/// ordinary, and only when no shell was running or the running one was asked
/// to close and has gone.
pub proof fn lemma_start_is_earned(events: Seq<CloseEvent>)
    ensures
        close_walk(events) == Some(CloseAndStart::Starting) ==> {
            &&& events[0] == CloseEvent::Elevation(Ok(false))
            &&& (events.len() == 2 && events[1] == CloseEvent::Shell(Ok(false))) || (events.len() == 4
                && events[1] == CloseEvent::Shell(Ok(true)) && events[2] == CloseEvent::Asked(Ok(()))
                && events[3] == CloseEvent::Gone(Ok(())))
        },
        close_walk(events) == Some(CloseAndStart::Ordinary) ==> events.len() == 1 && events[0]
            == CloseEvent::Elevation(Ok(false)),
        close_walk(events) == Some(CloseAndStart::Found) ==> events.len() == 2 && events[0]
            == CloseEvent::Elevation(Ok(false)) && events[1] == CloseEvent::Shell(Ok(true)),
        close_walk(events) == Some(CloseAndStart::Asked) ==> events.len() == 3 && events[0]
            == CloseEvent::Elevation(Ok(false)) && events[1] == CloseEvent::Shell(Ok(true))
            && events[2] == CloseEvent::Asked(Ok(())),
        close_walk(events) == Some(CloseAndStart::Begin) ==> events.len() == 0,
    decreases events.len(),
{
    if events.len() > 0 {
        let pre = events.drop_last();
        lemma_start_is_earned(pre);
        assert(forall|i: int| 0 <= i < pre.len() ==> events[i] == #[trigger] pre[i]);
        let last = events.last();
        assert(last == events[events.len() - 1]);
        match close_walk(pre) {
            Some(st) => {
                if st.expects(last) {
                    match (st, last) {
                        (CloseAndStart::Ordinary, CloseEvent::Shell(Ok(found))) => {
                            assert(pre.len() == 1);
                            assert(events[1] == CloseEvent::Shell(Ok(found)));
                        },
                        (CloseAndStart::Asked, CloseEvent::Gone(Ok(u))) => {
                            assert(pre.len() == 3);
                            assert(u == ());
                            assert(events[3] == CloseEvent::Gone(Ok(())));
                            assert(events[1] == pre[1] && events[2] == pre[2]);
                        },
                        (CloseAndStart::Found, CloseEvent::Asked(Ok(u))) => {
                            assert(pre.len() == 2);
                            assert(u == ());
                            assert(events[2] == CloseEvent::Asked(Ok(())));
                            assert(events[1] == pre[1]);
                        },
                        _ => {},
                    }
                }
            },
            None => {},
        }
    }
}

/// The stage a watch reaches through `events`, or `None` when an event does
/// not answer the action asked for.
pub open spec fn watch_walk(events: Seq<WatchEvent>) -> Option<RestartWatch>
    decreases events.len(),
{
    if events.len() == 0 {
        Some(RestartWatch::Begin)
    } else {
        match watch_walk(events.drop_last()) {
            Some(s) => if s.expects(events.last()) {
                Some(s.next(events.last()))
            } else {
                None
            },
            None => None,
        }
    }
}

/// The child that closes Explorer is only started by a process whose token
/// was read and found ordinary.
pub proof fn lemma_child_needs_ordinary_token(events: Seq<WatchEvent>)
    ensures
        watch_walk(events) == Some(RestartWatch::Located) ==> events.len() == 2 && events[0]
            == WatchEvent::Elevation(Ok(false)),
        watch_walk(events) == Some(RestartWatch::Ordinary) ==> events.len() == 1 && events[0]
            == WatchEvent::Elevation(Ok(false)),
        watch_walk(events) matches Some(RestartWatch::Running(_)) ==> events.len() == 3 && events[0]
            == WatchEvent::Elevation(Ok(false)),
        watch_walk(events) == Some(RestartWatch::Ended) ==> events.len() == 4 && events[0]
            == WatchEvent::Elevation(Ok(false)) && events[3] == WatchEvent::Waited(true),
        watch_walk(events) == Some(RestartWatch::Begin) ==> events.len() == 0,
    decreases events.len(),
{
    if events.len() > 0 {
        let pre = events.drop_last();
        lemma_child_needs_ordinary_token(pre);
        assert(forall|i: int| 0 <= i < pre.len() ==> events[i] == #[trigger] pre[i]);
    }
}

} // verus!
