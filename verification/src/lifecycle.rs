//! How sessions, terminal tabs and the IDE terminal move from starting to
//! closed: each decision is a step from a state and an event to the next
//! state, and what the caller should do.
use vstd::prelude::*;
use crate::model::{CleanupState, IdeStatus, IdeTerminalState, SessionStatus, TabStatus};
use crate::text::{chars_of, decimal_int, i64_decimal, push_chars, str_eq, string_from_chars};

verus! {

/// Whether a session is stopped for good or kept to be resumed.
#[derive(Clone, Copy, Debug, PartialEq, Eq, Structural)]
pub enum ShutdownMode {
    Stop,
    Pause,
}

/// A process ended cleanly: it was asked to close, or exited with code 0
/// (or without a code).
pub open spec fn ended_cleanly(close_requested: bool, exit_code: Option<i32>) -> bool {
    close_requested || exit_code.unwrap_or(0) == 0
}

/// The message of a shell that exited unexpectedly.
pub open spec fn unexpected_exit_message(exit_code: Option<i32>) -> Seq<char> {
    "PowerShell exited unexpectedly with code "@ + decimal_int(exit_code.unwrap_or(0) as int) + "."@
}

/// The error recorded when a process ends: the forced one if any, else a
/// message when it ended uncleanly, else none.
pub open spec fn exit_error(close_requested: bool, exit_code: Option<i32>, forced: Option<String>) -> Option<Seq<char>> {
    match forced {
        Some(f) => Some(f@),
        None => if ended_cleanly(close_requested, exit_code) {
            None
        } else {
            Some(unexpected_exit_message(exit_code))
        },
    }
}

pub open spec fn opt_chars(o: Option<String>) -> Option<Seq<char>> {
    match o {
        Some(s) => Some(s@),
        None => None,
    }
}

/// The error recorded when a process ends.
pub fn exit_error_text(close_requested: bool, exit_code: Option<i32>, forced: Option<String>) -> (r: Option<String>)
    ensures
        opt_chars(r) == exit_error(close_requested, exit_code, forced),
{
    match forced {
        Some(f) => Some(f),
        None => {
            let code: i32 = match exit_code {
                Some(c) => c,
                None => 0,
            };
            if close_requested || code == 0 {
                None
            } else {
                let mut out = chars_of("PowerShell exited unexpectedly with code ");
                let digits = i64_decimal(code as i64);
                push_chars(&mut out, digits.as_slice());
                out.push('.');
                proof {
                    reveal_strlit(".");
                    assert(out@ =~= unexpected_exit_message(exit_code));
                }
                Some(string_from_chars(out.as_slice()))
            }
        },
    }
}

/// A session is live while it is starting, ready or closing.
pub open spec fn session_live(s: SessionStatus) -> bool {
    s == SessionStatus::Starting || s == SessionStatus::Ready || s == SessionStatus::Closing
}

/// A tab is live while it is starting, ready or closing.
pub open spec fn tab_live(s: TabStatus) -> bool {
    s == TabStatus::Starting || s == TabStatus::Ready || s == TabStatus::Closing
}

/// The IDE terminal is live while it is starting, ready or closing.
pub open spec fn ide_live(s: IdeStatus) -> bool {
    s == IdeStatus::Starting || s == IdeStatus::Ready || s == IdeStatus::Closing
}

pub fn is_session_live(s: SessionStatus) -> (r: bool)
    ensures
        r == session_live(s),
{
    matches!(s, SessionStatus::Starting | SessionStatus::Ready | SessionStatus::Closing)
}

pub fn is_tab_live(s: TabStatus) -> (r: bool)
    ensures
        r == tab_live(s),
{
    matches!(s, TabStatus::Starting | TabStatus::Ready | TabStatus::Closing)
}

pub fn is_ide_live(s: IdeStatus) -> (r: bool)
    ensures
        r == ide_live(s),
{
    matches!(s, IdeStatus::Starting | IdeStatus::Ready | IdeStatus::Closing)
}

/// The error a session gets when the application exits while it runs.
pub open spec fn session_exit_message() -> Seq<char> {
    "Session paused because Sentinel exited while this agent was still running."@
}

/// The error a tab gets when the application exits while it runs.
pub open spec fn tab_exit_message() -> Seq<char> {
    "Terminal closed because Sentinel exited before it shut down cleanly."@
}

/// The error the IDE terminal gets when the application exits while it
/// runs.
pub open spec fn ide_exit_message() -> Seq<char> {
    "IDE terminal closed because Sentinel exited before it shut down cleanly."@
}

/// What the application keeps of a running session.
#[derive(Debug)]
pub struct SessionRuntime {
    pub status: SessionStatus,
    pub cleanup_state: CleanupState,
    pub pid: Option<u32>,
    pub exit_code: Option<i32>,
    pub error: Option<String>,
    pub close_requested: bool,
    pub finalized: bool,
    pub shutdown_mode: ShutdownMode,
    pub modified_paths: Vec<String>,
    pub tracked_process_ids: Vec<u32>,
}

/// What a request to stop or pause a session asks of the caller.
#[derive(Clone, Copy, Debug, PartialEq, Eq, Structural)]
pub enum ShutdownRequest {
    /// The session has already ended: nothing to do.
    AlreadyFinalized,
    /// The session was asked to close; `first` tells whether this is the
    /// first request, after which the caller waits for it to end.
    Requested { first: bool },
}

impl SessionRuntime {
    /// A session whose shell was just started.
    pub fn started(pid: Option<u32>) -> (s: SessionRuntime)
        ensures
            s.status == SessionStatus::Starting,
            s.cleanup_state == CleanupState::Active,
            s.pid == pid,
            s.exit_code is None,
            s.error is None,
            !s.close_requested,
            !s.finalized,
            s.shutdown_mode == ShutdownMode::Stop,
            s.modified_paths@.len() == 0,
            s.tracked_process_ids@ == (match pid {
                Some(p) => seq![p],
                None => Seq::<u32>::empty(),
            }),
    {
        let mut watched: Vec<u32> = Vec::new();
        if let Some(p) = pid {
            watched.push(p);
        }
        proof {
            if pid is Some {
                assert(watched@ =~= seq![pid->0]);
            } else {
                assert(watched@ =~= Seq::<u32>::empty());
            }
        }
        SessionRuntime {
            status: SessionStatus::Starting,
            cleanup_state: CleanupState::Active,
            pid,
            exit_code: None,
            error: None,
            close_requested: false,
            finalized: false,
            shutdown_mode: ShutdownMode::Stop,
            modified_paths: Vec::new(),
            tracked_process_ids: watched,
        }
    }

    /// The shell printed something: a starting session is now ready.
    /// Returns whether the status changed.
    pub fn on_output(&mut self) -> (changed: bool)
        ensures
            changed == (old(self).status == SessionStatus::Starting),
            final(self).status == (if changed { SessionStatus::Ready } else { old(self).status }),
            final(self).cleanup_state == old(self).cleanup_state,
            final(self).error == old(self).error,
            final(self).close_requested == old(self).close_requested,
            final(self).finalized == old(self).finalized,
    {
        if self.status == SessionStatus::Starting {
            self.status = SessionStatus::Ready;
            true
        } else {
            false
        }
    }

    /// Asks the session to stop or pause. The first request marks it as
    /// closing (unless it is already closing or closed) and clears its
    /// error; later requests only change the mode. A session that has
    /// ended is left as it is.
    pub fn request_shutdown(&mut self, mode: ShutdownMode) -> (r: ShutdownRequest)
        ensures
            old(self).finalized ==> r == ShutdownRequest::AlreadyFinalized && *final(self) == *old(self),
            !old(self).finalized ==> {
                &&& r == (ShutdownRequest::Requested { first: !old(self).close_requested })
                &&& final(self).shutdown_mode == mode
                &&& final(self).close_requested
                &&& !final(self).finalized
                &&& (!old(self).close_requested && (old(self).status == SessionStatus::Starting
                    || old(self).status == SessionStatus::Ready || old(self).status == SessionStatus::Error
                    || old(self).status == SessionStatus::Paused)) ==> {
                    &&& final(self).status == SessionStatus::Closing
                    &&& final(self).error is None
                }
                &&& !(!old(self).close_requested && (old(self).status == SessionStatus::Starting
                    || old(self).status == SessionStatus::Ready || old(self).status == SessionStatus::Error
                    || old(self).status == SessionStatus::Paused)) ==> {
                    &&& final(self).status == old(self).status
                    &&& final(self).error == old(self).error
                }
                &&& final(self).cleanup_state == old(self).cleanup_state
                &&& final(self).pid == old(self).pid
                &&& final(self).exit_code == old(self).exit_code
            },
    {
        if self.finalized {
            return ShutdownRequest::AlreadyFinalized;
        }
        let first = !self.close_requested;
        self.shutdown_mode = mode;
        if first {
            self.close_requested = true;
            if matches!(
                self.status,
                SessionStatus::Starting | SessionStatus::Ready | SessionStatus::Error | SessionStatus::Paused
            ) {
                self.status = SessionStatus::Closing;
                self.error = None;
            }
        }
        ShutdownRequest::Requested { first }
    }

    /// The shell ended, with an exit code if it gave one and an error if
    /// the ending was forced. The first time: the session is closed when
    /// it ended cleanly and in error otherwise, its processes and changed
    /// files are forgotten. Returns whether this call ended it.
    pub fn finalize(&mut self, exit_code: Option<i32>, forced_error: Option<String>) -> (done: bool)
        ensures
            done == !old(self).finalized,
            old(self).finalized ==> *final(self) == *old(self),
            done ==> {
                &&& final(self).finalized
                &&& final(self).status == (if ended_cleanly(old(self).close_requested, exit_code) {
                    SessionStatus::Closed
                } else {
                    SessionStatus::Error
                })
                &&& final(self).exit_code == exit_code
                &&& opt_chars(final(self).error) == exit_error(old(self).close_requested, exit_code, forced_error)
                &&& final(self).tracked_process_ids@.len() == 0
                &&& final(self).modified_paths@.len() == 0
                &&& final(self).close_requested == old(self).close_requested
                &&& final(self).cleanup_state == old(self).cleanup_state
                &&& final(self).shutdown_mode == old(self).shutdown_mode
                &&& final(self).pid == old(self).pid
            },
    {
        if self.finalized {
            return false;
        }
        self.finalized = true;
        self.tracked_process_ids = Vec::new();
        self.exit_code = exit_code;
        self.modified_paths = Vec::new();
        let code: i32 = match exit_code {
            Some(c) => c,
            None => 0,
        };
        self.status = if self.close_requested || code == 0 {
            SessionStatus::Closed
        } else {
            SessionStatus::Error
        };
        self.error = exit_error_text(self.close_requested, exit_code, forced_error);
        true
    }

    /// Records how removing the session's working copy went: its new
    /// cleanup state, or, on failure, the failed state and the failure as
    /// the error unless there is one already.
    pub fn apply_cleanup(&mut self, result: Result<CleanupState, String>)
        ensures
            match result {
                Ok(c) => final(self).cleanup_state == c && final(self).error == old(self).error,
                Err(e) => final(self).cleanup_state == CleanupState::Failed && final(self).error == (
                if old(self).error is Some { old(self).error } else { Some(e) }),
            },
            final(self).status == old(self).status,
            final(self).finalized == old(self).finalized,
            final(self).close_requested == old(self).close_requested,
    {
        match result {
            Ok(c) => {
                self.cleanup_state = c;
            },
            Err(e) => {
                self.cleanup_state = CleanupState::Failed;
                if self.error.is_none() {
                    self.error = Some(e);
                }
            },
        }
    }

    /// The error given to a session forced to end after it stopped
    /// responding.
    pub fn forced_close_message(&self) -> (m: String)
        ensures
            m@ == (if self.shutdown_mode == ShutdownMode::Pause {
                "Sentinel paused this session after the shell stopped responding."@
            } else {
                "Sentinel forced this session to close after the shell stopped responding."@
            }),
    {
        match self.shutdown_mode {
            ShutdownMode::Pause => "Sentinel paused this session after the shell stopped responding.".to_owned(),
            ShutdownMode::Stop => "Sentinel forced this session to close after the shell stopped responding.".to_owned(),
        }
    }

    /// The application is exiting: a live session is asked to close, to
    /// be paused, with the exit message as its error.
    pub fn mark_exiting(&mut self)
        ensures
            session_live(old(self).status) ==> {
                &&& final(self).close_requested
                &&& final(self).shutdown_mode == ShutdownMode::Pause
                &&& final(self).status == SessionStatus::Closing
                &&& final(self).error matches Some(e) && e@ == session_exit_message()
                &&& final(self).finalized == old(self).finalized
            },
            !session_live(old(self).status) ==> *final(self) == *old(self),
    {
        if is_session_live(self.status) {
            self.close_requested = true;
            self.shutdown_mode = ShutdownMode::Pause;
            self.status = SessionStatus::Closing;
            self.error = Some("Session paused because Sentinel exited while this agent was still running.".to_owned());
        }
    }
}

/// The time to wait before looking again whether a closing session has
/// ended: twice the last wait, at most half a second.
pub fn next_close_poll_ms(current: u64) -> (next: u64)
    ensures
        next == (if 2 * current < 500 { 2 * current } else { 500 }),
{
    if current < 250 {
        current * 2
    } else {
        500
    }
}

/// What the database holds of a session's state.
#[derive(Debug)]
pub struct StoredSession {
    pub status: SessionStatus,
    pub cleanup_state: CleanupState,
    pub pid: Option<u32>,
    pub exit_code: Option<i32>,
    pub error: Option<String>,
}

/// A kept working copy stays kept: an active one becomes preserved.
pub open spec fn preserved(c: CleanupState) -> CleanupState {
    if c == CleanupState::Active { CleanupState::Preserved } else { c }
}

/// Pauses a session that is only in the database (after a restart). One
/// already paused needs nothing; one that is closed or failed cannot be
/// paused; any other is paused with its working copy kept.
pub fn pause_stored_session(s: &StoredSession) -> (r: Result<Option<StoredSession>, String>)
    ensures
        s.status == SessionStatus::Paused ==> r matches Ok(None),
        (s.status == SessionStatus::Closed || s.status == SessionStatus::Error) ==> (r matches Err(e)
            && e@ == "Only preserved sessions can be paused after restart."@),
        !(s.status == SessionStatus::Paused || s.status == SessionStatus::Closed || s.status == SessionStatus::Error)
            ==> (r matches Ok(Some(n)) && n.status == SessionStatus::Paused && n.cleanup_state == preserved(s.cleanup_state)
            && n.pid is None && n.exit_code is None && n.error is None),
{
    if s.status == SessionStatus::Paused {
        return Ok(None);
    }
    if matches!(s.status, SessionStatus::Closed | SessionStatus::Error) {
        return Err("Only preserved sessions can be paused after restart.".to_owned());
    }
    Ok(Some(StoredSession {
        status: SessionStatus::Paused,
        cleanup_state: if s.cleanup_state == CleanupState::Active { CleanupState::Preserved } else { s.cleanup_state },
        pid: None,
        exit_code: None,
        error: None,
    }))
}

/// Stops a session that is only in the database: it is closed, and its
/// working copy is to be removed unless it already is. Returns the new
/// state and whether removal is needed.
pub fn stop_stored_session(s: &StoredSession) -> (r: (StoredSession, bool))
    ensures
        r.0.status == SessionStatus::Closed,
        r.0.cleanup_state == s.cleanup_state,
        r.0.pid is None,
        r.0.exit_code is None,
        r.0.error is None,
        r.1 == (s.cleanup_state != CleanupState::Removed),
{
    (
        StoredSession { status: SessionStatus::Closed, cleanup_state: s.cleanup_state, pid: None, exit_code: None, error: None },
        s.cleanup_state != CleanupState::Removed,
    )
}

/// Records how removing a stopped session's working copy went.
pub fn stored_cleanup_result(s: StoredSession, result: Result<CleanupState, String>) -> (n: StoredSession)
    ensures
        n.status == s.status,
        n.pid == s.pid,
        n.exit_code == s.exit_code,
        match result {
            Ok(c) => n.cleanup_state == c && n.error == s.error,
            Err(e) => n.cleanup_state == CleanupState::Failed && n.error == Some(e),
        },
{
    match result {
        Ok(c) => StoredSession { cleanup_state: c, ..s },
        Err(e) => StoredSession { cleanup_state: CleanupState::Failed, error: Some(e), ..s },
    }
}

/// What the database keeps of a session when the application exits
/// while it runs: it is paused, its working copy kept, with the exit
/// message; a session that is not live is left as it is.
pub fn stored_session_on_exit(s: StoredSession) -> (n: StoredSession)
    ensures
        session_live(s.status) ==> {
            &&& n.status == SessionStatus::Paused
            &&& n.cleanup_state == preserved(s.cleanup_state)
            &&& n.pid is None
            &&& n.exit_code is None
            &&& n.error matches Some(e) && e@ == session_exit_message()
        },
        !session_live(s.status) ==> n == s,
{
    if is_session_live(s.status) {
        StoredSession {
            status: SessionStatus::Paused,
            cleanup_state: if s.cleanup_state == CleanupState::Active { CleanupState::Preserved } else { s.cleanup_state },
            pid: None,
            exit_code: None,
            error: Some("Session paused because Sentinel exited while this agent was still running.".to_owned()),
        }
    } else {
        s
    }
}

/// Only a paused session can be resumed.
pub fn check_resumable(status: SessionStatus) -> (r: Result<(), String>)
    ensures
        status == SessionStatus::Paused ==> r is Ok,
        status != SessionStatus::Paused ==> (r matches Err(e) && e@ == "Only paused sessions can be resumed."@),
{
    if status == SessionStatus::Paused {
        Ok(())
    } else {
        Err("Only paused sessions can be resumed.".to_owned())
    }
}

/// A paused session whose kept working copy has gone: it is marked
/// failed, and the error to report is returned.
pub fn session_workspace_missing(s: StoredSession) -> (r: (StoredSession, String))
    ensures
        r.0.status == SessionStatus::Error,
        r.0.cleanup_state == CleanupState::Failed,
        r.0.error matches Some(e) && e@ == "The preserved session workspace could not be found."@,
        r.0.pid == s.pid,
        r.0.exit_code == s.exit_code,
        r.1@ == "The preserved session workspace could not be found. Delete this session and start a new one."@,
{
    (
        StoredSession {
            status: SessionStatus::Error,
            cleanup_state: CleanupState::Failed,
            error: Some("The preserved session workspace could not be found.".to_owned()),
            ..s
        },
        "The preserved session workspace could not be found. Delete this session and start a new one.".to_owned(),
    )
}

/// A resumed session: starting again with a new shell.
pub fn resumed_session(s: StoredSession, pid: Option<u32>) -> (n: StoredSession)
    ensures
        n.status == SessionStatus::Starting,
        n.cleanup_state == s.cleanup_state,
        n.pid == pid,
        n.exit_code is None,
        n.error is None,
{
    StoredSession { status: SessionStatus::Starting, cleanup_state: s.cleanup_state, pid, exit_code: None, error: None }
}

/// What the application keeps of a running terminal tab.
#[derive(Debug)]
pub struct TabRuntime {
    pub status: TabStatus,
    pub pid: Option<u32>,
    pub exit_code: Option<i32>,
    pub error: Option<String>,
    pub close_requested: bool,
    pub finalized: bool,
}

impl TabRuntime {
    /// A tab whose shell was just started.
    pub fn started(pid: Option<u32>) -> (t: TabRuntime)
        ensures
            t.status == TabStatus::Starting,
            t.pid == pid,
            t.exit_code is None,
            t.error is None,
            !t.close_requested,
            !t.finalized,
    {
        TabRuntime { status: TabStatus::Starting, pid, exit_code: None, error: None, close_requested: false, finalized: false }
    }

    /// The shell printed something: a starting tab is now ready. Returns
    /// whether the status changed.
    pub fn on_output(&mut self) -> (changed: bool)
        ensures
            changed == (old(self).status == TabStatus::Starting),
            final(self).status == (if changed { TabStatus::Ready } else { old(self).status }),
            final(self).error == old(self).error,
            final(self).close_requested == old(self).close_requested,
            final(self).finalized == old(self).finalized,
    {
        if self.status == TabStatus::Starting {
            self.status = TabStatus::Ready;
            true
        } else {
            false
        }
    }

    /// Asks the tab to close. Returns false, changing nothing, when it was
    /// already asked or has ended; otherwise it is closing, without error.
    pub fn request_close(&mut self) -> (first: bool)
        ensures
            first == !(old(self).close_requested || old(self).finalized),
            !first ==> *final(self) == *old(self),
            first ==> {
                &&& final(self).close_requested
                &&& final(self).status == TabStatus::Closing
                &&& final(self).error is None
                &&& final(self).finalized == old(self).finalized
                &&& final(self).pid == old(self).pid
            },
    {
        if self.close_requested || self.finalized {
            return false;
        }
        self.close_requested = true;
        self.status = TabStatus::Closing;
        self.error = None;
        true
    }

    /// The tab's shell ended. The first time: closed when it ended
    /// cleanly, in error otherwise. Returns whether this call ended it
    /// and whether the change should be announced (it is not when the
    /// tab was asked to close).
    pub fn finalize(&mut self, exit_code: Option<i32>, forced_error: Option<String>) -> (r: (bool, bool))
        ensures
            r.0 == !old(self).finalized,
            r.1 == (r.0 && !old(self).close_requested),
            old(self).finalized ==> *final(self) == *old(self),
            r.0 ==> {
                &&& final(self).finalized
                &&& final(self).status == (if ended_cleanly(old(self).close_requested, exit_code) {
                    TabStatus::Closed
                } else {
                    TabStatus::Error
                })
                &&& final(self).exit_code == exit_code
                &&& opt_chars(final(self).error) == exit_error(old(self).close_requested, exit_code, forced_error)
                &&& final(self).close_requested == old(self).close_requested
                &&& final(self).pid == old(self).pid
            },
    {
        if self.finalized {
            return (false, false);
        }
        self.finalized = true;
        let code: i32 = match exit_code {
            Some(c) => c,
            None => 0,
        };
        self.status = if self.close_requested || code == 0 {
            TabStatus::Closed
        } else {
            TabStatus::Error
        };
        self.exit_code = exit_code;
        self.error = exit_error_text(self.close_requested, exit_code, forced_error);
        (true, !self.close_requested)
    }

    /// The application is exiting: a live tab is asked to close, with the
    /// exit message as its error.
    pub fn mark_exiting(&mut self)
        ensures
            tab_live(old(self).status) ==> {
                &&& final(self).close_requested
                &&& final(self).status == TabStatus::Closing
                &&& final(self).error matches Some(e) && e@ == tab_exit_message()
                &&& final(self).finalized == old(self).finalized
            },
            !tab_live(old(self).status) ==> *final(self) == *old(self),
    {
        if is_tab_live(self.status) {
            self.close_requested = true;
            self.status = TabStatus::Closing;
            self.error = Some("Terminal closed because Sentinel exited before it shut down cleanly.".to_owned());
        }
    }
}

/// What the database keeps of a live tab when the application exits: it
/// is closed, with the exit message. Returns nothing for a tab that is
/// not live.
pub fn stored_tab_on_exit(status: TabStatus) -> (r: Option<(TabStatus, String)>)
    ensures
        tab_live(status) ==> (r matches Some(x) && x.0 == TabStatus::Closed && x.1@ == tab_exit_message()),
        !tab_live(status) ==> r is None,
{
    if is_tab_live(status) {
        Some((TabStatus::Closed, "Terminal closed because Sentinel exited before it shut down cleanly.".to_owned()))
    } else {
        None
    }
}

/// What the application keeps of the IDE terminal.
#[derive(Debug)]
pub struct IdeRuntime {
    pub state: IdeTerminalState,
    pub close_requested: bool,
    pub finalized: bool,
}

impl IdeRuntime {
    /// Asks the IDE terminal to close. The first request marks it as
    /// closing (when it was starting, ready or in error) and clears its
    /// error; later requests change nothing.
    pub fn request_close(&mut self)
        ensures
            old(self).close_requested ==> final(self).close_requested == old(self).close_requested
                && final(self).state.status == old(self).state.status && final(self).state.error == old(self).state.error,
            !old(self).close_requested ==> {
                &&& final(self).close_requested
                &&& (old(self).state.status == IdeStatus::Starting || old(self).state.status == IdeStatus::Ready
                    || old(self).state.status == IdeStatus::Error) ==> final(self).state.status == IdeStatus::Closing
                    && final(self).state.error is None
                &&& !(old(self).state.status == IdeStatus::Starting || old(self).state.status == IdeStatus::Ready
                    || old(self).state.status == IdeStatus::Error) ==> final(self).state.status == old(self).state.status
                    && final(self).state.error == old(self).state.error
            },
            final(self).finalized == old(self).finalized,
            final(self).state.pid == old(self).state.pid,
    {
        if !self.close_requested {
            self.close_requested = true;
            if matches!(self.state.status, IdeStatus::Starting | IdeStatus::Ready | IdeStatus::Error) {
                self.state.status = IdeStatus::Closing;
                self.state.error = None;
            }
        }
    }

    /// The shell printed something: a starting terminal is now ready.
    /// Returns whether the status changed.
    pub fn on_output(&mut self) -> (changed: bool)
        ensures
            changed == (old(self).state.status == IdeStatus::Starting),
            final(self).state.status == (if changed { IdeStatus::Ready } else { old(self).state.status }),
            final(self).state.error == old(self).state.error,
            final(self).close_requested == old(self).close_requested,
            final(self).finalized == old(self).finalized,
    {
        if self.state.status == IdeStatus::Starting {
            self.state.status = IdeStatus::Ready;
            true
        } else {
            false
        }
    }

    /// The IDE shell ended. The first time: closed when it ended cleanly,
    /// in error otherwise. Returns whether this call ended it.
    pub fn finalize(&mut self, exit_code: Option<i32>, forced_error: Option<String>) -> (done: bool)
        ensures
            done == !old(self).finalized,
            old(self).finalized ==> final(self).finalized && final(self).state.status == old(self).state.status
                && final(self).state.error == old(self).state.error && final(self).state.exit_code == old(self).state.exit_code,
            done ==> {
                &&& final(self).finalized
                &&& final(self).state.status == (if ended_cleanly(old(self).close_requested, exit_code) {
                    IdeStatus::Closed
                } else {
                    IdeStatus::Error
                })
                &&& final(self).state.exit_code == exit_code
                &&& opt_chars(final(self).state.error) == exit_error(old(self).close_requested, exit_code, forced_error)
                &&& final(self).close_requested == old(self).close_requested
                &&& final(self).state.pid == old(self).state.pid
            },
    {
        if self.finalized {
            return false;
        }
        self.finalized = true;
        let code: i32 = match exit_code {
            Some(c) => c,
            None => 0,
        };
        self.state.exit_code = exit_code;
        self.state.status = if self.close_requested || code == 0 {
            IdeStatus::Closed
        } else {
            IdeStatus::Error
        };
        self.state.error = exit_error_text(self.close_requested, exit_code, forced_error);
        true
    }

    /// The application is exiting: a live IDE terminal is asked to close,
    /// with the exit message as its error.
    pub fn mark_exiting(&mut self)
        ensures
            ide_live(old(self).state.status) ==> {
                &&& final(self).close_requested
                &&& final(self).state.status == IdeStatus::Closing
                &&& final(self).state.error matches Some(e) && e@ == ide_exit_message()
                &&& final(self).finalized == old(self).finalized
            },
            !ide_live(old(self).state.status) ==> final(self).close_requested == old(self).close_requested
                && final(self).state.status == old(self).state.status && final(self).state.error == old(self).state.error,
    {
        if is_ide_live(self.state.status) {
            self.close_requested = true;
            self.state.status = IdeStatus::Closing;
            self.state.error = Some("IDE terminal closed because Sentinel exited before it shut down cleanly.".to_owned());
        }
    }
}

/// What the database keeps of the IDE terminal when the application
/// exits while it runs: closed, without process or exit code, with the
/// exit message. Returns nothing when it is not live.
pub fn stored_ide_on_exit(state: IdeTerminalState) -> (r: Option<IdeTerminalState>)
    ensures
        ide_live(state.status) ==> (r matches Some(n) && n.status == IdeStatus::Closed && n.pid is None
            && n.exit_code is None && (n.error matches Some(e) && e@ == ide_exit_message()) && n.cwd == state.cwd
            && n.workspace_path == state.workspace_path && n.shell == state.shell && n.created_at == state.created_at
            && n.modified_paths == state.modified_paths),
        !ide_live(state.status) ==> r is None,
{
    if is_ide_live(state.status) {
        Some(IdeTerminalState {
            status: IdeStatus::Closed,
            pid: None,
            exit_code: None,
            error: Some("IDE terminal closed because Sentinel exited before it shut down cleanly.".to_owned()),
            ..state
        })
    } else {
        None
    }
}

/// A process that was asked to close ends closed, whatever its exit
/// code, and with no error unless one was forced.
pub proof fn law_requested_close_ends_cleanly(exit_code: Option<i32>, forced: Option<String>)
    ensures
        ended_cleanly(true, exit_code),
        forced is None ==> exit_error(true, exit_code, forced) is None,
{
}

/// A process that exits with a nonzero code without being asked to close
/// ends in error, with the unexpected-exit message unless another was
/// forced.
pub proof fn law_unexpected_exit_is_error(code: i32)
    requires
        code != 0,
    ensures
        !ended_cleanly(false, Some(code)),
        exit_error(false, Some(code), None) == Some(unexpected_exit_message(Some(code))),
{
}

/// How often a running session's files are compared with its baseline,
/// in milliseconds.
pub const DIFF_INTERVAL_MS: i64 = 2000;

/// Whether a session's changed files are due to be looked at again: never
/// looked at, or not since the interval passed.
pub fn should_scan_diff(last_scanned_at: Option<i64>, sampled_at: i64) -> (r: bool)
    ensures
        r == (match last_scanned_at {
            None => true,
            Some(l) => sampled_at - l >= DIFF_INTERVAL_MS,
        }),
{
    match last_scanned_at {
        None => true,
        Some(l) => (sampled_at as i128) - (l as i128) >= DIFF_INTERVAL_MS as i128,
    }
}

/// Texts joined with a separator text.
pub open spec fn joined(parts: Seq<Seq<char>>, sep: Seq<char>) -> Seq<char>
    decreases parts.len(),
{
    if parts.len() == 0 {
        Seq::empty()
    } else if parts.len() == 1 {
        parts[0]
    } else {
        joined(parts.drop_last(), sep) + sep + parts.last()
    }
}

/// What removing a worktree session's working copy came to: removed when
/// its folder is gone, whatever failed on the way; otherwise the
/// failures, joined with `; `.
pub fn worktree_cleanup_outcome(folder_remains: bool, errors: &Vec<String>) -> (r: Result<CleanupState, String>)
    ensures
        !folder_remains ==> r == Ok::<CleanupState, String>(CleanupState::Removed),
        folder_remains ==> (r matches Err(e) && e@ == joined(crate::text::views_of_strings(errors@), "; "@)),
{
    if !folder_remains {
        return Ok(CleanupState::Removed);
    }
    let mut out: Vec<char> = Vec::new();
    let mut i: usize = 0;
    while i < errors.len()
        invariant
            i <= errors@.len(),
            out@ == joined(crate::text::views_of_strings(errors@.take(i as int)), "; "@),
        decreases errors@.len() - i,
    {
        proof {
            reveal_strlit("; ");
            assert(crate::text::views_of_strings(errors@.take(i + 1)).drop_last() =~= crate::text::views_of_strings(errors@.take(i as int)));
        }
        if i > 0 {
            out.push(';');
            out.push(' ');
        }
        crate::text::push_str_chars(&mut out, errors[i].as_str());
        i = i + 1;
        proof {
            let v = crate::text::views_of_strings(errors@.take(i as int));
            if i == 1 {
                assert(v =~= seq![errors@[0]@]);
            }
            assert(out@ =~= joined(v, "; "@));
        }
    }
    assert(errors@.take(errors@.len() as int) =~= errors@);
    Err(string_from_chars(out.as_slice()))
}

/// What the workspace summary counts of one session.
pub struct SessionTally {
    pub status: SessionStatus,
    pub workspace_id: String,
    pub process_count: u32,
}

/// The counts of the workspace summary: the live sessions, those of the
/// active workspace, and the processes of the live sessions.
pub struct SessionCounts {
    pub active_sessions: usize,
    pub active_workspace_sessions: usize,
    pub total_processes: u64,
}

/// The live sessions among `t`.
pub open spec fn live_count(t: Seq<SessionTally>) -> nat
    decreases t.len(),
{
    if t.len() == 0 {
        0
    } else {
        live_count(t.drop_last()) + if session_live(t.last().status) { 1nat } else { 0nat }
    }
}

/// The live sessions among `t` in the workspace `ws`, if any is active.
pub open spec fn live_in_count(t: Seq<SessionTally>, ws: Option<Seq<char>>) -> nat
    decreases t.len(),
{
    if t.len() == 0 {
        0
    } else {
        live_in_count(t.drop_last(), ws) + if session_live(t.last().status) && ws == Some(t.last().workspace_id@) {
            1nat
        } else {
            0nat
        }
    }
}

/// The processes of the live sessions among `t`.
pub open spec fn live_processes(t: Seq<SessionTally>) -> nat
    decreases t.len(),
{
    if t.len() == 0 {
        0
    } else {
        live_processes(t.drop_last()) + if session_live(t.last().status) { t.last().process_count as nat } else { 0nat }
    }
}

/// Counts the live sessions, those of the active workspace, and their
/// processes.
pub fn session_counts(tallies: &Vec<SessionTally>, active_workspace_id: Option<&str>) -> (c: SessionCounts)
    requires
        tallies@.len() <= u32::MAX,
    ensures
        c.active_sessions == live_count(tallies@),
        c.active_workspace_sessions == live_in_count(tallies@, match active_workspace_id {
            Some(w) => Some(w@),
            None => None,
        }),
        c.total_processes == live_processes(tallies@),
{
    let ghost ws = match active_workspace_id {
        Some(w) => Some(w@),
        None => None,
    };
    let mut live: usize = 0;
    let mut in_active: usize = 0;
    let mut processes: u64 = 0;
    let mut i: usize = 0;
    while i < tallies.len()
        invariant
            i <= tallies@.len(),
            tallies@.len() <= u32::MAX,
            live == live_count(tallies@.take(i as int)),
            in_active == live_in_count(tallies@.take(i as int), ws),
            processes == live_processes(tallies@.take(i as int)),
            live <= i,
            in_active <= i,
            processes <= i * (u32::MAX as nat),
            ws == match active_workspace_id {
                Some(w) => Some(w@),
                None => None::<Seq<char>>,
            },
        decreases tallies@.len() - i,
    {
        proof {
            assert(tallies@.take(i + 1).drop_last() =~= tallies@.take(i as int));
            assert(tallies@.take(i + 1).last() == tallies@[i as int]);
            assert((i + 1) * (u32::MAX as nat) == i * (u32::MAX as nat) + u32::MAX) by (nonlinear_arith);
            assert(i * (u32::MAX as nat) <= (u32::MAX as nat) * (u32::MAX as nat)) by (nonlinear_arith)
                requires
                    i <= u32::MAX,
            ;
        }
        let t = &tallies[i];
        if is_session_live(t.status) {
            live = live + 1;
            processes = processes + t.process_count as u64;
            let here = match active_workspace_id {
                Some(w) => str_eq(t.workspace_id.as_str(), w),
                None => false,
            };
            if here {
                in_active = in_active + 1;
            }
        }
        i = i + 1;
    }
    assert(tallies@.take(tallies@.len() as int) =~= tallies@);
    SessionCounts { active_sessions: live, active_workspace_sessions: in_active, total_processes: processes }
}

} // verus!
