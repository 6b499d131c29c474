use sentinel::lifecycle::{
    session_counts, SessionTally,
    check_resumable, next_close_poll_ms, pause_stored_session, resumed_session, session_workspace_missing,
    stop_stored_session, stored_cleanup_result, stored_ide_on_exit, stored_session_on_exit, stored_tab_on_exit,
    IdeRuntime, SessionRuntime, ShutdownMode, ShutdownRequest, StoredSession, TabRuntime,
};
use sentinel::model::{CleanupState, IdeStatus, IdeTerminalState, SessionStatus, TabStatus};

#[test]
fn session_becomes_ready_on_output() {
    let mut s = SessionRuntime::started(Some(42));
    assert_eq!(s.tracked_process_ids, vec![42]);
    assert!(s.on_output());
    assert_eq!(s.status, SessionStatus::Ready);
    assert!(!s.on_output());
}

#[test]
fn stop_request_then_exit_closes_cleanly() {
    let mut s = SessionRuntime::started(None);
    assert_eq!(s.request_shutdown(ShutdownMode::Stop), ShutdownRequest::Requested { first: true });
    assert_eq!(s.status, SessionStatus::Closing);
    assert_eq!(s.request_shutdown(ShutdownMode::Pause), ShutdownRequest::Requested { first: false });
    assert_eq!(s.shutdown_mode, ShutdownMode::Pause);
    assert!(s.finalize(Some(1), None));
    assert_eq!(s.status, SessionStatus::Closed);
    assert!(s.error.is_none());
    assert!(!s.finalize(Some(0), Some("late".to_string())));
    assert_eq!(s.status, SessionStatus::Closed);
    assert_eq!(s.request_shutdown(ShutdownMode::Stop), ShutdownRequest::AlreadyFinalized);
}

#[test]
fn unexpected_exit_is_an_error() {
    let mut s = SessionRuntime::started(None);
    s.finalize(Some(3), None);
    assert_eq!(s.status, SessionStatus::Error);
    assert_eq!(s.error.as_deref(), Some("PowerShell exited unexpectedly with code 3."));
    let mut neg = SessionRuntime::started(None);
    neg.finalize(Some(-1), None);
    assert_eq!(neg.error.as_deref(), Some("PowerShell exited unexpectedly with code -1."));
    let mut forced = SessionRuntime::started(None);
    forced.finalize(None, Some("forced".to_string()));
    assert_eq!(forced.status, SessionStatus::Closed);
    assert_eq!(forced.error.as_deref(), Some("forced"));
}

#[test]
fn cleanup_failure_keeps_first_error() {
    let mut s = SessionRuntime::started(None);
    s.apply_cleanup(Err("disk".to_string()));
    assert_eq!(s.cleanup_state, CleanupState::Failed);
    assert_eq!(s.error.as_deref(), Some("disk"));
    s.apply_cleanup(Err("again".to_string()));
    assert_eq!(s.error.as_deref(), Some("disk"));
    s.apply_cleanup(Ok(CleanupState::Removed));
    assert_eq!(s.cleanup_state, CleanupState::Removed);
}

#[test]
fn forced_close_messages_follow_the_mode() {
    let mut s = SessionRuntime::started(None);
    assert_eq!(s.forced_close_message(), "Sentinel forced this session to close after the shell stopped responding.");
    s.request_shutdown(ShutdownMode::Pause);
    assert_eq!(s.forced_close_message(), "Sentinel paused this session after the shell stopped responding.");
    s.mark_exiting();
    assert_eq!(s.status, SessionStatus::Closing);
}

#[test]
fn close_polling_backs_off() {
    assert_eq!(next_close_poll_ms(20), 40);
    assert_eq!(next_close_poll_ms(300), 500);
    assert_eq!(next_close_poll_ms(500), 500);
}

fn stored(status: SessionStatus, cleanup: CleanupState) -> StoredSession {
    StoredSession { status, cleanup_state: cleanup, pid: Some(9), exit_code: Some(1), error: Some("e".to_string()) }
}

#[test]
fn stored_sessions_pause_and_stop() {
    assert!(pause_stored_session(&stored(SessionStatus::Paused, CleanupState::Active)).unwrap().is_none());
    assert_eq!(
        pause_stored_session(&stored(SessionStatus::Closed, CleanupState::Active)).err().unwrap(),
        "Only preserved sessions can be paused after restart."
    );
    let p = pause_stored_session(&stored(SessionStatus::Ready, CleanupState::Active)).unwrap().unwrap();
    assert_eq!(p.status, SessionStatus::Paused);
    assert_eq!(p.cleanup_state, CleanupState::Preserved);
    assert!(p.pid.is_none() && p.error.is_none());
    let (s, needs) = stop_stored_session(&stored(SessionStatus::Paused, CleanupState::Removed));
    assert!(!needs);
    assert_eq!(s.status, SessionStatus::Closed);
    let failed = stored_cleanup_result(s, Err("busy".to_string()));
    assert_eq!(failed.cleanup_state, CleanupState::Failed);
    assert_eq!(failed.error.as_deref(), Some("busy"));
}

#[test]
fn stored_states_on_application_exit() {
    let s = stored_session_on_exit(stored(SessionStatus::Starting, CleanupState::Active));
    assert_eq!(s.status, SessionStatus::Paused);
    assert_eq!(s.cleanup_state, CleanupState::Preserved);
    assert_eq!(s.error.as_deref(), Some("Session paused because Sentinel exited while this agent was still running."));
    let closed = stored_session_on_exit(stored(SessionStatus::Closed, CleanupState::Removed));
    assert_eq!(closed.status, SessionStatus::Closed);
    assert_eq!(stored_tab_on_exit(TabStatus::Ready).unwrap().0, TabStatus::Closed);
    assert!(stored_tab_on_exit(TabStatus::Error).is_none());
    let mut ide = IdeTerminalState::idle();
    assert!(stored_ide_on_exit(ide.clone()).is_none());
    ide.status = IdeStatus::Ready;
    ide.pid = Some(3);
    let closed = stored_ide_on_exit(ide).unwrap();
    assert_eq!(closed.status, IdeStatus::Closed);
    assert!(closed.pid.is_none());
}

#[test]
fn resuming_needs_a_paused_session() {
    assert!(check_resumable(SessionStatus::Paused).is_ok());
    assert_eq!(check_resumable(SessionStatus::Ready).unwrap_err(), "Only paused sessions can be resumed.");
    let (s, msg) = session_workspace_missing(stored(SessionStatus::Paused, CleanupState::Preserved));
    assert_eq!(s.status, SessionStatus::Error);
    assert_eq!(s.cleanup_state, CleanupState::Failed);
    assert!(msg.ends_with("Delete this session and start a new one."));
    let r = resumed_session(stored(SessionStatus::Paused, CleanupState::Preserved), Some(77));
    assert_eq!(r.status, SessionStatus::Starting);
    assert_eq!(r.pid, Some(77));
    assert!(r.error.is_none());
}

#[test]
fn tabs_close_once() {
    let mut t = TabRuntime::started(Some(1));
    assert!(t.on_output());
    assert!(t.request_close());
    assert!(!t.request_close());
    assert_eq!(t.finalize(Some(5), None), (true, false));
    assert_eq!(t.status, TabStatus::Closed);
    let mut u = TabRuntime::started(None);
    assert_eq!(u.finalize(Some(2), None), (true, true));
    assert_eq!(u.status, TabStatus::Error);
    assert_eq!(u.finalize(Some(0), None), (false, false));
}

#[test]
fn ide_terminal_finalizes() {
    let mut ide = IdeRuntime { state: IdeTerminalState::idle(), close_requested: false, finalized: false };
    ide.state.status = IdeStatus::Starting;
    assert!(ide.on_output());
    assert_eq!(ide.state.status, IdeStatus::Ready);
    ide.mark_exiting();
    assert_eq!(ide.state.status, IdeStatus::Closing);
    assert!(ide.finalize(Some(9), None));
    assert_eq!(ide.state.status, IdeStatus::Closed);
}

#[test]
fn summary_counts_live_sessions_and_their_processes() {
    let t = |status: SessionStatus, ws: &str, n: u32| SessionTally { status, workspace_id: ws.to_string(), process_count: n };
    let tallies = vec![t(SessionStatus::Ready, "w1", 3), t(SessionStatus::Paused, "w1", 7), t(SessionStatus::Starting, "w2", 2), t(SessionStatus::Closing, "w1", 1)];
    let c = session_counts(&tallies, Some("w1"));
    assert_eq!((c.active_sessions, c.active_workspace_sessions, c.total_processes), (3, 2, 6));
    let c = session_counts(&tallies, None);
    assert_eq!(c.active_workspace_sessions, 0);
    assert_eq!(session_counts(&Vec::new(), Some("w1")).active_sessions, 0);
}
