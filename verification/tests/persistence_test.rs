use sentinel::keyed::Keyed;
use sentinel::model::{
    cleanup_state_from_db, cleanup_state_to_str, ide_status_from_db, ide_status_to_str, session_status_from_db,
    session_status_to_str, session_strategy_from_db, session_strategy_to_db, tab_status_from_db, tab_status_to_str,
    tab_type_from_db, tab_type_to_str, CleanupState, IdeStatus, IdeTerminalState, ProjectState, SessionDiffUpdate,
    SessionHistoryUpdate, SessionStatus, SessionWorkspaceStrategy, TabStatus, TabType,
};
use sentinel::payload::{bootstrap_ide_state, diff_update_for_session, merge_diffs, merge_histories, merge_listing, newest_first, LiveKey, StoredKey};
use sentinel::persistence::{
    file_change_type, ide_state_from_row, modified_paths_text, plan_hydration, preferences_from_rows, session_diff_snapshot_from_rows,
    session_history_entries_from_rows, workspace_from_row,
};
use sentinel::rows::{CommandHistoryRow, FileChangeRow, IdeTerminalRow, PreferenceRow, WorkspaceMemberRow, WorkspaceRow};
use sentinel::sandbox::{cached_hash, chunk_size, collect_modified_paths, preferred_worker_count, FileFingerprint, SandboxSync, SyncAction};
use sentinel::workspaces::WorkspaceRegistry;

fn wrow(id: &str, active: i64, strategy: &str) -> WorkspaceRow {
    WorkspaceRow {
        id: id.to_string(),
        name: format!("name-{id}"),
        project_path: Some(format!("/p/{id}")),
        project_name: None,
        is_git_repo: 1,
        git_branch: Some("main".to_string()),
        default_session_strategy: strategy.to_string(),
        created_at: 1,
        last_active_at: 2,
        is_active: active,
        metadata: None,
    }
}

fn pref(key: &str, value: &str) -> PreferenceRow {
    PreferenceRow { id: 1, workspace_id: None, category: "workspace".to_string(), key: key.to_string(), value: value.to_string(), is_sensitive: 0, updated_at: 0 }
}

#[test]
fn stored_names_round_trip() {
    for s in [SessionWorkspaceStrategy::SandboxCopy, SessionWorkspaceStrategy::GitWorktree] {
        assert_eq!(session_strategy_from_db(session_strategy_to_db(s)), s);
    }
    for s in [SessionStatus::Starting, SessionStatus::Ready, SessionStatus::Closing, SessionStatus::Paused, SessionStatus::Closed, SessionStatus::Error] {
        assert_eq!(session_status_from_db(session_status_to_str(s)), s);
    }
    for s in [CleanupState::Active, CleanupState::Removed, CleanupState::Preserved, CleanupState::Failed] {
        assert_eq!(cleanup_state_from_db(cleanup_state_to_str(s)), s);
    }
    for s in [TabStatus::Starting, TabStatus::Ready, TabStatus::Closing, TabStatus::Closed, TabStatus::Error] {
        assert_eq!(tab_status_from_db(tab_status_to_str(s)), s);
    }
    for s in [IdeStatus::Idle, IdeStatus::Starting, IdeStatus::Ready, IdeStatus::Closing, IdeStatus::Closed, IdeStatus::Error] {
        assert_eq!(ide_status_from_db(ide_status_to_str(s)), s);
    }
    for t in [TabType::Dashboard, TabType::Terminal] {
        assert_eq!(tab_type_from_db(tab_type_to_str(t)), t);
    }
    assert_eq!(session_strategy_to_db(SessionWorkspaceStrategy::GitWorktree), "git-worktree");
    assert_eq!(session_status_from_db("bogus"), SessionStatus::Starting);
    assert_eq!(ide_status_from_db("bogus"), IdeStatus::Idle);
}

#[test]
fn stored_workspace_project_falls_back_to_row() {
    let w = workspace_from_row(&wrow("a", 0, "git-worktree"), None);
    assert_eq!(w.project.name.as_deref(), Some("name-a"));
    assert_eq!(w.project.branch.as_deref(), Some("main"));
    assert!(w.project.is_git_repo);
    assert_eq!(w.default_session_strategy, SessionWorkspaceStrategy::GitWorktree);
    let inspected = ProjectState { path: Some("/real".to_string()), name: Some("real".to_string()), branch: None, is_git_repo: false, tree: Vec::new() };
    let w = workspace_from_row(&wrow("a", 0, "x"), Some(inspected));
    assert_eq!(w.project.path.as_deref(), Some("/real"));
    assert_eq!(w.default_session_strategy, SessionWorkspaceStrategy::SandboxCopy);
}

#[test]
fn preferences_read_in_order() {
    let rows = vec![pref("default_session_strategy", "git-worktree"), pref("last_workspace_id", "  "), pref("other", "x")];
    let p = preferences_from_rows(&rows, Some("act"), Some(SessionWorkspaceStrategy::SandboxCopy));
    assert_eq!(p.default_session_strategy, SessionWorkspaceStrategy::GitWorktree);
    assert_eq!(p.last_workspace_id.as_deref(), Some("act"));
    let p = preferences_from_rows(&vec![pref("last_workspace_id", "w9")], None, None);
    assert_eq!(p.last_workspace_id.as_deref(), Some("w9"));
    assert_eq!(p.default_session_strategy, SessionWorkspaceStrategy::SandboxCopy);
}

#[test]
fn hydration_keeps_database_active_workspace() {
    let rows = vec![wrow("a", 0, "sandbox-copy"), wrow("b", 1, "git-worktree")];
    let plan = plan_hydration(&rows, &Vec::new());
    assert_eq!(plan.active_workspace_id.as_deref(), Some("b"));
    assert_eq!(plan.preferences.default_session_strategy, SessionWorkspaceStrategy::GitWorktree);
    assert!(!plan.needs_active_sync);
    let rows = vec![wrow("a", 0, "sandbox-copy")];
    let plan = plan_hydration(&rows, &vec![pref("last_workspace_id", "a")]);
    assert_eq!(plan.active_workspace_id.as_deref(), Some("a"));
    assert!(plan.needs_active_sync);
    let plan = plan_hydration(&rows, &vec![pref("last_workspace_id", "gone")]);
    assert!(plan.active_workspace_id.is_none());
    assert!(!plan.needs_active_sync);
}

#[test]
fn registry_is_rebuilt_from_storage() {
    let rows = vec![wrow("a", 1, "sandbox-copy"), wrow("b", 0, "sandbox-copy")];
    let sessions = vec![
        WorkspaceMemberRow { id: "s1".to_string(), workspace_id: "a".to_string() },
        WorkspaceMemberRow { id: "s2".to_string(), workspace_id: "zz".to_string() },
    ];
    let tabs = vec![WorkspaceMemberRow { id: "t1".to_string(), workspace_id: "b".to_string() }];
    let plan = plan_hydration(&rows, &Vec::new());
    let reg = WorkspaceRegistry::from_stored(&rows, None, &sessions, &tabs, plan.active_workspace_id, plan.preferences, 77);
    assert_eq!(reg.workspaces.len(), 2);
    let a = reg.workspaces.iter().find(|w| w.id == "a").unwrap();
    assert_eq!(a.session_ids, vec!["s1".to_string()]);
    assert_eq!(a.last_active_at, 77);
    let b = reg.workspaces.iter().find(|w| w.id == "b").unwrap();
    assert_eq!(b.tab_ids, vec!["t1".to_string()]);
    assert_eq!(reg.project.path.as_deref(), Some("/p/a"));
}

#[test]
fn history_sorted_by_time_then_id() {
    let row = |id: i64, ts: i64, c: &str| CommandHistoryRow {
        id,
        session_id: "s".to_string(),
        workspace_id: "w".to_string(),
        command_text: c.to_string(),
        timestamp: ts,
        source: "interactive".to_string(),
        exit_code: None,
        duration_ms: None,
        cwd: None,
    };
    let out = session_history_entries_from_rows(&vec![row(5, 20, "b"), row(3, 10, "a"), row(4, 20, "c")]);
    let got: Vec<(&str, &str)> = out.iter().map(|e| (e.id.as_str(), e.command.as_str())).collect();
    assert_eq!(got, vec![("3", "a"), ("4", "c"), ("5", "b")]);
}

fn fc(path: &str, ts: i64, kind: &str) -> FileChangeRow {
    FileChangeRow {
        id: 1,
        session_id: "s".to_string(),
        workspace_id: "w".to_string(),
        file_path: path.to_string(),
        change_type: kind.to_string(),
        before_hash: None,
        after_hash: None,
        timestamp: ts,
        file_size: None,
    }
}

#[test]
fn diff_snapshot_keeps_latest_non_deleted() {
    let rows = vec![fc("b", 5, "created"), fc("a", 3, "modified"), fc("b", 9, "deleted"), fc("c", 4, "created"), fc("c", 4, "modified")];
    let d = session_diff_snapshot_from_rows("s", "w", &rows, 1);
    assert_eq!(d.modified_paths, vec!["a".to_string(), "c".to_string()]);
    assert_eq!(d.updated_at, 9);
    let d = session_diff_snapshot_from_rows("s", "w", &Vec::new(), 12);
    assert!(d.modified_paths.is_empty());
    assert_eq!(d.updated_at, 12);
    let removed = diff_update_for_session("s", "w", CleanupState::Removed, &rows, 2);
    assert!(removed.modified_paths.is_empty());
    assert_eq!(removed.updated_at, 2);
}

#[test]
fn file_change_kinds() {
    let h = Some("h".to_string());
    assert_eq!(file_change_type(&None, &h), Some("created"));
    assert_eq!(file_change_type(&h, &h), Some("modified"));
    assert_eq!(file_change_type(&h, &None), Some("deleted"));
    assert_eq!(file_change_type(&None, &None), None);
}

fn irow(status: &str, paths: &str) -> IdeTerminalRow {
    IdeTerminalRow {
        id: "i".to_string(),
        workspace_id: "w".to_string(),
        status: status.to_string(),
        cwd: Some("/c".to_string()),
        workspace_path: None,
        shell: "pwsh".to_string(),
        process_id: Some(12),
        created_at: 3,
        exit_code: None,
        error_message: None,
        modified_paths: paths.to_string(),
    }
}

#[test]
fn ide_state_read_back() {
    let s = ide_state_from_row(&irow("ready", "[\"a\",\"b\"]"));
    assert_eq!(s.status, IdeStatus::Ready);
    assert_eq!(s.pid, Some(12));
    assert_eq!(s.modified_paths, vec!["a".to_string(), "b".to_string()]);
    let s = ide_state_from_row(&irow("closed", "oops"));
    assert!(s.modified_paths.is_empty());
    assert_eq!(bootstrap_ide_state(None, Some(irow("starting", "[]"))).status, IdeStatus::Starting);
    assert_eq!(bootstrap_ide_state(None, Some(irow("closed", "[]"))).status, IdeStatus::Idle);
    let mut live = IdeTerminalState::idle();
    live.status = IdeStatus::Error;
    assert_eq!(bootstrap_ide_state(Some(live), Some(irow("ready", "[]"))).status, IdeStatus::Error);
}

#[test]
fn start_up_ide_state_is_the_stored_one_or_idle() {
    let s = bootstrap_ide_state(None, Some(irow("ready", "[\"x\"]")));
    assert_eq!(s.pid, Some(12));
    assert_eq!(s.created_at, Some(3));
    assert_eq!(s.modified_paths, vec!["x".to_string()]);
    let idle = bootstrap_ide_state(None, Some(irow("error", "[\"x\"]")));
    assert_eq!(idle.shell, "powershell.exe");
    assert!(idle.modified_paths.is_empty() && idle.pid.is_none() && idle.created_at.is_none() && idle.workspace_path.is_none());
    let none = bootstrap_ide_state(None, None);
    assert_eq!(none.status, IdeStatus::Idle);
    assert_eq!(none.shell, "powershell.exe");
}

#[test]
fn start_up_listing_prefers_running_items_newest_first() {
    let s = |id: &str, ws: &str, t: i64| StoredKey { id: id.to_string(), workspace_id: ws.to_string(), created_at: t };
    let l = |id: &str, t: i64| LiveKey { id: id.to_string(), created_at: t };
    let stored = vec![s("a", "w1", 5), s("b", "gone", 9), s("c", "w1", 7), s("d", "w2", 5)];
    let live = vec![l("c", 1), l("e", 8)];
    let listing = merge_listing(&stored, &vec!["w1".to_string(), "w2".to_string()], &live);
    let got: Vec<(&str, bool, usize)> = listing.iter().map(|(id, ((running, i), _))| (id.as_str(), *running, *i)).collect();
    assert_eq!(got, vec![("a", false, 0), ("c", true, 0), ("d", false, 3), ("e", true, 1)]);
    let order: Vec<String> = newest_first(&listing).into_iter().map(|(id, _)| id).collect();
    assert_eq!(order, vec!["e", "a", "d", "c"]);
}

#[test]
fn live_updates_replace_stored_ones() {
    let h = |id: &str, ws: &str| SessionHistoryUpdate { session_id: id.to_string(), workspace_id: ws.to_string(), entries: Vec::new() };
    let merged = merge_histories(vec![h("b", "old"), h("a", "old")], vec![h("b", "live")]);
    let got: Vec<(&str, &str)> = merged.iter().map(|u| (u.session_id.as_str(), u.workspace_id.as_str())).collect();
    assert_eq!(got, vec![("a", "old"), ("b", "live")]);
    let d = |id: &str, t: i64| SessionDiffUpdate { session_id: id.to_string(), workspace_id: "w".to_string(), modified_paths: Vec::new(), updated_at: t };
    let merged = merge_diffs(vec![d("z", 1)], vec![d("y", 2), d("z", 3)]);
    let got: Vec<(&str, i64)> = merged.iter().map(|u| (u.session_id.as_str(), u.updated_at)).collect();
    assert_eq!(got, vec![("y", 2), ("z", 3)]);
}

#[test]
fn sandbox_modified_paths_and_sync() {
    let base = Keyed::from_pairs(vec![("a".to_string(), "1".to_string()), ("b".to_string(), "2".to_string()), ("c".to_string(), "3".to_string())]);
    let now = Keyed::from_pairs(vec![("c".to_string(), "3".to_string()), ("b".to_string(), "9".to_string()), ("d".to_string(), "4".to_string())]);
    assert_eq!(collect_modified_paths(&base, &now), vec!["a".to_string(), "b".to_string(), "d".to_string()]);
    assert!(collect_modified_paths(&base, &base).is_empty());
    let mut sync = SandboxSync::start(&base);
    assert_eq!(sync.step("a", Some("1"), None, Some("1")), SyncAction::RemoveFromProject);
    assert_eq!(sync.step("b", Some("2"), Some("9"), Some("7")), SyncAction::Conflict);
    assert_eq!(sync.step("d", None, Some("4"), None), SyncAction::CopyToProject);
    let (result, next) = sync.into_result("s");
    assert_eq!(result.applied_paths, vec!["a".to_string(), "d".to_string()]);
    assert_eq!(result.conflicts.len(), 1);
    assert_eq!(result.conflicts[0].reason, "project-changed");
    assert!(next.get("a").is_none());
    assert_eq!(next.get("d").map(|s| s.as_str()), Some("4"));
    assert_eq!(next.get("b").map(|s| s.as_str()), Some("2"));
}

#[test]
fn fingerprints_reuse_hashes() {
    let mut cache: Keyed<FileFingerprint> = Keyed::new();
    cache.insert("f".to_string(), FileFingerprint { signature: "10:5".to_string(), hash: "h".to_string() });
    assert_eq!(cached_hash(&cache, "f", "10:5").as_deref(), Some("h"));
    assert!(cached_hash(&cache, "f", "10:6").is_none());
    assert!(cached_hash(&cache, "g", "10:5").is_none());
}

#[test]
fn worker_counts() {
    assert_eq!(preferred_worker_count(10, Some(16)), 1);
    assert_eq!(preferred_worker_count(100, Some(16)), 8);
    assert_eq!(preferred_worker_count(100, None), 4);
    assert_eq!(preferred_worker_count(100, Some(2)), 2);
    assert_eq!(chunk_size(100, 8), 13);
    assert_eq!(chunk_size(96, 8), 12);
}

#[test]
fn ide_changed_files_read_back_as_stored() {
    let paths = vec!["src/a \"q\".rs".to_string(), "dir\\b.txt".to_string(), "ü.md".to_string()];
    let text = modified_paths_text(&paths);
    assert_eq!(text, "[\"src/a \\\"q\\\".rs\",\"dir\\\\b.txt\",\"ü.md\"]");
    let s = ide_state_from_row(&irow("ready", &text));
    assert_eq!(s.modified_paths, paths);
    assert_eq!(modified_paths_text(&Vec::new()), "[]");
    let odd = vec!["a\"b\\c".to_string(), "t\tx\u{1}\n".to_string(), "é".to_string()];
    assert_eq!(modified_paths_text(&odd), "[\"a\\\"b\\\\c\",\"t\\tx\\u0001\\n\",\"é\"]");
}
