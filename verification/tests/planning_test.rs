use sentinel::activity::{
    activity_entry, arrange_tree_entries, command_outcome, git_activity_entry, project_state_from, push_activity,
    repo_url_from, DirEntryInfo,
};
use sentinel::history::TokenCounter;
use sentinel::model::{
    CreateSessionInput, IdeStatus, ProjectState, SessionApplyResult, SessionSyncConflict, SessionWorkspaceStrategy,
    WorkspaceContext,
};
use sentinel::planning::{
    can_reuse_ide, check_worktree_committed, commit_message, commit_result, ide_starting_state, needs_resize,
    plan_commit, plan_session_launch, plan_terminal, same_path, sync_report,
};

fn ws(path: Option<&str>, git: bool, sessions: usize) -> WorkspaceContext {
    WorkspaceContext {
        id: "w1".to_string(),
        name: "W".to_string(),
        project: ProjectState { path: path.map(|p| p.to_string()), name: None, branch: None, is_git_repo: git, tree: Vec::new() },
        session_ids: (0..sessions).map(|i| format!("s{i}")).collect(),
        tab_ids: vec!["t".to_string()],
        created_at: 0,
        last_active_at: 0,
        default_session_strategy: SessionWorkspaceStrategy::SandboxCopy,
    }
}

fn input() -> CreateSessionInput {
    CreateSessionInput { label: None, startup_command: None, cols: None, rows: None, workspace_strategy: None }
}

#[test]
fn session_launch_defaults() {
    let p = plan_session_launch(Some(ws(Some("/p"), false, 2)), &input()).ok().unwrap();
    assert_eq!(p.label, "Agent 03");
    assert_eq!((p.cols, p.rows), (120, 32));
    assert_eq!(p.workspace_strategy, SessionWorkspaceStrategy::SandboxCopy);
    assert!(p.startup_command.is_none());
    let p = plan_session_launch(Some(ws(Some("/p"), false, 11)), &input()).ok().unwrap();
    assert_eq!(p.label, "Agent 12");
    let mut i = input();
    i.label = Some("  Builder ".to_string());
    i.startup_command = Some("  npm test ".to_string());
    i.cols = Some(80);
    let p = plan_session_launch(Some(ws(Some("/p"), false, 0)), &i).ok().unwrap();
    assert_eq!(p.label, "Builder");
    assert_eq!(p.startup_command.as_deref(), Some("npm test"));
    assert_eq!(p.cols, 80);
}

#[test]
fn session_launch_refusals() {
    assert_eq!(
        plan_session_launch(None, &input()).err().unwrap(),
        "Open a project workspace before starting an agent session."
    );
    assert_eq!(
        plan_session_launch(Some(ws(None, false, 0)), &input()).err().unwrap(),
        "Open a project folder before starting an agent session."
    );
    let mut i = input();
    i.workspace_strategy = Some(SessionWorkspaceStrategy::GitWorktree);
    assert_eq!(
        plan_session_launch(Some(ws(Some("/p"), false, 0)), &i).err().unwrap(),
        "Git Worktree mode requires a Git repository. Use Sandbox Copy mode for plain folders."
    );
    assert!(plan_session_launch(Some(ws(Some("/p"), true, 0)), &i).is_ok());
}

#[test]
fn terminal_plans() {
    let p = plan_terminal(Some(ws(Some("/p"), false, 0)), None, None).ok().unwrap();
    assert_eq!(p.label, "Terminal 2");
    assert_eq!(p.cwd, "/p");
    let p = plan_terminal(Some(ws(Some("/p"), false, 0)), Some("/tmp".to_string()), Some("Logs".to_string())).ok().unwrap();
    assert_eq!((p.cwd.as_str(), p.label.as_str()), ("/tmp", "Logs"));
    assert_eq!(plan_terminal(None, None, None).err().unwrap(), "Open a project workspace before starting a terminal.");
    assert_eq!(plan_terminal(Some(ws(None, false, 0)), None, None).err().unwrap(), "Workspace project root is unavailable.");
}

#[test]
fn resize_only_when_needed() {
    assert!(!needs_resize(80, 24, 0, 24));
    assert!(!needs_resize(80, 24, 80, 24));
    assert!(needs_resize(80, 24, 100, 24));
}

#[test]
fn commits() {
    assert_eq!(commit_message("   "), "Sentinel update");
    assert_eq!(commit_message(" fix "), "fix");
    assert_eq!(
        plan_commit(SessionWorkspaceStrategy::SandboxCopy, 3).unwrap_err(),
        "Sandbox sessions are local-only. Use Sync to Main Project Files instead of Commit."
    );
    assert_eq!(plan_commit(SessionWorkspaceStrategy::GitWorktree, 0).unwrap(), false);
    let r = commit_result("s".to_string(), "m".to_string(), vec!["a".to_string()], Vec::new(), Some(String::new()), true);
    assert!(r.created_commit);
    assert!(r.commit_hash.is_none());
    let r = commit_result("s".to_string(), "m".to_string(), vec!["a".to_string()], Vec::new(), Some("abc".to_string()), false);
    assert!(r.committed_paths.is_empty());
    assert!(check_worktree_committed(1).is_err());
}

#[test]
fn sync_reports() {
    let mut r = SessionApplyResult {
        session_id: "s".to_string(),
        workspace_strategy: SessionWorkspaceStrategy::SandboxCopy,
        applied_paths: vec!["a".to_string(), "b".to_string()],
        remaining_paths: vec!["c".to_string()],
        conflicts: Vec::new(),
    };
    assert_eq!(sync_report(&r), ("completed".to_string(), "2 file(s) synced, 1 remaining".to_string()));
    r.conflicts.push(SessionSyncConflict { path: "d".to_string(), reason: "project-changed".to_string(), detail: None });
    assert_eq!(sync_report(&r), ("failed".to_string(), "2 synced, 1 conflicts, 1 remaining".to_string()));
}

#[test]
fn ide_decisions() {
    let s = ide_starting_state("/p", 5);
    assert_eq!(s.status, IdeStatus::Starting);
    assert_eq!(s.cwd.as_deref(), Some("/p"));
    assert!(same_path("/a/b/", "/a//b"));
    assert!(!same_path("/a/b", "/a/c"));
    assert!(can_reuse_ide(Some(IdeStatus::Ready), Some("/p"), true, "/p/"));
    assert!(!can_reuse_ide(Some(IdeStatus::Closed), Some("/p"), true, "/p"));
    assert!(!can_reuse_ide(Some(IdeStatus::Ready), Some("/p"), false, "/p"));
    assert!(!can_reuse_ide(None, Some("/p"), true, "/p"));
}

#[test]
fn activity_log_keeps_latest_entries() {
    let mut t = TokenCounter::new();
    let mut log = Vec::new();
    for i in 0..130 {
        let e = activity_entry("workspace", "started", &format!("c{i}"), "/p".to_string(), None, 10, &mut t);
        push_activity(&mut log, e);
    }
    assert_eq!(log.len(), 120);
    assert_eq!(log[0].command, "c129");
    assert_eq!(log[0].id, "10-000082");
}

#[test]
fn git_activity_entries() {
    let mut t = TokenCounter::new();
    let e = git_activity_entry("/repo", &vec!["status".to_string(), "-z".to_string()], 3, &mut t);
    assert_eq!(e.command, "git -C /repo status -z");
    assert_eq!(e.scope, "git");
    assert_eq!(e.status, "started");
    assert_eq!(e.cwd, "/repo");
}

#[test]
fn command_outcomes() {
    assert_eq!(command_outcome(true, " out \n", "warn"), Ok("out".to_string()));
    assert_eq!(command_outcome(false, " out ", " err "), Err("err".to_string()));
    assert_eq!(command_outcome(false, " out ", "  "), Err("out".to_string()));
    assert_eq!(repo_url_from("  git@x:y.git\n").as_deref(), Some("git@x:y.git"));
    assert!(repo_url_from("  ").is_none());
}

#[test]
fn project_read_from_folder() {
    let p = project_state_from("/home/me/app", Some(String::new()), true, Vec::new());
    assert_eq!(p.name.as_deref(), Some("app"));
    assert!(p.branch.is_none());
    assert!(p.is_git_repo);
    let p = project_state_from("/home/me/app", Some("main".to_string()), true, Vec::new());
    assert_eq!(p.branch.as_deref(), Some("main"));
}

#[test]
fn tree_entries_folders_first_then_names() {
    let entries = vec![
        DirEntryInfo { name: "b.txt".to_string(), is_dir: false },
        DirEntryInfo { name: "node_modules".to_string(), is_dir: true },
        DirEntryInfo { name: "src".to_string(), is_dir: true },
        DirEntryInfo { name: "a.txt".to_string(), is_dir: false },
        DirEntryInfo { name: "docs".to_string(), is_dir: true },
    ];
    assert_eq!(arrange_tree_entries(&entries), vec![4, 2, 3, 0]);
    let many: Vec<DirEntryInfo> = (0..40).map(|i| DirEntryInfo { name: format!("f{i:02}"), is_dir: false }).collect();
    let order = arrange_tree_entries(&many);
    assert_eq!(order.len(), 28);
    assert_eq!(order[0], 0);
    assert_eq!(order[27], 27);
}
