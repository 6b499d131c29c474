use sentinel::history::TokenCounter;
use sentinel::lifecycle::{should_scan_diff, worktree_cleanup_outcome, IdeRuntime};
use sentinel::model::{CleanupState, IdeStatus, IdeTerminalState, ProjectState, SessionWorkspaceStrategy};
use sentinel::planning::{can_reuse_ide_workspace, ide_project_changed, ide_workspace_location, session_workspace_location};
use sentinel::platform::windows_build_from_ver;

#[test]
fn windows_build_number_is_last_version_number() {
    assert_eq!(windows_build_from_ver("\r\nMicrosoft Windows [Version 10.0.22631.4317]\r\n"), Some(4317));
    assert_eq!(windows_build_from_ver("no version here 42"), None);
    assert_eq!(windows_build_from_ver("v 1.99999999999.7"), Some(7));
    assert_eq!(windows_build_from_ver("v 3.99999999999"), Some(3));
    assert_eq!(windows_build_from_ver(""), None);
}

fn project(name: Option<&str>) -> ProjectState {
    ProjectState { path: Some("/p".to_string()), name: name.map(|n| n.to_string()), branch: None, is_git_repo: true, tree: Vec::new() }
}

#[test]
fn sandbox_and_worktree_locations() {
    let mut t = TokenCounter::new();
    let loc = session_workspace_location("/tmp", &project(Some("My App")), "Agent 01", SessionWorkspaceStrategy::SandboxCopy, 123, &mut t)
        .unwrap();
    assert_eq!(loc.root, "/tmp/sentinel-sandboxes/my-app");
    assert_eq!(loc.path, "/tmp/sentinel-sandboxes/my-app/agent-01-123-000001");
    assert!(loc.branch_name.is_none());
    let loc = session_workspace_location("/tmp", &project(None), "Fix", SessionWorkspaceStrategy::GitWorktree, 5, &mut t).unwrap();
    assert_eq!(loc.root, "/tmp/sentinel-worktrees/repo");
    assert_eq!(loc.branch_name.as_deref(), Some("sentinel/repo-fix-5-000002"));
    let none = ProjectState { path: None, name: None, branch: None, is_git_repo: false, tree: Vec::new() };
    assert_eq!(
        session_workspace_location("/tmp", &none, "x", SessionWorkspaceStrategy::SandboxCopy, 1, &mut t).err().unwrap(),
        "Project root is unavailable."
    );
    let ide = ide_workspace_location("/tmp", &project(None), 9, &mut t).unwrap();
    assert_eq!(ide.path, "/tmp/sentinel-ide/project/ide-9-000003");
    assert_eq!(ide_workspace_location("/tmp", &none, 9, &mut t).err().unwrap(), "Open a project folder before using IDE mode.");
}

#[test]
fn ide_workspace_follows_project() {
    assert!(ide_project_changed(Some("/a"), Some("/b")));
    assert!(!ide_project_changed(Some("/a/"), Some("/a")));
    assert!(ide_project_changed(None, Some("/a")));
    assert!(!ide_project_changed(None, None));
    assert!(can_reuse_ide_workspace(Some("/tmp/ide"), Some("/a"), true, "/a"));
    assert!(!can_reuse_ide_workspace(None, Some("/a"), true, "/a"));
}

#[test]
fn diff_scans_wait_for_the_interval() {
    assert!(should_scan_diff(None, 0));
    assert!(!should_scan_diff(Some(1000), 2999));
    assert!(should_scan_diff(Some(1000), 3000));
}

#[test]
fn worktree_cleanup_reports_failures() {
    let errors = vec!["worktree remove failed: x".to_string(), "branch delete failed (b): y".to_string()];
    assert_eq!(worktree_cleanup_outcome(false, &errors), Ok(CleanupState::Removed));
    assert_eq!(
        worktree_cleanup_outcome(true, &errors),
        Err("worktree remove failed: x; branch delete failed (b): y".to_string())
    );
}

#[test]
fn ide_close_request_once() {
    let mut ide = IdeRuntime { state: IdeTerminalState::idle(), close_requested: false, finalized: false };
    ide.state.status = IdeStatus::Error;
    ide.state.error = Some("x".to_string());
    ide.request_close();
    assert!(ide.close_requested);
    assert_eq!(ide.state.status, IdeStatus::Closing);
    assert!(ide.state.error.is_none());
}
