use sentinel::history::TokenCounter;
use sentinel::model::{ProjectState, SessionWorkspaceStrategy, WorkspaceContext};
use sentinel::lifecycle::SessionTally;
use sentinel::model::SessionStatus;
use sentinel::workspaces::WorkspaceRegistry;

fn project(path: &str, name: &str) -> ProjectState {
    ProjectState {
        path: Some(path.to_string()),
        name: Some(name.to_string()),
        branch: None,
        is_git_repo: false,
        tree: Vec::new(),
    }
}

fn workspace(id: &str, name: &str, last: i64) -> WorkspaceContext {
    WorkspaceContext {
        id: id.to_string(),
        name: name.to_string(),
        project: project(&format!("/p/{id}"), name),
        session_ids: Vec::new(),
        tab_ids: Vec::new(),
        created_at: 1,
        last_active_at: last,
        default_session_strategy: SessionWorkspaceStrategy::SandboxCopy,
    }
}

#[test]
fn create_workspace_makes_it_active() {
    let mut reg = WorkspaceRegistry::new();
    let mut tokens = TokenCounter::new();
    let (w, created) = reg.create_workspace(project("/work/app", "app"), None, 100, &mut tokens);
    assert!(created);
    assert_eq!(w.id, "tab-000001");
    assert_eq!(w.name, "app");
    assert_eq!(w.created_at, 100);
    assert_eq!(w.last_active_at, 100);
    assert_eq!(reg.active_workspace_id.as_deref(), Some("tab-000001"));
    assert_eq!(reg.preferences.last_workspace_id.as_deref(), Some("tab-000001"));
    assert_eq!(reg.project.path.as_deref(), Some("/work/app"));
    assert_eq!(reg.workspaces.len(), 1);
}

#[test]
fn reopening_a_folder_reuses_its_workspace() {
    let mut reg = WorkspaceRegistry::new();
    let mut tokens = TokenCounter::new();
    let (first, _) = reg.create_workspace(project("/work/app", "app"), None, 100, &mut tokens);
    let (second, created) = reg.create_workspace(project("/work/app", "app"), Some("  Renamed  "), 200, &mut tokens);
    assert!(!created);
    assert_eq!(second.id, first.id);
    assert_eq!(second.name, "Renamed");
    assert_eq!(second.last_active_at, 200);
    assert_eq!(reg.workspaces.len(), 1);
    assert_eq!(tokens.next, 2);
}

#[test]
fn workspace_name_falls_back_to_folder_name() {
    let mut reg = WorkspaceRegistry::new();
    let mut tokens = TokenCounter::new();
    let p = ProjectState { path: Some("/home/me/site".to_string()), name: None, branch: None, is_git_repo: false, tree: Vec::new() };
    let (w, _) = reg.create_workspace(p, Some("   "), 5, &mut tokens);
    assert_eq!(w.name, "site");
}

#[test]
fn switching_to_unknown_workspace_is_refused() {
    let mut reg = WorkspaceRegistry::new();
    let r = reg.set_active_workspace("missing", 10);
    assert_eq!(r.unwrap_err(), "Workspace not found.");
    assert!(reg.active_workspace_id.is_none());
}

#[test]
fn set_active_workspace_takes_its_strategy() {
    let mut reg = WorkspaceRegistry::new();
    let mut w = workspace("a", "Alpha", 5);
    w.default_session_strategy = SessionWorkspaceStrategy::GitWorktree;
    reg.workspaces.push(w);
    let r = reg.set_active_workspace("a", 42).unwrap();
    assert_eq!(r.last_active_at, 42);
    assert_eq!(reg.preferences.default_session_strategy, SessionWorkspaceStrategy::GitWorktree);
    assert_eq!(reg.preferences.last_workspace_id.as_deref(), Some("a"));
    assert_eq!(reg.project.path.as_deref(), Some("/p/a"));
}

#[test]
fn workspaces_are_listed_most_recent_first_then_by_name() {
    let mut reg = WorkspaceRegistry::new();
    reg.workspaces.push(workspace("a", "Beta", 5));
    reg.workspaces.push(workspace("b", "Alpha", 5));
    reg.workspaces.push(workspace("c", "Gamma", 9));
    let sorted = reg.sorted_workspaces();
    let ids: Vec<&str> = sorted.iter().map(|w| w.id.as_str()).collect();
    assert_eq!(ids, vec!["c", "b", "a"]);
    assert_eq!(reg.next_workspace_id("c").as_deref(), Some("b"));
    assert_eq!(reg.next_workspace_id("zzz").as_deref(), Some("c"));
}

#[test]
fn closing_a_busy_workspace_needs_cleanup() {
    let mut reg = WorkspaceRegistry::new();
    let mut w = workspace("a", "Alpha", 5);
    w.session_ids.push("s1".to_string());
    reg.workspaces.push(w);
    let err = reg.close_workspace_plan("a", false).err().unwrap();
    assert_eq!(
        err,
        "Workspace still has running sessions or terminals. Close them first or close the workspace with session cleanup enabled."
    );
    let plan = reg.close_workspace_plan("a", true).ok().unwrap();
    assert_eq!(plan.session_ids, vec!["s1".to_string()]);
    assert!(!plan.is_active);
    assert_eq!(reg.close_workspace_plan("x", true).err().unwrap(), "Workspace not found.");
}

#[test]
fn removing_the_active_workspace_activates_the_next() {
    let mut reg = WorkspaceRegistry::new();
    reg.workspaces.push(workspace("a", "Alpha", 5));
    reg.workspaces.push(workspace("b", "Beta", 9));
    reg.set_active_workspace("a", 20).unwrap();
    let plan = reg.close_workspace_plan("a", false).ok().unwrap();
    assert!(plan.is_active);
    assert_eq!(plan.next_active_project_path.as_deref(), Some("/p/b"));
    let next = reg.remove_workspace("a", 30).unwrap().unwrap();
    assert_eq!(next.id, "b");
    assert_eq!(reg.active_workspace_id.as_deref(), Some("b"));
    assert!(reg.workspaces.iter().all(|w| w.id != "a"));
}

#[test]
fn removing_the_last_workspace_clears_the_project() {
    let mut reg = WorkspaceRegistry::new();
    reg.workspaces.push(workspace("a", "Alpha", 5));
    reg.set_active_workspace("a", 20).unwrap();
    let next = reg.remove_workspace("a", 30).unwrap();
    assert!(next.is_none());
    assert!(reg.active_workspace_id.is_none());
    assert!(reg.preferences.last_workspace_id.is_none());
    assert!(reg.project.path.is_none());
    assert!(reg.remove_workspace("a", 31).is_err());
}

#[test]
fn sessions_and_tabs_come_and_go() {
    let mut reg = WorkspaceRegistry::new();
    reg.workspaces.push(workspace("a", "Alpha", 5));
    reg.add_session("a", "s1".to_string(), 7);
    reg.restore_session("a", "s1".to_string(), 8);
    reg.restore_session("a", "s2".to_string(), 9);
    reg.add_tab("a", "t1".to_string(), 10);
    assert_eq!(reg.workspaces[0].session_ids, vec!["s1".to_string(), "s2".to_string()]);
    assert_eq!(reg.workspaces[0].tab_ids, vec!["t1".to_string()]);
    reg.remove_session("a", "s1", 11);
    reg.remove_tab("a", "t1", 12);
    assert_eq!(reg.workspaces[0].session_ids, vec!["s2".to_string()]);
    assert!(reg.workspaces[0].tab_ids.is_empty());
    assert_eq!(reg.workspaces[0].last_active_at, 12);
}

#[test]
fn default_strategy_follows_into_active_workspace() {
    let mut reg = WorkspaceRegistry::new();
    reg.workspaces.push(workspace("a", "Alpha", 5));
    reg.set_active_workspace("a", 6).unwrap();
    let (prefs, active) = reg.set_default_session_strategy(SessionWorkspaceStrategy::GitWorktree, 7);
    assert_eq!(prefs.default_session_strategy, SessionWorkspaceStrategy::GitWorktree);
    let active = active.unwrap();
    assert_eq!(active.default_session_strategy, SessionWorkspaceStrategy::GitWorktree);
    assert_eq!(active.last_active_at, 7);
}

#[test]
fn switching_needs_a_project_folder() {
    let mut reg = WorkspaceRegistry::new();
    let mut bare = workspace("b", "Bare", 5);
    bare.project.path = None;
    reg.workspaces.push(bare);
    reg.workspaces.push(workspace("a", "Alpha", 5));
    assert_eq!(reg.switch_target("b").unwrap_err(), "Workspace not found.");
    assert_eq!(reg.switch_target("zz").unwrap_err(), "Workspace not found.");
    assert_eq!(reg.switch_target("a").unwrap(), "/p/a");
    assert!(reg.active_workspace_id.is_none());
}

#[test]
fn summary_counts_follow_the_active_workspace() {
    let mut reg = WorkspaceRegistry::new();
    let mut a = workspace("a", "Alpha", 5);
    a.tab_ids = vec!["t1".to_string(), "t2".to_string()];
    reg.workspaces.push(a);
    reg.workspaces.push(workspace("b", "Beta", 5));
    let t = |status: SessionStatus, ws: &str, n: u32| SessionTally { status, workspace_id: ws.to_string(), process_count: n };
    let tallies = vec![t(SessionStatus::Ready, "a", 2), t(SessionStatus::Ready, "b", 3), t(SessionStatus::Closed, "a", 9)];
    let c = reg.summary_counts(&tallies, 4);
    assert_eq!((c.active_sessions, c.active_workspace_sessions, c.total_processes), (2, 0, 5));
    assert_eq!((c.total_sessions, c.total_tabs, c.workspace_count, c.active_workspace_tab_count), (3, 4, 2, 0));
    reg.set_active_workspace("a", 10).unwrap();
    let c = reg.summary_counts(&tallies, 4);
    assert_eq!((c.active_workspace_sessions, c.active_workspace_tab_count), (1, 2));
}

#[test]
fn listing_holds_every_workspace_once() {
    let mut reg = WorkspaceRegistry::new();
    for (id, name, last) in [("a", "Beta", 5), ("b", "Alpha", 5), ("c", "Gamma", 9), ("d", "Alpha", 1)] {
        reg.workspaces.push(workspace(id, name, last));
    }
    let mut ids: Vec<String> = reg.sorted_workspaces().into_iter().map(|w| w.id).collect();
    ids.sort();
    assert_eq!(ids, vec!["a", "b", "c", "d"]);
}
