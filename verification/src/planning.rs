//! What starting a session, a terminal tab or the IDE terminal takes, and
//! what committing or applying a session's changes gives back: the
//! decisions made before and after the work with processes and git.
use vstd::prelude::*;
use crate::model::{
    CreateSessionInput, IdeStatus, IdeTerminalState, ProjectState, SessionApplyResult, SessionCommitResult,
    SessionWorkspaceStrategy, WorkspaceContext,
};
use crate::paths::{join_paths, path_join, path_to_string, sanitize_segment, sanitized, strip_verbatim, path_components, components};
use crate::history::{after, stamped_id, stamped_token, TokenCounter};
use crate::text::spec_to_lowercase;
use crate::text::{chars_of, decimal, push_chars, string_from_chars, trim, trim_str, u128_decimal};

verus! {

/// What a new agent session needs before its working copy and shell are
/// made.
#[derive(Debug)]
pub struct SessionLaunchPlan {
    pub workspace_id: String,
    pub project: ProjectState,
    pub project_path: String,
    pub workspace_strategy: SessionWorkspaceStrategy,
    pub label: String,
    pub cols: u16,
    pub rows: u16,
    pub startup_command: Option<String>,
}

/// `n` in decimal with at least two digits, as `{:02}` renders it.
pub open spec fn two_digits(n: nat) -> Seq<char> {
    if n < 10 { seq!['0'] + decimal(n) } else { decimal(n) }
}

/// The label a session gets when none is given: `Agent` and its number
/// in the workspace, two digits at least.
pub open spec fn default_session_label(count: nat) -> Seq<char> {
    "Agent "@ + two_digits(count + 1)
}

/// A given text that is not blank, trimmed.
pub open spec fn nonblank(o: Option<String>) -> Option<Seq<char>> {
    match o {
        Some(s) => if trim(s@).len() > 0 { Some(trim(s@)) } else { None },
        None => None,
    }
}

fn nonblank_text(o: &Option<String>) -> (r: Option<String>)
    ensures
        match nonblank(*o) {
            Some(t) => r matches Some(s) && s@ == t,
            None => r is None,
        },
{
    match o {
        Some(s) => {
            let t = trim_str(s.as_str());
            if t.len() > 0 {
                Some(string_from_chars(t.as_slice()))
            } else {
                None
            }
        },
        None => None,
    }
}

/// The refusals when a session cannot start.
pub open spec fn no_workspace_message() -> Seq<char> {
    "Open a project workspace before starting an agent session."@
}

pub open spec fn no_folder_message() -> Seq<char> {
    "Open a project folder before starting an agent session."@
}

pub open spec fn worktree_needs_git_message() -> Seq<char> {
    "Git Worktree mode requires a Git repository. Use Sandbox Copy mode for plain folders."@
}

/// Decides how a new session starts in the active workspace: its
/// strategy (the one asked for, else the workspace's), its label (the one
/// given, trimmed, else `Agent NN`), its terminal size (120 by 32 unless
/// given) and its startup command (trimmed, when not blank). It needs an
/// active workspace on a folder, and a Git repository for a worktree.
pub fn plan_session_launch(active: Option<WorkspaceContext>, input: &CreateSessionInput) -> (r: Result<SessionLaunchPlan, String>)
    ensures
        match active {
            None => r matches Err(e) && e@ == no_workspace_message(),
            Some(w) => {
                let strategy = match input.workspace_strategy {
                    Some(s) => s,
                    None => w.default_session_strategy,
                };
                if w.project.path is None {
                    r matches Err(e) && e@ == no_folder_message()
                } else if strategy == SessionWorkspaceStrategy::GitWorktree && !w.project.is_git_repo {
                    r matches Err(e) && e@ == worktree_needs_git_message()
                } else {
                    r matches Ok(p) && {
                        &&& p.workspace_id == w.id
                        &&& p.project@ == w.project@
                        &&& p.project_path == w.project.path->0
                        &&& p.workspace_strategy == strategy
                        &&& p.label@ == (match nonblank(input.label) {
                            Some(l) => l,
                            None => default_session_label(w.session_ids@.len()),
                        })
                        &&& p.cols == (match input.cols {
                            Some(c) => c,
                            None => 120,
                        })
                        &&& p.rows == (match input.rows {
                            Some(c) => c,
                            None => 32,
                        })
                        &&& match nonblank(input.startup_command) {
                            Some(c) => p.startup_command matches Some(s) && s@ == c,
                            None => p.startup_command is None,
                        }
                    }
                }
            },
        },
{
    let w = match active {
        Some(w) => w,
        None => return Err("Open a project workspace before starting an agent session.".to_owned()),
    };
    let project_path = match &w.project.path {
        Some(p) => p.clone(),
        None => return Err("Open a project folder before starting an agent session.".to_owned()),
    };
    let strategy = match input.workspace_strategy {
        Some(s) => s,
        None => w.default_session_strategy,
    };
    if strategy == SessionWorkspaceStrategy::GitWorktree && !w.project.is_git_repo {
        return Err("Git Worktree mode requires a Git repository. Use Sandbox Copy mode for plain folders.".to_owned());
    }
    let label = match nonblank_text(&input.label) {
        Some(l) => l,
        None => {
            let n: u128 = (w.session_ids.len() as u128) + 1;
            let mut out = chars_of("Agent ");
            if n < 10 {
                out.push('0');
            }
            let digits = u128_decimal(n);
            push_chars(&mut out, digits.as_slice());
            proof {
                assert(out@ =~= default_session_label(w.session_ids@.len()));
            }
            string_from_chars(out.as_slice())
        },
    };
    let cols = match input.cols {
        Some(c) => c,
        None => 120,
    };
    let rows = match input.rows {
        Some(c) => c,
        None => 32,
    };
    let startup_command = nonblank_text(&input.startup_command);
    Ok(SessionLaunchPlan {
        workspace_id: w.id,
        project: w.project,
        project_path,
        workspace_strategy: strategy,
        label,
        cols,
        rows,
        startup_command,
    })
}

/// What a new terminal tab needs before its shell starts.
#[derive(Debug)]
pub struct TerminalPlan {
    pub workspace_id: String,
    pub cwd: String,
    pub label: String,
}

/// The label a tab gets when none is given: `Terminal` and its number in
/// the workspace.
pub open spec fn default_tab_label(count: nat) -> Seq<char> {
    "Terminal "@ + decimal(count + 1)
}

/// Decides how a new terminal tab starts in the active workspace: in the
/// folder asked for, else the project's; with the label given, else
/// `Terminal N`.
pub fn plan_terminal(active: Option<WorkspaceContext>, cwd: Option<String>, label: Option<String>) -> (r: Result<TerminalPlan, String>)
    ensures
        match active {
            None => r matches Err(e) && e@ == "Open a project workspace before starting a terminal."@,
            Some(w) => if w.project.path is None {
                r matches Err(e) && e@ == "Workspace project root is unavailable."@
            } else {
                r matches Ok(p) && {
                    &&& p.workspace_id == w.id
                    &&& p.cwd@ == strip_verbatim(match cwd {
                        Some(c) => c@,
                        None => w.project.path->0@,
                    })
                    &&& p.label@ == (match label {
                        Some(l) => l@,
                        None => default_tab_label(w.tab_ids@.len()),
                    })
                }
            },
        },
{
    let w = match active {
        Some(w) => w,
        None => return Err("Open a project workspace before starting a terminal.".to_owned()),
    };
    let default_cwd = match &w.project.path {
        Some(p) => p.clone(),
        None => return Err("Workspace project root is unavailable.".to_owned()),
    };
    let root = match cwd {
        Some(c) => c,
        None => default_cwd,
    };
    let label = match label {
        Some(l) => l,
        None => {
            let n: u128 = (w.tab_ids.len() as u128) + 1;
            let mut out = chars_of("Terminal ");
            let digits = u128_decimal(n);
            push_chars(&mut out, digits.as_slice());
            string_from_chars(out.as_slice())
        },
    };
    Ok(TerminalPlan { workspace_id: w.id, cwd: path_to_string(root.as_str()), label })
}

/// Whether a terminal must be resized: not for a zero size, nor for the
/// size it already has.
pub fn needs_resize(current_cols: u16, current_rows: u16, cols: u16, rows: u16) -> (r: bool)
    ensures
        r == (cols != 0 && rows != 0 && !(cols == current_cols && rows == current_rows)),
{
    if cols == 0 || rows == 0 {
        return false;
    }
    !(cols == current_cols && rows == current_rows)
}

/// The message a commit gets: the one given, trimmed, or `Sentinel
/// update` when blank.
pub fn commit_message(message: &str) -> (m: String)
    ensures
        m@ == (if trim(message@).len() == 0 { "Sentinel update"@ } else { trim(message@) }),
{
    let t = trim_str(message);
    if t.len() == 0 {
        "Sentinel update".to_owned()
    } else {
        string_from_chars(t.as_slice())
    }
}

/// Whether committing a session's changes is allowed, and needed: only a
/// worktree session commits, and only when it has changed files.
pub fn plan_commit(strategy: SessionWorkspaceStrategy, modified_count: usize) -> (r: Result<bool, String>)
    ensures
        strategy != SessionWorkspaceStrategy::GitWorktree ==> (r matches Err(e)
            && e@ == "Sandbox sessions are local-only. Use Sync to Main Project Files instead of Commit."@),
        strategy == SessionWorkspaceStrategy::GitWorktree ==> r == Ok::<bool, String>(modified_count > 0),
{
    if strategy != SessionWorkspaceStrategy::GitWorktree {
        return Err("Sandbox sessions are local-only. Use Sync to Main Project Files instead of Commit.".to_owned());
    }
    Ok(modified_count > 0)
}

/// The outcome of a commit: what was committed, what still differs, and
/// the short hash of the new commit when git gave a non-empty one; or,
/// with nothing committed, an outcome that made no commit.
pub fn commit_result(
    session_id: String,
    message: String,
    committed_paths: Vec<String>,
    remaining_paths: Vec<String>,
    commit_hash: Option<String>,
    created_commit: bool,
) -> (r: SessionCommitResult)
    ensures
        r.session_id == session_id,
        r.workspace_strategy == SessionWorkspaceStrategy::GitWorktree,
        r.applied_paths@.len() == 0,
        r.conflicts@.len() == 0,
        r.commit_message == message,
        r.created_commit == created_commit,
        created_commit ==> {
            &&& r.committed_paths == committed_paths
            &&& r.remaining_paths == remaining_paths
            &&& r.commit_hash == (match commit_hash {
                Some(h) => if h@.len() > 0 { Some(h) } else { None },
                None => None,
            })
        },
        !created_commit ==> r.committed_paths@.len() == 0 && r.remaining_paths@.len() == 0 && r.commit_hash is None,
{
    if !created_commit {
        return SessionCommitResult {
            session_id,
            workspace_strategy: SessionWorkspaceStrategy::GitWorktree,
            applied_paths: Vec::new(),
            committed_paths: Vec::new(),
            remaining_paths: Vec::new(),
            conflicts: Vec::new(),
            created_commit: false,
            commit_message: message,
            commit_hash: None,
        };
    }
    let commit_hash = match commit_hash {
        Some(h) => if h.as_str().unicode_len() > 0 { Some(h) } else { None },
        None => None,
    };
    SessionCommitResult {
        session_id,
        workspace_strategy: SessionWorkspaceStrategy::GitWorktree,
        applied_paths: Vec::new(),
        committed_paths,
        remaining_paths,
        conflicts: Vec::new(),
        created_commit: true,
        commit_message: message,
        commit_hash,
    }
}

/// Merging a worktree session into the project needs its changes
/// committed first.
pub fn check_worktree_committed(modified_count: usize) -> (r: Result<(), String>)
    ensures
        modified_count == 0 ==> r is Ok,
        modified_count > 0 ==> (r matches Err(e)
            && e@ == "This worktree still has uncommitted changes. Commit the worktree before merging it into the main project."@),
{
    if modified_count > 0 {
        Err("This worktree still has uncommitted changes. Commit the worktree before merging it into the main project.".to_owned())
    } else {
        Ok(())
    }
}

/// The outcome of merging a worktree session: nothing listed.
pub fn worktree_apply_result(session_id: String) -> (r: SessionApplyResult)
    ensures
        r.session_id == session_id,
        r.workspace_strategy == SessionWorkspaceStrategy::GitWorktree,
        r.applied_paths@.len() == 0,
        r.remaining_paths@.len() == 0,
        r.conflicts@.len() == 0,
{
    SessionApplyResult {
        session_id,
        workspace_strategy: SessionWorkspaceStrategy::GitWorktree,
        applied_paths: Vec::new(),
        remaining_paths: Vec::new(),
        conflicts: Vec::new(),
    }
}

/// How syncing a sandbox is reported: completed with the numbers synced
/// and remaining, or failed with the conflicts too.
pub open spec fn sync_report_text(applied: nat, conflicts: nat, remaining: nat) -> (Seq<char>, Seq<char>) {
    if conflicts == 0 {
        ("completed"@, decimal(applied) + " file(s) synced, "@ + decimal(remaining) + " remaining"@)
    } else {
        ("failed"@, decimal(applied) + " synced, "@ + decimal(conflicts) + " conflicts, "@ + decimal(remaining) + " remaining"@)
    }
}

/// The status and detail of the activity that reports a sync.
pub fn sync_report(result: &SessionApplyResult) -> (r: (String, String))
    ensures
        (r.0@, r.1@) == sync_report_text(result.applied_paths@.len(), result.conflicts@.len(), result.remaining_paths@.len()),
{
    let applied = u128_decimal(result.applied_paths.len() as u128);
    let remaining = u128_decimal(result.remaining_paths.len() as u128);
    if result.conflicts.len() == 0 {
        let mut out: Vec<char> = Vec::new();
        push_chars(&mut out, applied.as_slice());
        crate::text::push_str_chars(&mut out, " file(s) synced, ");
        push_chars(&mut out, remaining.as_slice());
        crate::text::push_str_chars(&mut out, " remaining");
        ("completed".to_owned(), string_from_chars(out.as_slice()))
    } else {
        let conflicts = u128_decimal(result.conflicts.len() as u128);
        let mut out: Vec<char> = Vec::new();
        push_chars(&mut out, applied.as_slice());
        crate::text::push_str_chars(&mut out, " synced, ");
        push_chars(&mut out, conflicts.as_slice());
        crate::text::push_str_chars(&mut out, " conflicts, ");
        push_chars(&mut out, remaining.as_slice());
        crate::text::push_str_chars(&mut out, " remaining");
        ("failed".to_owned(), string_from_chars(out.as_slice()))
    }
}

/// The IDE terminal as it is announced while it starts in the background.
pub fn ide_starting_state(project_root: &str, now: i64) -> (s: IdeTerminalState)
    ensures
        s.status == IdeStatus::Starting,
        s.cwd matches Some(c) && c@ == project_root@,
        s.workspace_path is None,
        s.shell@ == "powershell.exe"@,
        s.pid is None,
        s.created_at == Some(now),
        s.exit_code is None,
        s.error is None,
        s.modified_paths@.len() == 0,
{
    IdeTerminalState {
        status: IdeStatus::Starting,
        cwd: Some(project_root.to_owned()),
        workspace_path: None,
        shell: "powershell.exe".to_owned(),
        pid: None,
        created_at: Some(now),
        exit_code: None,
        error: None,
        modified_paths: Vec::new(),
    }
}

/// The IDE terminal as it is announced when starting it failed.
pub fn ide_error_state(project_root: &str, now: i64, error: String) -> (s: IdeTerminalState)
    ensures
        s.status == IdeStatus::Error,
        s.cwd matches Some(c) && c@ == project_root@,
        s.workspace_path is None,
        s.shell@ == "powershell.exe"@,
        s.pid is None,
        s.created_at == Some(now),
        s.exit_code is None,
        s.error == Some(error),
        s.modified_paths@.len() == 0,
{
    IdeTerminalState {
        status: IdeStatus::Error,
        cwd: Some(project_root.to_owned()),
        workspace_path: None,
        shell: "powershell.exe".to_owned(),
        pid: None,
        created_at: Some(now),
        exit_code: None,
        error: Some(error),
        modified_paths: Vec::new(),
    }
}

/// The IDE terminal once its shell runs in its working copy.
pub fn ide_launched_state(workspace_path: &str, pid: Option<u32>, now: i64, modified_paths: Vec<String>) -> (s: IdeTerminalState)
    ensures
        s.status == IdeStatus::Starting,
        s.cwd matches Some(c) && c@ == workspace_path@,
        s.workspace_path matches Some(c) && c@ == workspace_path@,
        s.shell@ == "powershell.exe"@,
        s.pid == pid,
        s.created_at == Some(now),
        s.exit_code is None,
        s.error is None,
        s.modified_paths == modified_paths,
{
    IdeTerminalState {
        status: IdeStatus::Starting,
        cwd: Some(workspace_path.to_owned()),
        workspace_path: Some(workspace_path.to_owned()),
        shell: "powershell.exe".to_owned(),
        pid,
        created_at: Some(now),
        exit_code: None,
        error: None,
        modified_paths,
    }
}

/// Two paths are the same path: they have the same components.
pub fn same_path(a: &str, b: &str) -> (r: bool)
    ensures
        r == (path_components(a@) == path_components(b@)),
{
    let ca = chars_of(a);
    let cb = chars_of(b);
    let pa = components(ca.as_slice());
    let pb = components(cb.as_slice());
    crate::paths::components_equal(&pa, &pb)
}

/// Whether the running IDE terminal can be kept for the project: it has
/// a working copy of this very folder and has not ended.
pub fn can_reuse_ide(status: Option<IdeStatus>, workspace_project_root: Option<&str>, has_sandbox: bool, project_root: &str) -> (r: bool)
    ensures
        r == (match (status, workspace_project_root) {
            (Some(s), Some(root)) => has_sandbox && path_components(root@) == path_components(project_root@)
                && s != IdeStatus::Closed && s != IdeStatus::Error,
            _ => false,
        }),
{
    match (status, workspace_project_root) {
        (Some(s), Some(root)) => has_sandbox && same_path(root, project_root) && !matches!(s, IdeStatus::Closed | IdeStatus::Error),
        _ => false,
    }
}

/// Where a new working copy goes, and the branch a worktree gets.
#[derive(Debug)]
pub struct WorkspaceLocation {
    pub root: String,
    pub path: String,
    pub branch_name: Option<String>,
}

/// The segment of a project's name that working copies are grouped by.
pub open spec fn project_segment(name: Option<String>, fallback: Seq<char>) -> Seq<char> {
    sanitized(spec_to_lowercase(trim(match name {
        Some(n) => n@,
        None => fallback,
    })))
}

/// `{label}-{stamp}` where the stamp is the time and a token.
pub open spec fn stamped_leaf(label: Seq<char>, now: i64, token: u64) -> Seq<char> {
    sanitized(spec_to_lowercase(trim(label))) + seq!['-'] + stamped_id(now, token)
}

/// Where the working copy of a new session goes: under the temporary
/// folder, in `sentinel-sandboxes` (or `sentinel-worktrees` for a
/// worktree, whose branch is `sentinel/{project}-{label}-{stamp}`), in a
/// folder named after the project, as `{label}-{stamp}`.
pub fn session_workspace_location(
    temp_dir: &str,
    project: &ProjectState,
    label: &str,
    strategy: SessionWorkspaceStrategy,
    now: i64,
    tokens: &mut TokenCounter,
) -> (r: Result<WorkspaceLocation, String>)
    ensures
        project.path is None ==> (r matches Err(e) && e@ == "Project root is unavailable."@ && final(tokens).next == old(tokens).next),
        project.path is Some ==> {
            let worktree = strategy == SessionWorkspaceStrategy::GitWorktree;
            let proj = project_segment(project.name, if worktree { "repo"@ } else { "project"@ });
            let root = path_join(path_join(temp_dir@, if worktree { "sentinel-worktrees"@ } else { "sentinel-sandboxes"@ }), proj);
            let leaf = stamped_leaf(label@, now, old(tokens).next);
            &&& final(tokens).next == after(old(tokens).next)
            &&& r matches Ok(loc) && {
                &&& loc.root@ == root
                &&& loc.path@ == path_join(root, leaf)
                &&& if worktree {
                    loc.branch_name matches Some(b) && b@ == "sentinel/"@ + proj + seq!['-'] + leaf
                } else {
                    loc.branch_name is None
                }
            }
        },
{
    if project.path.is_none() {
        return Err("Project root is unavailable.".to_owned());
    }
    let worktree = strategy == SessionWorkspaceStrategy::GitWorktree;
    let name: &str = match &project.name {
        Some(n) => n.as_str(),
        None => if worktree { "repo" } else { "project" },
    };
    proof {
        reveal_strlit("repo");
        reveal_strlit("project");
    }
    let proj = sanitize_segment(name);
    let group = if worktree { "sentinel-worktrees" } else { "sentinel-sandboxes" };
    let root = join_paths(join_paths(temp_dir, group).as_str(), proj.as_str());
    let stamp = stamped_token(now, tokens);
    let mut leaf = chars_of(sanitize_segment(label).as_str());
    leaf.push('-');
    crate::text::push_str_chars(&mut leaf, stamp.as_str());
    let leaf = string_from_chars(leaf.as_slice());
    let path = join_paths(root.as_str(), leaf.as_str());
    let branch_name = if worktree {
        let mut b = chars_of("sentinel/");
        crate::text::push_str_chars(&mut b, proj.as_str());
        b.push('-');
        crate::text::push_str_chars(&mut b, leaf.as_str());
        Some(string_from_chars(b.as_slice()))
    } else {
        None
    };
    Ok(WorkspaceLocation { root, path, branch_name })
}

/// Where the IDE terminal's working copy goes: under the temporary
/// folder, in `sentinel-ide`, in a folder named after the project, as
/// `ide-{stamp}`.
pub fn ide_workspace_location(temp_dir: &str, project: &ProjectState, now: i64, tokens: &mut TokenCounter) -> (r: Result<
    WorkspaceLocation,
    String,
>)
    ensures
        project.path is None ==> (r matches Err(e) && e@ == "Open a project folder before using IDE mode."@
            && final(tokens).next == old(tokens).next),
        project.path is Some ==> {
            let root = path_join(path_join(temp_dir@, "sentinel-ide"@), project_segment(project.name, "project"@));
            &&& final(tokens).next == after(old(tokens).next)
            &&& r matches Ok(loc) && loc.root@ == root && loc.path@ == path_join(root, "ide-"@ + stamped_id(now, old(tokens).next))
                && loc.branch_name is None
        },
{
    if project.path.is_none() {
        return Err("Open a project folder before using IDE mode.".to_owned());
    }
    let name: &str = match &project.name {
        Some(n) => n.as_str(),
        None => "project",
    };
    proof {
        reveal_strlit("project");
    }
    let proj = sanitize_segment(name);
    let root = join_paths(join_paths(temp_dir, "sentinel-ide").as_str(), proj.as_str());
    let stamp = stamped_token(now, tokens);
    let mut leaf = chars_of("ide-");
    crate::text::push_str_chars(&mut leaf, stamp.as_str());
    let leaf = string_from_chars(leaf.as_slice());
    let path = join_paths(root.as_str(), leaf.as_str());
    Ok(WorkspaceLocation { root, path, branch_name: None })
}

/// Whether opening another project replaces the IDE terminal's working
/// copy: the folder changed (or one appeared or went away).
pub fn ide_project_changed(old_root: Option<&str>, new_root: Option<&str>) -> (r: bool)
    ensures
        r == (match (old_root, new_root) {
            (Some(a), Some(b)) => path_components(a@) != path_components(b@),
            (None, None) => false,
            _ => true,
        }),
{
    match (old_root, new_root) {
        (Some(a), Some(b)) => !same_path(a, b),
        (None, None) => false,
        _ => true,
    }
}

/// Whether the IDE terminal's working copy can serve the project: it
/// exists, with its baseline, for this very folder.
pub fn can_reuse_ide_workspace(workspace_path: Option<&str>, workspace_project_root: Option<&str>, has_sandbox: bool, project_root: &str) -> (r: bool)
    ensures
        r == (match (workspace_path, workspace_project_root) {
            (Some(_), Some(root)) => has_sandbox && path_components(root@) == path_components(project_root@),
            _ => false,
        }),
{
    match (workspace_path, workspace_project_root) {
        (Some(_), Some(root)) => has_sandbox && same_path(root, project_root),
        _ => false,
    }
}

} // verus!
