//! The data model shared by sessions, terminals, workspaces and the
//! persisted state, with the string forms the database stores.
use vstd::prelude::*;

verus! {

/// Lifecycle of an agent session.
#[derive(Clone, Copy, Debug, PartialEq, Eq, Structural)]
pub enum SessionStatus {
    Starting,
    Ready,
    Closing,
    Paused,
    Closed,
    Error,
}

/// What became of a session's working copy.
#[derive(Clone, Copy, Debug, PartialEq, Eq, Structural)]
pub enum CleanupState {
    Active,
    Removed,
    Preserved,
    Failed,
}

/// How a session gets its own working copy of the project.
#[derive(Clone, Copy, Debug, PartialEq, Eq, Structural)]
pub enum SessionWorkspaceStrategy {
    SandboxCopy,
    GitWorktree,
}

/// Lifecycle of the IDE terminal.
#[derive(Clone, Copy, Debug, PartialEq, Eq, Structural)]
pub enum IdeStatus {
    Idle,
    Starting,
    Ready,
    Closing,
    Closed,
    Error,
}

/// Kind of a tab.
#[derive(Clone, Copy, Debug, PartialEq, Eq, Structural)]
pub enum TabType {
    Dashboard,
    Terminal,
}

/// Lifecycle of a standalone terminal tab.
#[derive(Clone, Copy, Debug, PartialEq, Eq, Structural)]
pub enum TabStatus {
    Starting,
    Ready,
    Closing,
    Closed,
    Error,
}

/// One entry of the project tree.
#[derive(Debug)]
pub struct ProjectNode {
    pub name: String,
    pub path: String,
    pub kind: String,
    pub children: Option<Vec<ProjectNode>>,
}

/// The mathematical value of a project tree entry.
pub struct NodeView {
    pub name: Seq<char>,
    pub path: Seq<char>,
    pub kind: Seq<char>,
    pub children: Option<Seq<NodeView>>,
}

pub open spec fn node_view(n: ProjectNode) -> NodeView
    decreases n, 1int,
{
    NodeView {
        name: n.name@,
        path: n.path@,
        kind: n.kind@,
        children: match n.children {
            Some(v) => {
                proof {
                    assert(decreases_to!(n => n.children));
                    assert(decreases_to!(n.children => v));
                    assert(decreases_to!(v => v@));
                }
                Some(nodes_view(v@))
            },
            None => None,
        },
    }
}

pub open spec fn nodes_view(s: Seq<ProjectNode>) -> Seq<NodeView>
    decreases s, 0int,
{
    if s.len() == 0 {
        Seq::empty()
    } else {
        nodes_view(s.drop_last()).push(node_view(s.last()))
    }
}

impl Clone for ProjectNode {
    fn clone(&self) -> (r: Self)
        ensures
            node_view(r) == node_view(*self),
        decreases *self,
    {
        let children = match &self.children {
            Some(nodes) => {
                let mut out: Vec<ProjectNode> = Vec::new();
                let mut i: usize = 0;
                while i < nodes.len()
                    invariant
                        i <= nodes@.len(),
                        self.children == Some(*nodes),
                        nodes_view(out@) == nodes_view(nodes@.take(i as int)),
                    decreases nodes@.len() - i,
                {
                    proof {
                        let o = self.children;
                        let v: Vec<ProjectNode> = o->0;
                        assert(v == *nodes);
                        assert(decreases_to!(*self => o));
                        assert(decreases_to!(o => v));
                        assert(decreases_to!(v => v[i as int]));
                    }
                    let node = nodes[i].clone();
                    let ghost before = out@;
                    out.push(node);
                    i = i + 1;
                    proof {
                        assert(out@.drop_last() =~= before);
                        assert(nodes@.take(i as int).drop_last() =~= nodes@.take(i - 1));
                    }
                }
                assert(nodes@.take(nodes@.len() as int) =~= nodes@);
                Some(out)
            },
            None => None,
        };
        ProjectNode {
            name: self.name.clone(),
            path: self.path.clone(),
            kind: self.kind.clone(),
            children,
        }
    }
}

/// The project a workspace points at.
#[derive(Debug)]
pub struct ProjectState {
    pub path: Option<String>,
    pub name: Option<String>,
    pub branch: Option<String>,
    pub is_git_repo: bool,
    pub tree: Vec<ProjectNode>,
}

/// The mathematical value of a project.
pub struct ProjectView {
    pub path: Option<String>,
    pub name: Option<String>,
    pub branch: Option<String>,
    pub is_git_repo: bool,
    pub tree: Seq<NodeView>,
}

impl View for ProjectState {
    type V = ProjectView;

    open spec fn view(&self) -> ProjectView {
        ProjectView {
            path: self.path,
            name: self.name,
            branch: self.branch,
            is_git_repo: self.is_git_repo,
            tree: nodes_view(self.tree@),
        }
    }
}

/// Copies a project tree.
pub fn clone_tree(nodes: &Vec<ProjectNode>) -> (out: Vec<ProjectNode>)
    ensures
        nodes_view(out@) == nodes_view(nodes@),
{
    let mut out: Vec<ProjectNode> = Vec::new();
    let mut i: usize = 0;
    while i < nodes.len()
        invariant
            i <= nodes@.len(),
            nodes_view(out@) == nodes_view(nodes@.take(i as int)),
        decreases nodes@.len() - i,
    {
        let node = nodes[i].clone();
        let ghost before = out@;
        out.push(node);
        i = i + 1;
        proof {
            assert(out@.drop_last() =~= before);
            assert(nodes@.take(i as int).drop_last() =~= nodes@.take(i - 1));
        }
    }
    assert(nodes@.take(nodes@.len() as int) =~= nodes@);
    out
}

impl Clone for ProjectState {
    fn clone(&self) -> (r: Self)
        ensures
            r@ == self@,
    {
        ProjectState {
            path: self.path.clone(),
            name: self.name.clone(),
            branch: self.branch.clone(),
            is_git_repo: self.is_git_repo,
            tree: clone_tree(&self.tree),
        }
    }
}

impl ProjectState {
    /// The project of no folder at all.
    pub fn empty() -> (p: ProjectState)
        ensures
            p.path is None,
            p.name is None,
            p.branch is None,
            !p.is_git_repo,
            p.tree@.len() == 0,
    {
        ProjectState { path: None, name: None, branch: None, is_git_repo: false, tree: Vec::new() }
    }
}

/// One line of the activity log.
#[derive(Clone, Debug)]
pub struct ActivityLogEntry {
    pub id: String,
    pub workspace_id: Option<String>,
    pub timestamp: i64,
    pub scope: String,
    pub status: String,
    pub command: String,
    pub cwd: String,
    pub detail: Option<String>,
}

/// One command a session ran.
#[derive(Debug)]
pub struct SessionCommandEntry {
    pub id: String,
    pub command: String,
    pub timestamp: i64,
    pub source: String,
}

impl Clone for SessionCommandEntry {
    fn clone(&self) -> (r: Self)
        ensures
            r == *self,
    {
        SessionCommandEntry {
            id: self.id.clone(),
            command: self.command.clone(),
            timestamp: self.timestamp,
            source: self.source.clone(),
        }
    }
}


/// The command history of one session.
#[derive(Clone, Debug)]
pub struct SessionHistoryUpdate {
    pub session_id: String,
    pub workspace_id: String,
    pub entries: Vec<SessionCommandEntry>,
}

impl View for SessionHistoryUpdate {
    type V = SessionHistoryUpdate;

    open spec fn view(&self) -> SessionHistoryUpdate {
        *self
    }
}

/// The files a session has changed.
#[derive(Clone, Debug)]
pub struct SessionDiffUpdate {
    pub session_id: String,
    pub workspace_id: String,
    pub modified_paths: Vec<String>,
    pub updated_at: i64,
}

impl View for SessionDiffUpdate {
    type V = SessionDiffUpdate;

    open spec fn view(&self) -> SessionDiffUpdate {
        *self
    }
}

/// A file that could not be synchronised back to the project.
#[derive(Clone, Debug)]
pub struct SessionSyncConflict {
    pub path: String,
    pub reason: String,
    pub detail: Option<String>,
}

/// Outcome of applying a session's changes to the project.
#[derive(Clone, Debug)]
pub struct SessionApplyResult {
    pub session_id: String,
    pub workspace_strategy: SessionWorkspaceStrategy,
    pub applied_paths: Vec<String>,
    pub remaining_paths: Vec<String>,
    pub conflicts: Vec<SessionSyncConflict>,
}

/// Outcome of committing a worktree session.
#[derive(Clone, Debug)]
pub struct SessionCommitResult {
    pub session_id: String,
    pub workspace_strategy: SessionWorkspaceStrategy,
    pub applied_paths: Vec<String>,
    pub committed_paths: Vec<String>,
    pub remaining_paths: Vec<String>,
    pub conflicts: Vec<SessionSyncConflict>,
    pub created_commit: bool,
    pub commit_message: String,
    pub commit_hash: Option<String>,
}

/// Preferences that apply across workspaces.
#[derive(Debug)]
pub struct WorkspacePreferences {
    pub default_session_strategy: SessionWorkspaceStrategy,
    pub last_workspace_id: Option<String>,
}

impl Clone for WorkspacePreferences {
    fn clone(&self) -> (r: Self)
        ensures
            r == *self,
    {
        WorkspacePreferences {
            default_session_strategy: self.default_session_strategy,
            last_workspace_id: match &self.last_workspace_id {
                Some(id) => Some(id.clone()),
                None => None,
            },
        }
    }
}

impl Default for WorkspacePreferences {
    fn default() -> (p: WorkspacePreferences)
        ensures
            p.default_session_strategy == SessionWorkspaceStrategy::SandboxCopy,
            p.last_workspace_id is None,
    {
        WorkspacePreferences {
            default_session_strategy: SessionWorkspaceStrategy::SandboxCopy,
            last_workspace_id: None,
        }
    }
}

/// The state of the IDE terminal.
#[derive(Clone, Debug)]
pub struct IdeTerminalState {
    pub status: IdeStatus,
    pub cwd: Option<String>,
    pub workspace_path: Option<String>,
    pub shell: String,
    pub pid: Option<u32>,
    pub created_at: Option<i64>,
    pub exit_code: Option<i32>,
    pub error: Option<String>,
    pub modified_paths: Vec<String>,
}

/// The IDE terminal before anything has been started: idle, in no
/// folder, with the default shell and nothing else known.
pub open spec fn is_idle_ide(s: IdeTerminalState) -> bool {
    &&& s.status == IdeStatus::Idle
    &&& s.cwd is None
    &&& s.workspace_path is None
    &&& s.shell@ == "powershell.exe"@
    &&& s.pid is None
    &&& s.created_at is None
    &&& s.exit_code is None
    &&& s.error is None
    &&& s.modified_paths@.len() == 0
}

impl IdeTerminalState {
    /// The IDE terminal before anything has been started.
    pub fn idle() -> (s: IdeTerminalState)
        ensures
            is_idle_ide(s),
    {
        IdeTerminalState {
            status: IdeStatus::Idle,
            cwd: None,
            workspace_path: None,
            shell: "powershell.exe".to_owned(),
            pid: None,
            created_at: None,
            exit_code: None,
            error: None,
            modified_paths: Vec::new(),
        }
    }
}

/// What the user asks for when starting a session.
#[derive(Clone, Debug)]
pub struct CreateSessionInput {
    pub label: Option<String>,
    pub startup_command: Option<String>,
    pub cols: Option<u16>,
    pub rows: Option<u16>,
    pub workspace_strategy: Option<SessionWorkspaceStrategy>,
}

/// Output a terminal tab produced.
#[derive(Clone, Debug)]
pub struct TabOutputEvent {
    pub tab_id: String,
    pub data: String,
}

/// A change of a terminal tab's state.
#[derive(Clone, Debug)]
pub struct TabStateUpdate {
    pub tab_id: String,
    pub status: TabStatus,
    pub pid: Option<u32>,
    pub exit_code: Option<i32>,
    pub error: Option<String>,
}

/// A workspace: a project folder with the sessions and tabs opened on it.
#[derive(Debug)]
pub struct WorkspaceContext {
    pub id: String,
    pub name: String,
    pub project: ProjectState,
    pub session_ids: Vec<String>,
    pub tab_ids: Vec<String>,
    pub created_at: i64,
    pub last_active_at: i64,
    pub default_session_strategy: SessionWorkspaceStrategy,
}

/// The mathematical value of a workspace.
pub struct WorkspaceView {
    pub id: Seq<char>,
    pub name: Seq<char>,
    pub project: ProjectView,
    pub session_ids: Seq<String>,
    pub tab_ids: Seq<String>,
    pub created_at: i64,
    pub last_active_at: i64,
    pub default_session_strategy: SessionWorkspaceStrategy,
}

impl View for WorkspaceContext {
    type V = WorkspaceView;

    open spec fn view(&self) -> WorkspaceView {
        WorkspaceView {
            id: self.id@,
            name: self.name@,
            project: self.project@,
            session_ids: self.session_ids@,
            tab_ids: self.tab_ids@,
            created_at: self.created_at,
            last_active_at: self.last_active_at,
            default_session_strategy: self.default_session_strategy,
        }
    }
}

impl Clone for WorkspaceContext {
    fn clone(&self) -> (r: Self)
        ensures
            r@ == self@,
    {
        let session_ids = self.session_ids.clone();
        let tab_ids = self.tab_ids.clone();
        assert(session_ids@ =~= self.session_ids@);
        assert(tab_ids@ =~= self.tab_ids@);
        WorkspaceContext {
            id: self.id.clone(),
            name: self.name.clone(),
            project: self.project.clone(),
            session_ids,
            tab_ids,
            created_at: self.created_at,
            last_active_at: self.last_active_at,
            default_session_strategy: self.default_session_strategy,
        }
    }
}

// ---------------------------------------------------------------------
// The names the database stores for each state.
// ---------------------------------------------------------------------

pub open spec fn strategy_name(s: SessionWorkspaceStrategy) -> Seq<char> {
    match s {
        SessionWorkspaceStrategy::SandboxCopy => "sandbox-copy"@,
        SessionWorkspaceStrategy::GitWorktree => "git-worktree"@,
    }
}

pub open spec fn strategy_from_name(v: Seq<char>) -> SessionWorkspaceStrategy {
    if v == "git-worktree"@ {
        SessionWorkspaceStrategy::GitWorktree
    } else {
        SessionWorkspaceStrategy::SandboxCopy
    }
}

pub open spec fn session_status_name(s: SessionStatus) -> Seq<char> {
    match s {
        SessionStatus::Starting => "starting"@,
        SessionStatus::Ready => "ready"@,
        SessionStatus::Closing => "closing"@,
        SessionStatus::Paused => "paused"@,
        SessionStatus::Closed => "closed"@,
        SessionStatus::Error => "error"@,
    }
}

pub open spec fn session_status_from_name(v: Seq<char>) -> SessionStatus {
    if v == "ready"@ {
        SessionStatus::Ready
    } else if v == "closing"@ {
        SessionStatus::Closing
    } else if v == "paused"@ {
        SessionStatus::Paused
    } else if v == "closed"@ {
        SessionStatus::Closed
    } else if v == "error"@ {
        SessionStatus::Error
    } else {
        SessionStatus::Starting
    }
}

pub open spec fn cleanup_state_name(s: CleanupState) -> Seq<char> {
    match s {
        CleanupState::Active => "active"@,
        CleanupState::Removed => "removed"@,
        CleanupState::Preserved => "preserved"@,
        CleanupState::Failed => "failed"@,
    }
}

pub open spec fn cleanup_state_from_name(v: Seq<char>) -> CleanupState {
    if v == "removed"@ {
        CleanupState::Removed
    } else if v == "preserved"@ {
        CleanupState::Preserved
    } else if v == "failed"@ {
        CleanupState::Failed
    } else {
        CleanupState::Active
    }
}

pub open spec fn tab_status_name(s: TabStatus) -> Seq<char> {
    match s {
        TabStatus::Starting => "starting"@,
        TabStatus::Ready => "ready"@,
        TabStatus::Closing => "closing"@,
        TabStatus::Closed => "closed"@,
        TabStatus::Error => "error"@,
    }
}

pub open spec fn tab_status_from_name(v: Seq<char>) -> TabStatus {
    if v == "ready"@ {
        TabStatus::Ready
    } else if v == "closing"@ {
        TabStatus::Closing
    } else if v == "closed"@ {
        TabStatus::Closed
    } else if v == "error"@ {
        TabStatus::Error
    } else {
        TabStatus::Starting
    }
}

pub open spec fn ide_status_name(s: IdeStatus) -> Seq<char> {
    match s {
        IdeStatus::Idle => "idle"@,
        IdeStatus::Starting => "starting"@,
        IdeStatus::Ready => "ready"@,
        IdeStatus::Closing => "closing"@,
        IdeStatus::Closed => "closed"@,
        IdeStatus::Error => "error"@,
    }
}

pub open spec fn ide_status_from_name(v: Seq<char>) -> IdeStatus {
    if v == "starting"@ {
        IdeStatus::Starting
    } else if v == "ready"@ {
        IdeStatus::Ready
    } else if v == "closing"@ {
        IdeStatus::Closing
    } else if v == "closed"@ {
        IdeStatus::Closed
    } else if v == "error"@ {
        IdeStatus::Error
    } else {
        IdeStatus::Idle
    }
}

pub open spec fn tab_type_name(t: TabType) -> Seq<char> {
    match t {
        TabType::Dashboard => "dashboard"@,
        TabType::Terminal => "terminal"@,
    }
}

pub open spec fn tab_type_from_name(v: Seq<char>) -> TabType {
    if v == "dashboard"@ {
        TabType::Dashboard
    } else {
        TabType::Terminal
    }
}

/// The stored name of a session workspace strategy.
pub fn session_strategy_to_db(strategy: SessionWorkspaceStrategy) -> (r: &'static str)
    ensures
        r@ == strategy_name(strategy),
{
    match strategy {
        SessionWorkspaceStrategy::SandboxCopy => "sandbox-copy",
        SessionWorkspaceStrategy::GitWorktree => "git-worktree",
    }
}

/// The stored name of a workspace's default strategy (the same names as
/// for sessions).
pub fn workspace_strategy_to_str(strategy: SessionWorkspaceStrategy) -> (r: &'static str)
    ensures
        r@ == strategy_name(strategy),
{
    session_strategy_to_db(strategy)
}

/// Reads a stored strategy; anything unknown is a sandbox copy.
pub fn session_strategy_from_db(value: &str) -> (r: SessionWorkspaceStrategy)
    ensures
        r == strategy_from_name(value@),
{
    if crate::text::str_eq(value, "git-worktree") {
        SessionWorkspaceStrategy::GitWorktree
    } else {
        SessionWorkspaceStrategy::SandboxCopy
    }
}

/// The stored name of a session status.
pub fn session_status_to_str(s: SessionStatus) -> (r: &'static str)
    ensures
        r@ == session_status_name(s),
{
    match s {
        SessionStatus::Starting => "starting",
        SessionStatus::Ready => "ready",
        SessionStatus::Closing => "closing",
        SessionStatus::Paused => "paused",
        SessionStatus::Closed => "closed",
        SessionStatus::Error => "error",
    }
}

/// Reads a stored session status; anything unknown is `Starting`.
pub fn session_status_from_db(value: &str) -> (r: SessionStatus)
    ensures
        r == session_status_from_name(value@),
{
    if crate::text::str_eq(value, "ready") {
        SessionStatus::Ready
    } else if crate::text::str_eq(value, "closing") {
        SessionStatus::Closing
    } else if crate::text::str_eq(value, "paused") {
        SessionStatus::Paused
    } else if crate::text::str_eq(value, "closed") {
        SessionStatus::Closed
    } else if crate::text::str_eq(value, "error") {
        SessionStatus::Error
    } else {
        SessionStatus::Starting
    }
}

/// The stored name of a cleanup state.
pub fn cleanup_state_to_str(s: CleanupState) -> (r: &'static str)
    ensures
        r@ == cleanup_state_name(s),
{
    match s {
        CleanupState::Active => "active",
        CleanupState::Removed => "removed",
        CleanupState::Preserved => "preserved",
        CleanupState::Failed => "failed",
    }
}

/// Reads a stored cleanup state; anything unknown is `Active`.
pub fn cleanup_state_from_db(value: &str) -> (r: CleanupState)
    ensures
        r == cleanup_state_from_name(value@),
{
    if crate::text::str_eq(value, "removed") {
        CleanupState::Removed
    } else if crate::text::str_eq(value, "preserved") {
        CleanupState::Preserved
    } else if crate::text::str_eq(value, "failed") {
        CleanupState::Failed
    } else {
        CleanupState::Active
    }
}

/// The stored name of a tab status.
pub fn tab_status_to_str(s: TabStatus) -> (r: &'static str)
    ensures
        r@ == tab_status_name(s),
{
    match s {
        TabStatus::Starting => "starting",
        TabStatus::Ready => "ready",
        TabStatus::Closing => "closing",
        TabStatus::Closed => "closed",
        TabStatus::Error => "error",
    }
}

/// Reads a stored tab status; anything unknown is `Starting`.
pub fn tab_status_from_db(value: &str) -> (r: TabStatus)
    ensures
        r == tab_status_from_name(value@),
{
    if crate::text::str_eq(value, "ready") {
        TabStatus::Ready
    } else if crate::text::str_eq(value, "closing") {
        TabStatus::Closing
    } else if crate::text::str_eq(value, "closed") {
        TabStatus::Closed
    } else if crate::text::str_eq(value, "error") {
        TabStatus::Error
    } else {
        TabStatus::Starting
    }
}

/// The stored name of an IDE terminal status.
pub fn ide_status_to_str(s: IdeStatus) -> (r: &'static str)
    ensures
        r@ == ide_status_name(s),
{
    match s {
        IdeStatus::Idle => "idle",
        IdeStatus::Starting => "starting",
        IdeStatus::Ready => "ready",
        IdeStatus::Closing => "closing",
        IdeStatus::Closed => "closed",
        IdeStatus::Error => "error",
    }
}

/// Reads a stored IDE terminal status; anything unknown is `Idle`.
pub fn ide_status_from_db(value: &str) -> (r: IdeStatus)
    ensures
        r == ide_status_from_name(value@),
{
    if crate::text::str_eq(value, "starting") {
        IdeStatus::Starting
    } else if crate::text::str_eq(value, "ready") {
        IdeStatus::Ready
    } else if crate::text::str_eq(value, "closing") {
        IdeStatus::Closing
    } else if crate::text::str_eq(value, "closed") {
        IdeStatus::Closed
    } else if crate::text::str_eq(value, "error") {
        IdeStatus::Error
    } else {
        IdeStatus::Idle
    }
}

/// The stored name of a tab type.
pub fn tab_type_to_str(t: TabType) -> (r: &'static str)
    ensures
        r@ == tab_type_name(t),
{
    match t {
        TabType::Dashboard => "dashboard",
        TabType::Terminal => "terminal",
    }
}

/// Reads a stored tab type; anything but `dashboard` is a terminal.
pub fn tab_type_from_db(value: &str) -> (r: TabType)
    ensures
        r == tab_type_from_name(value@),
{
    if crate::text::str_eq(value, "dashboard") {
        TabType::Dashboard
    } else {
        TabType::Terminal
    }
}

/// Storing a strategy and reading it back gives the same strategy.
pub proof fn law_strategy_round_trip(s: SessionWorkspaceStrategy)
    ensures
        strategy_from_name(strategy_name(s)) == s,
{
    reveal_strlit("sandbox-copy");
    reveal_strlit("git-worktree");
    assert("sandbox-copy"@[0] != "git-worktree"@[0]);
}

/// Storing a session status and reading it back gives the same status.
pub proof fn law_session_status_round_trip(s: SessionStatus)
    ensures
        session_status_from_name(session_status_name(s)) == s,
{
    reveal_strlit("starting");
    reveal_strlit("ready");
    reveal_strlit("closing");
    reveal_strlit("paused");
    reveal_strlit("closed");
    reveal_strlit("error");
    assert("starting"@[0] == 's');
    assert("ready"@[0] == 'r');
    assert("closing"@[0] == 'c');
    assert("paused"@[0] == 'p');
    assert("closed"@[0] == 'c');
    assert("closing"@[4] != "closed"@[4]);
    assert("error"@[0] == 'e');
}

/// Storing a cleanup state and reading it back gives the same state.
pub proof fn law_cleanup_state_round_trip(s: CleanupState)
    ensures
        cleanup_state_from_name(cleanup_state_name(s)) == s,
{
    reveal_strlit("active");
    reveal_strlit("removed");
    reveal_strlit("preserved");
    reveal_strlit("failed");
    assert("active"@[0] == 'a');
    assert("removed"@[0] == 'r');
    assert("preserved"@[0] == 'p');
    assert("failed"@[0] == 'f');
}

/// Storing a tab status and reading it back gives the same status.
pub proof fn law_tab_status_round_trip(s: TabStatus)
    ensures
        tab_status_from_name(tab_status_name(s)) == s,
{
    reveal_strlit("starting");
    reveal_strlit("ready");
    reveal_strlit("closing");
    reveal_strlit("closed");
    reveal_strlit("error");
    assert("starting"@[0] == 's');
    assert("ready"@[0] == 'r');
    assert("closing"@[0] == 'c');
    assert("closed"@[0] == 'c');
    assert("closing"@[4] != "closed"@[4]);
    assert("error"@[0] == 'e');
}

/// Storing an IDE terminal status and reading it back gives the same status.
pub proof fn law_ide_status_round_trip(s: IdeStatus)
    ensures
        ide_status_from_name(ide_status_name(s)) == s,
{
    reveal_strlit("idle");
    reveal_strlit("starting");
    reveal_strlit("ready");
    reveal_strlit("closing");
    reveal_strlit("closed");
    reveal_strlit("error");
    assert("idle"@[0] == 'i');
    assert("starting"@[0] == 's');
    assert("ready"@[0] == 'r');
    assert("closing"@[0] == 'c');
    assert("closed"@[0] == 'c');
    assert("closing"@[4] != "closed"@[4]);
    assert("error"@[0] == 'e');
}

/// Storing a tab type and reading it back gives the same type.
pub proof fn law_tab_type_round_trip(t: TabType)
    ensures
        tab_type_from_name(tab_type_name(t)) == t,
{
    reveal_strlit("dashboard");
    reveal_strlit("terminal");
    assert("dashboard"@[0] == 'd');
    assert("terminal"@[0] == 't');
}

} // verus!
