//! Turning stored rows back into the values the application works with.
use vstd::prelude::*;
use crate::model::{
    ActivityLogEntry, IdeTerminalState, ProjectState, ProjectView, SessionCommandEntry,
    SessionDiffUpdate, SessionWorkspaceStrategy, WorkspaceContext, WorkspacePreferences,
    WorkspaceView, ide_status_from_db, ide_status_from_name, session_strategy_from_db,
    strategy_from_name,
};
use crate::rows::{
    ActivityLogRow, CommandHistoryRow, FileChangeRow, IdeTerminalRow, PreferenceRow, WorkspaceRow,
};
use crate::order::{has_view, is_stable_order, sorted_unique, stable_order, strictly_ascending, SortKey};
use crate::text::{clone_opt, decimal_int, i64_decimal, str_eq, string_from_chars, trim, trim_str, views_of_strings};
use crate::json::{decode_strings, encode_strings, json_of_strings, strings_from_json};
use crate::keyed::Keyed;

verus! {

/// The project a stored workspace describes, without looking at the
/// folder: its name falls back to the workspace's, and it has no tree.
pub open spec fn stored_project(row: WorkspaceRow) -> ProjectView {
    ProjectView {
        path: row.project_path,
        name: if row.project_name is Some { row.project_name } else { Some(row.name) },
        branch: row.git_branch,
        is_git_repo: row.is_git_repo != 0,
        tree: Seq::empty(),
    }
}

/// The project of a stored workspace as the row gives it.
pub fn project_from_row(row: &WorkspaceRow) -> (p: ProjectState)
    ensures
        p@ == stored_project(*row),
{
    let name = match &row.project_name {
        Some(n) => Some(n.clone()),
        None => Some(row.name.clone()),
    };
    let p = ProjectState {
        path: clone_opt(&row.project_path),
        name,
        branch: clone_opt(&row.git_branch),
        is_git_repo: row.is_git_repo != 0,
        tree: Vec::new(),
    };
    assert(p@.tree =~= Seq::empty());
    p
}

/// A stored workspace, with no sessions or tabs yet. `inspected` is the
/// project as read from its folder, when that was asked for and the
/// folder could be read; otherwise the row gives the project.
pub fn workspace_from_row(row: &WorkspaceRow, inspected: Option<ProjectState>) -> (w: WorkspaceContext)
    ensures
        w@ == (WorkspaceView {
            id: row.id@,
            name: row.name@,
            project: match inspected {
                Some(p) => p@,
                None => stored_project(*row),
            },
            session_ids: Seq::empty(),
            tab_ids: Seq::empty(),
            created_at: row.created_at,
            last_active_at: row.last_active_at,
            default_session_strategy: strategy_from_name(row.default_session_strategy@),
        }),
{
    let project = match inspected {
        Some(p) => p,
        None => project_from_row(row),
    };
    let w = WorkspaceContext {
        id: row.id.clone(),
        name: row.name.clone(),
        project,
        session_ids: Vec::new(),
        tab_ids: Vec::new(),
        created_at: row.created_at,
        last_active_at: row.last_active_at,
        default_session_strategy: session_strategy_from_db(row.default_session_strategy.as_str()),
    };
    assert(w@.session_ids =~= Seq::<String>::empty());
    assert(w@.tab_ids =~= Seq::<String>::empty());
    w
}

/// A stored line of the activity log.
pub fn activity_entry_from_row(row: ActivityLogRow) -> (e: ActivityLogEntry)
    ensures
        e.id == row.id,
        e.workspace_id == Some(row.workspace_id),
        e.timestamp == row.timestamp,
        e.scope == row.scope,
        e.status == row.status,
        e.command == row.command,
        e.cwd == row.cwd,
        e.detail == row.detail,
{
    ActivityLogEntry {
        id: row.id,
        workspace_id: Some(row.workspace_id),
        timestamp: row.timestamp,
        scope: row.scope,
        status: row.status,
        command: row.command,
        cwd: row.cwd,
        detail: row.detail,
    }
}

/// The text the IDE terminal's changed files are stored as: their JSON list.
pub fn modified_paths_text(paths: &Vec<String>) -> (t: String)
    ensures
        t@ == json_of_strings(views_of_strings(paths@)),
{
    encode_strings(paths)
}

/// `s` is the IDE terminal state a stored row describes: every field as
/// stored, the changed files read from their JSON text (none when that
/// text does not read).
pub open spec fn ide_state_of_row(row: IdeTerminalRow, s: IdeTerminalState) -> bool {
    &&& s.status == ide_status_from_name(row.status@)
    &&& s.cwd == row.cwd
    &&& s.workspace_path == row.workspace_path
    &&& s.shell == row.shell
    &&& s.pid == (match row.process_id {
        Some(v) => Some(v as u32),
        None => None,
    })
    &&& s.created_at == Some(row.created_at)
    &&& s.exit_code == (match row.exit_code {
        Some(v) => Some(v as i32),
        None => None,
    })
    &&& s.error == row.error_message
    &&& views_of_strings(s.modified_paths@) == (match strings_from_json(row.modified_paths@) {
        Some(paths) => paths,
        None => Seq::empty(),
    })
}

/// The state of the IDE terminal a stored row describes; its list of
/// changed files is read from JSON, and is empty when that fails. A list
/// stored by `modified_paths_text` reads back as it was.
pub fn ide_state_from_row(row: &IdeTerminalRow) -> (s: IdeTerminalState)
    ensures
        ide_state_of_row(*row, s),
        forall|paths: Seq<Seq<char>>| #[trigger] json_of_strings(paths) == row.modified_paths@ ==> views_of_strings(
            s.modified_paths@,
        ) == paths,
{
    let modified_paths = match decode_strings(row.modified_paths.as_str()) {
        Some(v) => v,
        None => Vec::new(),
    };
    proof {
        assert(views_of_strings(Seq::<String>::empty()) =~= Seq::<Seq<char>>::empty());
    }
    IdeTerminalState {
        status: ide_status_from_db(row.status.as_str()),
        cwd: clone_opt(&row.cwd),
        workspace_path: clone_opt(&row.workspace_path),
        shell: row.shell.clone(),
        pid: match row.process_id {
            Some(v) => Some(v as u32),
            None => None,
        },
        created_at: Some(row.created_at),
        exit_code: match row.exit_code {
            Some(v) => Some(v as i32),
            None => None,
        },
        error: clone_opt(&row.error_message),
        modified_paths,
    }
}

fn history_key(row: &CommandHistoryRow) -> (k: SortKey)
    ensures
        k.major == row.timestamp as i128,
        k.minor == row.id as i128,
        k.text@.len() == 0,
{
    SortKey { major: row.timestamp as i128, minor: row.id as i128, text: Vec::new() }
}

/// The sort key of a stored command: its time, then its id.
pub open spec fn history_key_of(row: CommandHistoryRow) -> (int, int) {
    (row.timestamp as int, row.id as int)
}

/// A stored command as a history entry: its id as decimal text.
pub open spec fn history_entry_of(row: CommandHistoryRow, e: SessionCommandEntry) -> bool {
    &&& e.id@ == decimal_int(row.id as int)
    &&& e.command == row.command_text
    &&& e.timestamp == row.timestamp
    &&& e.source == row.source
}

/// `out` lists the commands of `rows` in the order `order` picks, which
/// takes each row once, oldest first (by time, then id), rows with equal
/// keys in their stored order.
pub open spec fn history_in_order(rows: Seq<CommandHistoryRow>, order: Seq<usize>, out: Seq<SessionCommandEntry>) -> bool {
    &&& order.len() == rows.len()
    &&& out.len() == rows.len()
    &&& forall|i: int| 0 <= i < order.len() ==> order[i] < rows.len()
    &&& forall|i: int, j: int| #![trigger order[i], order[j]] 0 <= i < j < order.len() ==> order[i] != order[j]
    &&& forall|i: int, j: int| #![trigger order[i], order[j]] 0 <= i < j < order.len() ==> {
        let a = history_key_of(rows[order[i] as int]);
        let b = history_key_of(rows[order[j] as int]);
        a.0 < b.0 || (a.0 == b.0 && a.1 < b.1) || (a == b && order[i] < order[j])
    }
    &&& forall|i: int| 0 <= i < order.len() ==> history_entry_of(rows[order[i] as int], #[trigger] out[i])
}

/// The command history of a session from its stored commands, oldest
/// first (by time, then id; equal ones keep their order).
pub fn session_history_entries_from_rows(rows: &Vec<CommandHistoryRow>) -> (out: Vec<SessionCommandEntry>)
    ensures
        out@.len() == rows@.len(),
        exists|order: Seq<usize>| #[trigger] history_in_order(rows@, order, out@),
{
    let mut keys: Vec<SortKey> = Vec::new();
    let mut i: usize = 0;
    while i < rows.len()
        invariant
            i <= rows@.len(),
            keys@.len() == i,
            forall|k: int| 0 <= k < i ==> #[trigger] keys@[k].major == rows@[k].timestamp as i128 && keys@[k].minor
                == rows@[k].id as i128 && keys@[k].text@.len() == 0,
        decreases rows@.len() - i,
    {
        keys.push(history_key(&rows[i]));
        i = i + 1;
    }
    let order = stable_order(&keys);
    let mut out: Vec<SessionCommandEntry> = Vec::new();
    let mut k: usize = 0;
    while k < order.len()
        invariant
            is_stable_order(keys@, order@),
            keys@.len() == rows@.len(),
            k <= order@.len(),
            out@.len() == k,
            forall|m: int| 0 <= m < k ==> history_entry_of(rows@[order@[m] as int], #[trigger] out@[m]),
        decreases order@.len() - k,
    {
        let row = &rows[order[k]];
        let id = string_from_chars(i64_decimal(row.id).as_slice());
        out.push(SessionCommandEntry {
            id,
            command: row.command_text.clone(),
            timestamp: row.timestamp,
            source: row.source.clone(),
        });
        k = k + 1;
    }
    proof {
        assert forall|i: int, j: int| #![trigger order@[i], order@[j]] 0 <= i < j < order@.len() implies {
            let a = history_key_of(rows@[order@[i] as int]);
            let b = history_key_of(rows@[order@[j] as int]);
            a.0 < b.0 || (a.0 == b.0 && a.1 < b.1) || (a == b && order@[i] < order@[j])
        } by {
            let x = order@[i] as int;
            let y = order@[j] as int;
            assert(keys@[x].major == rows@[x].timestamp as i128);
            assert(keys@[y].major == rows@[y].timestamp as i128);
            assert(keys@[x].text@ =~= keys@[y].text@);
            crate::order::lemma_chars_lt_irreflexive(keys@[x].text@);
            assert(crate::order::key_le(keys@[x], keys@[y]));
            if crate::order::key_eq(keys@[x], keys@[y]) {
                assert(order@[i] < order@[j]);
            }
        }
        assert(history_in_order(rows@, order@, out@));
    }
    out
}

/// The latest change of each file: its time and kind, from the last row
/// of the latest time.
pub open spec fn latest_changes(rows: Seq<FileChangeRow>) -> Map<Seq<char>, (i64, Seq<char>)>
    decreases rows.len(),
{
    if rows.len() == 0 {
        Map::empty()
    } else {
        let m = latest_changes(rows.drop_last());
        let r = rows.last();
        if !m.contains_key(r.file_path@) || r.timestamp >= m[r.file_path@].0 {
            m.insert(r.file_path@, (r.timestamp, r.change_type@))
        } else {
            m
        }
    }
}

/// The latest time among the rows, or `fallback` when later.
pub open spec fn latest_time(rows: Seq<FileChangeRow>, fallback: i64) -> i64
    decreases rows.len(),
{
    if rows.len() == 0 {
        fallback
    } else {
        let t = latest_time(rows.drop_last(), fallback);
        if rows.last().timestamp > t { rows.last().timestamp } else { t }
    }
}

/// A file's latest change as kept while reading the rows.
pub struct LatestChange {
    pub timestamp: i64,
    pub change_type: String,
}

impl View for LatestChange {
    type V = (i64, Seq<char>);

    open spec fn view(&self) -> (i64, Seq<char>) {
        (self.timestamp, self.change_type@)
    }
}

/// The files a session has changed, from its stored file changes: those
/// whose latest change is not a deletion, in ascending order, and the
/// time of the latest change (or `fallback_timestamp` when later).
pub fn session_diff_snapshot_from_rows(
    session_id: &str,
    workspace_id: &str,
    rows: &Vec<FileChangeRow>,
    fallback_timestamp: i64,
) -> (d: SessionDiffUpdate)
    ensures
        d.session_id@ == session_id@,
        d.workspace_id@ == workspace_id@,
        d.updated_at == latest_time(rows@, fallback_timestamp),
        strictly_ascending(d.modified_paths@),
        forall|t: Seq<char>| has_view(d.modified_paths@, t) <==> (latest_changes(rows@).contains_key(t)
            && latest_changes(rows@)[t].1 != "deleted"@),
{
    let mut latest: Keyed<LatestChange> = Keyed::new();
    let mut updated_at = fallback_timestamp;
    let mut i: usize = 0;
    while i < rows.len()
        invariant
            i <= rows@.len(),
            latest.wf(),
            latest@ == latest_changes(rows@.take(i as int)),
            updated_at == latest_time(rows@.take(i as int), fallback_timestamp),
        decreases rows@.len() - i,
    {
        proof {
            assert(rows@.take(i + 1).drop_last() =~= rows@.take(i as int));
        }
        let row = &rows[i];
        if row.timestamp > updated_at {
            updated_at = row.timestamp;
        }
        let replace = match latest.get(row.file_path.as_str()) {
            None => true,
            Some(e) => row.timestamp >= e.timestamp,
        };
        if replace {
            latest.insert(row.file_path.clone(), LatestChange { timestamp: row.timestamp, change_type: row.change_type.clone() });
        }
        i = i + 1;
    }
    proof {
        assert(rows@.take(rows@.len() as int) =~= rows@);
        crate::keyed::lemma_pairs_map_distinct(latest.entries@);
    }
    let mut kept: Vec<String> = Vec::new();
    let mut j: usize = 0;
    while j < latest.entries.len()
        invariant
            latest.wf(),
            j <= latest.entries@.len(),
            latest@ == latest_changes(rows@),
            forall|t: Seq<char>| has_view(kept@, t) <==> exists|k: int| 0 <= k < j && #[trigger] latest.entries@[k].0@ == t
                && latest.entries@[k].1.change_type@ != "deleted"@,
        decreases latest.entries@.len() - j,
    {
        let ghost before = kept@;
        if !str_eq(latest.entries[j].1.change_type.as_str(), "deleted") {
            kept.push(latest.entries[j].0.clone());
        }
        proof {
            assert forall|t: Seq<char>| has_view(kept@, t) <==> exists|k: int| 0 <= k < j + 1 && #[trigger] latest.entries@[k].0@ == t
                && latest.entries@[k].1.change_type@ != "deleted"@ by {
                if has_view(kept@, t) {
                    let a = choose|a: int| 0 <= a < kept@.len() && #[trigger] kept@[a]@ == t;
                    if a < before.len() {
                        assert(before[a] == kept@[a]);
                        assert(has_view(before, t));
                    }
                }
                if exists|k: int| 0 <= k < j + 1 && #[trigger] latest.entries@[k].0@ == t
                    && latest.entries@[k].1.change_type@ != "deleted"@ {
                    let k = choose|k: int| 0 <= k < j + 1 && #[trigger] latest.entries@[k].0@ == t
                        && latest.entries@[k].1.change_type@ != "deleted"@;
                    if k < j {
                        assert(has_view(before, t));
                        let a = choose|a: int| 0 <= a < before.len() && #[trigger] before[a]@ == t;
                        assert(kept@[a] == before[a]);
                    } else {
                        assert(kept@[kept@.len() - 1]@ == t);
                    }
                }
            }
        }
        j = j + 1;
    }
    let modified_paths = sorted_unique(kept);
    proof {
        crate::keyed::lemma_pairs_map_distinct(latest.entries@);
        assert forall|t: Seq<char>| has_view(modified_paths@, t) <==> (latest_changes(rows@).contains_key(t)
            && latest_changes(rows@)[t].1 != "deleted"@) by {
            if latest@.contains_key(t) && latest@[t].1 != "deleted"@ {
                let k = choose|k: int| 0 <= k < latest.entries@.len() && #[trigger] latest.entries@[k].0@ == t;
                assert(latest@[latest.entries@[k].0@] == latest.entries@[k].1@);
            }
            if has_view(kept@, t) {
                let k = choose|k: int| 0 <= k < latest.entries@.len() && #[trigger] latest.entries@[k].0@ == t
                    && latest.entries@[k].1.change_type@ != "deleted"@;
                assert(latest@.contains_key(latest.entries@[k].0@));
            }
        }
    }
    SessionDiffUpdate {
        session_id: session_id.to_owned(),
        workspace_id: workspace_id.to_owned(),
        modified_paths,
        updated_at,
    }
}


/// The stored preferences read in order over a starting value: a
/// `default_session_strategy` row sets the strategy, a
/// `last_workspace_id` row sets the last workspace (none when blank);
/// other rows change nothing.
pub open spec fn read_preferences(
    rows: Seq<PreferenceRow>,
    start: (SessionWorkspaceStrategy, Option<Seq<char>>),
) -> (SessionWorkspaceStrategy, Option<Seq<char>>)
    decreases rows.len(),
{
    if rows.len() == 0 {
        start
    } else {
        let p = read_preferences(rows.drop_last(), start);
        let r = rows.last();
        if r.key@ == "default_session_strategy"@ {
            (strategy_from_name(r.value@), p.1)
        } else if r.key@ == "last_workspace_id"@ {
            (p.0, if trim(r.value@).len() == 0 { None } else { Some(r.value@) })
        } else {
            p
        }
    }
}

pub open spec fn opt_text(o: Option<String>) -> Option<Seq<char>> {
    match o {
        Some(s) => Some(s@),
        None => None,
    }
}

pub open spec fn opt_str(o: Option<&str>) -> Option<Seq<char>> {
    match o {
        Some(s) => Some(s@),
        None => None,
    }
}

/// The workspace preferences from the stored ones. The strategy starts
/// as the active workspace's (or sandbox copy); the last workspace, when
/// none is stored, is the active one.
pub fn preferences_from_rows(
    rows: &Vec<PreferenceRow>,
    active_workspace_id: Option<&str>,
    active_workspace_strategy: Option<SessionWorkspaceStrategy>,
) -> (p: WorkspacePreferences)
    ensures
        ({
            let start_strategy = match active_workspace_strategy {
                Some(s) => s,
                None => SessionWorkspaceStrategy::SandboxCopy,
            };
            let read = read_preferences(rows@, (start_strategy, None));
            &&& p.default_session_strategy == read.0
            &&& opt_text(p.last_workspace_id) == (if read.1 is Some { read.1 } else { opt_str(active_workspace_id) })
        }),
{
    let mut prefs = WorkspacePreferences::default();
    if let Some(strategy) = active_workspace_strategy {
        prefs.default_session_strategy = strategy;
    }
    let ghost start = (prefs.default_session_strategy, None::<Seq<char>>);
    let mut i: usize = 0;
    while i < rows.len()
        invariant
            i <= rows@.len(),
            (prefs.default_session_strategy, opt_text(prefs.last_workspace_id)) == read_preferences(rows@.take(i as int), start),
        decreases rows@.len() - i,
    {
        proof {
            assert(rows@.take(i + 1).drop_last() =~= rows@.take(i as int));
        }
        let row = &rows[i];
        if str_eq(row.key.as_str(), "default_session_strategy") {
            prefs.default_session_strategy = session_strategy_from_db(row.value.as_str());
        } else if str_eq(row.key.as_str(), "last_workspace_id") {
            let t = trim_str(row.value.as_str());
            prefs.last_workspace_id = if t.len() == 0 { None } else { Some(row.value.clone()) };
        }
        i = i + 1;
    }
    proof {
        assert(rows@.take(rows@.len() as int) =~= rows@);
    }
    if prefs.last_workspace_id.is_none() {
        prefs.last_workspace_id = match active_workspace_id {
            Some(id) => Some(id.to_owned()),
            None => None,
        };
    }
    prefs
}

/// The kind of a file change from the hashes before and after it;
/// nothing when the file existed neither before nor after.
pub fn file_change_type(before_hash: &Option<String>, after_hash: &Option<String>) -> (r: Option<&'static str>)
    ensures
        match (before_hash, after_hash) {
            (None, Some(_)) => r matches Some(t) && t@ == "created"@,
            (Some(_), Some(_)) => r matches Some(t) && t@ == "modified"@,
            (Some(_), None) => r matches Some(t) && t@ == "deleted"@,
            (None, None) => r is None,
        },
{
    match (before_hash, after_hash) {
        (None, Some(_)) => Some("created"),
        (Some(_), Some(_)) => Some("modified"),
        (Some(_), None) => Some("deleted"),
        (None, None) => None,
    }
}

/// How the stored workspaces are brought back: which one the database
/// marks active, the preferences, the workspace that becomes active, and
/// whether the database's mark must be brought in line with it.
#[derive(Debug)]
pub struct HydrationPlan {
    pub database_active_workspace_id: Option<String>,
    pub active_workspace_id: Option<String>,
    pub preferences: WorkspacePreferences,
    pub needs_active_sync: bool,
}

/// The id of the first stored workspace marked active.
pub open spec fn first_active(rows: Seq<WorkspaceRow>) -> Option<Seq<char>>
    decreases rows.len(),
{
    if rows.len() == 0 {
        None
    } else if rows[0].is_active != 0 {
        Some(rows[0].id@)
    } else {
        first_active(rows.skip(1))
    }
}

/// The strategy of the first stored workspace with the id `id`.
pub open spec fn strategy_of(rows: Seq<WorkspaceRow>, id: Seq<char>) -> Option<SessionWorkspaceStrategy>
    decreases rows.len(),
{
    if rows.len() == 0 {
        None
    } else if rows[0].id@ == id {
        Some(strategy_from_name(rows[0].default_session_strategy@))
    } else {
        strategy_of(rows.skip(1), id)
    }
}

/// Some stored workspace has the id `id`.
pub open spec fn stored_id(rows: Seq<WorkspaceRow>, id: Seq<char>) -> bool {
    exists|i: int| 0 <= i < rows.len() && #[trigger] rows[i].id@ == id
}

fn find_first_active(rows: &Vec<WorkspaceRow>) -> (r: Option<usize>)
    ensures
        match r {
            Some(i) => i < rows@.len() && first_active(rows@) == Some(rows@[i as int].id@),
            None => first_active(rows@) is None,
        },
{
    let mut i: usize = 0;
    assert(rows@.skip(0) =~= rows@);
    while i < rows.len()
        invariant
            i <= rows@.len(),
            first_active(rows@) == first_active(rows@.skip(i as int)),
        decreases rows@.len() - i,
    {
        proof {
            assert(rows@.skip(i as int).skip(1) =~= rows@.skip(i + 1));
        }
        if rows[i].is_active != 0 {
            return Some(i);
        }
        i = i + 1;
    }
    None
}

fn find_strategy(rows: &Vec<WorkspaceRow>, id: &str) -> (r: Option<SessionWorkspaceStrategy>)
    ensures
        r == strategy_of(rows@, id@),
{
    let mut i: usize = 0;
    assert(rows@.skip(0) =~= rows@);
    while i < rows.len()
        invariant
            i <= rows@.len(),
            strategy_of(rows@, id@) == strategy_of(rows@.skip(i as int), id@),
        decreases rows@.len() - i,
    {
        proof {
            assert(rows@.skip(i as int).skip(1) =~= rows@.skip(i + 1));
        }
        if str_eq(rows[i].id.as_str(), id) {
            return Some(session_strategy_from_db(rows[i].default_session_strategy.as_str()));
        }
        i = i + 1;
    }
    None
}

fn has_stored_id(rows: &Vec<WorkspaceRow>, id: &str) -> (r: bool)
    ensures
        r == stored_id(rows@, id@),
{
    let mut i: usize = 0;
    while i < rows.len()
        invariant
            i <= rows@.len(),
            forall|k: int| 0 <= k < i ==> (#[trigger] rows@[k]).id@ != id@,
        decreases rows@.len() - i,
    {
        if str_eq(rows[i].id.as_str(), id) {
            return true;
        }
        i = i + 1;
    }
    false
}

/// Decides how the stored workspaces come back. The workspace the
/// database marks active stays active; without one, the last workspace
/// of the preferences does, if it is still stored.
pub fn plan_hydration(workspace_rows: &Vec<WorkspaceRow>, preference_rows: &Vec<PreferenceRow>) -> (plan: HydrationPlan)
    ensures
        ({
            let db_active = first_active(workspace_rows@);
            let strategy = match db_active {
                Some(id) => strategy_of(workspace_rows@, id),
                None => None,
            };
            let start_strategy = match strategy {
                Some(s) => s,
                None => SessionWorkspaceStrategy::SandboxCopy,
            };
            let read = read_preferences(preference_rows@, (start_strategy, None));
            let last = if read.1 is Some { read.1 } else { db_active };
            let active = if db_active is Some {
                db_active
            } else if last is Some && stored_id(workspace_rows@, last->0) {
                last
            } else {
                None
            };
            &&& opt_text(plan.database_active_workspace_id) == db_active
            &&& plan.preferences.default_session_strategy == read.0
            &&& opt_text(plan.preferences.last_workspace_id) == last
            &&& opt_text(plan.active_workspace_id) == active
            &&& plan.needs_active_sync == (db_active != active)
        }),
{
    let db_active: Option<String> = match find_first_active(workspace_rows) {
        Some(i) => Some(workspace_rows[i].id.clone()),
        None => None,
    };
    let strategy = match &db_active {
        Some(id) => find_strategy(workspace_rows, id.as_str()),
        None => None,
    };
    let preferences = match &db_active {
        Some(id) => preferences_from_rows(preference_rows, Some(id.as_str()), strategy),
        None => preferences_from_rows(preference_rows, None, strategy),
    };
    let active: Option<String> = match &db_active {
        Some(id) => Some(id.clone()),
        None => match &preferences.last_workspace_id {
            Some(last) => if has_stored_id(workspace_rows, last.as_str()) {
                Some(last.clone())
            } else {
                None
            },
            None => None,
        },
    };
    let needs_active_sync = match (&db_active, &active) {
        (Some(a), Some(b)) => !str_eq(a.as_str(), b.as_str()),
        (None, None) => false,
        _ => true,
    };
    HydrationPlan { database_active_workspace_id: db_active, active_workspace_id: active, preferences, needs_active_sync }
}

/// The change kept for a file is its latest one: a file is kept exactly
/// when some row changes it; no row of it is later than the kept change,
/// which is that of a row of the file with the kept time, and of the last
/// such row.
pub proof fn law_latest_change_is_latest(rows: Seq<FileChangeRow>, p: Seq<char>)
    ensures
        latest_changes(rows).contains_key(p) <==> exists|i: int| 0 <= i < rows.len() && (#[trigger] rows[i]).file_path@ == p,
        latest_changes(rows).contains_key(p) ==> {
            &&& forall|i: int| 0 <= i < rows.len() && (#[trigger] rows[i]).file_path@ == p ==> rows[i].timestamp
                <= latest_changes(rows)[p].0
            &&& exists|i: int|
                0 <= i < rows.len() && (#[trigger] rows[i]).file_path@ == p && rows[i].timestamp == latest_changes(rows)[p].0
                    && rows[i].change_type@ == latest_changes(rows)[p].1 && forall|j: int|
                    i < j < rows.len() && (#[trigger] rows[j]).file_path@ == p ==> rows[j].timestamp < latest_changes(rows)[p].0
        },
    decreases rows.len(),
{
    if rows.len() > 0 {
        let init = rows.drop_last();
        law_latest_change_is_latest(init, p);
        let m = latest_changes(init);
        let r = rows.last();
        let n = rows.len() - 1;
        assert(rows[n] == r);
        assert forall|i: int| 0 <= i < n implies #[trigger] rows[i] == init[i] by {}
        if exists|i: int| 0 <= i < rows.len() && (#[trigger] rows[i]).file_path@ == p {
            let i = choose|i: int| 0 <= i < rows.len() && (#[trigger] rows[i]).file_path@ == p;
            if i < n {
                assert(init[i].file_path@ == p);
            }
        }
        if m.contains_key(p) {
            let i0 = choose|i: int|
                0 <= i < init.len() && (#[trigger] init[i]).file_path@ == p && init[i].timestamp == m[p].0 && init[i].change_type@
                    == m[p].1 && forall|j: int| i < j < init.len() && (#[trigger] init[j]).file_path@ == p ==> init[j].timestamp < m[p].0;
            assert(rows[i0] == init[i0]);
        }
        if latest_changes(rows).contains_key(p) {
            let l = latest_changes(rows)[p];
            assert forall|i: int| 0 <= i < rows.len() && (#[trigger] rows[i]).file_path@ == p implies rows[i].timestamp <= l.0 by {
                if i < n {
                    assert(init[i].file_path@ == p);
                }
            }
        }
    }
}

/// The time of a session's diff is the latest of its changes, or the
/// fallback when that is later: never earlier than either, and one of them.
pub proof fn law_latest_time_is_latest(rows: Seq<FileChangeRow>, fallback: i64)
    ensures
        latest_time(rows, fallback) >= fallback,
        forall|i: int| 0 <= i < rows.len() ==> (#[trigger] rows[i]).timestamp <= latest_time(rows, fallback),
        latest_time(rows, fallback) == fallback || exists|i: int| 0 <= i < rows.len() && (#[trigger] rows[i]).timestamp == latest_time(
            rows,
            fallback,
        ),
    decreases rows.len(),
{
    if rows.len() > 0 {
        let init = rows.drop_last();
        law_latest_time_is_latest(init, fallback);
        let n = rows.len() - 1;
        assert forall|i: int| 0 <= i < n implies #[trigger] rows[i] == init[i] by {}
        if latest_time(init, fallback) != fallback && latest_time(rows, fallback) == latest_time(init, fallback) {
            let i = choose|i: int| 0 <= i < init.len() && (#[trigger] init[i]).timestamp == latest_time(init, fallback);
            assert(rows[i] == init[i]);
        }
    }
}

} // verus!
