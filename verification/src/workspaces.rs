//! The set of open workspaces, which one is active, the active project and
//! the preferences that go with them.
use vstd::prelude::*;
use crate::model::{
    strategy_from_name, NodeView, ProjectState, ProjectView, SessionWorkspaceStrategy, WorkspaceContext, WorkspacePreferences,
    WorkspaceView,
};
use crate::order::{chars_lt, lemma_chars_lt_irreflexive, stable_order, is_stable_order, SortKey, key_le};
use crate::text::{chars_of, str_eq};
use crate::paths::{normalized_workspace_name, opt_str_view, workspace_name_for};
use crate::rows::{WorkspaceMemberRow, WorkspaceRow};
use crate::persistence::{stored_project, workspace_from_row};
use crate::history::{after, token_text, TokenCounter};
use crate::lifecycle::{live_count, live_in_count, live_processes, session_counts, SessionTally};


verus! {

/// The workspaces, keyed by id.
pub struct WorkspaceRegistry {
    pub workspaces: Vec<WorkspaceContext>,
    pub active_workspace_id: Option<String>,
    pub project: ProjectState,
    pub preferences: WorkspacePreferences,
}

/// No two workspaces share an id.
pub open spec fn unique_ids(ws: Seq<WorkspaceContext>) -> bool {
    forall|i: int, j: int| 0 <= i < ws.len() && 0 <= j < ws.len() && i != j ==> ws[i].id@ != ws[j].id@
}

pub open spec fn has_id(ws: Seq<WorkspaceContext>, id: Seq<char>) -> bool {
    exists|i: int| 0 <= i < ws.len() && #[trigger] ws[i].id@ == id
}

/// The workspaces as a map from id to value.
pub open spec fn workspace_map(ws: Seq<WorkspaceContext>) -> Map<Seq<char>, WorkspaceView> {
    Map::new(
        |k: Seq<char>| has_id(ws, k),
        |k: Seq<char>| ws[choose|i: int| 0 <= i < ws.len() && #[trigger] ws[i].id@ == k]@,
    )
}

pub proof fn lemma_map_at(ws: Seq<WorkspaceContext>, i: int)
    requires
        unique_ids(ws),
        0 <= i < ws.len(),
    ensures
        workspace_map(ws).contains_key(ws[i].id@),
        workspace_map(ws)[ws[i].id@] == ws[i]@,
{
    let k = ws[i].id@;
    assert(has_id(ws, k));
    let j = choose|j: int| 0 <= j < ws.len() && #[trigger] ws[j].id@ == k;
    assert(j == i);
}

pub open spec fn opt_view(o: Option<String>) -> Option<Seq<char>> {
    match o {
        Some(s) => Some(s@),
        None => None,
    }
}

/// The mathematical value of the registry.
pub struct RegistryView {
    pub workspaces: Map<Seq<char>, WorkspaceView>,
    pub active: Option<Seq<char>>,
    pub project: ProjectView,
    pub default_strategy: SessionWorkspaceStrategy,
    pub last_workspace_id: Option<Seq<char>>,
}

impl View for WorkspaceRegistry {
    type V = RegistryView;

    open spec fn view(&self) -> RegistryView {
        RegistryView {
            workspaces: workspace_map(self.workspaces@),
            active: opt_view(self.active_workspace_id),
            project: self.project@,
            default_strategy: self.preferences.default_session_strategy,
            last_workspace_id: opt_view(self.preferences.last_workspace_id),
        }
    }
}

/// `a` is listed before `b`: more recently active first, then by name.
pub open spec fn listed_before(a: WorkspaceView, b: WorkspaceView) -> bool {
    a.last_active_at > b.last_active_at || (a.last_active_at == b.last_active_at && chars_lt(
        a.name,
        b.name,
    ))
}

/// The project a workspace gets from the active project: its value, its
/// name when it has one, and the time.
pub open spec fn synced(w: WorkspaceView, p: ProjectView, now: i64) -> WorkspaceView {
    WorkspaceView {
        project: p,
        name: if p.name is Some { p.name->0@ } else { w.name },
        last_active_at: now,
        ..w
    }
}

/// The registry after the active project is copied into the active
/// workspace.
pub open spec fn synced_map(r: RegistryView, now: i64) -> Map<Seq<char>, WorkspaceView> {
    match r.active {
        Some(id) => if r.workspaces.contains_key(id) {
            r.workspaces.insert(id, synced(r.workspaces[id], r.project, now))
        } else {
            r.workspaces
        },
        None => r.workspaces,
    }
}

/// A workspace with `now` as its time of activity.
pub open spec fn touched(w: WorkspaceView, now: i64) -> WorkspaceView {
    WorkspaceView { last_active_at: now, ..w }
}

/// The registry after the workspace `id` is made active at `now`: it is
/// touched, its project becomes the active project, it becomes the last
/// workspace used and gives the default strategy; then the active project
/// is synchronised back into it.
pub open spec fn activated(r: RegistryView, id: Seq<char>, now: i64) -> RegistryView {
    let w = touched(r.workspaces[id], now);
    let mid = RegistryView {
        workspaces: r.workspaces.insert(id, w),
        active: Some(id),
        project: w.project,
        default_strategy: w.default_session_strategy,
        last_workspace_id: Some(id),
    };
    RegistryView { workspaces: synced_map(mid, now), ..mid }
}

fn key_of(w: &WorkspaceContext) -> (k: SortKey)
    ensures
        k.major == -(w.last_active_at as i128),
        k.minor == 0,
        k.text@ == w.name@,
{
    SortKey { major: 0 - (w.last_active_at as i128), minor: 0, text: chars_of(w.name.as_str()) }
}

impl WorkspaceRegistry {
    /// A registry with no workspace, no project and default preferences.
    pub fn new() -> (r: WorkspaceRegistry)
        ensures
            r.wf(),
            r@.workspaces == Map::<Seq<char>, WorkspaceView>::empty(),
            r@.active is None,
            r@.default_strategy == SessionWorkspaceStrategy::SandboxCopy,
            r@.last_workspace_id is None,
            r.workspaces@.len() == 0,
            r.active_workspace_id is None,
            r.project.path is None,
            r.project.name is None,
            r.project.branch is None,
            !r.project.is_git_repo,
            r.project.tree@.len() == 0,
            r.preferences.default_session_strategy == SessionWorkspaceStrategy::SandboxCopy,
            r.preferences.last_workspace_id is None,
    {
        let r = WorkspaceRegistry {
            workspaces: Vec::new(),
            active_workspace_id: None,
            project: ProjectState::empty(),
            preferences: WorkspacePreferences::default(),
        };
        assert(workspace_map(r.workspaces@) =~= Map::empty());
        r
    }

    pub open spec fn wf(&self) -> bool {
        unique_ids(self.workspaces@)
    }

    fn find(&self, id: &str) -> (r: Option<usize>)
        requires
            self.wf(),
        ensures
            match r {
                Some(i) => i < self.workspaces@.len() && self.workspaces@[i as int].id@ == id@,
                None => !has_id(self.workspaces@, id@),
            },
    {
        let mut i: usize = 0;
        while i < self.workspaces.len()
            invariant
                i <= self.workspaces@.len(),
                forall|k: int| 0 <= k < i ==> self.workspaces@[k].id@ != id@,
            decreases self.workspaces@.len() - i,
        {
            if str_eq(self.workspaces[i].id.as_str(), id) {
                return Some(i);
            }
            i = i + 1;
        }
        None
    }

    /// The workspaces, most recently active first, then by name: every
    /// stored workspace once, as stored.
    pub fn sorted_workspaces(&self) -> (out: Vec<WorkspaceContext>)
        requires
            self.wf(),
        ensures
            out@.len() == self.workspaces@.len(),
            forall|i: int, j: int|
                0 <= i < j < out@.len() ==> !listed_before(out@[j]@, out@[i]@),
            forall|i: int| 0 <= i < out@.len() ==> #[trigger] self@.workspaces.contains_key(out@[i].id@)
                && self@.workspaces[out@[i].id@] == out@[i]@,
            forall|i: int, j: int| 0 <= i < j < out@.len() ==> out@[i].id@ != out@[j].id@,
            forall|id: Seq<char>| #[trigger] self@.workspaces.contains_key(id) ==> exists|i: int|
                0 <= i < out@.len() && out@[i].id@ == id,
    {
        let mut keys: Vec<SortKey> = Vec::new();
        let mut i: usize = 0;
        while i < self.workspaces.len()
            invariant
                i <= self.workspaces@.len(),
                keys@.len() == i,
                forall|k: int| 0 <= k < i ==> #[trigger] keys@[k].major == -(self.workspaces@[k].last_active_at as i128)
                    && keys@[k].minor == 0 && keys@[k].text@ == self.workspaces@[k].name@,
            decreases self.workspaces@.len() - i,
        {
            keys.push(key_of(&self.workspaces[i]));
            i = i + 1;
        }
        let order = stable_order(&keys);
        let mut out: Vec<WorkspaceContext> = Vec::new();
        let mut k: usize = 0;
        while k < order.len()
            invariant
                self.wf(),
                is_stable_order(keys@, order@),
                keys@.len() == self.workspaces@.len(),
                k <= order@.len(),
                out@.len() == k,
                forall|m: int| 0 <= m < k ==> #[trigger] out@[m]@ == self.workspaces@[order@[m] as int]@,
            decreases order@.len() - k,
        {
            let w = self.workspaces[order[k]].clone();
            out.push(w);
            k = k + 1;
        }
        proof {
            assert forall|i: int, j: int| 0 <= i < j < out@.len() implies !listed_before(
                out@[j]@,
                out@[i]@,
            ) by {
                let a = order@[i] as int;
                let b = order@[j] as int;
                assert(out@[i]@ == self.workspaces@[a]@);
                assert(out@[j]@ == self.workspaces@[b]@);
                assert(key_le(keys@[a], keys@[b]));
                assert(keys@[a].major == -(self.workspaces@[a].last_active_at as i128));
                assert(keys@[b].major == -(self.workspaces@[b].last_active_at as i128));
            }
            assert forall|i: int| 0 <= i < out@.len() implies #[trigger] self@.workspaces.contains_key(
                out@[i].id@,
            ) && self@.workspaces[out@[i].id@] == out@[i]@ by {
                assert(out@[i]@ == self.workspaces@[order@[i] as int]@);
                lemma_map_at(self.workspaces@, order@[i] as int);
            }
            assert forall|i: int, j: int| 0 <= i < j < out@.len() implies out@[i].id@ != out@[j].id@ by {
                assert(out@[i]@ == self.workspaces@[order@[i] as int]@);
                assert(out@[j]@ == self.workspaces@[order@[j] as int]@);
            }
            assert forall|id: Seq<char>| #[trigger] self@.workspaces.contains_key(id) implies exists|i: int|
                0 <= i < out@.len() && out@[i].id@ == id by {
                let m = choose|m: int| 0 <= m < self.workspaces@.len() && #[trigger] self.workspaces@[m].id@ == id;
                crate::order::lemma_stable_order_covers(keys@, order@, m);
                let p = choose|p: int| 0 <= p < order@.len() && order@[p] == m;
                assert(out@[p]@ == self.workspaces@[m]@);
            }
        }
        out
    }

    /// The first workspace in listing order other than `excluding`.
    pub fn next_workspace_id(&self, excluding: &str) -> (r: Option<String>)
        requires
            self.wf(),
        ensures
            match r {
                Some(id) => id@ != excluding@ && self@.workspaces.contains_key(id@) && forall|k: Seq<char>|
                    #[trigger] self@.workspaces.contains_key(k) && k != excluding@ ==> !listed_before(
                        self@.workspaces[k],
                        self@.workspaces[id@],
                    ),
                None => forall|k: Seq<char>| #[trigger] self@.workspaces.contains_key(k) ==> k == excluding@,
            },
    {
        let sorted = self.sorted_workspaces();
        let mut i: usize = 0;
        while i < sorted.len()
            invariant
                self.wf(),
                i <= sorted@.len(),
                sorted@.len() == self.workspaces@.len(),
                forall|a: int, b: int|
                    0 <= a < b < sorted@.len() ==> !listed_before(sorted@[b]@, sorted@[a]@),
                forall|a: int| 0 <= a < sorted@.len() ==> #[trigger] self@.workspaces.contains_key(sorted@[a].id@)
                    && self@.workspaces[sorted@[a].id@] == sorted@[a]@,
                forall|a: int, b: int| 0 <= a < b < sorted@.len() ==> sorted@[a].id@ != sorted@[b].id@,
                forall|m: int| 0 <= m < i ==> #[trigger] sorted@[m].id@ == excluding@,
            decreases sorted@.len() - i,
        {
            if !str_eq(sorted[i].id.as_str(), excluding) {
                let id = sorted[i].id.clone();
                proof {
                    assert(self@.workspaces.contains_key(sorted@[i as int].id@));
                    assert forall|k: Seq<char>| #[trigger] self@.workspaces.contains_key(k) && k
                        != excluding@ implies !listed_before(
                        self@.workspaces[k],
                        self@.workspaces[id@],
                    ) by {
                        self.lemma_in_sorted(sorted@, k);
                        let m = choose|m: int| 0 <= m < sorted@.len() && #[trigger] sorted@[m].id@ == k;
                        assert(self@.workspaces[sorted@[m].id@] == sorted@[m]@);
                        assert(self@.workspaces[sorted@[i as int].id@] == sorted@[i as int]@);
                        if m < i {
                            assert(sorted@[m].id@ == excluding@);
                        } else if m == i {
                            lemma_chars_lt_irreflexive(sorted@[m]@.name);
                        } else {
                            assert(!listed_before(sorted@[m]@, sorted@[i as int]@));
                        }
                    }
                }
                return Some(id);
            }
            i = i + 1;
        }
        proof {
            assert forall|k: Seq<char>| #[trigger] self@.workspaces.contains_key(k) implies k
                == excluding@ by {
                self.lemma_in_sorted(sorted@, k);
            }
        }
        None
    }

    proof fn lemma_in_sorted(&self, sorted: Seq<WorkspaceContext>, k: Seq<char>)
        requires
            self.wf(),
            self@.workspaces.contains_key(k),
            sorted.len() == self.workspaces@.len(),
            forall|i: int| 0 <= i < sorted.len() ==> #[trigger] self@.workspaces.contains_key(sorted[i].id@)
                && self@.workspaces[sorted[i].id@] == sorted[i]@,
            forall|i: int, j: int| 0 <= i < j < sorted.len() ==> sorted[i].id@ != sorted[j].id@,
        ensures
            exists|m: int| 0 <= m < sorted.len() && #[trigger] sorted[m].id@ == k,
    {
        // The ids listed are distinct keys of the map, as many as it has.
        let listed = Set::new(|x: Seq<char>| exists|m: int| 0 <= m < sorted.len() && #[trigger] sorted[m].id@ == x);
        let keys = self@.workspaces.dom();
        assert(listed.subset_of(keys));
        lemma_dom_size(self.workspaces@);
        lemma_listed_size(sorted);
        if !listed.contains(k) {
            vstd::set_lib::lemma_len_subset(listed, keys.remove(k));
        }
    }

    /// A copy of the active workspace, if there is one.
    pub fn active_workspace(&self) -> (r: Option<WorkspaceContext>)
        requires
            self.wf(),
        ensures
            match r {
                Some(w) => self@.active == Some(w.id@) && self@.workspaces.contains_key(w.id@)
                    && self@.workspaces[w.id@] == w@,
                None => self@.active is None || !self@.workspaces.contains_key(self@.active->0),
            },
    {
        match &self.active_workspace_id {
            Some(id) => match self.find(id.as_str()) {
                Some(i) => {
                    proof {
                        lemma_map_at(self.workspaces@, i as int);
                    }
                    Some(self.workspaces[i].clone())
                },
                None => None,
            },
            None => None,
        }
    }

    fn set_workspace(&mut self, i: usize, w: WorkspaceContext)
        requires
            old(self).wf(),
            i < old(self).workspaces@.len(),
            w.id@ == old(self).workspaces@[i as int].id@,
        ensures
            final(self).wf(),
            final(self)@ == (RegistryView {
                workspaces: old(self)@.workspaces.insert(w.id@, w@),
                ..old(self)@
            }),
    {
        let ghost old_ws = self.workspaces@;
        self.workspaces.set(i, w);
        proof {
            let new_ws = self.workspaces@;
            assert(new_ws == old_ws.update(i as int, w));
            assert forall|a: int, b: int| 0 <= a < new_ws.len() && 0 <= b < new_ws.len() && a != b
                implies new_ws[a].id@ != new_ws[b].id@ by {}
            let m = workspace_map(new_ws);
            let om = workspace_map(old_ws).insert(w.id@, w@);
            assert forall|k: Seq<char>| m.contains_key(k) <==> om.contains_key(k) by {
                if m.contains_key(k) {
                    let j = choose|j: int| 0 <= j < new_ws.len() && #[trigger] new_ws[j].id@ == k;
                    if j != i {
                        assert(old_ws[j].id@ == k);
                    }
                }
                if workspace_map(old_ws).contains_key(k) {
                    let j = choose|j: int| 0 <= j < old_ws.len() && #[trigger] old_ws[j].id@ == k;
                    assert(new_ws[j].id@ == k);
                }
                if k == w.id@ {
                    assert(new_ws[i as int].id@ == k);
                }
            }
            assert forall|k: Seq<char>| m.contains_key(k) implies m[k] == om[k] by {
                let j = choose|j: int| 0 <= j < new_ws.len() && #[trigger] new_ws[j].id@ == k;
                lemma_map_at(new_ws, j);
                if j != i {
                    lemma_map_at(old_ws, j);
                }
            }
            assert(m =~= om);
        }
    }

    /// Copies the active project into the active workspace: its value,
    /// its name when it has one, and `now` as the time of activity.
    pub fn sync_active_project_to_workspace(&mut self, now: i64)
        requires
            old(self).wf(),
        ensures
            final(self).wf(),
            final(self)@ == (RegistryView { workspaces: synced_map(old(self)@, now), ..old(self)@ }),
    {
        let id = match &self.active_workspace_id {
            Some(id) => id.clone(),
            None => return,
        };
        let i = match self.find(id.as_str()) {
            Some(i) => i,
            None => return,
        };
        proof {
            lemma_map_at(self.workspaces@, i as int);
        }
        let mut w = self.workspaces[i].clone();
        w.project = self.project.clone();
        if let Some(name) = &self.project.name {
            w.name = name.clone();
        }
        w.last_active_at = now;
        self.set_workspace(i, w);
    }

    /// The project folder a switch to a workspace opens: refused with
    /// "Workspace not found." when the workspace is unknown or has no
    /// project folder, and the registry is left as it is either way.
    pub fn switch_target(&self, workspace_id: &str) -> (r: Result<String, String>)
        requires
            self.wf(),
        ensures
            ({
                let known = self@.workspaces.contains_key(workspace_id@);
                &&& (known && self@.workspaces[workspace_id@].project.path is Some) ==> (r matches Ok(p) && p
                    == self@.workspaces[workspace_id@].project.path->0)
                &&& !(known && self@.workspaces[workspace_id@].project.path is Some) ==> (r matches Err(e) && e@
                    == "Workspace not found."@)
            }),
    {
        let i = match self.find(workspace_id) {
            Some(i) => i,
            None => return Err("Workspace not found.".to_owned()),
        };
        proof {
            lemma_map_at(self.workspaces@, i as int);
        }
        match &self.workspaces[i].project.path {
            Some(p) => Ok(p.clone()),
            None => Err("Workspace not found.".to_owned()),
        }
    }

    /// Makes a workspace the active one: it becomes the active project,
    /// the last workspace used and the source of the default strategy,
    /// and is then synchronised with the project. Returns the workspace as
    /// it was made active (before that synchronisation).
    pub fn set_active_workspace(&mut self, workspace_id: &str, now: i64) -> (r: Result<WorkspaceContext, String>)
        requires
            old(self).wf(),
        ensures
            final(self).wf(),
            !old(self)@.workspaces.contains_key(workspace_id@) ==> {
                &&& r matches Err(e) && e@ == "Workspace not found."@
                &&& final(self)@ == old(self)@
            },
            old(self)@.workspaces.contains_key(workspace_id@) ==> {
                &&& r matches Ok(x) && x@ == touched(old(self)@.workspaces[workspace_id@], now)
                &&& final(self)@ == activated(old(self)@, workspace_id@, now)
            },
    {
        let i = match self.find(workspace_id) {
            Some(i) => i,
            None => return Err("Workspace not found.".to_owned()),
        };
        proof {
            lemma_map_at(self.workspaces@, i as int);
        }
        let mut w = self.workspaces[i].clone();
        w.last_active_at = now;
        let copy = w.clone();
        self.project = w.project.clone();
        self.preferences.default_session_strategy = w.default_session_strategy;
        self.set_workspace(i, w);
        self.active_workspace_id = Some(workspace_id.to_owned());
        self.preferences.last_workspace_id = Some(workspace_id.to_owned());
        self.sync_active_project_to_workspace(now);
        Ok(copy)
    }
}

impl WorkspaceRegistry {
    fn find_by_path(&self, path: &str) -> (r: Option<usize>)
        requires
            self.wf(),
        ensures
            match r {
                Some(i) => i < self.workspaces@.len() && opt_view(
                    self.workspaces@[i as int].project.path,
                ) == Some(path@),
                None => !exists|k: Seq<char>|
                    #[trigger] self@.workspaces.contains_key(k) && opt_view(
                        self@.workspaces[k].project.path,
                    ) == Some(path@),
            },
    {
        let mut i: usize = 0;
        while i < self.workspaces.len()
            invariant
                self.wf(),
                i <= self.workspaces@.len(),
                forall|k: int| 0 <= k < i ==> opt_view(#[trigger] self.workspaces@[k].project.path) != Some(path@),
            decreases self.workspaces@.len() - i,
        {
            let hit = match &self.workspaces[i].project.path {
                Some(p) => str_eq(p.as_str(), path),
                None => false,
            };
            if hit {
                return Some(i);
            }
            i = i + 1;
        }
        proof {
            assert forall|k: Seq<char>| #[trigger] self@.workspaces.contains_key(k) implies opt_view(
                self@.workspaces[k].project.path,
            ) != Some(path@) by {
                let j = choose|j: int| 0 <= j < self.workspaces@.len() && #[trigger] self.workspaces@[j].id@ == k;
                lemma_map_at(self.workspaces@, j);
                assert(opt_view(self.workspaces@[j].project.path) != Some(path@));
            }
        }
        None
    }

    /// Adds a workspace under its id, in place of one with the same id.
    fn insert_workspace(&mut self, w: WorkspaceContext)
        requires
            old(self).wf(),
        ensures
            final(self).wf(),
            final(self)@ == (RegistryView {
                workspaces: old(self)@.workspaces.insert(w.id@, w@),
                ..old(self)@
            }),
    {
        match self.find(w.id.as_str()) {
            Some(i) => self.set_workspace(i, w),
            None => {
                let ghost old_ws = self.workspaces@;
                let ghost wv = w@;
                let ghost wid = w.id@;
                self.workspaces.push(w);
                proof {
                    let new_ws = self.workspaces@;
                    assert(new_ws == old_ws.push(w));
                    assert forall|a: int, b: int| 0 <= a < new_ws.len() && 0 <= b < new_ws.len() && a != b
                        implies new_ws[a].id@ != new_ws[b].id@ by {
                        if a == old_ws.len() as int {
                            assert(!has_id(old_ws, wid) ==> old_ws[b].id@ != wid);
                        } else if b == old_ws.len() as int {
                            assert(!has_id(old_ws, wid) ==> old_ws[a].id@ != wid);
                        }
                    }
                    let m = workspace_map(new_ws);
                    let om = workspace_map(old_ws).insert(wid, wv);
                    assert forall|k: Seq<char>| m.contains_key(k) <==> om.contains_key(k) by {
                        if m.contains_key(k) {
                            let j = choose|j: int| 0 <= j < new_ws.len() && #[trigger] new_ws[j].id@ == k;
                            if j < old_ws.len() {
                                assert(old_ws[j].id@ == k);
                            }
                        }
                        if workspace_map(old_ws).contains_key(k) {
                            let j = choose|j: int| 0 <= j < old_ws.len() && #[trigger] old_ws[j].id@ == k;
                            assert(new_ws[j].id@ == k);
                        }
                        if k == wid {
                            assert(new_ws[old_ws.len() as int].id@ == k);
                        }
                    }
                    assert forall|k: Seq<char>| m.contains_key(k) implies m[k] == om[k] by {
                        let j = choose|j: int| 0 <= j < new_ws.len() && #[trigger] new_ws[j].id@ == k;
                        lemma_map_at(new_ws, j);
                        if j < old_ws.len() {
                            lemma_map_at(old_ws, j);
                        }
                    }
                    assert(m =~= om);
                }
            },
        }
    }

    /// Opens a project as a workspace and makes it active. A workspace
    /// already open on the same folder is reused: it gets the new project
    /// and name. Otherwise a new workspace is made, with a fresh id, `now`
    /// as its times and the default strategy of the preferences. Returns
    /// the workspace as it was made active, and whether it is new.
    pub fn create_workspace(
        &mut self,
        project: ProjectState,
        name: Option<&str>,
        now: i64,
        tokens: &mut TokenCounter,
    ) -> (r: (WorkspaceContext, bool))
        requires
            old(self).wf(),
        ensures
            final(self).wf(),
            ({
                let old_r = old(self)@;
                let reuse = exists|k: Seq<char>|
                    #[trigger] old_r.workspaces.contains_key(k) && project.path is Some && opt_view(
                        old_r.workspaces[k].project.path,
                    ) == opt_view(project.path);
                let label = workspace_name_for(opt_str_view(name), project.name, project.path);
                let id = r.0.id@;
                &&& r.1 == !reuse
                &&& reuse ==> {
                    &&& old_r.workspaces.contains_key(id)
                    &&& opt_view(old_r.workspaces[id].project.path) == opt_view(project.path)
                    &&& final(tokens).next == old(tokens).next
                    &&& final(self)@ == activated(
                        RegistryView {
                            workspaces: old_r.workspaces.insert(
                                id,
                                WorkspaceView { project: project@, name: label, ..old_r.workspaces[id] },
                            ),
                            project: project@,
                            ..old_r
                        },
                        id,
                        now,
                    )
                    &&& r.0@ == touched(
                        WorkspaceView { project: project@, name: label, ..old_r.workspaces[id] },
                        now,
                    )
                }
                &&& !reuse ==> {
                    let fresh = WorkspaceView {
                        id: "tab-"@ + token_text(old(tokens).next),
                        name: label,
                        project: project@,
                        session_ids: Seq::empty(),
                        tab_ids: Seq::empty(),
                        created_at: now,
                        last_active_at: now,
                        default_session_strategy: old_r.default_strategy,
                    };
                    &&& id == fresh.id
                    &&& final(tokens).next == after(old(tokens).next)
                    &&& final(self)@ == activated(
                        RegistryView {
                            workspaces: old_r.workspaces.insert(id, fresh),
                            project: project@,
                            ..old_r
                        },
                        id,
                        now,
                    )
                    &&& r.0@ == fresh
                }
            }),
    {
        let label = normalized_workspace_name(name, &project);
        let existing = match &project.path {
            Some(p) => self.find_by_path(p.as_str()),
            None => None,
        };
        let created = existing.is_none();
        let id = match existing {
            Some(i) => {
                proof {
                    lemma_map_at(self.workspaces@, i as int);
                }
                let mut w = self.workspaces[i].clone();
                w.project = project.clone();
                w.name = label;
                let id = w.id.clone();
                self.set_workspace(i, w);
                id
            },
            None => {
                let id = tokens.generate_id();
                let w = WorkspaceContext {
                    id: id.clone(),
                    name: label,
                    project: project.clone(),
                    session_ids: Vec::new(),
                    tab_ids: Vec::new(),
                    created_at: now,
                    last_active_at: now,
                    default_session_strategy: self.preferences.default_session_strategy,
                };
                self.insert_workspace(w);
                id
            },
        };
        self.project = project;
        let ghost before = self@;
        let r = self.set_active_workspace(id.as_str(), now);
        match r {
            Ok(w) => (w, created),
            Err(_) => {
                proof {
                    assert(before.workspaces.contains_key(id@));
                }
                vstd::pervasive::unreached()
            },
        }
    }
}

/// `ids` without the entries equal to `x`, in their order.
pub open spec fn without(ids: Seq<String>, x: Seq<char>) -> Seq<String>
    decreases ids.len(),
{
    if ids.len() == 0 {
        Seq::empty()
    } else {
        let rest = without(ids.drop_last(), x);
        if ids.last()@ == x {
            rest
        } else {
            rest.push(ids.last())
        }
    }
}

/// `ids` with `x` at the end.
pub open spec fn with_id(ids: Seq<String>, x: String) -> Seq<String> {
    ids.push(x)
}

/// `ids` with `x` at the end unless an entry already equals it.
pub open spec fn with_id_once(ids: Seq<String>, x: String) -> Seq<String> {
    if exists|i: int| 0 <= i < ids.len() && #[trigger] ids[i]@ == x@ {
        ids
    } else {
        ids.push(x)
    }
}

/// Removes every entry equal to `x`.
pub fn remove_id(ids: &Vec<String>, x: &str) -> (out: Vec<String>)
    ensures
        out@ == without(ids@, x@),
{
    let mut out: Vec<String> = Vec::new();
    let mut i: usize = 0;
    while i < ids.len()
        invariant
            i <= ids@.len(),
            out@ == without(ids@.take(i as int), x@),
        decreases ids@.len() - i,
    {
        proof {
            assert(ids@.take(i + 1).drop_last() =~= ids@.take(i as int));
        }
        if !str_eq(ids[i].as_str(), x) {
            out.push(ids[i].clone());
        }
        i = i + 1;
    }
    assert(ids@.take(ids@.len() as int) =~= ids@);
    out
}

fn contains_id(ids: &Vec<String>, x: &str) -> (r: bool)
    ensures
        r == exists|i: int| 0 <= i < ids@.len() && #[trigger] ids@[i]@ == x@,
{
    let mut i: usize = 0;
    while i < ids.len()
        invariant
            i <= ids@.len(),
            forall|k: int| 0 <= k < i ==> (#[trigger] ids@[k])@ != x@,
        decreases ids@.len() - i,
    {
        if str_eq(ids[i].as_str(), x) {
            return true;
        }
        i = i + 1;
    }
    false
}

/// The project of no folder.
pub open spec fn no_project() -> ProjectView {
    ProjectView { path: None, name: None, branch: None, is_git_repo: false, tree: Seq::empty() }
}

/// `id` is listed first among the workspaces of `m`.
pub open spec fn first_listed(m: Map<Seq<char>, WorkspaceView>, id: Seq<char>) -> bool {
    &&& m.contains_key(id)
    &&& forall|k: Seq<char>| #[trigger] m.contains_key(k) ==> !listed_before(m[k], m[id])
}

/// The registry with the workspace `id` replaced by `w`, when there is
/// one.
pub open spec fn replaced(r: RegistryView, id: Seq<char>, w: WorkspaceView) -> RegistryView {
    if r.workspaces.contains_key(id) {
        RegistryView { workspaces: r.workspaces.insert(id, w), ..r }
    } else {
        r
    }
}

/// The registry after the active project is synchronised into the active
/// workspace.
pub open spec fn synced_view(r: RegistryView, now: i64) -> RegistryView {
    RegistryView { workspaces: synced_map(r, now), ..r }
}

/// What closing a workspace involves, decided before anything is closed.
pub struct WorkspaceClosePlan {
    pub session_ids: Vec<String>,
    pub tab_ids: Vec<String>,
    pub is_active: bool,
    pub next_active_project_path: Option<String>,
}

impl WorkspaceRegistry {
    fn remove_at(&mut self, i: usize)
        requires
            old(self).wf(),
            i < old(self).workspaces@.len(),
        ensures
            final(self).wf(),
            final(self)@ == (RegistryView {
                workspaces: old(self)@.workspaces.remove(old(self).workspaces@[i as int].id@),
                ..old(self)@
            }),
    {
        let ghost old_ws = self.workspaces@;
        let ghost gone = old_ws[i as int].id@;
        self.workspaces.remove(i);
        proof {
            let new_ws = self.workspaces@;
            assert(new_ws =~= old_ws.remove(i as int));
            assert forall|a: int, b: int| 0 <= a < new_ws.len() && 0 <= b < new_ws.len() && a != b
                implies new_ws[a].id@ != new_ws[b].id@ by {
                let oa = if a < i { a } else { a + 1 };
                let ob = if b < i { b } else { b + 1 };
                assert(new_ws[a] == old_ws[oa]);
                assert(new_ws[b] == old_ws[ob]);
            }
            let m = workspace_map(new_ws);
            let om = workspace_map(old_ws).remove(gone);
            assert forall|k: Seq<char>| m.contains_key(k) <==> om.contains_key(k) by {
                if m.contains_key(k) {
                    let j = choose|j: int| 0 <= j < new_ws.len() && #[trigger] new_ws[j].id@ == k;
                    let oj = if j < i { j } else { j + 1 };
                    assert(old_ws[oj].id@ == k);
                    assert(oj != i);
                }
                if om.contains_key(k) {
                    let j = choose|j: int| 0 <= j < old_ws.len() && #[trigger] old_ws[j].id@ == k;
                    assert(j != i);
                    let nj = if j < i { j } else { j - 1 };
                    assert(new_ws[nj].id@ == k);
                }
            }
            assert forall|k: Seq<char>| m.contains_key(k) implies m[k] == om[k] by {
                let j = choose|j: int| 0 <= j < new_ws.len() && #[trigger] new_ws[j].id@ == k;
                let oj = if j < i { j } else { j + 1 };
                lemma_map_at(new_ws, j);
                lemma_map_at(old_ws, oj);
            }
            assert(m =~= om);
        }
    }

    /// Adds a session to a workspace and touches it; then synchronises the
    /// active project.
    pub fn add_session(&mut self, workspace_id: &str, session_id: String, now: i64)
        requires
            old(self).wf(),
        ensures
            final(self).wf(),
            final(self)@ == synced_view(
                replaced(
                    old(self)@,
                    workspace_id@,
                    WorkspaceView {
                        session_ids: with_id(old(self)@.workspaces[workspace_id@].session_ids, session_id),
                        last_active_at: now,
                        ..old(self)@.workspaces[workspace_id@]
                    },
                ),
                now,
            ),
    {
        if let Some(i) = self.find(workspace_id) {
            proof {
                lemma_map_at(self.workspaces@, i as int);
            }
            let mut w = self.workspaces[i].clone();
            w.session_ids.push(session_id);
            w.last_active_at = now;
            self.set_workspace(i, w);
        }
        self.sync_active_project_to_workspace(now);
    }

    /// Adds a session to a workspace unless it is listed there already,
    /// and touches the workspace; then synchronises the active project.
    pub fn restore_session(&mut self, workspace_id: &str, session_id: String, now: i64)
        requires
            old(self).wf(),
        ensures
            final(self).wf(),
            final(self)@ == synced_view(
                replaced(
                    old(self)@,
                    workspace_id@,
                    WorkspaceView {
                        session_ids: with_id_once(old(self)@.workspaces[workspace_id@].session_ids, session_id),
                        last_active_at: now,
                        ..old(self)@.workspaces[workspace_id@]
                    },
                ),
                now,
            ),
    {
        if let Some(i) = self.find(workspace_id) {
            proof {
                lemma_map_at(self.workspaces@, i as int);
            }
            let mut w = self.workspaces[i].clone();
            if !contains_id(&w.session_ids, session_id.as_str()) {
                w.session_ids.push(session_id);
            }
            w.last_active_at = now;
            self.set_workspace(i, w);
        }
        self.sync_active_project_to_workspace(now);
    }

    /// Takes a session out of a workspace and touches it; then
    /// synchronises the active project.
    pub fn remove_session(&mut self, workspace_id: &str, session_id: &str, now: i64)
        requires
            old(self).wf(),
        ensures
            final(self).wf(),
            final(self)@ == synced_view(
                replaced(
                    old(self)@,
                    workspace_id@,
                    WorkspaceView {
                        session_ids: without(old(self)@.workspaces[workspace_id@].session_ids, session_id@),
                        last_active_at: now,
                        ..old(self)@.workspaces[workspace_id@]
                    },
                ),
                now,
            ),
    {
        if let Some(i) = self.find(workspace_id) {
            proof {
                lemma_map_at(self.workspaces@, i as int);
            }
            let mut w = self.workspaces[i].clone();
            w.session_ids = remove_id(&w.session_ids, session_id);
            w.last_active_at = now;
            self.set_workspace(i, w);
        }
        self.sync_active_project_to_workspace(now);
    }

    /// Adds a terminal tab to a workspace and touches it; then
    /// synchronises the active project.
    pub fn add_tab(&mut self, workspace_id: &str, tab_id: String, now: i64)
        requires
            old(self).wf(),
        ensures
            final(self).wf(),
            final(self)@ == synced_view(
                replaced(
                    old(self)@,
                    workspace_id@,
                    WorkspaceView {
                        tab_ids: with_id(old(self)@.workspaces[workspace_id@].tab_ids, tab_id),
                        last_active_at: now,
                        ..old(self)@.workspaces[workspace_id@]
                    },
                ),
                now,
            ),
    {
        if let Some(i) = self.find(workspace_id) {
            proof {
                lemma_map_at(self.workspaces@, i as int);
            }
            let mut w = self.workspaces[i].clone();
            w.tab_ids.push(tab_id);
            w.last_active_at = now;
            self.set_workspace(i, w);
        }
        self.sync_active_project_to_workspace(now);
    }

    /// Takes a terminal tab out of a workspace and touches it; then
    /// synchronises the active project.
    pub fn remove_tab(&mut self, workspace_id: &str, tab_id: &str, now: i64)
        requires
            old(self).wf(),
        ensures
            final(self).wf(),
            final(self)@ == synced_view(
                replaced(
                    old(self)@,
                    workspace_id@,
                    WorkspaceView {
                        tab_ids: without(old(self)@.workspaces[workspace_id@].tab_ids, tab_id@),
                        last_active_at: now,
                        ..old(self)@.workspaces[workspace_id@]
                    },
                ),
                now,
            ),
    {
        if let Some(i) = self.find(workspace_id) {
            proof {
                lemma_map_at(self.workspaces@, i as int);
            }
            let mut w = self.workspaces[i].clone();
            w.tab_ids = remove_id(&w.tab_ids, tab_id);
            w.last_active_at = now;
            self.set_workspace(i, w);
        }
        self.sync_active_project_to_workspace(now);
    }

    /// Sets the default strategy of the preferences and of the active
    /// workspace, which is touched; then synchronises the active project.
    /// Returns the preferences and the active workspace.
    pub fn set_default_session_strategy(&mut self, strategy: SessionWorkspaceStrategy, now: i64) -> (r: (
        WorkspacePreferences,
        Option<WorkspaceContext>,
    ))
        requires
            old(self).wf(),
        ensures
            final(self).wf(),
            ({
                let set = RegistryView { default_strategy: strategy, ..old(self)@ };
                let next = match old(self)@.active {
                    Some(id) => replaced(
                        set,
                        id,
                        WorkspaceView {
                            default_session_strategy: strategy,
                            last_active_at: now,
                            ..old(self)@.workspaces[id]
                        },
                    ),
                    None => set,
                };
                final(self)@ == synced_view(next, now)
            }),
            r.0.default_session_strategy == strategy,
            opt_view(r.0.last_workspace_id) == final(self)@.last_workspace_id,
            match r.1 {
                Some(w) => final(self)@.active == Some(w.id@) && final(self)@.workspaces.contains_key(w.id@)
                    && final(self)@.workspaces[w.id@] == w@,
                None => final(self)@.active is None || !final(self)@.workspaces.contains_key(
                    final(self)@.active->0,
                ),
            },
    {
        self.preferences.default_session_strategy = strategy;
        let found = match &self.active_workspace_id {
            Some(id) => self.find(id.as_str()),
            None => None,
        };
        if let Some(i) = found {
            proof {
                lemma_map_at(self.workspaces@, i as int);
            }
            let mut w = self.workspaces[i].clone();
            w.default_session_strategy = strategy;
            w.last_active_at = now;
            self.set_workspace(i, w);
        }
        self.sync_active_project_to_workspace(now);
        (self.preferences.clone(), self.active_workspace())
    }

    /// Decides what closing a workspace takes: the sessions and tabs to
    /// close, whether it is the active one, and the folder of the
    /// workspace that would follow it. A workspace that still has sessions
    /// or tabs is closed only with `close_sessions`.
    pub fn close_workspace_plan(&self, workspace_id: &str, close_sessions: bool) -> (r: Result<WorkspaceClosePlan, String>)
        requires
            self.wf(),
        ensures
            !self@.workspaces.contains_key(workspace_id@) ==> (r matches Err(e) && e@ == "Workspace not found."@),
            self@.workspaces.contains_key(workspace_id@) ==> {
                let w = self@.workspaces[workspace_id@];
                let busy = w.session_ids.len() > 0 || w.tab_ids.len() > 0;
                &&& (!close_sessions && busy) ==> (r matches Err(e) && e@ == busy_message())
                &&& (close_sessions || !busy) ==> (r matches Ok(plan) && {
                    &&& plan.session_ids@ == w.session_ids
                    &&& plan.tab_ids@ == w.tab_ids
                    &&& plan.is_active == (self@.active == Some(workspace_id@))
                    &&& !plan.is_active ==> plan.next_active_project_path is None
                    &&& plan.is_active ==> {
                        let rest = self@.workspaces.remove(workspace_id@);
                        ||| rest.dom() == Set::<Seq<char>>::empty() && plan.next_active_project_path is None
                        ||| exists|n: Seq<char>|
                            #[trigger] first_listed(rest, n) && opt_view(plan.next_active_project_path)
                                == opt_view(rest[n].project.path)
                    }
                })
            },
    {
        let i = match self.find(workspace_id) {
            Some(i) => i,
            None => return Err("Workspace not found.".to_owned()),
        };
        proof {
            lemma_map_at(self.workspaces@, i as int);
        }
        let w = &self.workspaces[i];
        if !close_sessions && (w.session_ids.len() > 0 || w.tab_ids.len() > 0) {
            return Err(
                "Workspace still has running sessions or terminals. Close them first or close the workspace with session cleanup enabled.".to_owned(),
            );
        }
        let is_active = match &self.active_workspace_id {
            Some(a) => str_eq(a.as_str(), workspace_id),
            None => false,
        };
        let mut next_path: Option<String> = None;
        if is_active {
            let next = self.next_workspace_id(workspace_id);
            let ghost rest = self@.workspaces.remove(workspace_id@);
            match next {
                Some(n) => {
                    let j = self.find(n.as_str());
                    match j {
                        Some(j) => {
                            proof {
                                lemma_map_at(self.workspaces@, j as int);
                                assert(first_listed(rest, n@));
                            }
                            next_path = self.workspaces[j].project.path.clone();
                        },
                        None => {
                            proof {
                                assert(self@.workspaces.contains_key(n@));
                            }
                        },
                    }
                },
                None => {
                    proof {
                        assert(rest.dom() =~= Set::empty());
                    }
                },
            }
        }
        Ok(WorkspaceClosePlan {
            session_ids: w.session_ids.clone(),
            tab_ids: w.tab_ids.clone(),
            is_active,
            next_active_project_path: next_path,
        })
    }

    /// Removes a workspace once its sessions are dealt with. When it was
    /// the active one, the first remaining workspace in listing order is
    /// made active, or, with none left, the registry is left without an
    /// active workspace or project. Returns the active workspace after.
    pub fn remove_workspace(&mut self, workspace_id: &str, now: i64) -> (r: Result<Option<WorkspaceContext>, String>)
        requires
            old(self).wf(),
        ensures
            final(self).wf(),
            !old(self)@.workspaces.contains_key(workspace_id@) ==> {
                &&& r matches Err(e) && e@ == "Workspace not found."@
                &&& final(self)@ == old(self)@
            },
            old(self)@.workspaces.contains_key(workspace_id@) ==> {
                let rest = RegistryView {
                    workspaces: old(self)@.workspaces.remove(workspace_id@),
                    ..old(self)@
                };
                &&& r is Ok
                &&& old(self)@.active != Some(workspace_id@) ==> final(self)@ == synced_view(rest, now)
                &&& (old(self)@.active == Some(workspace_id@) && rest.workspaces.dom() == Set::<Seq<char>>::empty()) ==> {
                    &&& final(self)@ == (RegistryView {
                        active: None,
                        last_workspace_id: None,
                        project: no_project(),
                        ..rest
                    })
                    &&& r matches Ok(None)
                }
                &&& (old(self)@.active == Some(workspace_id@) && rest.workspaces.dom() != Set::<Seq<char>>::empty())
                    ==> exists|n: Seq<char>|
                    #[trigger] first_listed(rest.workspaces, n) && final(self)@ == activated(rest, n, now)
                        && (r matches Ok(Some(w)) && w@ == touched(rest.workspaces[n], now))
            },
            r matches Ok(Some(w)) ==> final(self)@.active == Some(w.id@),
            r matches Ok(None) ==> final(self)@.active is None || !final(self)@.workspaces.contains_key(
                final(self)@.active->0,
            ),
            r is Ok ==> !final(self)@.workspaces.contains_key(workspace_id@) && final(self)@.active != Some(
                workspace_id@,
            ),
    {
        let i = match self.find(workspace_id) {
            Some(i) => i,
            None => return Err("Workspace not found.".to_owned()),
        };
        let was_active = match &self.active_workspace_id {
            Some(a) => str_eq(a.as_str(), workspace_id),
            None => false,
        };
        self.remove_at(i);
        if was_active {
            let ghost rest = self@;
            match self.next_workspace_id(workspace_id) {
                Some(n) => {
                    let r = self.set_active_workspace(n.as_str(), now);
                    match r {
                        Ok(w) => {
                            proof {
                                assert(first_listed(rest.workspaces, n@));
                                assert(!rest.workspaces.contains_key(workspace_id@));
                                assert(n@ != workspace_id@);
                            }
                            Ok(Some(w))
                        },
                        Err(_) => vstd::pervasive::unreached(),
                    }
                },
                None => {
                    proof {
                        assert(rest.workspaces.dom() =~= Set::empty());
                    }
                    self.active_workspace_id = None;
                    self.preferences.last_workspace_id = None;
                    self.project = ProjectState::empty();
                    proof {
                        assert(self.project@.tree =~= Seq::<NodeView>::empty());
                    }
                    Ok(None)
                },
            }
        } else {
            self.sync_active_project_to_workspace(now);
            Ok(self.active_workspace())
        }
    }
}

/// A stored workspace as it comes back: the active one takes the project
/// read from its folder, when there is one.
pub open spec fn stored_workspace(row: WorkspaceRow, active: Option<Seq<char>>, inspected: Option<ProjectState>) -> WorkspaceView {
    WorkspaceView {
        id: row.id@,
        name: row.name@,
        project: if active == Some(row.id@) && inspected is Some {
            inspected->0@
        } else {
            stored_project(row)
        },
        session_ids: Seq::empty(),
        tab_ids: Seq::empty(),
        created_at: row.created_at,
        last_active_at: row.last_active_at,
        default_session_strategy: strategy_from_name(row.default_session_strategy@),
    }
}

/// The stored workspaces by id, later rows winning.
pub open spec fn stored_map(rows: Seq<WorkspaceRow>, active: Option<Seq<char>>, inspected: Option<ProjectState>) -> Map<
    Seq<char>,
    WorkspaceView,
>
    decreases rows.len(),
{
    if rows.len() == 0 {
        Map::empty()
    } else {
        stored_map(rows.drop_last(), active, inspected).insert(
            rows.last().id@,
            stored_workspace(rows.last(), active, inspected),
        )
    }
}

/// The workspaces with each stored session listed in its workspace.
pub open spec fn with_sessions(m: Map<Seq<char>, WorkspaceView>, members: Seq<WorkspaceMemberRow>) -> Map<
    Seq<char>,
    WorkspaceView,
>
    decreases members.len(),
{
    if members.len() == 0 {
        m
    } else {
        let prev = with_sessions(m, members.drop_last());
        let mem = members.last();
        if prev.contains_key(mem.workspace_id@) {
            let w = prev[mem.workspace_id@];
            prev.insert(mem.workspace_id@, WorkspaceView { session_ids: w.session_ids.push(mem.id), ..w })
        } else {
            prev
        }
    }
}

/// The workspaces with each stored tab listed in its workspace.
pub open spec fn with_tabs(m: Map<Seq<char>, WorkspaceView>, members: Seq<WorkspaceMemberRow>) -> Map<
    Seq<char>,
    WorkspaceView,
>
    decreases members.len(),
{
    if members.len() == 0 {
        m
    } else {
        let prev = with_tabs(m, members.drop_last());
        let mem = members.last();
        if prev.contains_key(mem.workspace_id@) {
            let w = prev[mem.workspace_id@];
            prev.insert(mem.workspace_id@, WorkspaceView { tab_ids: w.tab_ids.push(mem.id), ..w })
        } else {
            prev
        }
    }
}

impl WorkspaceRegistry {
    /// The registry brought back from what is stored: the workspaces
    /// with their sessions and tabs, the chosen active workspace and its
    /// project (or none), and the preferences; then the active project
    /// is synchronised.
    pub fn from_stored(
        rows: &Vec<WorkspaceRow>,
        inspected: Option<ProjectState>,
        sessions: &Vec<WorkspaceMemberRow>,
        tabs: &Vec<WorkspaceMemberRow>,
        active_workspace_id: Option<String>,
        preferences: WorkspacePreferences,
        now: i64,
    ) -> (r: WorkspaceRegistry)
        ensures
            r.wf(),
            ({
                let m = with_tabs(
                    with_sessions(stored_map(rows@, opt_view(active_workspace_id), inspected), sessions@),
                    tabs@,
                );
                let active = opt_view(active_workspace_id);
                r@ == synced_view(
                    RegistryView {
                        workspaces: m,
                        active,
                        project: if active is Some && m.contains_key(active->0) {
                            m[active->0].project
                        } else {
                            no_project()
                        },
                        default_strategy: preferences.default_session_strategy,
                        last_workspace_id: opt_view(preferences.last_workspace_id),
                    },
                    now,
                )
            }),
    {
        let ghost active = opt_view(active_workspace_id);
        let mut reg = WorkspaceRegistry::new();
        let mut i: usize = 0;
        while i < rows.len()
            invariant
                i <= rows@.len(),
                reg.wf(),
                reg@.workspaces == stored_map(rows@.take(i as int), active, inspected),
                active == opt_view(active_workspace_id),
            decreases rows@.len() - i,
        {
            proof {
                assert(rows@.take(i + 1).drop_last() =~= rows@.take(i as int));
            }
            let row = &rows[i];
            let is_active = match &active_workspace_id {
                Some(a) => str_eq(a.as_str(), row.id.as_str()),
                None => false,
            };
            let found = if is_active {
                match &inspected {
                    Some(p) => Some(p.clone()),
                    None => None,
                }
            } else {
                None
            };
            let w = workspace_from_row(row, found);
            reg.insert_workspace(w);
            i = i + 1;
        }
        proof {
            assert(rows@.take(rows@.len() as int) =~= rows@);
        }
        let ghost base = reg@.workspaces;
        let mut k: usize = 0;
        while k < sessions.len()
            invariant
                k <= sessions@.len(),
                reg.wf(),
                reg@.workspaces == with_sessions(base, sessions@.take(k as int)),
            decreases sessions@.len() - k,
        {
            proof {
                assert(sessions@.take(k + 1).drop_last() =~= sessions@.take(k as int));
            }
            let mem = &sessions[k];
            if let Some(j) = reg.find(mem.workspace_id.as_str()) {
                proof {
                    lemma_map_at(reg.workspaces@, j as int);
                }
                let mut w = reg.workspaces[j].clone();
                w.session_ids.push(mem.id.clone());
                reg.set_workspace(j, w);
            }
            k = k + 1;
        }
        proof {
            assert(sessions@.take(sessions@.len() as int) =~= sessions@);
        }
        let ghost with_s = reg@.workspaces;
        let mut t: usize = 0;
        while t < tabs.len()
            invariant
                t <= tabs@.len(),
                reg.wf(),
                reg@.workspaces == with_tabs(with_s, tabs@.take(t as int)),
            decreases tabs@.len() - t,
        {
            proof {
                assert(tabs@.take(t + 1).drop_last() =~= tabs@.take(t as int));
            }
            let mem = &tabs[t];
            if let Some(j) = reg.find(mem.workspace_id.as_str()) {
                proof {
                    lemma_map_at(reg.workspaces@, j as int);
                }
                let mut w = reg.workspaces[j].clone();
                w.tab_ids.push(mem.id.clone());
                reg.set_workspace(j, w);
            }
            t = t + 1;
        }
        proof {
            assert(tabs@.take(tabs@.len() as int) =~= tabs@);
        }
        let project = match &active_workspace_id {
            Some(a) => match reg.find(a.as_str()) {
                Some(j) => {
                    proof {
                        lemma_map_at(reg.workspaces@, j as int);
                    }
                    reg.workspaces[j].project.clone()
                },
                None => ProjectState::empty(),
            },
            None => ProjectState::empty(),
        };
        proof {
            if !(active is Some && reg@.workspaces.contains_key(active->0)) {
                assert(project@.tree =~= Seq::<NodeView>::empty());
            }
        }
        reg.project = project;
        reg.active_workspace_id = active_workspace_id;
        reg.preferences = preferences;
        reg.sync_active_project_to_workspace(now);
        reg
    }
}

/// Making a workspace active makes it the active workspace and the last
/// one used, touches it at `now`, and makes its project the active
/// project and its strategy the default.
pub proof fn law_activated_is_active(r: RegistryView, id: Seq<char>, now: i64)
    requires
        r.workspaces.contains_key(id),
    ensures
        ({
            let a = activated(r, id, now);
            &&& a.active == Some(id)
            &&& a.last_workspace_id == Some(id)
            &&& a.workspaces.contains_key(id)
            &&& a.workspaces[id].last_active_at == now
            &&& a.workspaces[id].project == r.workspaces[id].project
            &&& a.project == r.workspaces[id].project
            &&& a.default_strategy == r.workspaces[id].default_session_strategy
            &&& a.workspaces.dom() == r.workspaces.dom()
        }),
{
    let a = activated(r, id, now);
    assert(a.workspaces.dom() =~= r.workspaces.dom());
}

/// A folder opened as a workspace stays known by its folder: once the
/// workspace holding it is made active, a workspace with that folder is
/// there, so opening the same folder again reuses it.
pub proof fn law_opened_folder_is_found(r: RegistryView, id: Seq<char>, w: WorkspaceView, now: i64)
    requires
        w.project.path is Some,
    ensures
        ({
            let a = activated(RegistryView { workspaces: r.workspaces.insert(id, w), project: w.project, ..r }, id, now);
            &&& a.workspaces.contains_key(id)
            &&& opt_view(a.workspaces[id].project.path) == opt_view(w.project.path)
        }),
{
}

/// The refusal to close a workspace that still has sessions or tabs.
pub open spec fn busy_message() -> Seq<char> {
    "Workspace still has running sessions or terminals. Close them first or close the workspace with session cleanup enabled."@
}

proof fn lemma_dom_size(ws: Seq<WorkspaceContext>)
    ensures
        workspace_map(ws).dom().finite(),
        workspace_map(ws).dom().len() <= ws.len(),
    decreases ws.len(),
{
    let d = workspace_map(ws).dom();
    if ws.len() == 0 {
        assert(d =~= Set::empty());
    } else {
        let rest = ws.drop_last();
        lemma_dom_size(rest);
        let rd = workspace_map(rest).dom();
        assert(d =~= rd.insert(ws.last().id@)) by {
            assert forall|k: Seq<char>| d.contains(k) <==> rd.insert(ws.last().id@).contains(k) by {
                if d.contains(k) {
                    let j = choose|j: int| 0 <= j < ws.len() && #[trigger] ws[j].id@ == k;
                    if j < ws.len() - 1 {
                        assert(rest[j].id@ == k);
                    }
                }
                if rd.contains(k) {
                    let j = choose|j: int| 0 <= j < rest.len() && #[trigger] rest[j].id@ == k;
                    assert(ws[j].id@ == k);
                }
                if k == ws.last().id@ {
                    assert(ws[ws.len() - 1].id@ == k);
                }
            }
        }
    }
}

proof fn lemma_listed_size(sorted: Seq<WorkspaceContext>)
    requires
        forall|i: int, j: int| 0 <= i < j < sorted.len() ==> sorted[i].id@ != sorted[j].id@,
    ensures
        ({
            let listed = Set::new(|x: Seq<char>| exists|m: int| 0 <= m < sorted.len() && #[trigger] sorted[m].id@ == x);
            listed.finite() && listed.len() == sorted.len()
        }),
    decreases sorted.len(),
{
    let listed = Set::new(|x: Seq<char>| exists|m: int| 0 <= m < sorted.len() && #[trigger] sorted[m].id@ == x);
    if sorted.len() == 0 {
        assert(listed =~= Set::empty());
    } else {
        let rest = sorted.drop_last();
        lemma_listed_size(rest);
        let rl = Set::new(|x: Seq<char>| exists|m: int| 0 <= m < rest.len() && #[trigger] rest[m].id@ == x);
        let last = sorted.last().id@;
        assert(!rl.contains(last)) by {
            if rl.contains(last) {
                let m = choose|m: int| 0 <= m < rest.len() && #[trigger] rest[m].id@ == last;
                assert(sorted[m].id@ == sorted[sorted.len() - 1].id@);
            }
        }
        assert(listed =~= rl.insert(last)) by {
            assert forall|x: Seq<char>| listed.contains(x) <==> rl.insert(last).contains(x) by {
                if listed.contains(x) {
                    let m = choose|m: int| 0 <= m < sorted.len() && #[trigger] sorted[m].id@ == x;
                    if m < sorted.len() - 1 {
                        assert(rest[m].id@ == x);
                    }
                }
                if rl.contains(x) {
                    let m = choose|m: int| 0 <= m < rest.len() && #[trigger] rest[m].id@ == x;
                    assert(sorted[m].id@ == x);
                }
                if x == last {
                    assert(sorted[sorted.len() - 1].id@ == x);
                }
            }
        }
    }
}

/// The whole numbers of the workspace summary.
pub struct SummaryCounts {
    pub active_sessions: usize,
    pub active_workspace_sessions: usize,
    pub total_processes: u64,
    pub total_sessions: usize,
    pub total_tabs: usize,
    pub workspace_count: usize,
    pub active_workspace_tab_count: usize,
}

impl WorkspaceRegistry {
    /// The whole numbers of the workspace summary, given what is counted of
    /// every session and the number of tabs: the live sessions, those of
    /// the active workspace, their processes, all sessions, all tabs, the
    /// workspaces and the tabs of the active workspace (none without one).
    pub fn summary_counts(&self, tallies: &Vec<SessionTally>, total_tabs: usize) -> (c: SummaryCounts)
        requires
            self.wf(),
            tallies@.len() <= u32::MAX,
        ensures
            c.active_sessions == live_count(tallies@),
            c.active_workspace_sessions == live_in_count(tallies@, self@.active),
            c.total_processes == live_processes(tallies@),
            c.total_sessions == tallies@.len(),
            c.total_tabs == total_tabs,
            c.workspace_count == self.workspaces@.len(),
            c.active_workspace_tab_count == (if self@.active is Some && self@.workspaces.contains_key(self@.active->0) {
                self@.workspaces[self@.active->0].tab_ids.len()
            } else {
                0
            }),
    {
        let active: Option<&str> = match &self.active_workspace_id {
            Some(id) => Some(id.as_str()),
            None => None,
        };
        let counts = session_counts(tallies, active);
        let tabs = match self.active_workspace() {
            Some(w) => w.tab_ids.len(),
            None => 0,
        };
        SummaryCounts {
            active_sessions: counts.active_sessions,
            active_workspace_sessions: counts.active_workspace_sessions,
            total_processes: counts.total_processes,
            total_sessions: tallies.len(),
            total_tabs,
            workspace_count: self.workspaces.len(),
            active_workspace_tab_count: tabs,
        }
    }
}

} // verus!
