//! Sandbox copies of a project: which files changed in them, and how
//! those changes are brought back into the project.
use vstd::prelude::*;
use crate::changes::{change_of, diff_scans, lookup};
use crate::keyed::Keyed;
use crate::model::{SessionApplyResult, SessionSyncConflict, SessionWorkspaceStrategy};
use crate::order::{has_view, sorted_unique, strictly_ascending};
use crate::text::str_eq;

verus! {

/// The files whose hash differs between the baseline and the current
/// scan (present in one only, or with another hash), in ascending order.
pub fn collect_modified_paths(baseline: &Keyed<String>, current: &Keyed<String>) -> (paths: Vec<String>)
    requires
        baseline.wf(),
        current.wf(),
    ensures
        strictly_ascending(paths@),
        forall|t: Seq<char>| has_view(paths@, t) <==> change_of(lookup(baseline@, t), lookup(current@, t)) is Some,
{
    let no_texts: Keyed<String> = Keyed::new();
    let changes = diff_scans(baseline, current, &no_texts);
    let mut names: Vec<String> = Vec::new();
    let mut i: usize = 0;
    while i < changes.len()
        invariant
            i <= changes@.len(),
            names@.len() == i,
            forall|k: int| 0 <= k < i ==> (#[trigger] names@[k])@ == changes@[k].path@,
        decreases changes@.len() - i,
    {
        names.push(changes[i].path.clone());
        i = i + 1;
    }
    proof {
        assert forall|t: Seq<char>| has_view(names@, t) <==> change_of(lookup(baseline@, t), lookup(current@, t)) is Some by {
            if has_view(names@, t) {
                let k = choose|k: int| 0 <= k < names@.len() && #[trigger] names@[k]@ == t;
                assert(changes@[k].path@ == t);
            }
            if change_of(lookup(baseline@, t), lookup(current@, t)) is Some {
                let k = choose|k: int| 0 <= k < changes@.len() && #[trigger] changes@[k].path@ == t;
                assert(names@[k]@ == t);
            }
        }
    }
    sorted_unique(names)
}

/// What is kept of a file between scans: its signature and hash.
pub struct FileFingerprint {
    pub signature: String,
    pub hash: String,
}

impl View for FileFingerprint {
    type V = (Seq<char>, Seq<char>);

    open spec fn view(&self) -> (Seq<char>, Seq<char>) {
        (self.signature@, self.hash@)
    }
}

/// The hash of a file known from the last scan, when its signature has
/// not changed since; otherwise it must be hashed again.
pub fn cached_hash(cache: &Keyed<FileFingerprint>, path: &str, signature: &str) -> (r: Option<String>)
    requires
        cache.wf(),
    ensures
        (cache@.contains_key(path@) && cache@[path@].0 == signature@) ==> (r matches Some(h) && h@ == cache@[path@].1),
        !(cache@.contains_key(path@) && cache@[path@].0 == signature@) ==> r is None,
{
    match cache.get(path) {
        Some(f) => if str_eq(f.signature.as_str(), signature) {
            Some(f.hash.clone())
        } else {
            None
        },
        None => None,
    }
}

/// What bringing one changed file back into the project does.
#[derive(Clone, Copy, Debug, PartialEq, Eq, Structural)]
pub enum SyncAction {
    /// The project's file changed since the sandbox was made: leave it.
    Conflict,
    /// Copy the sandbox's file over the project's.
    CopyToProject,
    /// The file was deleted in the sandbox: delete it in the project.
    RemoveFromProject,
}

/// How a changed file is brought back, from its hash at the baseline, in
/// the sandbox and in the project now.
pub open spec fn sync_action_for(baseline: Option<Seq<char>>, workspace: Option<Seq<char>>, project: Option<Seq<char>>) -> SyncAction {
    if project != baseline {
        SyncAction::Conflict
    } else if workspace is Some {
        SyncAction::CopyToProject
    } else {
        SyncAction::RemoveFromProject
    }
}

/// The reason and detail of a file left alone because the project
/// changed.
pub open spec fn project_changed_detail() -> Seq<char> {
    "The file changed in the main project after this sandbox session started."@
}

/// Bringing a sandbox's changes back into the project, one file at a
/// time: the files applied, the conflicts, and the baseline the sandbox
/// will be compared with afterwards.
pub struct SandboxSync {
    pub applied_paths: Vec<String>,
    pub conflicts: Vec<SessionSyncConflict>,
    pub next_baseline: Keyed<String>,
}

impl SandboxSync {
    /// Starts from the baseline of the sandbox, with nothing applied.
    pub fn start(baseline: &Keyed<String>) -> (s: SandboxSync)
        requires
            baseline.wf(),
        ensures
            s.next_baseline.wf(),
            s.next_baseline@ == baseline@,
            s.applied_paths@.len() == 0,
            s.conflicts@.len() == 0,
    {
        SandboxSync { applied_paths: Vec::new(), conflicts: Vec::new(), next_baseline: baseline.copy() }
    }

    /// Decides what to do with one changed file and records it: a
    /// conflict is listed; a copied file takes its sandbox hash into the
    /// baseline; a deleted one leaves the baseline. Returns the action for
    /// the caller to carry out on the project.
    pub fn step(
        &mut self,
        path: &str,
        baseline_hash: Option<&str>,
        workspace_hash: Option<&str>,
        project_hash: Option<&str>,
    ) -> (a: SyncAction)
        requires
            old(self).next_baseline.wf(),
        ensures
            final(self).next_baseline.wf(),
            a == sync_action_for(opt(baseline_hash), opt(workspace_hash), opt(project_hash)),
            a == SyncAction::Conflict ==> {
                &&& final(self).conflicts@.len() == old(self).conflicts@.len() + 1
                &&& final(self).conflicts@.drop_last() == old(self).conflicts@
                &&& final(self).conflicts@.last().path@ == path@
                &&& final(self).conflicts@.last().reason@ == "project-changed"@
                &&& final(self).conflicts@.last().detail matches Some(d) && d@ == project_changed_detail()
                &&& final(self).applied_paths@ == old(self).applied_paths@
                &&& final(self).next_baseline@ == old(self).next_baseline@
            },
            a != SyncAction::Conflict ==> {
                &&& final(self).conflicts@ == old(self).conflicts@
                &&& final(self).applied_paths@.len() == old(self).applied_paths@.len() + 1
                &&& final(self).applied_paths@.drop_last() == old(self).applied_paths@
                &&& final(self).applied_paths@.last()@ == path@
                &&& a == SyncAction::CopyToProject ==> final(self).next_baseline@ == old(self).next_baseline@.insert(
                    path@,
                    opt(workspace_hash)->0,
                )
                &&& a == SyncAction::RemoveFromProject ==> final(self).next_baseline@ == old(self).next_baseline@.remove(path@)
            },
    {
        let same = match (project_hash, baseline_hash) {
            (Some(p), Some(b)) => str_eq(p, b),
            (None, None) => true,
            _ => false,
        };
        if !same {
            self.conflicts.push(SessionSyncConflict {
                path: path.to_owned(),
                reason: "project-changed".to_owned(),
                detail: Some("The file changed in the main project after this sandbox session started.".to_owned()),
            });
            return SyncAction::Conflict;
        }
        let action = match workspace_hash {
            Some(h) => {
                self.next_baseline.insert(path.to_owned(), h.to_owned());
                SyncAction::CopyToProject
            },
            None => {
                self.next_baseline.remove(path);
                SyncAction::RemoveFromProject
            },
        };
        self.applied_paths.push(path.to_owned());
        action
    }

    /// The outcome for the user: the files applied and the conflicts; the
    /// files still differing are filled in after the next scan.
    pub fn into_result(self, session_id: &str) -> (r: (SessionApplyResult, Keyed<String>))
        requires
            self.next_baseline.wf(),
        ensures
            r.0.session_id@ == session_id@,
            r.0.workspace_strategy == SessionWorkspaceStrategy::SandboxCopy,
            r.0.applied_paths@ == self.applied_paths@,
            r.0.remaining_paths@.len() == 0,
            r.0.conflicts@ == self.conflicts@,
            r.1.wf(),
            r.1@ == self.next_baseline@,
    {
        (
            SessionApplyResult {
                session_id: session_id.to_owned(),
                workspace_strategy: SessionWorkspaceStrategy::SandboxCopy,
                applied_paths: self.applied_paths,
                remaining_paths: Vec::new(),
                conflicts: self.conflicts,
            },
            self.next_baseline,
        )
    }
}

pub open spec fn opt(o: Option<&str>) -> Option<Seq<char>> {
    match o {
        Some(s) => Some(s@),
        None => None,
    }
}

/// How many workers share a list of items: one for fewer than 48 items;
/// otherwise the parallelism available (four when unknown), at most
/// eight and at most one per item.
pub fn preferred_worker_count(item_count: usize, available: Option<usize>) -> (n: usize)
    ensures
        item_count < 48 ==> n == 1,
        item_count >= 48 ==> {
            let a = match available {
                Some(v) => v as int,
                None => 4,
            };
            let capped = if a < 8 { a } else { 8 };
            n == (if capped < item_count { capped } else { item_count as int })
        },
{
    if item_count < 48 {
        return 1;
    }
    let a = match available {
        Some(v) => v,
        None => 4,
    };
    let capped = if a < 8 { a } else { 8 };
    let most = if item_count > 1 { item_count } else { 1 };
    if capped < most { capped } else { most }
}

/// The size of the chunks that split `item_count` items among `workers`
/// workers: the items divided by the workers, rounded up.
pub fn chunk_size(item_count: usize, workers: usize) -> (c: usize)
    requires
        workers > 0,
        item_count + workers <= usize::MAX,
    ensures
        c == (item_count + workers - 1) / (workers as int),
{
    (item_count + workers - 1) / workers
}

/// A file the project has not changed since the sandbox was made is
/// never a conflict: it is copied or removed as the sandbox has it.
pub proof fn law_unchanged_project_is_applied(baseline: Option<Seq<char>>, workspace: Option<Seq<char>>)
    ensures
        sync_action_for(baseline, workspace, baseline) != SyncAction::Conflict,
        workspace is Some ==> sync_action_for(baseline, workspace, baseline) == SyncAction::CopyToProject,
        workspace is None ==> sync_action_for(baseline, workspace, baseline) == SyncAction::RemoveFromProject,
{
}

/// A file the project changed since the sandbox was made is never
/// overwritten: it is a conflict.
pub proof fn law_changed_project_is_conflict(baseline: Option<Seq<char>>, workspace: Option<Seq<char>>, project: Option<Seq<char>>)
    requires
        project != baseline,
    ensures
        sync_action_for(baseline, workspace, project) == SyncAction::Conflict,
{
}

/// A sandbox whose files hash as at its baseline has nothing modified.
pub proof fn law_untouched_sandbox_has_no_changes(hashes: Map<Seq<char>, Seq<char>>, p: Seq<char>)
    ensures
        change_of(lookup(hashes, p), lookup(hashes, p)) is None,
{
}

} // verus!
