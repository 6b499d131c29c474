//! What agents change in their sandboxes, and how those changes are
//! gathered into one unified sandbox per workspace.
use vstd::prelude::*;
use crate::keyed::{Keyed, pairs_map};
use crate::text::{chars_of, digit_char, hex, lines, lines_of, push_chars, push_str_chars, str_eq, string_from_chars, u64_hex, views_of_strings, clone_opt};
use crate::diff::{compute_unified_diff, unified_diff};
use crate::paths::{join_paths, path_join};
use crate::rows::{AgentFileChangeRow, UnifiedSandboxStateRow};
use crate::order::{chars_lt, has_view, sorted_unique, strictly_ascending};
use crate::json::{decode_strings, encode_strings, json_of_strings, strings_from_json};

verus! {

/// What happened to a file between two scans.
#[derive(Clone, Copy, Debug, PartialEq, Eq, Structural)]
pub enum ChangeOperation {
    Created,
    Deleted,
    Modified,
}

/// The name of an operation as it is stored.
pub open spec fn operation_name(op: ChangeOperation) -> Seq<char> {
    match op {
        ChangeOperation::Created => "created"@,
        ChangeOperation::Deleted => "deleted"@,
        ChangeOperation::Modified => "modified"@,
    }
}

/// The stored name of an operation.
pub fn operation_to_str(op: ChangeOperation) -> (r: &'static str)
    ensures
        r@ == operation_name(op),
{
    match op {
        ChangeOperation::Created => "created",
        ChangeOperation::Deleted => "deleted",
        ChangeOperation::Modified => "modified",
    }
}

/// How a file changed, given its hash before and after; nothing when it
/// did not.
pub open spec fn change_of(before: Option<Seq<char>>, after: Option<Seq<char>>) -> Option<ChangeOperation> {
    match (before, after) {
        (None, Some(_)) => Some(ChangeOperation::Created),
        (Some(_), None) => Some(ChangeOperation::Deleted),
        (Some(a), Some(b)) => if a != b { Some(ChangeOperation::Modified) } else { None },
        (None, None) => None,
    }
}

/// The hash a map gives a path, if any.
pub open spec fn lookup(m: Map<Seq<char>, Seq<char>>, k: Seq<char>) -> Option<Seq<char>> {
    if m.contains_key(k) { Some(m[k]) } else { None }
}

/// A file that changed, how, and its text at the scan before (empty when
/// it had none then).
#[derive(Debug)]
pub struct PathChange {
    pub path: String,
    pub operation: ChangeOperation,
    pub previous: String,
}

/// The text a map gives a path; empty when it gives none.
pub open spec fn text_at(m: Map<Seq<char>, Seq<char>>, k: Seq<char>) -> Seq<char> {
    if m.contains_key(k) { m[k] } else { Seq::empty() }
}

/// Each change carries the text its file had at the scan before.
pub open spec fn carries_previous(changes: Seq<PathChange>, texts: Map<Seq<char>, Seq<char>>) -> bool {
    forall|i: int| 0 <= i < changes.len() ==> (#[trigger] changes[i]).previous@ == text_at(texts, changes[i].path@)
}

fn previous_text(texts: &Keyed<String>, path: &str) -> (t: String)
    requires
        texts.wf(),
    ensures
        t@ == text_at(texts@, path@),
{
    match texts.get(path) {
        Some(t) => t.clone(),
        None => String::new(),
    }
}

/// `changes` lists each changed path once, with how it changed, and no
/// other path.
pub open spec fn lists_changes(
    changes: Seq<PathChange>,
    before: Map<Seq<char>, Seq<char>>,
    after: Map<Seq<char>, Seq<char>>,
) -> bool {
    &&& forall|i: int, j: int| 0 <= i < j < changes.len() ==> changes[i].path@ != changes[j].path@
    &&& forall|i: int| 0 <= i < changes.len() ==> change_of(lookup(before, #[trigger] changes[i].path@), lookup(after, changes[i].path@))
        == Some(changes[i].operation)
    &&& forall|p: Seq<char>| #[trigger] change_of(lookup(before, p), lookup(after, p)) is Some ==> exists|i: int|
        0 <= i < changes.len() && #[trigger] changes[i].path@ == p
}

/// The files that differ between two scans: those created, deleted or
/// modified, each with its text at the first scan.
pub fn diff_scans(before: &Keyed<String>, after: &Keyed<String>, before_texts: &Keyed<String>) -> (changes: Vec<PathChange>)
    requires
        before.wf(),
        after.wf(),
        before_texts.wf(),
    ensures
        lists_changes(changes@, before@, after@),
        carries_previous(changes@, before_texts@),
{
    proof {
        crate::keyed::lemma_pairs_map_distinct(before.entries@);
        crate::keyed::lemma_pairs_map_distinct(after.entries@);
    }
    let mut changes: Vec<PathChange> = Vec::new();
    let mut i: usize = 0;
    while i < after.entries.len()
        invariant
            before.wf(),
            after.wf(),
            before_texts.wf(),
            carries_previous(changes@, before_texts@),
            i <= after.entries@.len(),
            forall|a: int, b: int| 0 <= a < b < changes@.len() ==> changes@[a].path@ != changes@[b].path@,
            forall|a: int| 0 <= a < changes@.len() ==> change_of(lookup(before@, #[trigger] changes@[a].path@), lookup(after@, changes@[a].path@))
                == Some(changes@[a].operation),
            forall|a: int| 0 <= a < changes@.len() ==> exists|k: int| 0 <= k < i && #[trigger] after.entries@[k].0@ == (#[trigger] changes@[a]).path@,
            forall|k: int| 0 <= k < i && #[trigger] change_of(lookup(before@, after.entries@[k].0@), lookup(after@, after.entries@[k].0@)) is Some
                ==> exists|a: int| 0 <= a < changes@.len() && #[trigger] changes@[a].path@ == after.entries@[k].0@,
        decreases after.entries@.len() - i,
    {
        proof {
            crate::keyed::lemma_pairs_map_distinct(before.entries@);
            crate::keyed::lemma_pairs_map_distinct(after.entries@);
        }
        let path = &after.entries[i].0;
        let hash = &after.entries[i].1;
        let ghost prev = changes@;
        let ghost pv = after.entries@[i as int].0@;
        proof {
            assert(after@.contains_key(pv));
        }
        let op = match before.get(path.as_str()) {
            None => Some(ChangeOperation::Created),
            Some(old) => if str_eq(old.as_str(), hash.as_str()) {
                None
            } else {
                Some(ChangeOperation::Modified)
            },
        };
        match op {
            Some(op) => {
                proof {
                    assert forall|a: int| 0 <= a < prev.len() implies prev[a].path@ != pv by {
                        let k = choose|k: int| 0 <= k < i && #[trigger] after.entries@[k].0@ == prev[a].path@;
                        assert(k != i);
                    }
                }
                let previous = previous_text(before_texts, path.as_str());
                changes.push(PathChange { path: path.clone(), operation: op, previous });
                proof {
                    assert(changes@[prev.len() as int].path@ == pv);
                }
            },
            None => {},
        }
        proof {
            assert forall|a: int| 0 <= a < changes@.len() implies exists|k: int| 0 <= k < i + 1 && #[trigger] after.entries@[k].0@ == (#[trigger] changes@[a]).path@ by {
                if a < prev.len() {
                    assert(changes@[a] == prev[a]);
                    let k = choose|k: int| 0 <= k < i && #[trigger] after.entries@[k].0@ == prev[a].path@;
                    assert(after.entries@[k].0@ == changes@[a].path@);
                } else {
                    assert(after.entries@[i as int].0@ == changes@[a].path@);
                }
            }
            assert forall|k: int| 0 <= k < i + 1 && #[trigger] change_of(lookup(before@, after.entries@[k].0@), lookup(after@, after.entries@[k].0@)) is Some
                implies exists|a: int| 0 <= a < changes@.len() && #[trigger] changes@[a].path@ == after.entries@[k].0@ by {
                if k < i {
                    let a = choose|a: int| 0 <= a < prev.len() && #[trigger] prev[a].path@ == after.entries@[k].0@;
                    assert(changes@[a] == prev[a]);
                } else {
                    assert(changes@[prev.len() as int].path@ == pv);
                }
            }
        }
        i = i + 1;
    }
    let mut j: usize = 0;
    while j < before.entries.len()
        invariant
            before.wf(),
            after.wf(),
            before_texts.wf(),
            carries_previous(changes@, before_texts@),
            j <= before.entries@.len(),
            forall|a: int, b: int| 0 <= a < b < changes@.len() ==> changes@[a].path@ != changes@[b].path@,
            forall|a: int| 0 <= a < changes@.len() ==> change_of(lookup(before@, #[trigger] changes@[a].path@), lookup(after@, changes@[a].path@))
                == Some(changes@[a].operation),
            forall|a: int| 0 <= a < changes@.len() ==> after@.contains_key((#[trigger] changes@[a]).path@) || exists|k: int| 0 <= k < j && #[trigger] before.entries@[k].0@ == changes@[a].path@,
            forall|k: int| 0 <= k < after.entries@.len() && #[trigger] change_of(lookup(before@, after.entries@[k].0@), lookup(after@, after.entries@[k].0@)) is Some
                ==> exists|a: int| 0 <= a < changes@.len() && #[trigger] changes@[a].path@ == after.entries@[k].0@,
            forall|k: int| 0 <= k < j && !after@.contains_key(#[trigger] before.entries@[k].0@)
                ==> exists|a: int| 0 <= a < changes@.len() && #[trigger] changes@[a].path@ == before.entries@[k].0@,
        decreases before.entries@.len() - j,
    {
        proof {
            crate::keyed::lemma_pairs_map_distinct(before.entries@);
            crate::keyed::lemma_pairs_map_distinct(after.entries@);
        }
        let path = &before.entries[j].0;
        let ghost prev = changes@;
        let ghost pv = before.entries@[j as int].0@;
        proof {
            assert(before@.contains_key(pv));
        }
        let gone = match after.get(path.as_str()) {
            Some(_) => false,
            None => true,
        };
        if gone {
            proof {
                assert forall|a: int| 0 <= a < prev.len() implies prev[a].path@ != pv by {
                    if !after@.contains_key(prev[a].path@) {
                        let k = choose|k: int| 0 <= k < j && #[trigger] before.entries@[k].0@ == prev[a].path@;
                        assert(k != j);
                    }
                }
            }
            let previous = previous_text(before_texts, path.as_str());
            changes.push(PathChange { path: path.clone(), operation: ChangeOperation::Deleted, previous });
            proof {
                assert(changes@[prev.len() as int].path@ == pv);
            }
        }
        proof {
            assert forall|a: int| 0 <= a < changes@.len() implies after@.contains_key((#[trigger] changes@[a]).path@) || exists|k: int| 0 <= k < j + 1 && #[trigger] before.entries@[k].0@ == changes@[a].path@ by {
                if a < prev.len() {
                    assert(changes@[a] == prev[a]);
                    if !after@.contains_key(prev[a].path@) {
                        let k = choose|k: int| 0 <= k < j && #[trigger] before.entries@[k].0@ == prev[a].path@;
                        assert(before.entries@[k].0@ == changes@[a].path@);
                    }
                } else {
                    assert(before.entries@[j as int].0@ == changes@[a].path@);
                }
            }
            assert forall|k: int| 0 <= k < after.entries@.len() && #[trigger] change_of(lookup(before@, after.entries@[k].0@), lookup(after@, after.entries@[k].0@)) is Some
                implies exists|a: int| 0 <= a < changes@.len() && #[trigger] changes@[a].path@ == after.entries@[k].0@ by {
                let a = choose|a: int| 0 <= a < prev.len() && #[trigger] prev[a].path@ == after.entries@[k].0@;
                assert(changes@[a] == prev[a]);
            }
            assert forall|k: int| 0 <= k < j + 1 && !after@.contains_key(#[trigger] before.entries@[k].0@)
                implies exists|a: int| 0 <= a < changes@.len() && #[trigger] changes@[a].path@ == before.entries@[k].0@ by {
                if k < j {
                    let a = choose|a: int| 0 <= a < prev.len() && #[trigger] prev[a].path@ == before.entries@[k].0@;
                    assert(changes@[a] == prev[a]);
                } else {
                    assert(changes@[prev.len() as int].path@ == pv);
                }
            }
        }
        j = j + 1;
    }
    proof {
        assert forall|p: Seq<char>| #[trigger] change_of(lookup(before@, p), lookup(after@, p)) is Some implies exists|a: int|
            0 <= a < changes@.len() && #[trigger] changes@[a].path@ == p by {
            if after@.contains_key(p) {
                let k = choose|k: int| 0 <= k < after.entries@.len() && #[trigger] after.entries@[k].0@ == p;
                assert(change_of(lookup(before@, after.entries@[k].0@), lookup(after@, after.entries@[k].0@)) is Some);
            } else {
                let k = choose|k: int| 0 <= k < before.entries@.len() && #[trigger] before.entries@[k].0@ == p;
                assert(!after@.contains_key(before.entries@[k].0@));
            }
        }
    }
    changes
}


/// What the manager keeps of one agent's sandbox: where it is, and the
/// hash and (for a text file) the text of each file at the last scan.
#[derive(Debug)]
pub struct SandboxTracker {
    pub workspace_id: String,
    pub agent_id: String,
    pub sandbox_path: String,
    pub file_hashes: Keyed<String>,
    pub file_texts: Keyed<String>,
}

/// The mathematical value of a tracker.
pub struct TrackerView {
    pub workspace_id: Seq<char>,
    pub agent_id: Seq<char>,
    pub sandbox_path: Seq<char>,
    pub file_hashes: Map<Seq<char>, Seq<char>>,
    pub file_texts: Map<Seq<char>, Seq<char>>,
}

impl View for SandboxTracker {
    type V = TrackerView;

    open spec fn view(&self) -> TrackerView {
        TrackerView {
            workspace_id: self.workspace_id@,
            agent_id: self.agent_id@,
            sandbox_path: self.sandbox_path@,
            file_hashes: self.file_hashes@,
            file_texts: self.file_texts@,
        }
    }
}

/// The key a sandbox is tracked under: `{workspace}:{agent}`.
pub open spec fn tracker_key(workspace_id: Seq<char>, agent_id: Seq<char>) -> Seq<char> {
    workspace_id + seq![':'] + agent_id
}

fn make_tracker_key(workspace_id: &str, agent_id: &str) -> (k: String)
    ensures
        k@ == tracker_key(workspace_id@, agent_id@),
{
    let mut out = chars_of(workspace_id);
    out.push(':');
    push_str_chars(&mut out, agent_id);
    string_from_chars(out.as_slice())
}

/// The refusal when an agent has no sandbox registered.
pub open spec fn unregistered_message(agent_id: Seq<char>) -> Seq<char> {
    "No sandbox registered for agent "@ + agent_id
}

fn unregistered_error(agent_id: &str) -> (e: String)
    ensures
        e@ == unregistered_message(agent_id@),
{
    let mut out = chars_of("No sandbox registered for agent ");
    push_str_chars(&mut out, agent_id);
    string_from_chars(out.as_slice())
}

/// The number that follows `n` in the sequence of change numbers, which
/// starts over after the largest.
pub open spec fn next_seq(n: u64) -> u64 {
    if n == u64::MAX { 0 } else { (n + 1) as u64 }
}

/// The sandboxes of the agents of every workspace, keyed by
/// `{workspace}:{agent}`, and the number the next change will carry.
pub struct ChangesManager {
    sandbox_states: Keyed<SandboxTracker>,
    change_seq: u64,
}

impl View for ChangesManager {
    type V = Map<Seq<char>, TrackerView>;

    closed spec fn view(&self) -> Map<Seq<char>, TrackerView> {
        self.sandbox_states@
    }
}

impl ChangesManager {
    /// The manager is consistent: its keys are distinct and so are the
    /// files of each tracker.
    pub closed spec fn wf(&self) -> bool {
        &&& self.sandbox_states.wf()
        &&& forall|i: int| 0 <= i < self.sandbox_states.entries@.len() ==> {
            &&& (#[trigger] self.sandbox_states.entries@[i]).1.file_hashes.wf()
            &&& self.sandbox_states.entries@[i].1.file_texts.wf()
        }
    }

    /// The number the next change will carry.
    pub closed spec fn issued(&self) -> u64 {
        self.change_seq
    }

    /// A manager that tracks no sandbox.
    pub fn new() -> (m: ChangesManager)
        ensures
            m.wf(),
            m@ == Map::<Seq<char>, TrackerView>::empty(),
            m.issued() == 0,
    {
        ChangesManager { sandbox_states: Keyed::new(), change_seq: 0 }
    }

    /// The trackers of a consistent manager are finitely many.
    pub proof fn lemma_finite(&self)
        requires
            self.wf(),
        ensures
            self@.dom().finite(),
    {
        crate::keyed::lemma_pairs_map_finite(self.sandbox_states.entries@);
    }

    /// The number of the next change or unified entry; each call gives a
    /// new one, until the numbers start over.
    pub fn next_change_seq(&mut self) -> (n: u64)
        requires
            old(self).wf(),
        ensures
            final(self).wf(),
            n == old(self).issued(),
            final(self).issued() == next_seq(n),
            final(self)@ == old(self)@,
    {
        let n = self.change_seq;
        self.change_seq = if n == u64::MAX { 0 } else { n + 1 };
        n
    }

    /// Starts tracking an agent's sandbox, with the hashes and texts of its
    /// files as scanned now (later pairs of a scan win), in place of any
    /// earlier tracker of the same agent in the same workspace.
    pub fn register_sandbox(
        &mut self,
        workspace_id: &str,
        agent_id: &str,
        sandbox_path: &str,
        scanned: Vec<(String, String)>,
        texts: Vec<(String, String)>,
    )
        requires
            old(self).wf(),
        ensures
            final(self).wf(),
            final(self).issued() == old(self).issued(),
            final(self)@ == old(self)@.insert(
                tracker_key(workspace_id@, agent_id@),
                TrackerView {
                    workspace_id: workspace_id@,
                    agent_id: agent_id@,
                    sandbox_path: sandbox_path@,
                    file_hashes: pairs_map(scanned@),
                    file_texts: pairs_map(texts@),
                },
            ),
            final(self)@.dom().finite(),
            final(self)@.len() == old(self)@.len() + (if old(self)@.contains_key(tracker_key(workspace_id@, agent_id@)) {
                0int
            } else {
                1int
            }),
    {
        let key = make_tracker_key(workspace_id, agent_id);
        let tracker = SandboxTracker {
            workspace_id: workspace_id.to_owned(),
            agent_id: agent_id.to_owned(),
            sandbox_path: sandbox_path.to_owned(),
            file_hashes: Keyed::from_pairs(scanned),
            file_texts: Keyed::from_pairs(texts),
        };
        proof {
            self.lemma_finite();
        }
        self.replace_tracker(key, tracker);
        proof {
            self.lemma_finite();
        }
    }

    fn replace_tracker(&mut self, key: String, tracker: SandboxTracker)
        requires
            old(self).wf(),
            tracker.file_hashes.wf(),
            tracker.file_texts.wf(),
        ensures
            final(self).wf(),
            final(self).issued() == old(self).issued(),
            final(self)@ == old(self)@.insert(key@, tracker@),
    {
        let ghost before = self.sandbox_states.entries@;
        let ghost tv = tracker;
        self.sandbox_states.insert(key, tracker);
        proof {
            let after = self.sandbox_states.entries@;
            assert forall|i: int| 0 <= i < after.len() implies {
                &&& (#[trigger] after[i]).1.file_hashes.wf()
                &&& after[i].1.file_texts.wf()
            } by {
                if after[i] != (key, tv) {
                    let j = choose|j: int| 0 <= j < before.len() && after[i] == #[trigger] before[j];
                    assert(before[j].1.file_hashes.wf());
                }
            }
        }
    }
}

impl ChangesManager {
    /// The folder of an agent's sandbox.
    pub fn sandbox_path(&self, workspace_id: &str, agent_id: &str) -> (r: Result<String, String>)
        requires
            self.wf(),
        ensures
            ({
                let key = tracker_key(workspace_id@, agent_id@);
                &&& self@.contains_key(key) ==> (r matches Ok(p) && p@ == self@[key].sandbox_path)
                &&& !self@.contains_key(key) ==> (r matches Err(e) && e@ == unregistered_message(agent_id@))
            }),
    {
        let key = make_tracker_key(workspace_id, agent_id);
        match self.sandbox_states.get(key.as_str()) {
            Some(t) => Ok(t.sandbox_path.clone()),
            None => Err(unregistered_error(agent_id)),
        }
    }

    /// The path of a file inside an agent's sandbox, if the agent has one.
    pub fn sandbox_file_path(&self, workspace_id: &str, agent_id: &str, file_path: &str) -> (r: Option<String>)
        requires
            self.wf(),
        ensures
            ({
                let key = tracker_key(workspace_id@, agent_id@);
                &&& self@.contains_key(key) ==> (r matches Some(p) && p@ == path_join(self@[key].sandbox_path, file_path@))
                &&& !self@.contains_key(key) ==> r is None
            }),
    {
        let key = make_tracker_key(workspace_id, agent_id);
        match self.sandbox_states.get(key.as_str()) {
            Some(t) => Some(join_paths(t.sandbox_path.as_str(), file_path)),
            None => None,
        }
    }

    /// Compares a new scan of an agent's sandbox with the last one: the
    /// files created, deleted and modified since, each with its text at
    /// the last scan. The tracker then holds the hashes and texts of the
    /// new scan.
    pub fn record_scan(
        &mut self,
        workspace_id: &str,
        agent_id: &str,
        scanned: Vec<(String, String)>,
        texts: Vec<(String, String)>,
    ) -> (r: Result<Vec<PathChange>, String>)
        requires
            old(self).wf(),
        ensures
            final(self).wf(),
            final(self).issued() == old(self).issued(),
            ({
                let key = tracker_key(workspace_id@, agent_id@);
                &&& !old(self)@.contains_key(key) ==> {
                    &&& r matches Err(e) && e@ == unregistered_message(agent_id@)
                    &&& final(self)@ == old(self)@
                }
                &&& old(self)@.contains_key(key) ==> {
                    &&& r matches Ok(changes)
                    &&& lists_changes(changes@, old(self)@[key].file_hashes, pairs_map(scanned@))
                    &&& carries_previous(changes@, old(self)@[key].file_texts)
                    &&& final(self)@ == old(self)@.insert(
                        key,
                        TrackerView { file_hashes: pairs_map(scanned@), file_texts: pairs_map(texts@), ..old(self)@[key] },
                    )
                }
            }),
    {
        let key = make_tracker_key(workspace_id, agent_id);
        let ghost before = self.sandbox_states.entries@;
        proof {
            crate::keyed::lemma_pairs_map_distinct(before);
        }
        let next = Keyed::from_pairs(scanned);
        let next_texts = Keyed::from_pairs(texts);
        let (changes, updated) = match self.sandbox_states.get(key.as_str()) {
            None => return Err(unregistered_error(agent_id)),
            Some(t) => {
                proof {
                    let j = choose|j: int| 0 <= j < before.len() && #[trigger] before[j].0@ == key@ && before[j].1 == *t;
                    assert(before[j].1.file_hashes.wf());
                }
                let changes = diff_scans(&t.file_hashes, &next, &t.file_texts);
                let updated = SandboxTracker {
                    workspace_id: t.workspace_id.clone(),
                    agent_id: t.agent_id.clone(),
                    sandbox_path: t.sandbox_path.clone(),
                    file_hashes: next,
                    file_texts: next_texts,
                };
                (changes, updated)
            },
        };
        self.replace_tracker(key, updated);
        Ok(changes)
    }
}

/// A change an agent made in its sandbox, as the user sees it.
#[derive(Debug)]
pub struct AgentFileChange {
    pub id: String,
    pub workspace_id: String,
    pub agent_id: String,
    pub sandbox_id: String,
    pub file_path: String,
    pub operation: String,
    pub diff_content: Option<String>,
    pub additions: i64,
    pub deletions: i64,
    pub timestamp: i64,
    pub unified_status: String,
    pub file_size: Option<i64>,
    pub is_binary: bool,
}

/// What a change shows: its text, the lines added and the lines deleted.
/// A created file shows its content, counted in lines; a modified one
/// the diff of its text at the last scan against its text now; a
/// deleted one, or a binary one, nothing.
pub open spec fn change_body(op: ChangeOperation, previous: Seq<char>, content: Seq<char>, is_binary: bool) -> (Seq<char>, int, int) {
    match op {
        ChangeOperation::Created => if is_binary {
            (Seq::empty(), 0, 0)
        } else {
            (content, lines_of(content).len() as int, 0)
        },
        ChangeOperation::Deleted => (Seq::empty(), 0, 0),
        ChangeOperation::Modified => if is_binary {
            (Seq::empty(), 0, 0)
        } else {
            unified_diff(previous, content)
        },
    }
}

/// `change-`, the time in hexadecimal (as `{:x}` renders an `i64`), `-`
/// and the change's number in hexadecimal.
pub open spec fn change_id_text(now: i64, seq: u64) -> Seq<char> {
    "change-"@ + hex((now as u64) as nat) + seq!['-'] + hex(seq as nat)
}

/// The id of the change numbered `seq`, recorded at `now`.
pub fn generate_change_id(now: i64, seq: u64) -> (id: String)
    ensures
        id@ == change_id_text(now, seq),
{
    let mut out = chars_of("change-");
    let digits = u64_hex(now as u64);
    push_chars(&mut out, digits.as_slice());
    out.push('-');
    let number = u64_hex(seq);
    push_chars(&mut out, number.as_slice());
    proof {
        assert(out@ =~= change_id_text(now, seq));
    }
    string_from_chars(out.as_slice())
}

proof fn lemma_hex_shape(n: nat)
    ensures
        hex(n).len() >= 1,
        n >= 16 ==> hex(n).len() >= 2,
        forall|i: int| 0 <= i < hex(n).len() ==> hex(n)[i] != '-',
    decreases n,
{
    if n >= 16 {
        lemma_hex_shape(n / 16);
        assert forall|i: int| 0 <= i < hex(n).len() implies hex(n)[i] != '-' by {
            if i < hex(n).len() - 1 {
                assert(hex(n)[i] == hex(n / 16)[i]);
            }
        }
    }
}

proof fn lemma_digit_injective(a: nat, b: nat)
    requires
        a < 16,
        b < 16,
        digit_char(a) == digit_char(b),
    ensures
        a == b,
{
}

proof fn lemma_hex_injective(a: nat, b: nat)
    requires
        hex(a) == hex(b),
    ensures
        a == b,
    decreases a,
{
    lemma_hex_shape(a);
    lemma_hex_shape(b);
    if a < 16 && b < 16 {
        assert(hex(a) == seq![digit_char(a)]);
        assert(hex(b) == seq![digit_char(b)]);
        assert(hex(a)[0] == digit_char(a));
        assert(hex(b)[0] == digit_char(b));
        lemma_digit_injective(a, b);
    } else if a >= 16 && b >= 16 {
        assert(hex(a) == hex(a / 16).push(digit_char(a % 16)));
        assert(hex(b) == hex(b / 16).push(digit_char(b % 16)));
        assert(hex(a).last() == digit_char(a % 16));
        assert(hex(b).last() == digit_char(b % 16));
        lemma_digit_injective(a % 16, b % 16);
        assert(hex(a).drop_last() =~= hex(a / 16));
        assert(hex(b).drop_last() =~= hex(b / 16));
        lemma_hex_injective(a / 16, b / 16);
    } else {
        assert(hex(a).len() != hex(b).len());
    }
}

proof fn lemma_stamped_ids_differ(prefix: Seq<char>, now1: i64, seq1: u64, now2: i64, seq2: u64)
    requires
        seq1 != seq2,
    ensures
        prefix + hex((now1 as u64) as nat) + seq!['-'] + hex(seq1 as nat) != prefix + hex((now2 as u64) as nat) + seq!['-'] + hex(
            seq2 as nat,
        ),
{
    let h1 = hex((now1 as u64) as nat);
    let h2 = hex((now2 as u64) as nat);
    let id1 = prefix + h1 + seq!['-'] + hex(seq1 as nat);
    let id2 = prefix + h2 + seq!['-'] + hex(seq2 as nat);
    lemma_hex_shape((now1 as u64) as nat);
    lemma_hex_shape((now2 as u64) as nat);
    lemma_hex_shape(seq1 as nat);
    lemma_hex_shape(seq2 as nat);
    if id1 == id2 {
        let p: int = prefix.len() as int;
        let l1: int = h1.len() as int;
        let l2: int = h2.len() as int;
        assert(id1[p + l1] == '-');
        assert(id2[p + l2] == '-');
        if l1 < l2 {
            assert(id2[p + l1] == h2[l1]);
        } else if l2 < l1 {
            assert(id1[p + l2] == h1[l2]);
        } else {
            assert(id1.skip(p + l1 + 1) =~= hex(seq1 as nat));
            assert(id2.skip(p + l2 + 1) =~= hex(seq2 as nat));
            lemma_hex_injective(seq1 as nat, seq2 as nat);
        }
    }
}

/// Changes with different numbers get different ids, whatever their
/// times.
pub proof fn law_change_ids_differ(now1: i64, seq1: u64, now2: i64, seq2: u64)
    requires
        seq1 != seq2,
    ensures
        change_id_text(now1, seq1) != change_id_text(now2, seq2),
{
    lemma_stamped_ids_differ("change-"@, now1, seq1, now2, seq2);
}

/// Two numbers drawn one after the other differ, so the changes that carry
/// them get different ids.
pub proof fn law_successive_change_ids_differ(now1: i64, now2: i64, seq: u64)
    ensures
        change_id_text(now1, seq) != change_id_text(now2, next_seq(seq)),
{
    law_change_ids_differ(now1, seq, now2, next_seq(seq));
}

/// `unified-`, the time in hexadecimal, `-` and the entry's number in
/// hexadecimal.
pub open spec fn unified_id_text(now: i64, seq: u64) -> Seq<char> {
    "unified-"@ + hex((now as u64) as nat) + seq!['-'] + hex(seq as nat)
}

/// The id of the unified sandbox entry numbered `seq`, written at `now`.
pub fn generate_unified_id(now: i64, seq: u64) -> (id: String)
    ensures
        id@ == unified_id_text(now, seq),
{
    let mut out = chars_of("unified-");
    let digits = u64_hex(now as u64);
    push_chars(&mut out, digits.as_slice());
    out.push('-');
    let number = u64_hex(seq);
    push_chars(&mut out, number.as_slice());
    proof {
        assert(out@ =~= unified_id_text(now, seq));
    }
    string_from_chars(out.as_slice())
}

/// Unified entries with different numbers get different ids, whatever
/// their times.
pub proof fn law_unified_ids_differ(now1: i64, seq1: u64, now2: i64, seq2: u64)
    requires
        seq1 != seq2,
    ensures
        unified_id_text(now1, seq1) != unified_id_text(now2, seq2),
{
    reveal_strlit("unified-");
    lemma_stamped_ids_differ("unified-"@, now1, seq1, now2, seq2);
}

/// Whether the first bytes of a file mark it as binary: one of them is
/// zero.
pub fn looks_binary(head: &[u8]) -> (r: bool)
    ensures
        r == exists|i: int| 0 <= i < head@.len() && head@[i] == 0,
{
    let mut i: usize = 0;
    while i < head.len()
        invariant
            i <= head@.len(),
            forall|k: int| 0 <= k < i ==> head@[k] != 0,
        decreases head@.len() - i,
    {
        if head[i] == 0 {
            return true;
        }
        i = i + 1;
    }
    false
}

/// The record of one change an agent made, numbered `seq`: `content` is
/// the file's text now (unused when the file was deleted), `is_binary`
/// and `file_size` what was found of the file (a deleted file is neither
/// binary nor sized). A modified file shows the diff of its text at the
/// last scan against `content`. The change is pending until it is pushed
/// or resolved.
pub fn build_agent_change(
    workspace_id: &str,
    agent_id: &str,
    change: &PathChange,
    content: &str,
    is_binary: bool,
    file_size: Option<i64>,
    now: i64,
    seq: u64,
) -> (r: AgentFileChange)
    requires
        change.previous@.len() + content@.len() < i64::MAX,
    ensures
        ({
            let deleted = change.operation == ChangeOperation::Deleted;
            let body = change_body(change.operation, change.previous@, content@, is_binary);
            &&& r.id@ == change_id_text(now, seq)
            &&& r.workspace_id@ == workspace_id@
            &&& r.agent_id@ == agent_id@
            &&& r.sandbox_id@ == tracker_key(workspace_id@, agent_id@)
            &&& r.file_path@ == change.path@
            &&& r.operation@ == operation_name(change.operation)
            &&& (if body.0.len() == 0 { r.diff_content is None } else { r.diff_content matches Some(d) && d@ == body.0 })
            &&& r.additions == body.1
            &&& r.deletions == body.2
            &&& r.timestamp == now
            &&& r.unified_status@ == "pending"@
            &&& r.file_size == (if deleted { None } else { file_size })
            &&& r.is_binary == (!deleted && is_binary)
        }),
{
    let (text, additions, deletions): (String, i64, i64) = match change.operation {
        ChangeOperation::Created => if is_binary {
            (String::new(), 0, 0)
        } else {
            let ls = lines(content);
            proof {
                crate::diff::lemma_lines_count(content@);
                assert(ls@.len() == lines_of(content@).len());
            }
            (content.to_owned(), ls.len() as i64, 0)
        },
        ChangeOperation::Deleted => (String::new(), 0, 0),
        ChangeOperation::Modified => if is_binary {
            (String::new(), 0, 0)
        } else {
            compute_unified_diff(change.previous.as_str(), content)
        },
    };
    let deleted = change.operation == ChangeOperation::Deleted;
    let diff_content = if text.as_str().unicode_len() == 0 { None } else { Some(text) };
    AgentFileChange {
        id: generate_change_id(now, seq),
        workspace_id: workspace_id.to_owned(),
        agent_id: agent_id.to_owned(),
        sandbox_id: make_tracker_key(workspace_id, agent_id),
        file_path: change.path.clone(),
        operation: operation_to_str(change.operation).to_owned(),
        diff_content,
        additions,
        deletions,
        timestamp: now,
        unified_status: "pending".to_owned(),
        file_size: if deleted { None } else { file_size },
        is_binary: !deleted && is_binary,
    }
}


/// The distinct agents of the rows that change `path`, each once, in the
/// order of their first row.
pub open spec fn agents_for(rows: Seq<AgentFileChangeRow>, path: Seq<char>) -> Seq<Seq<char>>
    decreases rows.len(),
{
    if rows.len() == 0 {
        Seq::empty()
    } else {
        let rest = agents_for(rows.drop_last(), path);
        if rows.last().file_path@ == path && !rest.contains(rows.last().agent_id@) {
            rest.push(rows.last().agent_id@)
        } else {
            rest
        }
    }
}

/// The agents listed for a path are distinct, and are exactly those of
/// the rows that change it.
pub proof fn lemma_agents_for(rows: Seq<AgentFileChangeRow>, path: Seq<char>)
    ensures
        agents_for(rows, path).no_duplicates(),
        forall|a: Seq<char>| agents_for(rows, path).contains(a) <==> exists|i: int|
            0 <= i < rows.len() && (#[trigger] rows[i]).file_path@ == path && rows[i].agent_id@ == a,
    decreases rows.len(),
{
    if rows.len() > 0 {
        let init = rows.drop_last();
        lemma_agents_for(init, path);
        let rest = agents_for(init, path);
        let r = rows.last();
        assert forall|a: Seq<char>| agents_for(rows, path).contains(a) <==> exists|i: int|
            0 <= i < rows.len() && (#[trigger] rows[i]).file_path@ == path && rows[i].agent_id@ == a by {
            if agents_for(rows, path).contains(a) {
                if rest.contains(a) {
                    let i = choose|i: int| 0 <= i < init.len() && (#[trigger] init[i]).file_path@ == path && init[i].agent_id@ == a;
                    assert(rows[i] == init[i]);
                } else {
                    assert(rows[rows.len() - 1] == r);
                }
            }
            if exists|i: int| 0 <= i < rows.len() && (#[trigger] rows[i]).file_path@ == path && rows[i].agent_id@ == a {
                let i = choose|i: int| 0 <= i < rows.len() && (#[trigger] rows[i]).file_path@ == path && rows[i].agent_id@ == a;
                if i < rows.len() - 1 {
                    assert(init[i] == rows[i]);
                    assert(rest.contains(a));
                    let k = choose|k: int| 0 <= k < rest.len() && rest[k] == a;
                    if r.file_path@ == path && !rest.contains(r.agent_id@) {
                        assert(rest.push(r.agent_id@)[k] == a);
                    }
                } else {
                    if !rest.contains(a) {
                        assert(agents_for(rows, path) == rest.push(a));
                        assert(rest.push(a)[rest.len() as int] == a);
                    }
                }
            }
        }
    }
}

/// The file paths of the rows.
pub open spec fn row_paths(rows: Seq<AgentFileChangeRow>) -> Seq<String> {
    Seq::new(rows.len(), |i: int| rows[i].file_path)
}

/// How a file of the unified sandbox stands.
pub open spec fn unified_status_name(agent_count: int) -> Seq<char> {
    if agent_count == 1 { "clean"@ } else { "conflicted"@ }
}

/// What the unified sandbox records of one file: the agent whose change
/// it takes, the agents whose changes conflict with it, and whether
/// there is a conflict.
#[derive(Debug)]
pub struct UnifiedPlan {
    pub file_path: String,
    pub source_agent_id: String,
    pub conflict_agent_ids: Vec<String>,
    pub conflict_json: Option<String>,
    pub status: String,
}

/// `plan` is what the unified sandbox records of `path` given the
/// pending rows: the first agent to change it is the source, the other
/// agents that changed it conflict with it.
pub open spec fn plans_file(plan: UnifiedPlan, rows: Seq<AgentFileChangeRow>, path: Seq<char>) -> bool {
    let agents = agents_for(rows, path);
    &&& plan.file_path@ == path
    &&& agents.len() >= 1
    &&& plan.source_agent_id@ == agents[0]
    &&& views_of_strings(plan.conflict_agent_ids@) == agents.skip(1)
    &&& (if agents.len() == 1 {
        plan.conflict_json is None
    } else {
        plan.conflict_json matches Some(j) && j@ == json_of_strings(agents.skip(1))
    })
    &&& plan.status@ == unified_status_name(agents.len() as int)
}

proof fn lemma_agents_for_nonempty(rows: Seq<AgentFileChangeRow>, i: int)
    requires
        0 <= i < rows.len(),
    ensures
        agents_for(rows, rows[i].file_path@).len() >= 1,
    decreases rows.len(),
{
    if i < rows.len() - 1 {
        lemma_agents_for_nonempty(rows.drop_last(), i);
        assert(rows.drop_last()[i] == rows[i]);
    }
}

fn lists_agent(agents: &Vec<String>, agent: &str) -> (r: bool)
    ensures
        r == views_of_strings(agents@).contains(agent@),
{
    let mut i: usize = 0;
    while i < agents.len()
        invariant
            i <= agents@.len(),
            forall|k: int| 0 <= k < i ==> agents@[k]@ != agent@,
        decreases agents@.len() - i,
    {
        if str_eq(agents[i].as_str(), agent) {
            assert(views_of_strings(agents@)[i as int] == agent@);
            return true;
        }
        i = i + 1;
    }
    false
}

fn agents_of(rows: &Vec<AgentFileChangeRow>, path: &str) -> (out: Vec<String>)
    ensures
        views_of_strings(out@) == agents_for(rows@, path@),
{
    let mut out: Vec<String> = Vec::new();
    let mut i: usize = 0;
    while i < rows.len()
        invariant
            i <= rows@.len(),
            views_of_strings(out@) == agents_for(rows@.take(i as int), path@),
        decreases rows@.len() - i,
    {
        proof {
            assert(rows@.take(i + 1).drop_last() =~= rows@.take(i as int));
        }
        let ghost before = out@;
        if str_eq(rows[i].file_path.as_str(), path) && !lists_agent(&out, rows[i].agent_id.as_str()) {
            out.push(rows[i].agent_id.clone());
            proof {
                assert(views_of_strings(out@) =~= views_of_strings(before).push(rows@[i as int].agent_id@));
            }
        }
        i = i + 1;
    }
    assert(rows@.take(rows@.len() as int) =~= rows@);
    out
}

/// Gathers the pending changes of a workspace into the unified sandbox:
/// one entry per changed file, in ascending path order; the agent of the
/// first row of a file (the most recent, as rows come newest first) is
/// the source, and any other agent that changed it makes the file
/// conflicted.
pub fn plan_unified_entries(pending: &Vec<AgentFileChangeRow>) -> (plans: Vec<UnifiedPlan>)
    ensures
        strictly_ascending(Seq::new(plans@.len(), |i: int| plans@[i].file_path)),
        forall|t: Seq<char>| has_view(Seq::new(plans@.len(), |i: int| plans@[i].file_path), t) <==> has_view(row_paths(pending@), t),
        forall|i: int| 0 <= i < plans@.len() ==> plans_file(#[trigger] plans@[i], pending@, plans@[i].file_path@),
{
    let mut all: Vec<String> = Vec::new();
    let mut i: usize = 0;
    while i < pending.len()
        invariant
            i <= pending@.len(),
            all@ == row_paths(pending@).take(i as int),
        decreases pending@.len() - i,
    {
        all.push(pending[i].file_path.clone());
        i = i + 1;
        proof {
            assert(all@ =~= row_paths(pending@).take(i as int));
        }
    }
    proof {
        assert(all@ =~= row_paths(pending@));
    }
    let paths = sorted_unique(all);
    let mut plans: Vec<UnifiedPlan> = Vec::new();
    let mut k: usize = 0;
    while k < paths.len()
        invariant
            k <= paths@.len(),
            plans@.len() == k,
            forall|t: Seq<char>| has_view(paths@, t) <==> has_view(row_paths(pending@), t),
            forall|m: int| 0 <= m < k ==> (#[trigger] plans@[m]).file_path@ == paths@[m]@,
            forall|m: int| 0 <= m < k ==> plans_file(#[trigger] plans@[m], pending@, plans@[m].file_path@),
        decreases paths@.len() - k,
    {
        let path = &paths[k];
        let agents = agents_of(pending, path.as_str());
        proof {
            assert(has_view(paths@, paths@[k as int]@));
            let r = choose|r: int| 0 <= r < row_paths(pending@).len() && #[trigger] row_paths(pending@)[r]@ == paths@[k as int]@;
            lemma_agents_for_nonempty(pending@, r);
        }
        let ghost av = views_of_strings(agents@);
        let source = agents[0].clone();
        let mut conflicts: Vec<String> = Vec::new();
        let mut a: usize = 1;
        while a < agents.len()
            invariant
                1 <= a <= agents@.len(),
                views_of_strings(conflicts@) == av.subrange(1, a as int),
                av == views_of_strings(agents@),
            decreases agents@.len() - a,
        {
            let ghost before = conflicts@;
            conflicts.push(agents[a].clone());
            proof {
                assert(conflicts@ == before.push(agents@[a as int]));
                assert(av[a as int] == agents@[a as int]@);
                assert(views_of_strings(conflicts@) =~= views_of_strings(before).push(av[a as int]));
                assert(av.subrange(1, a + 1) =~= av.subrange(1, a as int).push(av[a as int]));
            }
            a = a + 1;
        }
        proof {
            assert(av.subrange(1, agents@.len() as int) =~= av.skip(1));
        }
        let single = agents.len() == 1;
        let conflict_json = if single {
            None
        } else {
            Some(encode_strings(&conflicts))
        };
        let status = if single { "clean".to_owned() } else { "conflicted".to_owned() };
        plans.push(UnifiedPlan {
            file_path: path.clone(),
            source_agent_id: source,
            conflict_agent_ids: conflicts,
            conflict_json,
            status,
        });
        k = k + 1;
    }
    proof {
        let fp = Seq::new(plans@.len(), |i: int| plans@[i].file_path);
        assert forall|i: int, j: int| 0 <= i < j < fp.len() implies chars_lt(fp[i]@, fp[j]@) by {
            assert(fp[i]@ == paths@[i]@);
            assert(fp[j]@ == paths@[j]@);
        }
        assert forall|t: Seq<char>| has_view(fp, t) <==> has_view(paths@, t) by {
            if has_view(fp, t) {
                let i = choose|i: int| 0 <= i < fp.len() && #[trigger] fp[i]@ == t;
                assert(paths@[i]@ == t);
            }
            if has_view(paths@, t) {
                let i = choose|i: int| 0 <= i < paths@.len() && #[trigger] paths@[i]@ == t;
                assert(fp[i]@ == t);
            }
        }
    }
    plans
}


/// An entry of the unified sandbox, as the user sees it.
#[derive(Debug)]
pub struct UnifiedSandboxEntry {
    pub id: String,
    pub workspace_id: String,
    pub file_path: String,
    pub source_agent_id: String,
    pub conflict_agent_ids: Option<Vec<String>>,
    pub status: String,
    pub last_updated_at: i64,
}

/// The changes of a workspace and its unified sandbox, with counts.
#[derive(Debug)]
pub struct ChangesManagerState {
    pub agent_changes: Vec<AgentFileChange>,
    pub unified_entries: Vec<UnifiedSandboxEntry>,
    pub total_changed_files: usize,
    pub conflict_count: usize,
    pub pending_push_count: usize,
}

/// A stored change as the user sees it.
pub open spec fn change_from_row(row: AgentFileChangeRow, c: AgentFileChange) -> bool {
    &&& c.id == row.id
    &&& c.workspace_id == row.workspace_id
    &&& c.agent_id == row.agent_id
    &&& c.sandbox_id == row.sandbox_id
    &&& c.file_path == row.file_path
    &&& c.operation == row.operation
    &&& c.diff_content == row.diff_content
    &&& c.additions == row.additions
    &&& c.deletions == row.deletions
    &&& c.timestamp == row.timestamp
    &&& c.unified_status == row.unified_status
    &&& c.file_size == row.file_size
    &&& c.is_binary == (row.is_binary != 0)
}

/// A stored unified entry as the user sees it: its conflicting agents are
/// read back from their JSON text, and left out when that text does not
/// read.
pub open spec fn entry_from_row(row: UnifiedSandboxStateRow, e: UnifiedSandboxEntry) -> bool {
    &&& e.id == row.id
    &&& e.workspace_id == row.workspace_id
    &&& e.file_path == row.file_path
    &&& e.source_agent_id == row.source_agent_id
    &&& e.status == row.status
    &&& e.last_updated_at == row.last_updated_at
    &&& match row.conflict_agent_ids {
        None => e.conflict_agent_ids is None,
        Some(text) => match strings_from_json(text@) {
            None => e.conflict_agent_ids is None,
            Some(ids) => e.conflict_agent_ids matches Some(v) && views_of_strings(v@) == ids,
        },
    }
}

/// How many entries of `s` have the status `v`.
pub open spec fn count_status(s: Seq<UnifiedSandboxEntry>, v: Seq<char>) -> nat
    decreases s.len(),
{
    if s.len() == 0 {
        0
    } else {
        count_status(s.drop_last(), v) + if s.last().status@ == v { 1nat } else { 0nat }
    }
}

/// How many changes of `s` are still pending.
pub open spec fn count_pending(s: Seq<AgentFileChange>) -> nat
    decreases s.len(),
{
    if s.len() == 0 {
        0
    } else {
        count_pending(s.drop_last()) + if s.last().unified_status@ == "pending"@ { 1nat } else { 0nat }
    }
}

/// The change a stored row describes.
pub fn agent_change_from_row(row: &AgentFileChangeRow) -> (c: AgentFileChange)
    ensures
        change_from_row(*row, c),
{
    AgentFileChange {
        id: row.id.clone(),
        workspace_id: row.workspace_id.clone(),
        agent_id: row.agent_id.clone(),
        sandbox_id: row.sandbox_id.clone(),
        file_path: row.file_path.clone(),
        operation: row.operation.clone(),
        diff_content: clone_opt(&row.diff_content),
        additions: row.additions,
        deletions: row.deletions,
        timestamp: row.timestamp,
        unified_status: row.unified_status.clone(),
        file_size: row.file_size,
        is_binary: row.is_binary != 0,
    }
}

/// The unified entry a stored row describes. Conflicting agents stored as
/// the JSON text of a list read back as that list.
pub fn unified_entry_from_row(row: &UnifiedSandboxStateRow) -> (e: UnifiedSandboxEntry)
    ensures
        entry_from_row(*row, e),
        forall|ids: Seq<Seq<char>>|
            row.conflict_agent_ids matches Some(t) && #[trigger] json_of_strings(ids) == t@ ==> (e.conflict_agent_ids matches Some(
                v,
            ) && views_of_strings(v@) == ids),
{
    let conflict_agent_ids = match &row.conflict_agent_ids {
        Some(text) => decode_strings(text.as_str()),
        None => None,
    };
    UnifiedSandboxEntry {
        id: row.id.clone(),
        workspace_id: row.workspace_id.clone(),
        file_path: row.file_path.clone(),
        source_agent_id: row.source_agent_id.clone(),
        conflict_agent_ids,
        status: row.status.clone(),
        last_updated_at: row.last_updated_at,
    }
}

/// The state of the changes of a workspace: the stored changes and
/// unified entries as the user sees them, the number of changed files,
/// of conflicted ones, and of changes still pending.
pub fn changes_state(change_rows: &Vec<AgentFileChangeRow>, unified_rows: &Vec<UnifiedSandboxStateRow>) -> (st: ChangesManagerState)
    ensures
        st.agent_changes@.len() == change_rows@.len(),
        forall|i: int| 0 <= i < change_rows@.len() ==> change_from_row(change_rows@[i], #[trigger] st.agent_changes@[i]),
        st.unified_entries@.len() == unified_rows@.len(),
        forall|i: int| 0 <= i < unified_rows@.len() ==> entry_from_row(unified_rows@[i], #[trigger] st.unified_entries@[i]),
        st.total_changed_files == unified_rows@.len(),
        st.conflict_count == count_status(st.unified_entries@, "conflicted"@),
        st.pending_push_count == count_pending(st.agent_changes@),
{
    let mut agent_changes: Vec<AgentFileChange> = Vec::new();
    let mut pending: usize = 0;
    let mut i: usize = 0;
    while i < change_rows.len()
        invariant
            i <= change_rows@.len(),
            agent_changes@.len() == i,
            forall|k: int| 0 <= k < i ==> change_from_row(change_rows@[k], #[trigger] agent_changes@[k]),
            pending == count_pending(agent_changes@),
            pending <= i,
        decreases change_rows@.len() - i,
    {
        let c = agent_change_from_row(&change_rows[i]);
        let is_pending = str_eq(c.unified_status.as_str(), "pending");
        let ghost before = agent_changes@;
        agent_changes.push(c);
        proof {
            assert(agent_changes@.drop_last() =~= before);
        }
        if is_pending {
            pending = pending + 1;
        }
        i = i + 1;
    }
    let mut unified_entries: Vec<UnifiedSandboxEntry> = Vec::new();
    let mut conflicts: usize = 0;
    let mut j: usize = 0;
    while j < unified_rows.len()
        invariant
            j <= unified_rows@.len(),
            unified_entries@.len() == j,
            forall|k: int| 0 <= k < j ==> entry_from_row(unified_rows@[k], #[trigger] unified_entries@[k]),
            conflicts == count_status(unified_entries@, "conflicted"@),
            conflicts <= j,
        decreases unified_rows@.len() - j,
    {
        let e = unified_entry_from_row(&unified_rows[j]);
        let is_conflicted = str_eq(e.status.as_str(), "conflicted");
        let ghost before = unified_entries@;
        unified_entries.push(e);
        proof {
            assert(unified_entries@.drop_last() =~= before);
        }
        if is_conflicted {
            conflicts = conflicts + 1;
        }
        j = j + 1;
    }
    ChangesManagerState {
        agent_changes,
        unified_entries,
        total_changed_files: unified_rows.len(),
        conflict_count: conflicts,
        pending_push_count: pending,
    }
}

/// Whether a unified entry is pushed to the project: a conflicted one is
/// not.
pub fn is_pushable(entry: &UnifiedSandboxStateRow) -> (r: bool)
    ensures
        r == (entry.status@ != "conflicted"@),
{
    !str_eq(entry.status.as_str(), "conflicted")
}

/// A change a push can take for `file_path` from `agent_id`: one of that
/// agent's changes to the file that is pending, or merged by a resolved
/// conflict.
pub open spec fn push_candidate(r: AgentFileChangeRow, file_path: Seq<char>, agent_id: Seq<char>) -> bool {
    &&& r.file_path@ == file_path
    &&& r.agent_id@ == agent_id
    &&& (r.unified_status@ == "pending"@ || r.unified_status@ == "merged"@)
}

/// `r` is the change a push takes: the first candidate, if any.
pub open spec fn is_push_choice(rows: Seq<AgentFileChangeRow>, file_path: Seq<char>, agent_id: Seq<char>, r: Option<usize>) -> bool {
    match r {
        Some(i) => i < rows.len() && push_candidate(rows[i as int], file_path, agent_id) && forall|k: int|
            0 <= k < i ==> !push_candidate(#[trigger] rows[k], file_path, agent_id),
        None => forall|k: int| 0 <= k < rows.len() ==> !push_candidate(#[trigger] rows[k], file_path, agent_id),
    }
}

/// The change of a unified entry's source agent that a push writes for
/// `file_path`: the first of its changes to the file that is pending or
/// was merged when a conflict was resolved.
pub fn pushable_change_for(rows: &Vec<AgentFileChangeRow>, file_path: &str, agent_id: &str) -> (r: Option<usize>)
    ensures
        is_push_choice(rows@, file_path@, agent_id@, r),
{
    let mut i: usize = 0;
    while i < rows.len()
        invariant
            i <= rows@.len(),
            forall|k: int| 0 <= k < i ==> !push_candidate(#[trigger] rows@[k], file_path@, agent_id@),
        decreases rows@.len() - i,
    {
        let r = &rows[i];
        if str_eq(r.file_path.as_str(), file_path) && str_eq(r.agent_id.as_str(), agent_id) && (str_eq(
            r.unified_status.as_str(),
            "pending",
        ) || str_eq(r.unified_status.as_str(), "merged")) {
            return Some(i);
        }
        i = i + 1;
    }
    None
}

/// A new status for a stored change.
#[derive(Debug)]
pub struct StatusUpdate {
    pub change_id: String,
    pub status: String,
}

/// The pending changes of `rows` to `file_path`, in row order.
pub open spec fn pending_for(rows: Seq<AgentFileChangeRow>, file_path: Seq<char>) -> Seq<AgentFileChangeRow>
    decreases rows.len(),
{
    if rows.len() == 0 {
        Seq::empty()
    } else {
        let rest = pending_for(rows.drop_last(), file_path);
        let r = rows.last();
        if r.file_path@ == file_path && r.unified_status@ == "pending"@ {
            rest.push(r)
        } else {
            rest
        }
    }
}

/// The status a change gets when a conflict over its file is resolved.
pub open spec fn resolved_status(agent_id: Seq<char>, winning_agent_id: Seq<char>) -> Seq<char> {
    if agent_id == winning_agent_id { "merged"@ } else { "discarded"@ }
}

/// `updates` settle a conflict over `file_path`: one per pending change to
/// the file, in row order, merging the winner's and discarding the others.
pub open spec fn resolves(
    rows: Seq<AgentFileChangeRow>,
    file_path: Seq<char>,
    winning_agent_id: Seq<char>,
    updates: Seq<StatusUpdate>,
) -> bool {
    &&& updates.len() == pending_for(rows, file_path).len()
    &&& forall|i: int| 0 <= i < updates.len() ==> {
        let c = pending_for(rows, file_path)[i];
        &&& (#[trigger] updates[i]).change_id@ == c.id@
        &&& updates[i].status@ == resolved_status(c.agent_id@, winning_agent_id)
    }
}

/// How a conflict over a file is settled: every pending change to it is
/// merged when it comes from the winning agent and discarded otherwise.
pub fn conflict_resolutions(rows: &Vec<AgentFileChangeRow>, file_path: &str, winning_agent_id: &str) -> (out: Vec<StatusUpdate>)
    ensures
        resolves(rows@, file_path@, winning_agent_id@, out@),
{
    let mut out: Vec<StatusUpdate> = Vec::new();
    let mut i: usize = 0;
    while i < rows.len()
        invariant
            i <= rows@.len(),
            out@.len() == pending_for(rows@.take(i as int), file_path@).len(),
            forall|k: int| 0 <= k < out@.len() ==> {
                let c = pending_for(rows@.take(i as int), file_path@)[k];
                &&& (#[trigger] out@[k]).change_id@ == c.id@
                &&& out@[k].status@ == (if c.agent_id@ == winning_agent_id@ { "merged"@ } else { "discarded"@ })
            },
        decreases rows@.len() - i,
    {
        proof {
            assert(rows@.take(i + 1).drop_last() =~= rows@.take(i as int));
        }
        let r = &rows[i];
        if str_eq(r.file_path.as_str(), file_path) && str_eq(r.unified_status.as_str(), "pending") {
            let status = if str_eq(r.agent_id.as_str(), winning_agent_id) {
                "merged".to_owned()
            } else {
                "discarded".to_owned()
            };
            out.push(StatusUpdate { change_id: r.id.clone(), status });
        }
        i = i + 1;
    }
    assert(rows@.take(rows@.len() as int) =~= rows@);
    out
}

/// The status a change with `id` has after `updates` are applied in turn
/// to its status `status`: that of the last update naming it, if any.
pub open spec fn status_after(id: Seq<char>, status: Seq<char>, updates: Seq<StatusUpdate>) -> Seq<char>
    decreases updates.len(),
{
    if updates.len() == 0 {
        status
    } else if updates.last().change_id@ == id {
        updates.last().status@
    } else {
        status_after(id, status, updates.drop_last())
    }
}

/// `after` are the stored changes `rows` once `updates` are applied.
pub open spec fn applied(rows: Seq<AgentFileChangeRow>, updates: Seq<StatusUpdate>, after: Seq<AgentFileChangeRow>) -> bool {
    &&& after.len() == rows.len()
    &&& forall|k: int| 0 <= k < rows.len() ==> {
        &&& (#[trigger] after[k]).id == rows[k].id
        &&& after[k].agent_id == rows[k].agent_id
        &&& after[k].file_path == rows[k].file_path
        &&& after[k].unified_status@ == status_after(rows[k].id@, rows[k].unified_status@, updates)
    }
}

proof fn lemma_pending_for_from_rows(rows: Seq<AgentFileChangeRow>, file_path: Seq<char>, m: int)
    requires
        0 <= m < pending_for(rows, file_path).len(),
    ensures
        exists|k: int|
            0 <= k < rows.len() && #[trigger] rows[k] == pending_for(rows, file_path)[m] && rows[k].file_path@ == file_path
                && rows[k].unified_status@ == "pending"@,
    decreases rows.len(),
{
    let init = rows.drop_last();
    let rest = pending_for(init, file_path);
    if m < rest.len() {
        lemma_pending_for_from_rows(init, file_path, m);
        let k = choose|k: int| 0 <= k < init.len() && #[trigger] init[k] == rest[m] && init[k].file_path@ == file_path
            && init[k].unified_status@ == "pending"@;
        assert(rows[k] == init[k]);
        assert(pending_for(rows, file_path)[m] == rest[m]);
    } else {
        assert(rows[rows.len() - 1] == pending_for(rows, file_path)[m]);
    }
}

proof fn lemma_rows_in_pending_for(rows: Seq<AgentFileChangeRow>, file_path: Seq<char>, k: int)
    requires
        0 <= k < rows.len(),
        rows[k].file_path@ == file_path,
        rows[k].unified_status@ == "pending"@,
    ensures
        exists|m: int| 0 <= m < pending_for(rows, file_path).len() && #[trigger] pending_for(rows, file_path)[m] == rows[k],
    decreases rows.len(),
{
    let init = rows.drop_last();
    let rest = pending_for(init, file_path);
    if k < rows.len() - 1 {
        assert(init[k] == rows[k]);
        lemma_rows_in_pending_for(init, file_path, k);
        let m = choose|m: int| 0 <= m < rest.len() && #[trigger] rest[m] == init[k];
        assert(pending_for(rows, file_path)[m] == rest[m]);
    } else {
        assert(pending_for(rows, file_path)[rest.len() as int] == rows[k]);
    }
}

proof fn lemma_status_after(id: Seq<char>, status: Seq<char>, updates: Seq<StatusUpdate>, s: Seq<char>)
    requires
        forall|m: int| 0 <= m < updates.len() && (#[trigger] updates[m]).change_id@ == id ==> updates[m].status@ == s,
    ensures
        (exists|m: int| 0 <= m < updates.len() && (#[trigger] updates[m]).change_id@ == id) ==> status_after(id, status, updates) == s,
        (forall|m: int| 0 <= m < updates.len() ==> (#[trigger] updates[m]).change_id@ != id) ==> status_after(id, status, updates)
            == status,
    decreases updates.len(),
{
    if updates.len() > 0 {
        let init = updates.drop_last();
        assert forall|m: int| 0 <= m < init.len() && (#[trigger] init[m]).change_id@ == id implies init[m].status@ == s by {
            assert(init[m] == updates[m]);
        }
        lemma_status_after(id, status, init, s);
        if updates.last().change_id@ != id {
            if exists|m: int| 0 <= m < updates.len() && (#[trigger] updates[m]).change_id@ == id {
                let m = choose|m: int| 0 <= m < updates.len() && (#[trigger] updates[m]).change_id@ == id;
                assert(init[m] == updates[m]);
            }
            assert forall|m: int| 0 <= m < init.len() implies (#[trigger] init[m]).change_id@ != id || !(forall|m: int|
                0 <= m < updates.len() ==> (#[trigger] updates[m]).change_id@ != id) by {
                assert(init[m] == updates[m]);
            }
        }
    }
}

/// The status a stored change ends with once the resolution of a conflict
/// over `file_path` is applied.
pub open spec fn expected_after(r: AgentFileChangeRow, file_path: Seq<char>, winning_agent_id: Seq<char>) -> Seq<char> {
    if r.file_path@ == file_path && r.unified_status@ == "pending"@ {
        resolved_status(r.agent_id@, winning_agent_id)
    } else {
        r.unified_status@
    }
}

proof fn lemma_status_once_resolved(
    rows: Seq<AgentFileChangeRow>,
    file_path: Seq<char>,
    winning_agent_id: Seq<char>,
    updates: Seq<StatusUpdate>,
    k: int,
)
    requires
        forall|i: int, j: int| 0 <= i < j < rows.len() ==> (#[trigger] rows[i]).id@ != (#[trigger] rows[j]).id@,
        resolves(rows, file_path, winning_agent_id, updates),
        0 <= k < rows.len(),
    ensures
        status_after(rows[k].id@, rows[k].unified_status@, updates) == expected_after(rows[k], file_path, winning_agent_id),
{
    let p = pending_for(rows, file_path);
    let id = rows[k].id@;
    let target = resolved_status(rows[k].agent_id@, winning_agent_id);
    let named = rows[k].file_path@ == file_path && rows[k].unified_status@ == "pending"@;
    assert forall|m: int| 0 <= m < updates.len() && (#[trigger] updates[m]).change_id@ == id implies updates[m].status@ == target
        && named by {
        assert(updates[m].change_id@ == p[m].id@);
        lemma_pending_for_from_rows(rows, file_path, m);
        let k2 = choose|k2: int| 0 <= k2 < rows.len() && #[trigger] rows[k2] == p[m] && rows[k2].file_path@ == file_path
            && rows[k2].unified_status@ == "pending"@;
        if k2 < k {
            assert(rows[k2].id@ != rows[k].id@);
        } else if k < k2 {
            assert(rows[k].id@ != rows[k2].id@);
        }
    }
    lemma_status_after(id, rows[k].unified_status@, updates, target);
    if named {
        lemma_rows_in_pending_for(rows, file_path, k);
        let m = choose|m: int| 0 <= m < p.len() && #[trigger] p[m] == rows[k];
        assert(updates[m].change_id@ == id);
    } else {
        assert forall|m: int| 0 <= m < updates.len() implies (#[trigger] updates[m]).change_id@ != id by {
        }
    }
}

proof fn lemma_first_candidate(rows: Seq<AgentFileChangeRow>, file_path: Seq<char>, agent_id: Seq<char>, k: int)
    requires
        0 <= k < rows.len(),
        push_candidate(rows[k], file_path, agent_id),
    ensures
        exists|i: int| 0 <= i <= k && push_candidate(#[trigger] rows[i], file_path, agent_id) && forall|j: int|
            0 <= j < i ==> !push_candidate(#[trigger] rows[j], file_path, agent_id),
    decreases k,
{
    if exists|j: int| 0 <= j < k && push_candidate(#[trigger] rows[j], file_path, agent_id) {
        let j = choose|j: int| 0 <= j < k && push_candidate(#[trigger] rows[j], file_path, agent_id);
        lemma_first_candidate(rows, file_path, agent_id, j);
    } else {
        assert(push_candidate(rows[k], file_path, agent_id));
    }
}

/// Resolving a conflict and then pushing writes the winner's change: once
/// the updates that settle a conflict over `file_path` in favour of an
/// agent with a pending change to it are applied to the stored changes of
/// the workspace (whose ids are distinct), the push, looking among the
/// winner's changes, takes one of them to the file, now merged; no change
/// to the file is left pending, and every other agent's pending change to
/// it is discarded.
pub proof fn law_resolve_then_push_takes_winner(
    rows: Seq<AgentFileChangeRow>,
    file_path: Seq<char>,
    winning_agent_id: Seq<char>,
    updates: Seq<StatusUpdate>,
    after: Seq<AgentFileChangeRow>,
)
    requires
        rows.len() <= usize::MAX,
        forall|i: int, j: int| 0 <= i < j < rows.len() ==> (#[trigger] rows[i]).id@ != (#[trigger] rows[j]).id@,
        exists|k: int|
            0 <= k < rows.len() && (#[trigger] rows[k]).file_path@ == file_path && rows[k].agent_id@ == winning_agent_id
                && rows[k].unified_status@ == "pending"@,
        resolves(rows, file_path, winning_agent_id, updates),
        applied(rows, updates, after),
    ensures
        exists|i: usize| #[trigger] is_push_choice(after, file_path, winning_agent_id, Some(i)) && after[i as int].unified_status@
            == "merged"@,
        forall|k: int| 0 <= k < after.len() && (#[trigger] after[k]).file_path@ == file_path ==> after[k].unified_status@ != "pending"@,
        forall|k: int|
            0 <= k < rows.len() && (#[trigger] rows[k]).file_path@ == file_path && rows[k].unified_status@ == "pending"@ && rows[k].agent_id@
                != winning_agent_id ==> after[k].unified_status@ == "discarded"@,
{
    reveal_strlit("pending");
    reveal_strlit("merged");
    reveal_strlit("discarded");
    assert forall|k: int| 0 <= k < rows.len() implies (#[trigger] after[k]).unified_status@ == expected_after(
        rows[k],
        file_path,
        winning_agent_id,
    ) by {
        lemma_status_once_resolved(rows, file_path, winning_agent_id, updates, k);
    }
    let k0 = choose|k: int|
        0 <= k < rows.len() && (#[trigger] rows[k]).file_path@ == file_path && rows[k].agent_id@ == winning_agent_id
            && rows[k].unified_status@ == "pending"@;
    assert(push_candidate(rows[k0], file_path, winning_agent_id));
    lemma_first_candidate(rows, file_path, winning_agent_id, k0);
    let i0 = choose|i: int| 0 <= i <= k0 && push_candidate(#[trigger] rows[i], file_path, winning_agent_id) && forall|j: int|
        0 <= j < i ==> !push_candidate(#[trigger] rows[j], file_path, winning_agent_id);
    assert(after[i0].unified_status@ == "merged"@);
    assert forall|j: int| 0 <= j < i0 implies !push_candidate(#[trigger] after[j], file_path, winning_agent_id) by {
        assert(!push_candidate(rows[j], file_path, winning_agent_id));
        assert(after[j].unified_status@ == expected_after(rows[j], file_path, winning_agent_id));
    }
    assert(is_push_choice(after, file_path, winning_agent_id, Some(i0 as usize)));
    assert forall|k: int| 0 <= k < after.len() && (#[trigger] after[k]).file_path@ == file_path implies after[k].unified_status@
        != "pending"@ by {
        assert(after[k].unified_status@ == expected_after(rows[k], file_path, winning_agent_id));
    }
}

/// `r` is the unified entry `e` once its conflict is resolved in favour
/// of `winning_agent_id`: the winner is its source, no agent conflicts
/// with it, and it is clean.
pub open spec fn resolved_entry(e: UnifiedSandboxStateRow, winning_agent_id: Seq<char>, r: UnifiedSandboxStateRow) -> bool {
    &&& r.id == e.id
    &&& r.workspace_id == e.workspace_id
    &&& r.file_path == e.file_path
    &&& r.source_agent_id@ == winning_agent_id
    &&& r.conflict_agent_ids is None
    &&& r.status@ == "clean"@
    &&& r.last_updated_at == e.last_updated_at
}

/// The unified entry of `file_path` (the first listed) once its conflict
/// is resolved in favour of `winning_agent_id`; nothing when the file has
/// no entry.
pub fn resolve_unified_entry(rows: &Vec<UnifiedSandboxStateRow>, file_path: &str, winning_agent_id: &str) -> (r: Option<
    UnifiedSandboxStateRow,
>)
    ensures
        match r {
            Some(x) => exists|i: int|
                0 <= i < rows@.len() && (#[trigger] rows@[i]).file_path@ == file_path@ && (forall|k: int|
                    0 <= k < i ==> (#[trigger] rows@[k]).file_path@ != file_path@) && resolved_entry(rows@[i], winning_agent_id@, x),
            None => forall|k: int| 0 <= k < rows@.len() ==> (#[trigger] rows@[k]).file_path@ != file_path@,
        },
{
    let mut i: usize = 0;
    while i < rows.len()
        invariant
            i <= rows@.len(),
            forall|k: int| 0 <= k < i ==> (#[trigger] rows@[k]).file_path@ != file_path@,
        decreases rows@.len() - i,
    {
        let e = &rows[i];
        if str_eq(e.file_path.as_str(), file_path) {
            return Some(UnifiedSandboxStateRow {
                id: e.id.clone(),
                workspace_id: e.workspace_id.clone(),
                file_path: e.file_path.clone(),
                source_agent_id: winning_agent_id.to_owned(),
                conflict_agent_ids: None,
                status: "clean".to_owned(),
                last_updated_at: e.last_updated_at,
            });
        }
        i = i + 1;
    }
    None
}

/// Once a conflict over a file is resolved, its unified entry is pushed,
/// and the push, looking among the changes of the entry's source, writes
/// the winner's change, now merged.
pub proof fn law_resolved_entry_is_pushed(
    rows: Seq<AgentFileChangeRow>,
    winning_agent_id: Seq<char>,
    updates: Seq<StatusUpdate>,
    after: Seq<AgentFileChangeRow>,
    entry: UnifiedSandboxStateRow,
    resolved: UnifiedSandboxStateRow,
)
    requires
        rows.len() <= usize::MAX,
        forall|i: int, j: int| 0 <= i < j < rows.len() ==> (#[trigger] rows[i]).id@ != (#[trigger] rows[j]).id@,
        exists|k: int|
            0 <= k < rows.len() && (#[trigger] rows[k]).file_path@ == entry.file_path@ && rows[k].agent_id@ == winning_agent_id
                && rows[k].unified_status@ == "pending"@,
        resolves(rows, entry.file_path@, winning_agent_id, updates),
        applied(rows, updates, after),
        resolved_entry(entry, winning_agent_id, resolved),
    ensures
        resolved.status@ != "conflicted"@,
        exists|i: usize| #[trigger] is_push_choice(after, resolved.file_path@, resolved.source_agent_id@, Some(i))
            && after[i as int].agent_id@ == winning_agent_id && after[i as int].unified_status@ == "merged"@,
{
    reveal_strlit("clean");
    reveal_strlit("conflicted");
    assert("clean"@[1] != "conflicted"@[1]);
    law_resolve_then_push_takes_winner(rows, entry.file_path@, winning_agent_id, updates, after);
}

/// Two scans that found the same hashes show no change.
pub proof fn law_same_scan_no_changes(hashes: Map<Seq<char>, Seq<char>>, changes: Seq<PathChange>)
    requires
        lists_changes(changes, hashes, hashes),
    ensures
        changes.len() == 0,
{
    if changes.len() > 0 {
        assert(change_of(lookup(hashes, changes[0].path@), lookup(hashes, changes[0].path@)) == Some(changes[0].operation));
    }
}

/// Every path a scan reports differs between the two scans, and every
/// path that differs is reported.
pub proof fn law_scan_reports_exactly_differences(
    before: Map<Seq<char>, Seq<char>>,
    after: Map<Seq<char>, Seq<char>>,
    changes: Seq<PathChange>,
    p: Seq<char>,
)
    requires
        lists_changes(changes, before, after),
    ensures
        (exists|i: int| 0 <= i < changes.len() && #[trigger] changes[i].path@ == p) <==> lookup(before, p) != lookup(after, p),
{
    if exists|i: int| 0 <= i < changes.len() && #[trigger] changes[i].path@ == p {
        let i = choose|i: int| 0 <= i < changes.len() && #[trigger] changes[i].path@ == p;
        assert(change_of(lookup(before, changes[i].path@), lookup(after, changes[i].path@)) == Some(changes[i].operation));
    }
    if lookup(before, p) != lookup(after, p) {
        assert(change_of(lookup(before, p), lookup(after, p)) is Some);
    }
}

/// The sandbox an agent registers is the one its lookups find, with the
/// hashes and texts it was registered with; every other tracker stays as
/// it was, and the trackers grow by one unless the agent had one.
pub proof fn law_registered_sandbox_is_found(
    trackers: Map<Seq<char>, TrackerView>,
    workspace_id: Seq<char>,
    agent_id: Seq<char>,
    sandbox_path: Seq<char>,
    hashes: Map<Seq<char>, Seq<char>>,
    texts: Map<Seq<char>, Seq<char>>,
)
    requires
        trackers.dom().finite(),
    ensures
        ({
            let key = tracker_key(workspace_id, agent_id);
            let after = trackers.insert(
                key,
                TrackerView { workspace_id, agent_id, sandbox_path, file_hashes: hashes, file_texts: texts },
            );
            &&& after.contains_key(key)
            &&& after[key].sandbox_path == sandbox_path
            &&& after[key].file_hashes == hashes
            &&& after[key].file_texts == texts
            &&& forall|k: Seq<char>| k != key ==> (after.contains_key(k) == trackers.contains_key(k) && (trackers.contains_key(k) ==> after[k] == trackers[k]))
            &&& after.len() == trackers.len() + (if trackers.contains_key(key) { 0int } else { 1int })
        }),
{
}

/// A file of the unified sandbox is conflicted exactly when two different
/// agents have pending changes to it; the source is an agent that changed
/// it, and the conflicting agents are the others that did, each once.
pub proof fn law_conflicted_iff_several_agents(plan: UnifiedPlan, rows: Seq<AgentFileChangeRow>, path: Seq<char>)
    requires
        plans_file(plan, rows, path),
    ensures
        (plan.status@ == "conflicted"@) <==> exists|i: int, j: int|
            0 <= i < rows.len() && 0 <= j < rows.len() && (#[trigger] rows[i]).file_path@ == path && (#[trigger] rows[j]).file_path@
                == path && rows[i].agent_id@ != rows[j].agent_id@,
        exists|i: int| 0 <= i < rows.len() && (#[trigger] rows[i]).file_path@ == path && rows[i].agent_id@ == plan.source_agent_id@,
        views_of_strings(plan.conflict_agent_ids@).no_duplicates(),
        !views_of_strings(plan.conflict_agent_ids@).contains(plan.source_agent_id@),
        forall|a: Seq<char>| a != plan.source_agent_id@ ==> (views_of_strings(plan.conflict_agent_ids@).contains(a) <==> exists|i: int|
            0 <= i < rows.len() && (#[trigger] rows[i]).file_path@ == path && rows[i].agent_id@ == a),
{
    let agents = agents_for(rows, path);
    let conflicts = views_of_strings(plan.conflict_agent_ids@);
    lemma_agents_for(rows, path);
    assert(agents.contains(agents[0]));
    assert(conflicts =~= agents.skip(1));
    assert forall|a: Seq<char>| a != plan.source_agent_id@ implies (conflicts.contains(a) <==> agents.contains(a)) by {
        if agents.contains(a) {
            let k = choose|k: int| 0 <= k < agents.len() && agents[k] == a;
            assert(k != 0);
            assert(conflicts[k - 1] == a);
        }
    }
    assert forall|x: int, y: int| 0 <= x < y < conflicts.len() implies conflicts[x] != conflicts[y] by {
        assert(conflicts[x] == agents[x + 1]);
        assert(conflicts[y] == agents[y + 1]);
    }
    if conflicts.contains(plan.source_agent_id@) {
        let k = choose|k: int| 0 <= k < conflicts.len() && conflicts[k] == plan.source_agent_id@;
        assert(agents[k + 1] == agents[0]);
    }
    reveal_strlit("clean");
    reveal_strlit("conflicted");
    if agents.len() == 1 {
        assert("clean"@[1] != "conflicted"@[1]);
        if exists|i: int, j: int|
            0 <= i < rows.len() && 0 <= j < rows.len() && (#[trigger] rows[i]).file_path@ == path && (#[trigger] rows[j]).file_path@
                == path && rows[i].agent_id@ != rows[j].agent_id@ {
            let (i, j) = choose|i: int, j: int|
                0 <= i < rows.len() && 0 <= j < rows.len() && (#[trigger] rows[i]).file_path@ == path && (#[trigger] rows[j]).file_path@
                    == path && rows[i].agent_id@ != rows[j].agent_id@;
            assert(agents.contains(rows[i].agent_id@));
            assert(agents.contains(rows[j].agent_id@));
        }
    } else {
        assert(agents.contains(agents[1]));
        let i = choose|i: int| 0 <= i < rows.len() && (#[trigger] rows[i]).file_path@ == path && rows[i].agent_id@ == agents[0];
        let j = choose|j: int| 0 <= j < rows.len() && (#[trigger] rows[j]).file_path@ == path && rows[j].agent_id@ == agents[1];
        assert(rows[i].agent_id@ != rows[j].agent_id@);
    }
}

} // verus!
