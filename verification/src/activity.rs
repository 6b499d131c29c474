//! The activity log, what running a command gives back, and what is read
//! of a project's folder.
use vstd::prelude::*;
use crate::history::{after, stamped_id, stamped_token, TokenCounter};
use crate::model::{ActivityLogEntry, ProjectNode, ProjectState};
use crate::paths::{file_name, path_file_name, path_to_string, skipped_directory, should_skip_directory, strip_verbatim};
use crate::text::{chars_of, join_with, push_chars, push_str_chars, string_from_chars, trim, trim_str, views_of_strings};
use crate::order::{chars_lt, is_stable_order, stable_order, SortKey, key_le};

verus! {

/// The most entries the activity log keeps.
pub const ACTIVITY_LIMIT: usize = 120;

/// A new entry of the activity log, not tied to a workspace.
pub fn activity_entry(
    scope: &str,
    status: &str,
    command: &str,
    cwd: String,
    detail: Option<String>,
    now: i64,
    tokens: &mut TokenCounter,
) -> (e: ActivityLogEntry)
    ensures
        e.id@ == stamped_id(now, old(tokens).next),
        final(tokens).next == after(old(tokens).next),
        e.workspace_id is None,
        e.timestamp == now,
        e.scope@ == scope@,
        e.status@ == status@,
        e.command@ == command@,
        e.cwd == cwd,
        e.detail == detail,
{
    ActivityLogEntry {
        id: stamped_token(now, tokens),
        workspace_id: None,
        timestamp: now,
        scope: scope.to_owned(),
        status: status.to_owned(),
        command: command.to_owned(),
        cwd,
        detail,
    }
}

/// Puts an entry at the head of the activity log, which keeps its latest
/// entries only.
pub fn push_activity(log: &mut Vec<ActivityLogEntry>, entry: ActivityLogEntry)
    ensures
        final(log)@ == (seq![entry] + old(log)@).take(
            if old(log)@.len() + 1 > ACTIVITY_LIMIT { ACTIVITY_LIMIT as int } else { old(log)@.len() + 1int },
        ),
{
    let ghost before = log@;
    log.insert(0, entry);
    assert(log@ =~= seq![entry] + before);
    if log.len() > ACTIVITY_LIMIT {
        log.truncate(ACTIVITY_LIMIT);
    }
    proof {
        if before.len() + 1 <= ACTIVITY_LIMIT {
            assert((seq![entry] + before).take(before.len() + 1int) =~= seq![entry] + before);
        }
    }
}

/// The command line announced when git runs: `git -C {folder} {args}`.
pub open spec fn git_command_line(cwd: Seq<char>, args: Seq<Seq<char>>) -> Seq<char> {
    "git -C "@ + strip_verbatim(cwd) + seq![' '] + join_with(args, ' ')
}

/// The activity entry announcing that git starts in a folder.
pub fn git_activity_entry(cwd: &str, args: &Vec<String>, now: i64, tokens: &mut TokenCounter) -> (e: ActivityLogEntry)
    ensures
        e.id@ == stamped_id(now, old(tokens).next),
        final(tokens).next == after(old(tokens).next),
        e.workspace_id is None,
        e.timestamp == now,
        e.scope@ == "git"@,
        e.status@ == "started"@,
        e.command@ == git_command_line(cwd@, views_of_strings(args@)),
        e.cwd@ == strip_verbatim(cwd@),
        e.detail is None,
{
    let folder = path_to_string(cwd);
    let mut parts: Vec<Vec<char>> = Vec::new();
    let mut i: usize = 0;
    while i < args.len()
        invariant
            i <= args@.len(),
            crate::text::views(parts@) == views_of_strings(args@.take(i as int)),
        decreases args@.len() - i,
    {
        let ghost before = parts@;
        let piece = chars_of(args[i].as_str());
        parts.push(piece);
        i = i + 1;
        proof {
            assert(parts@ == before.push(piece));
            assert(crate::text::views(parts@) =~= crate::text::views(before).push(args@[i - 1]@));
            assert(views_of_strings(args@.take(i as int)) =~= views_of_strings(args@.take(i - 1)).push(args@[i - 1]@));
        }
    }
    assert(args@.take(args@.len() as int) =~= args@);
    let joined = crate::text::join_chars_with(&parts, ' ');
    let mut line = chars_of("git -C ");
    push_str_chars(&mut line, folder.as_str());
    line.push(' ');
    push_chars(&mut line, joined.as_slice());
    let command = string_from_chars(line.as_slice());
    ActivityLogEntry {
        id: stamped_token(now, tokens),
        workspace_id: None,
        timestamp: now,
        scope: "git".to_owned(),
        status: "started".to_owned(),
        command,
        cwd: folder,
        detail: None,
    }
}

/// What a finished command gives back: its output, trimmed, when it
/// succeeded; otherwise its error output, trimmed, or its output when
/// the error output is blank.
pub fn command_outcome(success: bool, stdout: &str, stderr: &str) -> (r: Result<String, String>)
    ensures
        success ==> (r matches Ok(o) && o@ == trim(stdout@)),
        !success ==> (r matches Err(e) && e@ == (if trim(stderr@).len() > 0 { trim(stderr@) } else { trim(stdout@) })),
{
    let out = trim_str(stdout);
    if success {
        return Ok(string_from_chars(out.as_slice()));
    }
    let err = trim_str(stderr);
    if err.len() > 0 {
        Err(string_from_chars(err.as_slice()))
    } else {
        Err(string_from_chars(out.as_slice()))
    }
}

/// The address of the repository's `origin`, when git gave a non-blank
/// one.
pub fn repo_url_from(raw: &str) -> (r: Option<String>)
    ensures
        trim(raw@).len() > 0 ==> (r matches Some(u) && u@ == trim(raw@)),
        trim(raw@).len() == 0 ==> r is None,
{
    let t = trim_str(raw);
    if t.len() == 0 {
        None
    } else {
        Some(string_from_chars(t.as_slice()))
    }
}

/// The project found at a folder: its name is the folder's last
/// component, and its branch is kept only when git named one.
pub fn project_state_from(root: &str, branch: Option<String>, is_git_repo: bool, tree: Vec<ProjectNode>) -> (p: ProjectState)
    ensures
        p.path matches Some(s) && s@ == strip_verbatim(root@),
        match file_name(root@) {
            Some(n) => p.name matches Some(s) && s@ == n,
            None => p.name is None,
        },
        match branch {
            Some(b) => if b@.len() > 0 { p.branch == Some(b) } else { p.branch is None },
            None => p.branch is None,
        },
        p.is_git_repo == is_git_repo,
        p.tree == tree,
{
    let branch = match branch {
        Some(b) => if b.as_str().unicode_len() > 0 { Some(b) } else { None },
        None => None,
    };
    ProjectState { path: Some(path_to_string(root)), name: path_file_name(root), branch, is_git_repo, tree }
}

/// The most entries a folder shows in the project tree.
pub const TREE_ENTRY_LIMIT: usize = 28;

/// How deep the project tree goes below the project folder.
pub const TREE_DEPTH: usize = 3;

/// An entry of a folder as read from the disk.
#[derive(Debug)]
pub struct DirEntryInfo {
    pub name: String,
    pub is_dir: bool,
}

/// `a` is listed before `b` in the project tree: folders first, then by
/// name.
pub open spec fn tree_before(a: DirEntryInfo, b: DirEntryInfo) -> bool {
    (a.is_dir && !b.is_dir) || (a.is_dir == b.is_dir && chars_lt(a.name@, b.name@))
}

/// The entries of a folder the project tree shows, as indices into
/// `entries`: not the skipped folders' names, folders first, then by
/// name, at most the limit.
pub fn arrange_tree_entries(entries: &Vec<DirEntryInfo>) -> (order: Vec<usize>)
    ensures
        order@.len() <= TREE_ENTRY_LIMIT,
        forall|i: int| 0 <= i < order@.len() ==> order@[i] < entries@.len() && !skipped_directory(
            #[trigger] entries@[order@[i] as int].name@,
        ),
        forall|i: int, j: int| #![trigger order@[i], order@[j]] 0 <= i < j < order@.len() ==> order@[i] != order@[j],
        forall|i: int, j: int| #![trigger order@[i], order@[j]] 0 <= i < j < order@.len() ==> !tree_before(
            entries@[order@[j] as int],
            entries@[order@[i] as int],
        ),
        forall|k: int| 0 <= k < entries@.len() && !skipped_directory(#[trigger] entries@[k].name@) && !(exists|i: int|
            0 <= i < order@.len() && order@[i] == k) ==> order@.len() == TREE_ENTRY_LIMIT && forall|i: int|
            0 <= i < order@.len() ==> !tree_before(entries@[k], #[trigger] entries@[order@[i] as int]),
{
    let mut kept: Vec<usize> = Vec::new();
    let mut keys: Vec<SortKey> = Vec::new();
    let mut i: usize = 0;
    while i < entries.len()
        invariant
            i <= entries@.len(),
            kept@.len() == keys@.len(),
            forall|m: int| 0 <= m < kept@.len() ==> #[trigger] kept@[m] < i && !skipped_directory(entries@[kept@[m] as int].name@)
                && keys@[m].major == (if entries@[kept@[m] as int].is_dir { 0int } else { 1int }) && keys@[m].minor == 0
                && keys@[m].text@ == entries@[kept@[m] as int].name@,
            forall|a: int, b: int| 0 <= a < b < kept@.len() ==> kept@[a] < kept@[b],
            forall|k: int| 0 <= k < i && !skipped_directory(#[trigger] entries@[k].name@) ==> exists|m: int|
                0 <= m < kept@.len() && kept@[m] == k,
        decreases entries@.len() - i,
    {
        if !should_skip_directory(entries[i].name.as_str()) {
            let ghost before = kept@;
            kept.push(i);
            keys.push(SortKey {
                major: if entries[i].is_dir { 0 } else { 1 },
                minor: 0,
                text: chars_of(entries[i].name.as_str()),
            });
            proof {
                assert forall|k: int| 0 <= k < i + 1 && !skipped_directory(#[trigger] entries@[k].name@) implies exists|m: int|
                    0 <= m < kept@.len() && kept@[m] == k by {
                    if k < i {
                        let m = choose|m: int| 0 <= m < before.len() && before[m] == k;
                        assert(kept@[m] == k);
                    } else {
                        assert(kept@[kept@.len() - 1] == k);
                    }
                }
            }
        }
        i = i + 1;
    }
    let sorted = stable_order(&keys);
    let limit = if sorted.len() < TREE_ENTRY_LIMIT { sorted.len() } else { TREE_ENTRY_LIMIT };
    let mut order: Vec<usize> = Vec::new();
    let mut m: usize = 0;
    while m < limit
        invariant
            limit <= sorted@.len(),
            limit <= TREE_ENTRY_LIMIT,
            is_stable_order(keys@, sorted@),
            kept@.len() == keys@.len(),
            m <= limit,
            order@.len() == m,
            forall|t: int| 0 <= t < m ==> #[trigger] order@[t] == kept@[sorted@[t] as int],
        decreases limit - m,
    {
        order.push(kept[sorted[m]]);
        m = m + 1;
    }
    proof {
        assert forall|t: int| 0 <= t < order@.len() implies order@[t] < entries@.len() && !skipped_directory(
            #[trigger] entries@[order@[t] as int].name@,
        ) by {
            let q = sorted@[t] as int;
            assert(kept@[q] < entries@.len());
        }
        assert forall|i: int, j: int| #![trigger order@[i], order@[j]] 0 <= i < j < order@.len() implies order@[i] != order@[j] by {
            let a = sorted@[i] as int;
            let b = sorted@[j] as int;
            assert(a != b);
            if a < b {
                assert(kept@[a] < kept@[b]);
            } else {
                assert(kept@[b] < kept@[a]);
            }
        }
        assert forall|i: int, j: int| #![trigger order@[i], order@[j]] 0 <= i < j < order@.len() implies !tree_before(
            entries@[order@[j] as int],
            entries@[order@[i] as int],
        ) by {
            let a = sorted@[i] as int;
            let b = sorted@[j] as int;
            assert(key_le(keys@[a], keys@[b]));
            assert(keys@[a].text@ == entries@[kept@[a] as int].name@);
            assert(keys@[b].text@ == entries@[kept@[b] as int].name@);
        }
        assert forall|k: int| 0 <= k < entries@.len() && !skipped_directory(#[trigger] entries@[k].name@) && !(exists|i: int|
            0 <= i < order@.len() && order@[i] == k) implies order@.len() == TREE_ENTRY_LIMIT && forall|i: int|
            0 <= i < order@.len() ==> !tree_before(entries@[k], #[trigger] entries@[order@[i] as int]) by {
            let m0 = choose|m: int| 0 <= m < kept@.len() && kept@[m] == k;
            crate::order::lemma_stable_order_covers(keys@, sorted@, m0);
            let p = choose|p: int| 0 <= p < sorted@.len() && sorted@[p] == m0;
            if p < limit {
                assert(order@[p] == k);
            }
            assert forall|i: int| 0 <= i < order@.len() implies !tree_before(entries@[k], #[trigger] entries@[order@[i] as int]) by {
                let a = sorted@[i] as int;
                assert(i < p);
                assert(key_le(keys@[a], keys@[m0]));
                assert(keys@[a].text@ == entries@[kept@[a] as int].name@);
                assert(keys@[m0].text@ == entries@[k].name@);
            }
        }
    }
    order
}

} // verus!
