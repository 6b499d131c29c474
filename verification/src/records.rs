//! The history the database keeps — commands, file changes, audit events
//! and snapshots — as the user sees it, and its CSV export.
use vstd::prelude::*;
use crate::model::WorkspaceContext;
use crate::rows::{AuditLogRow, CommandHistoryRow, FileChangeRow, WorkspaceSnapshotRow};
use crate::text::{chars_of, clone_opt, decimal_int, i64_decimal, join_with, push_chars, push_str_chars, str_eq, string_from_chars, trim, trim_str};
use crate::order::{is_stable_order, stable_order, SortKey, chars_lt, key_eq, key_le, lemma_chars_lt_irreflexive};
use crate::hashing::{base64_bytes, base64_text, decode_base64, encode_base64};
use crate::history::{after, token_text, TokenCounter};

verus! {

/// A command of a session, as the user sees it.
#[derive(Debug)]
pub struct CommandHistoryEntry {
    pub id: i64,
    pub session_id: String,
    pub workspace_id: String,
    pub command: String,
    pub timestamp: i64,
    pub source: String,
    pub exit_code: Option<i32>,
    pub duration_ms: Option<i64>,
    pub cwd: Option<String>,
}

/// A change of a file, as the user sees it.
#[derive(Debug)]
pub struct FileChangeEntry {
    pub id: i64,
    pub session_id: String,
    pub workspace_id: String,
    pub file_path: String,
    pub change_type: String,
    pub before_hash: Option<String>,
    pub after_hash: Option<String>,
    pub timestamp: i64,
    pub file_size: Option<i64>,
}

/// An audit event, as the user sees it.
#[derive(Debug)]
pub struct AuditLogEntry {
    pub id: i64,
    pub workspace_id: Option<String>,
    pub session_id: Option<String>,
    pub tab_id: Option<String>,
    pub timestamp: i64,
    pub action_type: String,
    pub resource_type: String,
    pub resource_id: String,
    pub details: Option<String>,
    pub user_id: Option<String>,
}

/// A snapshot of a workspace, as the user sees it.
#[derive(Debug)]
pub struct SnapshotSummary {
    pub id: String,
    pub workspace_id: String,
    pub name: String,
    pub description: Option<String>,
    pub created_at: i64,
    pub file_count: i64,
    pub session_count: i64,
}

/// A stored command as the user sees it.
pub fn command_history_entry_from_row(row: CommandHistoryRow) -> (e: CommandHistoryEntry)
    ensures
        e.id == row.id,
        e.session_id == row.session_id,
        e.workspace_id == row.workspace_id,
        e.command == row.command_text,
        e.timestamp == row.timestamp,
        e.source == row.source,
        e.exit_code == (match row.exit_code {
            Some(v) => Some(v as i32),
            None => None,
        }),
        e.duration_ms == row.duration_ms,
        e.cwd == row.cwd,
{
    CommandHistoryEntry {
        id: row.id,
        session_id: row.session_id,
        workspace_id: row.workspace_id,
        command: row.command_text,
        timestamp: row.timestamp,
        source: row.source,
        exit_code: match row.exit_code {
            Some(v) => Some(v as i32),
            None => None,
        },
        duration_ms: row.duration_ms,
        cwd: row.cwd,
    }
}

/// A stored file change as the user sees it.
pub fn file_change_entry_from_row(row: FileChangeRow) -> (e: FileChangeEntry)
    ensures
        e.id == row.id,
        e.session_id == row.session_id,
        e.workspace_id == row.workspace_id,
        e.file_path == row.file_path,
        e.change_type == row.change_type,
        e.before_hash == row.before_hash,
        e.after_hash == row.after_hash,
        e.timestamp == row.timestamp,
        e.file_size == row.file_size,
{
    FileChangeEntry {
        id: row.id,
        session_id: row.session_id,
        workspace_id: row.workspace_id,
        file_path: row.file_path,
        change_type: row.change_type,
        before_hash: row.before_hash,
        after_hash: row.after_hash,
        timestamp: row.timestamp,
        file_size: row.file_size,
    }
}

/// A stored audit event as the user sees it.
pub fn audit_log_entry_from_row(row: AuditLogRow) -> (e: AuditLogEntry)
    ensures
        e.id == row.id,
        e.workspace_id == row.workspace_id,
        e.session_id == row.session_id,
        e.tab_id == row.tab_id,
        e.timestamp == row.timestamp,
        e.action_type == row.action_type,
        e.resource_type == row.resource_type,
        e.resource_id == row.resource_id,
        e.details == row.details,
        e.user_id == row.user_id,
{
    AuditLogEntry {
        id: row.id,
        workspace_id: row.workspace_id,
        session_id: row.session_id,
        tab_id: row.tab_id,
        timestamp: row.timestamp,
        action_type: row.action_type,
        resource_type: row.resource_type,
        resource_id: row.resource_id,
        details: row.details,
        user_id: row.user_id,
    }
}

/// A stored snapshot as the user sees it (without its data).
pub fn snapshot_summary_from_row(row: &WorkspaceSnapshotRow) -> (s: SnapshotSummary)
    ensures
        s.id == row.id,
        s.workspace_id == row.workspace_id,
        s.name == row.name,
        s.description == row.description,
        s.created_at == row.created_at,
        s.file_count == row.file_count,
        s.session_count == row.session_count,
{
    SnapshotSummary {
        id: row.id.clone(),
        workspace_id: row.workspace_id.clone(),
        name: row.name.clone(),
        description: clone_opt(&row.description),
        created_at: row.created_at,
        file_count: row.file_count,
        session_count: row.session_count,
    }
}

/// `s` with each `"` doubled.
pub open spec fn double_quotes(s: Seq<char>) -> Seq<char>
    decreases s.len(),
{
    if s.len() == 0 {
        Seq::empty()
    } else {
        double_quotes(s.drop_last()) + if s.last() == '"' { seq!['"', '"'] } else { seq![s.last()] }
    }
}

/// A CSV field: quoted, with quotes inside doubled.
pub open spec fn csv_field(s: Seq<char>) -> Seq<char> {
    seq!['"'] + double_quotes(s) + seq!['"']
}

fn push_csv_field(out: &mut Vec<char>, value: &str)
    ensures
        final(out)@ == old(out)@ + csv_field(value@),
{
    let cs = chars_of(value);
    let ghost start = out@;
    out.push('"');
    let mut i: usize = 0;
    while i < cs.len()
        invariant
            i <= cs@.len(),
            cs@ == value@,
            out@ == start + seq!['"'] + double_quotes(cs@.take(i as int)),
        decreases cs@.len() - i,
    {
        proof {
            assert(cs@.take(i + 1).drop_last() =~= cs@.take(i as int));
        }
        let c = cs[i];
        if c == '"' {
            out.push('"');
            out.push('"');
        } else {
            out.push(c);
        }
        i = i + 1;
        proof {
            assert(out@ =~= start + seq!['"'] + double_quotes(cs@.take(i as int)));
        }
    }
    out.push('"');
    assert(cs@.take(cs@.len() as int) =~= value@);
    assert(out@ =~= start + csv_field(value@));
}

/// Quotes a value for CSV, doubling the quotes inside it.
pub fn csv_escape(value: &str) -> (r: String)
    ensures
        r@ == csv_field(value@),
{
    let mut out: Vec<char> = Vec::new();
    push_csv_field(&mut out, value);
    assert(out@ =~= csv_field(value@));
    string_from_chars(out.as_slice())
}

/// The text of an optional value: empty when there is none.
pub open spec fn or_empty(o: Option<String>) -> Seq<char> {
    match o {
        Some(s) => s@,
        None => Seq::empty(),
    }
}

/// The header line of the CSV export.
pub open spec fn audit_csv_header() -> Seq<char> {
    "id,workspace_id,session_id,tab_id,timestamp,action_type,resource_type,resource_id,details,user_id"@
}

/// One audit event as a CSV line: numbers bare, every text quoted.
pub open spec fn audit_csv_line(e: AuditLogEntry) -> Seq<char> {
    decimal_int(e.id as int) + seq![','] + csv_field(or_empty(e.workspace_id)) + seq![','] + csv_field(
        or_empty(e.session_id),
    ) + seq![','] + csv_field(or_empty(e.tab_id)) + seq![','] + decimal_int(e.timestamp as int) + seq![',']
        + csv_field(e.action_type@) + seq![','] + csv_field(e.resource_type@) + seq![','] + csv_field(
        e.resource_id@,
    ) + seq![','] + csv_field(or_empty(e.details)) + seq![','] + csv_field(or_empty(e.user_id))
}

fn opt_str(o: &Option<String>) -> (r: &str)
    ensures
        r@ == or_empty(*o),
{
    match o {
        Some(s) => s.as_str(),
        None => {
            proof {
                reveal_strlit("");
            }
            ""
        },
    }
}

fn audit_line(e: &AuditLogEntry) -> (out: Vec<char>)
    ensures
        out@ == audit_csv_line(*e),
{
    let mut out = i64_decimal(e.id);
    out.push(',');
    push_csv_field(&mut out, opt_str(&e.workspace_id));
    out.push(',');
    push_csv_field(&mut out, opt_str(&e.session_id));
    out.push(',');
    push_csv_field(&mut out, opt_str(&e.tab_id));
    out.push(',');
    let ts = i64_decimal(e.timestamp);
    push_chars(&mut out, ts.as_slice());
    out.push(',');
    push_csv_field(&mut out, e.action_type.as_str());
    out.push(',');
    push_csv_field(&mut out, e.resource_type.as_str());
    out.push(',');
    push_csv_field(&mut out, e.resource_id.as_str());
    out.push(',');
    push_csv_field(&mut out, opt_str(&e.details));
    out.push(',');
    push_csv_field(&mut out, opt_str(&e.user_id));
    assert(out@ =~= audit_csv_line(*e));
    out
}

/// The lines of the CSV export: the header, then one line per event.
pub open spec fn audit_csv_lines(entries: Seq<AuditLogEntry>) -> Seq<Seq<char>> {
    seq![audit_csv_header()] + Seq::new(entries.len(), |i: int| audit_csv_line(entries[i]))
}

/// The audit events as CSV: a header line, then one line per event, the
/// lines joined with `\n`.
pub fn audit_log_csv(entries: &Vec<AuditLogEntry>) -> (csv: String)
    ensures
        csv@ == join_with(audit_csv_lines(entries@), '\n'),
{
    let mut lines: Vec<Vec<char>> = Vec::new();
    lines.push(chars_of("id,workspace_id,session_id,tab_id,timestamp,action_type,resource_type,resource_id,details,user_id"));
    let mut i: usize = 0;
    while i < entries.len()
        invariant
            i <= entries@.len(),
            crate::text::views(lines@) == audit_csv_lines(entries@.take(i as int)),
        decreases entries@.len() - i,
    {
        let line = audit_line(&entries[i]);
        let ghost before = lines@;
        lines.push(line);
        i = i + 1;
        proof {
            assert(crate::text::views(lines@) =~= crate::text::views(before).push(audit_csv_line(entries@[i - 1])));
            assert(audit_csv_lines(entries@.take(i as int)) =~= audit_csv_lines(entries@.take(i - 1)).push(
                audit_csv_line(entries@[i - 1]),
            ));
        }
    }
    assert(entries@.take(entries@.len() as int) =~= entries@);
    let joined = crate::text::join_chars_with(&lines, '\n');
    string_from_chars(joined.as_slice())
}

/// Whether the export asks for CSV: the format `csv` in any case of
/// its letters (JSON otherwise, and when no format is given).
pub fn wants_csv(format: Option<&str>) -> (r: bool)
    ensures
        r == (match format {
            Some(f) => f@ =~= seq!['c', 's', 'v'] || f@ =~= seq!['c', 's', 'V'] || f@ =~= seq!['c', 'S', 'v']
                || f@ =~= seq!['c', 'S', 'V'] || f@ =~= seq!['C', 's', 'v'] || f@ =~= seq!['C', 's', 'V']
                || f@ =~= seq!['C', 'S', 'v'] || f@ =~= seq!['C', 'S', 'V'],
            None => false,
        }),
{
    match format {
        Some(f) => {
            let cs = chars_of(f);
            let r = cs.len() == 3 && (cs[0] == 'c' || cs[0] == 'C') && (cs[1] == 's' || cs[1] == 'S') && (cs[2] == 'v'
                || cs[2] == 'V');
            proof {
                if cs@.len() == 3 {
                    assert(cs@ =~= seq![cs@[0], cs@[1], cs@[2]]);
                }
            }
            r
        },
        None => false,
    }
}

/// A file kept in a snapshot: its path and its bytes in base64.
#[derive(Debug)]
pub struct StoredSnapshotFile {
    pub path: String,
    pub content_base64: String,
}

/// A file's bytes, kept for a snapshot.
pub fn snapshot_file(path: String, bytes: &[u8]) -> (f: StoredSnapshotFile)
    requires
        bytes@.len() <= usize::MAX / 2,
    ensures
        f.path == path,
        f.content_base64@ == base64_text(bytes@),
{
    StoredSnapshotFile { path, content_base64: encode_base64(bytes) }
}

/// The bytes a snapshot keeps of a file, or the decoding error. A file
/// kept by `snapshot_file` gives back the bytes it was made from.
pub fn snapshot_file_bytes(f: &StoredSnapshotFile) -> (r: Result<Vec<u8>, String>)
    ensures
        r matches Ok(b) ==> base64_bytes(f.content_base64@) == Some(b@),
        r is Err ==> base64_bytes(f.content_base64@) is None,
        forall|b: Seq<u8>| #[trigger] base64_text(b) == f.content_base64@ ==> (r matches Ok(x) && x@ == b),
{
    decode_base64(f.content_base64.as_str())
}

/// The files of a snapshot in ascending order of path (equal paths keep
/// their order).
pub fn sort_snapshot_files(files: Vec<StoredSnapshotFile>) -> (out: Vec<StoredSnapshotFile>)
    ensures
        out@.len() == files@.len(),
        forall|i: int, j: int| 0 <= i < j < out@.len() ==> !chars_lt(out@[j].path@, out@[i].path@),
        exists|order: Seq<usize>| #[trigger] permutes(order, files@, out@) && keeps_order_of_equal_paths(order, out@),
{
    let mut keys: Vec<SortKey> = Vec::new();
    let mut i: usize = 0;
    while i < files.len()
        invariant
            i <= files@.len(),
            keys@.len() == i,
            forall|k: int| 0 <= k < i ==> #[trigger] keys@[k].major == 0 && keys@[k].minor == 0 && keys@[k].text@
                == files@[k].path@,
        decreases files@.len() - i,
    {
        keys.push(SortKey { major: 0, minor: 0, text: chars_of(files[i].path.as_str()) });
        i = i + 1;
    }
    let order = stable_order(&keys);
    let mut out: Vec<StoredSnapshotFile> = Vec::new();
    let mut m: usize = 0;
    while m < order.len()
        invariant
            is_stable_order(keys@, order@),
            keys@.len() == files@.len(),
            m <= order@.len(),
            out@.len() == m,
            forall|k: int| 0 <= k < m ==> #[trigger] out@[k] == files@[order@[k] as int],
        decreases order@.len() - m,
    {
        let f = &files[order[m]];
        out.push(StoredSnapshotFile { path: f.path.clone(), content_base64: f.content_base64.clone() });
        m = m + 1;
    }
    proof {
        assert forall|i: int, j: int| 0 <= i < j < out@.len() implies !chars_lt(out@[j].path@, out@[i].path@) by {
            let a = order@[i] as int;
            let b = order@[j] as int;
            assert(key_le(keys@[a], keys@[b]));
            assert(keys@[a].text@ == files@[a].path@);
            assert(keys@[b].text@ == files@[b].path@);
        }
        assert(permutes(order@, files@, out@));
        assert forall|i: int, j: int| 0 <= i < j < out@.len() && out@[i].path@ == out@[j].path@ implies order@[i]
            < order@[j] by {
            let a = order@[i] as int;
            let b = order@[j] as int;
            lemma_chars_lt_irreflexive(out@[i].path@);
            assert(key_eq(keys@[a], keys@[b]));
        }
        assert(keeps_order_of_equal_paths(order@, out@));
    }
    out
}

/// Files with the same path stay in the order they came in.
pub open spec fn keeps_order_of_equal_paths(order: Seq<usize>, out: Seq<StoredSnapshotFile>) -> bool {
    forall|i: int, j: int| 0 <= i < j < out.len() && out[i].path@ == out[j].path@ ==> order[i] < order[j]
}

/// `out` lists the elements of `items` in the order `order` picks, which
/// takes each index once.
pub open spec fn permutes<T>(order: Seq<usize>, items: Seq<T>, out: Seq<T>) -> bool {
    &&& order.len() == items.len()
    &&& out.len() == items.len()
    &&& forall|i: int| 0 <= i < order.len() ==> order[i] < items.len()
    &&& forall|i: int, j: int| #![trigger order[i], order[j]] 0 <= i < j < order.len() ==> order[i] != order[j]
    &&& forall|i: int| 0 <= i < order.len() ==> #[trigger] out[i] == items[order[i] as int]
}

/// The files of the project to delete when restoring a snapshot: those
/// the snapshot does not hold, in the order listed.
pub fn files_to_remove(current_files: &Vec<String>, snapshot: &Vec<StoredSnapshotFile>) -> (out: Vec<String>)
    ensures
        out@ == current_files@.filter(|p: String| !in_snapshot(snapshot@, p@)),
{
    let mut out: Vec<String> = Vec::new();
    let mut i: usize = 0;
    while i < current_files.len()
        invariant
            i <= current_files@.len(),
            out@ == current_files@.take(i as int).filter(|p: String| !in_snapshot(snapshot@, p@)),
        decreases current_files@.len() - i,
    {
        let path = &current_files[i];
        let mut found = false;
        let mut k: usize = 0;
        while k < snapshot.len()
            invariant
                k <= snapshot@.len(),
                found == exists|m: int| 0 <= m < k && #[trigger] snapshot@[m].path@ == path@,
            decreases snapshot@.len() - k,
        {
            if str_eq(snapshot[k].path.as_str(), path.as_str()) {
                found = true;
            }
            k = k + 1;
        }
        proof {
            assert(current_files@.take(i + 1).drop_last() =~= current_files@.take(i as int));
            reveal(Seq::filter);
            assert(current_files@.take(i + 1).last() == current_files@[i as int]);
        }
        if !found {
            out.push(path.clone());
        }
        i = i + 1;
    }
    assert(current_files@.take(current_files@.len() as int) =~= current_files@);
    out
}

/// The snapshot holds a file at `path`.
pub open spec fn in_snapshot(files: Seq<StoredSnapshotFile>, path: Seq<char>) -> bool {
    exists|m: int| 0 <= m < files.len() && #[trigger] files[m].path@ == path
}

/// The folder a snapshot is taken of: the workspace's project.
pub fn snapshot_project_root(workspace: &WorkspaceContext) -> (r: Result<String, String>)
    ensures
        match workspace.project.path {
            Some(p) => r matches Ok(q) && q == p,
            None => r matches Err(e) && e@ == "Workspace project path is unavailable."@,
        },
{
    match &workspace.project.path {
        Some(p) => Ok(p.clone()),
        None => Err("Workspace project path is unavailable.".to_owned()),
    }
}

/// The folder a snapshot is restored into: the workspace's project, or
/// the one the snapshot was taken of.
pub fn snapshot_restore_root(workspace: &WorkspaceContext, stored_path: Option<String>) -> (r: Result<String, String>)
    ensures
        match workspace.project.path {
            Some(p) => r matches Ok(q) && q == p,
            None => match stored_path {
                Some(p) => r matches Ok(q) && q == p,
                None => r matches Err(e) && e@ == "Workspace project path is unavailable."@,
            },
        },
{
    match &workspace.project.path {
        Some(p) => Ok(p.clone()),
        None => match stored_path {
            Some(p) => Ok(p),
            None => Err("Workspace project path is unavailable.".to_owned()),
        },
    }
}

/// A new snapshot of a workspace: `snapshot-` and a token as its id, its
/// name trimmed, its description trimmed and left out when blank, with
/// the number of files kept and of sessions of the workspace.
pub fn new_snapshot_summary(
    workspace: &WorkspaceContext,
    name: &str,
    description: Option<String>,
    file_count: usize,
    now: i64,
    tokens: &mut TokenCounter,
) -> (s: SnapshotSummary)
    requires
        file_count <= i64::MAX,
        workspace.session_ids@.len() <= i64::MAX,
    ensures
        s.id@ == "snapshot-"@ + token_text(old(tokens).next),
        final(tokens).next == after(old(tokens).next),
        s.workspace_id == workspace.id,
        s.name@ == trim(name@),
        match description {
            Some(d) => if trim(d@).len() == 0 {
                s.description is None
            } else {
                s.description matches Some(t) && t@ == trim(d@)
            },
            None => s.description is None,
        },
        s.created_at == now,
        s.file_count == file_count,
        s.session_count == workspace.session_ids@.len(),
{
    let token = tokens.create_token();
    let mut id = chars_of("snapshot-");
    push_str_chars(&mut id, token.as_str());
    let trimmed_name = trim_str(name);
    let description = match description {
        Some(d) => {
            let t = trim_str(d.as_str());
            if t.len() == 0 {
                None
            } else {
                Some(string_from_chars(t.as_slice()))
            }
        },
        None => None,
    };
    SnapshotSummary {
        id: string_from_chars(id.as_slice()),
        workspace_id: workspace.id.clone(),
        name: string_from_chars(trimmed_name.as_slice()),
        description,
        created_at: now,
        file_count: file_count as i64,
        session_count: workspace.session_ids.len() as i64,
    }
}

/// The columns of the CSV export, in order.
pub open spec fn audit_columns() -> Seq<Seq<char>> {
    seq![
        "id"@,
        "workspace_id"@,
        "session_id"@,
        "tab_id"@,
        "timestamp"@,
        "action_type"@,
        "resource_type"@,
        "resource_id"@,
        "details"@,
        "user_id"@,
    ]
}

/// The field an event gives under a column of the export, by the column's
/// name: its id and time bare, its texts quoted (an absent one empty).
pub open spec fn audit_field(e: AuditLogEntry, column: Seq<char>) -> Seq<char> {
    if column == "id"@ {
        decimal_int(e.id as int)
    } else if column == "workspace_id"@ {
        csv_field(or_empty(e.workspace_id))
    } else if column == "session_id"@ {
        csv_field(or_empty(e.session_id))
    } else if column == "tab_id"@ {
        csv_field(or_empty(e.tab_id))
    } else if column == "timestamp"@ {
        decimal_int(e.timestamp as int)
    } else if column == "action_type"@ {
        csv_field(e.action_type@)
    } else if column == "resource_type"@ {
        csv_field(e.resource_type@)
    } else if column == "resource_id"@ {
        csv_field(e.resource_id@)
    } else if column == "details"@ {
        csv_field(or_empty(e.details))
    } else if column == "user_id"@ {
        csv_field(or_empty(e.user_id))
    } else {
        Seq::empty()
    }
}

/// The header of the export names its columns, separated by commas, and
/// each event's line holds, column after column, the field the event gives
/// under that column's name.
pub proof fn law_audit_line_follows_header(e: AuditLogEntry)
    ensures
        join_with(audit_columns(), ',') == audit_csv_header(),
        audit_csv_line(e) == join_with(Seq::new(10, |k: int| audit_field(e, audit_columns()[k])), ','),
{
    reveal_strlit("id");
    reveal_strlit("workspace_id");
    reveal_strlit("session_id");
    reveal_strlit("tab_id");
    reveal_strlit("timestamp");
    reveal_strlit("action_type");
    reveal_strlit("resource_type");
    reveal_strlit("resource_id");
    reveal_strlit("details");
    reveal_strlit("user_id");
    reveal_strlit("id,workspace_id,session_id,tab_id,timestamp,action_type,resource_type,resource_id,details,user_id");
    let cols = audit_columns();
    assert(cols[0] == "id"@);
    assert(cols[1] == "workspace_id"@);
    assert(cols[2] == "session_id"@);
    assert(cols[3] == "tab_id"@);
    assert(cols[4] == "timestamp"@);
    assert(cols[5] == "action_type"@);
    assert(cols[6] == "resource_type"@);
    assert(cols[7] == "resource_id"@);
    assert(cols[8] == "details"@);
    assert(cols[9] == "user_id"@);
    lemma_columns_distinct();
    let f = Seq::new(10, |k: int| audit_field(e, audit_columns()[k]));
    assert(f[0] == decimal_int(e.id as int));
    assert(f[1] == csv_field(or_empty(e.workspace_id)));
    assert(f[2] == csv_field(or_empty(e.session_id)));
    assert(f[3] == csv_field(or_empty(e.tab_id)));
    assert(f[4] == decimal_int(e.timestamp as int));
    assert(f[5] == csv_field(e.action_type@));
    assert(f[6] == csv_field(e.resource_type@));
    assert(f[7] == csv_field(e.resource_id@));
    assert(f[8] == csv_field(or_empty(e.details)));
    assert(f[9] == csv_field(or_empty(e.user_id)));
    lemma_join_ten(cols, ',');
    lemma_join_ten(f, ',');
    assert(join_with(f, ',') == audit_csv_line(e));
    let h = audit_csv_header();
    let j = join_with(cols, ',');
    assert(j.len() == h.len());
    assert forall|i: int| 0 <= i < h.len() implies j[i] == h[i] by {}
    assert(j =~= h);
}

proof fn lemma_columns_distinct()
    ensures
        "id"@ != "workspace_id"@,
        "id"@ != "session_id"@,
        "id"@ != "tab_id"@,
        "id"@ != "timestamp"@,
        "id"@ != "action_type"@,
        "id"@ != "resource_type"@,
        "id"@ != "resource_id"@,
        "id"@ != "details"@,
        "id"@ != "user_id"@,
        "workspace_id"@ != "session_id"@,
        "workspace_id"@ != "tab_id"@,
        "workspace_id"@ != "timestamp"@,
        "workspace_id"@ != "action_type"@,
        "workspace_id"@ != "resource_type"@,
        "workspace_id"@ != "resource_id"@,
        "workspace_id"@ != "details"@,
        "workspace_id"@ != "user_id"@,
        "session_id"@ != "tab_id"@,
        "session_id"@ != "timestamp"@,
        "session_id"@ != "action_type"@,
        "session_id"@ != "resource_type"@,
        "session_id"@ != "resource_id"@,
        "session_id"@ != "details"@,
        "session_id"@ != "user_id"@,
        "tab_id"@ != "timestamp"@,
        "tab_id"@ != "action_type"@,
        "tab_id"@ != "resource_type"@,
        "tab_id"@ != "resource_id"@,
        "tab_id"@ != "details"@,
        "tab_id"@ != "user_id"@,
        "timestamp"@ != "action_type"@,
        "timestamp"@ != "resource_type"@,
        "timestamp"@ != "resource_id"@,
        "timestamp"@ != "details"@,
        "timestamp"@ != "user_id"@,
        "action_type"@ != "resource_type"@,
        "action_type"@ != "resource_id"@,
        "action_type"@ != "details"@,
        "action_type"@ != "user_id"@,
        "resource_type"@ != "resource_id"@,
        "resource_type"@ != "details"@,
        "resource_type"@ != "user_id"@,
        "resource_id"@ != "details"@,
        "resource_id"@ != "user_id"@,
        "details"@ != "user_id"@,
{
    reveal_strlit("id");
    reveal_strlit("workspace_id");
    reveal_strlit("session_id");
    reveal_strlit("tab_id");
    reveal_strlit("timestamp");
    reveal_strlit("action_type");
    reveal_strlit("resource_type");
    reveal_strlit("resource_id");
    reveal_strlit("details");
    reveal_strlit("user_id");
    assert("id"@.len() != "workspace_id"@.len());
    assert("id"@.len() != "session_id"@.len());
    assert("id"@.len() != "tab_id"@.len());
    assert("id"@.len() != "timestamp"@.len());
    assert("id"@.len() != "action_type"@.len());
    assert("id"@.len() != "resource_type"@.len());
    assert("id"@.len() != "resource_id"@.len());
    assert("id"@.len() != "details"@.len());
    assert("id"@.len() != "user_id"@.len());
    assert("workspace_id"@.len() != "session_id"@.len());
    assert("workspace_id"@.len() != "tab_id"@.len());
    assert("workspace_id"@.len() != "timestamp"@.len());
    assert("workspace_id"@.len() != "action_type"@.len());
    assert("workspace_id"@.len() != "resource_type"@.len());
    assert("workspace_id"@.len() != "resource_id"@.len());
    assert("workspace_id"@.len() != "details"@.len());
    assert("workspace_id"@.len() != "user_id"@.len());
    assert("session_id"@.len() != "tab_id"@.len());
    assert("session_id"@.len() != "timestamp"@.len());
    assert("session_id"@.len() != "action_type"@.len());
    assert("session_id"@.len() != "resource_type"@.len());
    assert("session_id"@.len() != "resource_id"@.len());
    assert("session_id"@.len() != "details"@.len());
    assert("session_id"@.len() != "user_id"@.len());
    assert("tab_id"@.len() != "timestamp"@.len());
    assert("tab_id"@.len() != "action_type"@.len());
    assert("tab_id"@.len() != "resource_type"@.len());
    assert("tab_id"@.len() != "resource_id"@.len());
    assert("tab_id"@.len() != "details"@.len());
    assert("tab_id"@.len() != "user_id"@.len());
    assert("timestamp"@.len() != "action_type"@.len());
    assert("timestamp"@.len() != "resource_type"@.len());
    assert("timestamp"@.len() != "resource_id"@.len());
    assert("timestamp"@.len() != "details"@.len());
    assert("timestamp"@.len() != "user_id"@.len());
    assert("action_type"@.len() != "resource_type"@.len());
    assert("action_type"@[0] != "resource_id"@[0]);
    assert("action_type"@.len() != "details"@.len());
    assert("action_type"@.len() != "user_id"@.len());
    assert("resource_type"@.len() != "resource_id"@.len());
    assert("resource_type"@.len() != "details"@.len());
    assert("resource_type"@.len() != "user_id"@.len());
    assert("resource_id"@.len() != "details"@.len());
    assert("resource_id"@.len() != "user_id"@.len());
    assert("details"@[0] != "user_id"@[0]);
}

proof fn lemma_join_ten(s: Seq<Seq<char>>, sep: char)
    requires
        s.len() == 10,
    ensures
        join_with(s, sep) == s[0] + seq![sep] + s[1] + seq![sep] + s[2] + seq![sep] + s[3] + seq![sep] + s[4] + seq![sep] + s[5]
            + seq![sep] + s[6] + seq![sep] + s[7] + seq![sep] + s[8] + seq![sep] + s[9],
{
    reveal_with_fuel(join_with, 11);
    let mut k: int = 1;
    assert(join_with(s.take(1), sep) == s[0]) by {
        assert(s.take(1).len() == 1);
    }
    assert(s.take(10) =~= s);
    assert forall|k: int| 2 <= k <= 10 implies #[trigger] join_with(s.take(k), sep) == join_with(s.take(k - 1), sep).push(sep)
        + s[k - 1] by {
        assert(s.take(k).drop_last() =~= s.take(k - 1));
        assert(s.take(k).last() == s[k - 1]);
    }
    assert(join_with(s.take(2), sep) == join_with(s.take(1), sep).push(sep) + s[1]);
    assert(join_with(s.take(3), sep) == join_with(s.take(2), sep).push(sep) + s[2]);
    assert(join_with(s.take(4), sep) == join_with(s.take(3), sep).push(sep) + s[3]);
    assert(join_with(s.take(5), sep) == join_with(s.take(4), sep).push(sep) + s[4]);
    assert(join_with(s.take(6), sep) == join_with(s.take(5), sep).push(sep) + s[5]);
    assert(join_with(s.take(7), sep) == join_with(s.take(6), sep).push(sep) + s[6]);
    assert(join_with(s.take(8), sep) == join_with(s.take(7), sep).push(sep) + s[7]);
    assert(join_with(s.take(9), sep) == join_with(s.take(8), sep).push(sep) + s[8]);
    assert(join_with(s.take(10), sep) == join_with(s.take(9), sep).push(sep) + s[9]);
    assert(join_with(s, sep) =~= s[0] + seq![sep] + s[1] + seq![sep] + s[2] + seq![sep] + s[3] + seq![sep] + s[4] + seq![sep] + s[5]
        + seq![sep] + s[6] + seq![sep] + s[7] + seq![sep] + s[8] + seq![sep] + s[9]);
}

} // verus!
