use sentinel::history::TokenCounter;
use sentinel::model::{ProjectState, SessionWorkspaceStrategy, WorkspaceContext};
use sentinel::records::{
    audit_log_csv, audit_log_entry_from_row, csv_escape, files_to_remove, new_snapshot_summary, snapshot_file,
    snapshot_file_bytes, snapshot_project_root, snapshot_restore_root, sort_snapshot_files, wants_csv,
    StoredSnapshotFile,
};
use sentinel::rows::AuditLogRow;

fn ws(path: Option<&str>) -> WorkspaceContext {
    WorkspaceContext {
        id: "w1".to_string(),
        name: "W".to_string(),
        project: ProjectState { path: path.map(|p| p.to_string()), name: None, branch: None, is_git_repo: false, tree: Vec::new() },
        session_ids: vec!["s1".to_string(), "s2".to_string()],
        tab_ids: Vec::new(),
        created_at: 0,
        last_active_at: 0,
        default_session_strategy: SessionWorkspaceStrategy::SandboxCopy,
    }
}

#[test]
fn csv_fields_double_quotes() {
    assert_eq!(csv_escape("a\"b"), "\"a\"\"b\"");
    assert_eq!(csv_escape(""), "\"\"");
}

#[test]
fn audit_log_exports_csv() {
    let row = AuditLogRow {
        id: 7,
        workspace_id: Some("w".to_string()),
        session_id: None,
        tab_id: None,
        timestamp: 99,
        action_type: "tab-created".to_string(),
        resource_type: "tab".to_string(),
        resource_id: "t\"1".to_string(),
        details: None,
        user_id: None,
    };
    let csv = audit_log_csv(&vec![audit_log_entry_from_row(row)]);
    assert_eq!(
        csv,
        "id,workspace_id,session_id,tab_id,timestamp,action_type,resource_type,resource_id,details,user_id\n7,\"w\",\"\",\"\",99,\"tab-created\",\"tab\",\"t\"\"1\",\"\",\"\""
    );
    assert_eq!(audit_log_csv(&Vec::new()), "id,workspace_id,session_id,tab_id,timestamp,action_type,resource_type,resource_id,details,user_id");
}

#[test]
fn csv_format_is_case_insensitive() {
    assert!(wants_csv(Some("CSV")));
    assert!(wants_csv(Some("cSv")));
    assert!(!wants_csv(Some("json")));
    assert!(!wants_csv(None));
}

#[test]
fn snapshot_files_round_trip_base64() {
    let f = snapshot_file("a.txt".to_string(), b"hello");
    assert_eq!(f.content_base64, "aGVsbG8=");
    assert_eq!(snapshot_file_bytes(&f).unwrap(), b"hello".to_vec());
    let bad = StoredSnapshotFile { path: "x".to_string(), content_base64: "!!!".to_string() };
    assert!(snapshot_file_bytes(&bad).is_err());
}

#[test]
fn snapshot_files_sort_by_path() {
    let files = vec![
        StoredSnapshotFile { path: "b".to_string(), content_base64: String::new() },
        StoredSnapshotFile { path: "a".to_string(), content_base64: "1".to_string() },
        StoredSnapshotFile { path: "a".to_string(), content_base64: "2".to_string() },
    ];
    let sorted = sort_snapshot_files(files);
    let got: Vec<(&str, &str)> = sorted.iter().map(|f| (f.path.as_str(), f.content_base64.as_str())).collect();
    assert_eq!(got, vec![("a", "1"), ("a", "2"), ("b", "")]);
}

#[test]
fn restoring_removes_files_not_in_snapshot() {
    let snap = vec![StoredSnapshotFile { path: "keep".to_string(), content_base64: String::new() }];
    let current = vec!["keep".to_string(), "extra".to_string(), "other".to_string()];
    assert_eq!(files_to_remove(&current, &snap), vec!["extra".to_string(), "other".to_string()]);
}

#[test]
fn snapshot_summary_and_roots() {
    let mut t = TokenCounter::new();
    let w = ws(Some("/p"));
    let s = new_snapshot_summary(&w, "  Before refactor ", Some("   ".to_string()), 3, 50, &mut t);
    assert_eq!(s.id, "snapshot-000001");
    assert_eq!(s.name, "Before refactor");
    assert!(s.description.is_none());
    assert_eq!(s.file_count, 3);
    assert_eq!(s.session_count, 2);
    assert_eq!(snapshot_project_root(&w).unwrap(), "/p");
    assert_eq!(snapshot_project_root(&ws(None)).unwrap_err(), "Workspace project path is unavailable.");
    assert_eq!(snapshot_restore_root(&ws(None), Some("/old".to_string())).unwrap(), "/old");
    assert!(snapshot_restore_root(&ws(None), None).is_err());
}

#[test]
fn snapshot_files_keep_binary_and_empty_contents() {
    let bytes: Vec<u8> = vec![0, 255, 10, 13, 0, 128];
    let f = snapshot_file("bin/data".to_string(), &bytes);
    assert_eq!(f.content_base64, "AP8KDQCA");
    assert_eq!(snapshot_file_bytes(&f).unwrap(), bytes);
    let empty = snapshot_file("empty".to_string(), b"");
    assert_eq!(empty.content_base64, "");
    assert_eq!(snapshot_file_bytes(&empty).unwrap(), Vec::<u8>::new());
}
