use sentinel::changes::{
    build_agent_change, changes_state, unified_entry_from_row, conflict_resolutions, generate_change_id, generate_unified_id,
    is_pushable, looks_binary, pushable_change_for, resolve_unified_entry, plan_unified_entries, ChangeOperation, ChangesManager, PathChange,
};
use sentinel::rows::{AgentFileChangeRow, UnifiedSandboxStateRow};

fn pair(a: &str, b: &str) -> (String, String) {
    (a.to_string(), b.to_string())
}

fn row(id: &str, agent: &str, path: &str, status: &str) -> AgentFileChangeRow {
    AgentFileChangeRow {
        id: id.to_string(),
        workspace_id: "w".to_string(),
        agent_id: agent.to_string(),
        sandbox_id: format!("w:{agent}"),
        file_path: path.to_string(),
        operation: "modified".to_string(),
        diff_content: None,
        additions: 0,
        deletions: 0,
        timestamp: 1,
        unified_status: status.to_string(),
        file_size: None,
        is_binary: 0,
    }
}

#[test]
fn registered_sandbox_is_found() {
    let mut m = ChangesManager::new();
    m.register_sandbox("w", "a1", "/sand/a1", vec![pair("x.txt", "h1")], vec![pair("x.txt", "hello")]);
    assert_eq!(m.sandbox_path("w", "a1").unwrap(), "/sand/a1");
    assert_eq!(m.sandbox_file_path("w", "a1", "src/x.txt").as_deref(), Some("/sand/a1/src/x.txt"));
    assert_eq!(m.sandbox_path("w", "zz").unwrap_err(), "No sandbox registered for agent zz");
    assert!(m.sandbox_file_path("w", "zz", "x").is_none());
}

#[test]
fn scan_classifies_created_deleted_modified() {
    let mut m = ChangesManager::new();
    m.register_sandbox("w", "a1", "/s", vec![pair("keep", "1"), pair("gone", "2"), pair("edit", "3")], Vec::new());
    let mut changes = m
        .record_scan("w", "a1", vec![pair("keep", "1"), pair("edit", "9"), pair("new", "4")], Vec::new())
        .unwrap();
    changes.sort_by(|a, b| a.path.cmp(&b.path));
    let got: Vec<(String, ChangeOperation)> = changes.into_iter().map(|c| (c.path, c.operation)).collect();
    assert_eq!(
        got,
        vec![
            ("edit".to_string(), ChangeOperation::Modified),
            ("gone".to_string(), ChangeOperation::Deleted),
            ("new".to_string(), ChangeOperation::Created),
        ]
    );
    let again = m.record_scan("w", "a1", vec![pair("keep", "1"), pair("edit", "9"), pair("new", "4")], Vec::new()).unwrap();
    assert!(again.is_empty());
    assert_eq!(m.record_scan("w", "b", Vec::new(), Vec::new()).err().unwrap(), "No sandbox registered for agent b");
}

#[test]
fn change_record_for_created_file_counts_lines() {
    let c = PathChange { path: "a.txt".to_string(), operation: ChangeOperation::Created, previous: String::new() };
    let r = build_agent_change("w", "a1", &c, "one\ntwo\n", false, Some(8), 255, 3);
    assert_eq!(r.id, "change-ff-3");
    assert_eq!(r.sandbox_id, "w:a1");
    assert_eq!(r.operation, "created");
    assert_eq!(r.diff_content.as_deref(), Some("one\ntwo\n"));
    assert_eq!(r.additions, 2);
    assert_eq!(r.deletions, 0);
    assert_eq!(r.unified_status, "pending");
    assert_eq!(r.file_size, Some(8));
}

#[test]
fn change_record_for_modified_and_deleted_files() {
    let m = PathChange { path: "a.txt".to_string(), operation: ChangeOperation::Modified, previous: "x\nz".to_string() };
    let r = build_agent_change("w", "a1", &m, "x\ny", false, Some(3), 1, 0);
    assert_eq!(r.diff_content.as_deref(), Some("-z\n+y"));
    assert_eq!(r.additions, 1);
    assert_eq!(r.deletions, 1);
    let fresh = PathChange { path: "a.txt".to_string(), operation: ChangeOperation::Modified, previous: String::new() };
    let r = build_agent_change("w", "a1", &fresh, "x\ny", false, Some(3), 1, 1);
    assert_eq!(r.diff_content.as_deref(), Some("+x\n+y"));
    assert_eq!(r.additions, 2);
    let bin = build_agent_change("w", "a1", &m, "", true, Some(3), 1, 2);
    assert!(bin.diff_content.is_none());
    assert!(bin.is_binary);
    let d = PathChange { path: "a.txt".to_string(), operation: ChangeOperation::Deleted, previous: "old".to_string() };
    let r = build_agent_change("w", "a1", &d, "ignored", true, Some(3), 1, 3);
    assert_eq!(r.operation, "deleted");
    assert!(r.diff_content.is_none());
    assert!(!r.is_binary);
    assert_eq!(r.file_size, None);
}

#[test]
fn change_ids_are_hexadecimal_times() {
    assert_eq!(generate_change_id(0, 0), "change-0-0");
    assert_eq!(generate_change_id(4096, 255), "change-1000-ff");
    assert_eq!(generate_unified_id(4096, 16), "unified-1000-10");
}

#[test]
fn changes_recorded_at_one_time_get_distinct_ids() {
    let mut m = ChangesManager::new();
    let first = m.next_change_seq();
    let second = m.next_change_seq();
    assert_eq!((first, second), (0, 1));
    assert_ne!(generate_change_id(7, first), generate_change_id(7, second));
    assert_ne!(generate_change_id(0x12, 0x3), generate_change_id(0x1, 0x23));
}

#[test]
fn modified_files_are_diffed_against_their_last_text() {
    let mut m = ChangesManager::new();
    m.register_sandbox("w", "a1", "/s", vec![pair("f.txt", "h1")], vec![pair("f.txt", "one\ntwo")]);
    let changes = m.record_scan("w", "a1", vec![pair("f.txt", "h2")], vec![pair("f.txt", "one\nthree")]).unwrap();
    assert_eq!(changes.len(), 1);
    assert_eq!(changes[0].previous, "one\ntwo");
    let r = build_agent_change("w", "a1", &changes[0], "one\nthree", false, Some(9), 5, 0);
    assert_eq!(r.diff_content.as_deref(), Some("-two\n+three"));
    assert_eq!((r.additions, r.deletions), (1, 1));
    let next = m.record_scan("w", "a1", vec![pair("f.txt", "h3")], vec![pair("f.txt", "four")]).unwrap();
    assert_eq!(next[0].previous, "one\nthree");
}

#[test]
fn binary_files_hold_a_zero_byte() {
    assert!(looks_binary(&[1, 2, 0, 3]));
    assert!(!looks_binary(b"plain text"));
    assert!(!looks_binary(&[]));
}

#[test]
fn unified_plan_marks_conflicts() {
    let rows = vec![row("1", "a", "b.txt", "pending"), row("2", "b", "a.txt", "pending"), row("3", "c", "b.txt", "pending")];
    let plans = plan_unified_entries(&rows);
    assert_eq!(plans.len(), 2);
    assert_eq!(plans[0].file_path, "a.txt");
    assert_eq!(plans[0].status, "clean");
    assert_eq!(plans[0].source_agent_id, "b");
    assert!(plans[0].conflict_json.is_none());
    assert_eq!(plans[1].file_path, "b.txt");
    assert_eq!(plans[1].status, "conflicted");
    assert_eq!(plans[1].source_agent_id, "a");
    assert_eq!(plans[1].conflict_agent_ids, vec!["c".to_string()]);
    assert_eq!(plans[1].conflict_json.as_deref(), Some("[\"c\"]"));
}

#[test]
fn one_agent_changing_a_file_twice_is_no_conflict() {
    let rows = vec![row("1", "a", "f", "pending"), row("2", "a", "f", "pending"), row("3", "b", "g", "pending"), row("4", "c", "g", "pending"), row("5", "b", "g", "pending")];
    let plans = plan_unified_entries(&rows);
    assert_eq!(plans[0].file_path, "f");
    assert_eq!(plans[0].status, "clean");
    assert!(plans[0].conflict_agent_ids.is_empty());
    assert_eq!(plans[1].status, "conflicted");
    assert_eq!(plans[1].source_agent_id, "b");
    assert_eq!(plans[1].conflict_agent_ids, vec!["c".to_string()]);
}

#[test]
fn changes_state_counts_and_reads_conflicts() {
    let rows = vec![row("1", "a", "x", "pending"), row("2", "b", "y", "pushed")];
    let unified = vec![
        UnifiedSandboxStateRow {
            id: "u1".to_string(),
            workspace_id: "w".to_string(),
            file_path: "x".to_string(),
            source_agent_id: "a".to_string(),
            conflict_agent_ids: Some("[\"b\",\"c\"]".to_string()),
            status: "conflicted".to_string(),
            last_updated_at: 3,
        },
        UnifiedSandboxStateRow {
            id: "u2".to_string(),
            workspace_id: "w".to_string(),
            file_path: "y".to_string(),
            source_agent_id: "b".to_string(),
            conflict_agent_ids: Some("not json".to_string()),
            status: "clean".to_string(),
            last_updated_at: 4,
        },
    ];
    let st = changes_state(&rows, &unified);
    assert_eq!(st.total_changed_files, 2);
    assert_eq!(st.conflict_count, 1);
    assert_eq!(st.pending_push_count, 1);
    assert_eq!(st.unified_entries[0].conflict_agent_ids, Some(vec!["b".to_string(), "c".to_string()]));
    assert!(st.unified_entries[1].conflict_agent_ids.is_none());
    assert!(!is_pushable(&unified[0]));
    assert!(is_pushable(&unified[1]));
}

#[test]
fn push_takes_first_pending_change_of_the_file() {
    let rows = vec![row("1", "a", "x", "pushed"), row("2", "b", "x", "pending"), row("3", "a", "x", "pending"), row("4", "a", "x", "pending")];
    assert_eq!(pushable_change_for(&rows, "x", "a"), Some(2));
    assert_eq!(pushable_change_for(&rows, "x", "b"), Some(1));
    assert_eq!(pushable_change_for(&rows, "y", "a"), None);
}

#[test]
fn resolving_then_pushing_takes_the_winner() {
    let mut rows = vec![row("1", "a", "x", "pending"), row("2", "b", "x", "pending"), row("3", "b", "y", "pending")];
    for update in conflict_resolutions(&rows, "x", "b") {
        for r in rows.iter_mut().filter(|r| r.id == update.change_id) {
            r.unified_status = update.status.clone();
        }
    }
    assert_eq!(pushable_change_for(&rows, "x", "b"), Some(1));
    assert_eq!(rows[1].unified_status, "merged");
    assert_eq!(rows[0].unified_status, "discarded");
    assert_eq!(pushable_change_for(&rows, "x", "a"), None);
}

#[test]
fn resolving_a_conflict_merges_the_winner_only() {
    let rows = vec![row("1", "a", "x", "pending"), row("2", "b", "x", "pending"), row("3", "b", "y", "pending")];
    let updates = conflict_resolutions(&rows, "x", "b");
    let got: Vec<(String, String)> = updates.into_iter().map(|u| (u.change_id, u.status)).collect();
    assert_eq!(got, vec![("1".to_string(), "discarded".to_string()), ("2".to_string(), "merged".to_string())]);
}

#[test]
fn unified_conflicts_read_back_as_planned() {
    let rows = vec![row("1", "a", "f", "pending"), row("2", "b", "f", "pending"), row("3", "c", "f", "pending")];
    let plan = &plan_unified_entries(&rows)[0];
    let stored = UnifiedSandboxStateRow {
        id: "u".to_string(),
        workspace_id: "w".to_string(),
        file_path: plan.file_path.clone(),
        source_agent_id: plan.source_agent_id.clone(),
        conflict_agent_ids: plan.conflict_json.clone(),
        status: plan.status.clone(),
        last_updated_at: 1,
    };
    let entry = unified_entry_from_row(&stored);
    assert_eq!(entry.conflict_agent_ids, Some(plan.conflict_agent_ids.clone()));
    assert_eq!(entry.conflict_agent_ids, Some(vec!["b".to_string(), "c".to_string()]));
    assert_eq!(entry.status, "conflicted");
}

#[test]
fn resolving_makes_the_winner_the_clean_source() {
    let entry = |id: &str, path: &str| UnifiedSandboxStateRow {
        id: id.to_string(),
        workspace_id: "w".to_string(),
        file_path: path.to_string(),
        source_agent_id: "a".to_string(),
        conflict_agent_ids: Some("[\"b\"]".to_string()),
        status: "conflicted".to_string(),
        last_updated_at: 7,
    };
    let rows = vec![entry("u1", "x"), entry("u2", "y")];
    let r = resolve_unified_entry(&rows, "y", "b").unwrap();
    assert_eq!((r.id.as_str(), r.file_path.as_str(), r.source_agent_id.as_str(), r.status.as_str()), ("u2", "y", "b", "clean"));
    assert!(r.conflict_agent_ids.is_none());
    assert_eq!(r.last_updated_at, 7);
    assert!(is_pushable(&r));
    assert!(resolve_unified_entry(&rows, "z", "b").is_none());
}
