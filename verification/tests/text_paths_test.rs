use sentinel::diff::compute_unified_diff;
use sentinel::git_status::{parse_git_status_output, read_git_status};
use sentinel::hashing::{bytes_hex, content_hash, file_signature};
use sentinel::history::{append_history_entry, stamped_token, track_command_input, TokenCounter};
use sentinel::model::SessionCommandEntry;
use sentinel::paths::{
    join_paths, normalize_relative_path, path_file_name, path_to_string, resolve_workspace_target, sanitize_segment, sanitize_segment_stable,
    should_link_directory, should_skip_directory,
};

#[test]
fn relative_paths_are_normalized() {
    assert_eq!(normalize_relative_path(" a/./b/../c ").unwrap(), "a/c");
    assert_eq!(
        normalize_relative_path("../x").unwrap_err(),
        "Refusing to access a path outside the workspace: ../x"
    );
    assert!(normalize_relative_path("/etc/passwd").is_err());
}

#[test]
fn resolved_targets_stay_inside_the_root() {
    assert_eq!(resolve_workspace_target("/w", "src/main.rs").unwrap(), "/w/src/main.rs");
    assert!(resolve_workspace_target("/w", "src/../../x").is_err());
}

#[test]
fn normalizing_twice_changes_nothing() {
    for input in [" a/./b/../c ", "x//y/", "./d/e", "f"] {
        let once = normalize_relative_path(input).unwrap();
        assert_eq!(normalize_relative_path(&once).unwrap(), once);
        assert_eq!(resolve_workspace_target("/w/", input).unwrap(), join_paths("/w/", &once));
    }
    assert_eq!(normalize_relative_path("./ a").unwrap(), " a");
    assert_eq!(normalize_relative_path(" a").unwrap(), "a");
    assert!(resolve_workspace_target("/w", "\\\\?\\/b").is_err());
    assert_eq!(normalize_relative_path("\\\\?\\/b").unwrap(), "/b");
    let stripped = normalize_relative_path("\\\\?\\x").unwrap();
    assert_eq!(stripped, "x");
    assert_eq!(normalize_relative_path(&stripped).unwrap(), "x");
}

#[test]
fn stable_sanitizing_is_checked() {
    assert_eq!(sanitize_segment_stable("  My Agent!! 01 ").as_deref(), Some("my-agent-01"));
    assert_eq!(sanitize_segment_stable("***").as_deref(), Some("agent"));
}

#[test]
fn paths_join_and_name() {
    assert_eq!(join_paths("/a/b", "c"), "/a/b/c");
    assert_eq!(join_paths("/a/b/", "c"), "/a/b/c");
    assert_eq!(join_paths("/a", "/c"), "/c");
    assert_eq!(path_file_name("/a/b.txt").as_deref(), Some("b.txt"));
    assert_eq!(path_file_name("/").as_deref(), None);
    assert_eq!(path_to_string("\\\\?\\C:\\x"), "C:\\x");
}

#[test]
fn skipped_and_linked_directories() {
    assert!(should_skip_directory("node_modules"));
    assert!(should_skip_directory(".git"));
    assert!(!should_skip_directory("src"));
    assert!(should_link_directory(".venv"));
    assert!(!should_link_directory("dist"));
    for name in ["node_modules", ".venv", "venv", ".tox", ".yarn", ".pnpm-store"] {
        assert!(should_link_directory(name) && should_skip_directory(name));
    }
}

#[test]
fn segments_are_sanitized() {
    assert_eq!(sanitize_segment("  My Agent!! 01 "), "my-agent-01");
    assert_eq!(sanitize_segment("***"), "agent");
    assert_eq!(sanitize_segment("ÄBC"), "bc");
}

#[test]
fn git_status_lists_renames_once_sorted() {
    let raw = "R  new.txt\0old.txt\0 M b.txt\0?? a.txt\0 M b.txt\0";
    assert_eq!(parse_git_status_output(raw), vec!["a.txt".to_string(), "b.txt".to_string(), "old.txt".to_string()]);
    assert!(parse_git_status_output("").is_empty());
}

#[test]
fn git_status_that_splits_a_character_is_refused() {
    let raw = "R  new.txt\0old.txt\0";
    assert_eq!(read_git_status(raw), Some(vec!["old.txt".to_string()]));
    assert_eq!(read_git_status("ÄÖ file.txt\0"), None);
    assert_eq!(read_git_status("Ä file.txt\0"), Some(vec!["file.txt".to_string()]));
}

#[test]
fn sanitized_segments_stay_as_they_are() {
    for input in ["  My Agent!! 01 ", "***", "--a--b--", "x.y_z"] {
        let once = sanitize_segment(input);
        assert!(!once.is_empty() && !once.starts_with('-') && !once.ends_with('-'));
        assert!(once.chars().all(|c| c.is_ascii_lowercase() || c.is_ascii_digit() || matches!(c, '.' | '_' | '-')));
        assert_eq!(sanitize_segment(&once), once);
    }
    assert_eq!(sanitize_segment("--a--b--"), "a--b");
}

#[test]
fn unified_diff_counts_lines() {
    let (d, add, del) = compute_unified_diff("a\nb\nc", "a\nx\nc");
    assert_eq!(d, "-b\n+x\n c");
    assert_eq!((add, del), (1, 1));
    let (d, add, del) = compute_unified_diff("same", "same");
    assert_eq!(d, "");
    assert_eq!((add, del), (0, 0));
}

#[test]
fn unified_diff_starts_with_a_change_and_bounds_its_counts() {
    let (d, add, del) = compute_unified_diff("a\n\nb", "a\nc\n");
    assert!(d.starts_with('+') || d.starts_with('-'));
    assert!(add <= 2 && del <= 2);
    assert_eq!(d, "+c\n-b");
    assert_eq!((add, del), (1, 1));
    assert_eq!(compute_unified_diff("x\r\ny", "x\ny"), (String::new(), 0, 0));
}

#[test]
fn tokens_and_ids() {
    let mut t = TokenCounter::new();
    assert_eq!(t.create_token(), "000001");
    assert_eq!(t.generate_id(), "tab-000002");
    assert_eq!(stamped_token(1700, &mut t), "1700-000003");
    let mut big = TokenCounter { next: 0x1234_5678 };
    assert_eq!(big.create_token(), "345678");
}

#[test]
fn history_keeps_latest_commands_first() {
    let mut t = TokenCounter::new();
    let mut history: Vec<SessionCommandEntry> = Vec::new();
    assert!(append_history_entry(&mut history, "   ", "interactive", 5, &mut t).is_none());
    let e = append_history_entry(&mut history, "  ls -la ", "startup", 7, &mut t).unwrap();
    assert_eq!(e.command, "ls -la");
    assert_eq!(e.id, "7-000001");
    assert_eq!(e.source, "startup");
    for i in 0..300 {
        append_history_entry(&mut history, &format!("cmd {i}"), "interactive", 8, &mut t);
    }
    assert_eq!(history.len(), 250);
    assert_eq!(history[0].command, "cmd 299");
}

#[test]
fn typed_input_is_tracked_as_commands() {
    let mut t = TokenCounter::new();
    let mut buffer = String::new();
    let mut history: Vec<SessionCommandEntry> = Vec::new();
    let entries = track_command_input(&mut buffer, &mut history, "gitt\u{7f} status\r\u{3}echo\tx", 9, &mut t);
    assert_eq!(entries.len(), 1);
    assert_eq!(entries[0].command, "git status");
    assert_eq!(buffer, "echo\tx");
    let more = track_command_input(&mut buffer, &mut history, "\u{15}pwd", 10, &mut t);
    assert!(more.is_empty());
    assert_eq!(buffer, "pwd");
    assert_eq!(history.len(), 1);
}

#[test]
fn content_hash_is_sha1_hex() {
    assert_eq!(content_hash(b"abc"), "a9993e364706816aba3e25717850c26c9cd0d89d");
    assert_eq!(content_hash(b""), "da39a3ee5e6b4b0d3255bfef95601890afd80709");
    assert_eq!(bytes_hex(&[0, 10, 255]), "000aff");
    assert_eq!(file_signature(12, 1700000000123), "12:1700000000123");
}
