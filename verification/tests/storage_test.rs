use sentinel::storage::{backup_buckets, backup_query_for, backups_to_prune, database_url};

#[test]
fn database_paths_use_forward_slashes() {
    assert_eq!(database_url("C:\\Users\\me\\sentinel.db"), "sqlite:C:/Users/me/sentinel.db");
    assert_eq!(backup_query_for("C:\\b\\it's.db"), "VACUUM INTO 'C:/b/it''s.db'");
}

#[test]
fn backup_buckets_are_days_and_weeks() {
    assert_eq!(backup_buckets(86_400 * 15 + 5), (15, 2));
    assert_eq!(backup_buckets(0), (0, 0));
}

#[test]
fn oldest_backups_are_pruned() {
    let names: Vec<String> = ["daily-3.db", "weekly-1.db", "daily-1.db", "daily-2.db", "other"].iter().map(|s| s.to_string()).collect();
    assert_eq!(backups_to_prune(&names, "daily-", 2), vec!["daily-1.db".to_string()]);
    assert!(backups_to_prune(&names, "weekly-", 4).is_empty());
    assert_eq!(backups_to_prune(&names, "daily-", 0).len(), 3);
}
