use hdas::store::{plan_migration, Database, FileRecord, Migration};

fn rec(db: &Database, p: &str) -> FileRecord {
    db.get(p).unwrap()
}

#[test]
fn first_access_creates_record() {
    let mut db = Database::new();
    db.record_access("/home/u/.cache/mozilla", "firefox", "firefox", false, 100);
    let r = rec(&db, "/home/u/.cache/mozilla");
    assert_eq!(r.created_by_package, "firefox");
    assert_eq!(r.created_by_process, "firefox");
    assert_eq!(r.created_at, 100);
    assert_eq!(r.last_accessed_by_package, "firefox");
    assert_eq!(r.last_accessed_at, 100);
    assert_eq!(db.len(), 1);
}

#[test]
fn editor_touch_keeps_creator() {
    let mut db = Database::new();
    db.record_access("/home/u/.cache/mozilla", "firefox", "firefox", false, 100);
    db.record_access("/home/u/.cache/mozilla", "unknown", "vim", true, 200);
    let r = rec(&db, "/home/u/.cache/mozilla");
    assert_eq!(r.created_by_package, "firefox");
    assert_eq!(r.created_by_process, "firefox");
    assert_eq!(r.created_at, 100);
    assert_eq!(r.last_accessed_by_package, "unknown");
    assert_eq!(r.last_accessed_by_process, "vim");
    assert_eq!(r.last_accessed_at, 200);
}

#[test]
fn unknown_creator_is_promoted() {
    let mut db = Database::new();
    db.record_access("/home/u/.config/chromium", "unknown", "cat", true, 10);
    let r = rec(&db, "/home/u/.config/chromium");
    assert_eq!(r.created_by_package, "unknown");
    assert_eq!(r.created_by_process, "cat");
    assert!(!db.path_has_known_creator("/home/u/.config/chromium"));
    db.record_access("/home/u/.config/chromium", "chromium", "chromium", false, 20);
    let r = rec(&db, "/home/u/.config/chromium");
    assert_eq!(r.created_by_package, "chromium");
    assert_eq!(r.created_by_process, "chromium");
    assert_eq!(r.created_at, 20);
    assert!(db.path_has_known_creator("/home/u/.config/chromium"));
}

#[test]
fn one_record_per_path() {
    let mut db = Database::new();
    for t in 0..5 {
        db.record_access("/p", "a", "a", t % 2 == 0, t);
    }
    db.record_access("/q", "b", "b", false, 9);
    assert_eq!(db.len(), 2);
    assert_eq!(db.paths(), vec!["/p".to_string(), "/q".to_string()]);
}

#[test]
fn known_creator_never_changes() {
    let mut db = Database::new();
    db.record_access("/p", "a", "pa", false, 1);
    db.record_access("/p", "b", "pb", false, 2);
    db.record_access("/p", "c", "pc", true, 3);
    let r = rec(&db, "/p");
    assert_eq!((r.created_by_package.as_str(), r.created_by_process.as_str(), r.created_at), ("a", "pa", 1));
    assert_eq!(r.last_accessed_by_package, "c");
}

#[test]
fn last_access_time_never_goes_back() {
    let mut db = Database::new();
    let mut prev = i64::MIN;
    for t in [5i64, 5, 7, 9, 12] {
        db.record_access("/p", "a", "a", false, t);
        let now = rec(&db, "/p").last_accessed_at;
        assert!(now >= prev);
        prev = now;
    }
}

#[test]
fn orphans_are_uninstalled_creators() {
    let mut db = Database::new();
    db.record_access("/1", "a", "a", false, 1);
    db.record_access("/2", "b", "b", false, 1);
    db.record_access("/3", "x", "cat", true, 1);
    db.record_access("/4", "b", "b", false, 1);
    let installed = vec!["a".to_string(), "c".to_string()];
    assert_eq!(db.get_orphans(&installed), vec!["b".to_string()]);
    assert_eq!(db.distinct_creators(), vec!["a".to_string(), "b".to_string(), "unknown".to_string()]);
}

#[test]
fn package_query_is_most_recent_first() {
    let mut db = Database::new();
    db.record_access("/1", "a", "a", false, 10);
    db.record_access("/2", "a", "a", false, 30);
    db.record_access("/3", "b", "b", false, 20);
    db.record_access("/4", "a", "a", false, 20);
    let r: Vec<String> = db.query_package("a").into_iter().map(|r| r.path).collect();
    assert_eq!(r, vec!["/2", "/4", "/1"]);
    let all: Vec<String> = db.list_all().into_iter().map(|r| r.path).collect();
    assert_eq!(all, vec!["/2", "/3", "/4", "/1"]);
}

#[test]
fn directory_query_is_by_path() {
    let mut db = Database::new();
    db.record_access("/home/u/.cache/b", "a", "a", false, 1);
    db.record_access("/home/u/.config/x", "a", "a", false, 1);
    db.record_access("/home/u/.cache/a", "a", "a", false, 1);
    let r: Vec<String> = db.query_directory("/home/u/.cache/").into_iter().map(|r| r.path).collect();
    assert_eq!(r, vec!["/home/u/.cache/a", "/home/u/.cache/b"]);
}

#[test]
fn file_query_matches_substrings() {
    let mut db = Database::new();
    db.record_access("/home/u/.cache/mozilla", "a", "a", false, 1);
    db.record_access("/home/u/.config/zoo", "a", "a", false, 1);
    let r: Vec<String> = db.query_file("zil").into_iter().map(|r| r.path).collect();
    assert_eq!(r, vec!["/home/u/.cache/mozilla"]);
    assert!(db.query_file("%").is_empty());
}

#[test]
fn deleting_counts_removed_records() {
    let mut db = Database::new();
    db.record_access("/1", "a", "a", false, 1);
    db.record_access("/2", "a", "a", false, 1);
    let n = db.delete_file_records(&vec!["/1".to_string(), "/1".to_string(), "/9".to_string()]);
    assert_eq!(n, 1);
    assert!(!db.path_exists("/1"));
    assert!(db.path_exists("/2"));
}

#[test]
fn stats_and_last_event() {
    let mut db = Database::new();
    assert_eq!(db.get_last_event_time(), None);
    assert_eq!(db.get_stats(), (0, 0));
    db.record_access("/1", "a", "a", false, 5);
    db.record_access("/2", "a", "a", false, 9);
    db.record_access("/3", "b", "b", false, 7);
    assert_eq!(db.get_stats(), (3, 2));
    assert_eq!(db.get_last_event_time(), Some(9));
}

#[test]
fn inserted_rows_replace_by_path() {
    let mut db = Database::new();
    let row = FileRecord {
        path: "/p".to_string(),
        created_by_package: "a".to_string(),
        created_by_process: "a".to_string(),
        created_at: 1,
        last_accessed_by_package: "a".to_string(),
        last_accessed_by_process: "a".to_string(),
        last_accessed_at: 2,
    };
    db.insert_record(row.duplicate());
    let mut row2 = row.duplicate();
    row2.last_accessed_at = 3;
    db.insert_record(row2);
    assert_eq!(db.len(), 1);
    assert_eq!(rec(&db, "/p").last_accessed_at, 3);
}

#[test]
fn legacy_rows_become_records() {
    let r = FileRecord::from_legacy("/p".to_string(), "pkg".to_string(), "proc".to_string(), 3, 8);
    assert_eq!(r.created_by_package, "pkg");
    assert_eq!(r.last_accessed_by_package, "pkg");
    assert_eq!(r.created_by_process, "proc");
    assert_eq!(r.last_accessed_by_process, "proc");
    assert_eq!((r.created_at, r.last_accessed_at), (3, 8));
    assert_eq!(plan_migration(true, true), Migration::Ready);
    assert_eq!(plan_migration(false, true), Migration::FromLegacy);
    assert_eq!(plan_migration(false, false), Migration::Create);
}
