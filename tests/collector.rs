use hdas::cleanup::{is_confirmation, summarize, CleanTarget, Removal};
use hdas::config::{default_config_content, default_ignored_processes, Config, ConfigIssue};
use hdas::canon::MonitoredDir;
use hdas::event::{decode_event, plan_commit, EVENT_SIZE};
use hdas::resolve::PackageInfo;
use hdas::size::format_size;
use hdas::store::FileRecord;
use hdas::user::{get_user_home, get_user_info};

fn raw(pid: u32, comm: &[u8], filename: &[u8]) -> Vec<u8> {
    let mut v = vec![0u8; EVENT_SIZE];
    v[0..4].copy_from_slice(&pid.to_le_bytes());
    v[4..4 + comm.len()].copy_from_slice(comm);
    v[20..20 + filename.len()].copy_from_slice(filename);
    v
}

#[test]
fn decodes_fixed_records() {
    let e = decode_event(&raw(4242, b"firefox", b"/home/u/.cache/x")).unwrap();
    assert_eq!(e.pid, 4242);
    assert_eq!(e.comm, "firefox");
    assert_eq!(e.filename, "/home/u/.cache/x");
    assert!(decode_event(&raw(1, b"a", b"b")[..EVENT_SIZE - 1]).is_none());
    let mut longer = raw(1, b"a", b"b");
    longer.push(0);
    assert!(decode_event(&longer).is_none());
}

#[test]
fn malformed_utf8_reads_unknown() {
    let e = decode_event(&raw(1, &[0xff, 0xfe], b"/p")).unwrap();
    assert_eq!(e.comm, "unknown");
    assert_eq!(e.filename, "/p");
}

#[test]
fn commit_markers() {
    let mut c = Config::default();
    c.ignored_packages = vec!["noisy".to_string()];
    let info = |p: &str, q: &str, v: bool| PackageInfo { package: p.to_string(), process: q.to_string(), via_parent: v };
    assert!(plan_commit(&c, &info("noisy", "x", false)).is_none());
    let a = plan_commit(&c, &info("firefox", "firefox", false)).unwrap();
    assert_eq!((a.ignored_process, a.marker), (false, '+'));
    let b = plan_commit(&c, &info("firefox", "firefox", true)).unwrap();
    assert_eq!((b.ignored_process, b.marker), (false, '^'));
    let d = plan_commit(&c, &info("unknown", "vim", false)).unwrap();
    assert_eq!((d.ignored_process, d.marker), (true, '~'));
}

#[test]
fn configuration_defaults() {
    let c = Config::default();
    assert_eq!(c.monitored_dirs.len(), 3);
    assert_eq!(c.monitored_dirs[1].path, ".local");
    assert_eq!(c.tracking_depth, 1);
    assert!(c.auto_prune);
    assert_eq!(default_ignored_processes().len(), 30);
    assert!(c.is_ignored_process("vim"));
    assert!(!c.is_ignored_process("firefox"));
    assert!(default_config_content().starts_with("# HDAS Configuration File"));
    assert_eq!(Config::path("/home/u"), "/home/u/.config/hdas/config.toml");
    assert_eq!(c.ignored_set().len(), 30);
}

#[test]
fn cheap_monitored_test() {
    let c = Config::default();
    assert!(c.is_monitored_path("/home/u/.cache/x"));
    assert!(c.is_monitored_path(".config/x"));
    assert!(c.is_monitored_path("/home/u/.local"));
    assert!(!c.is_monitored_path("/home/u/Documents/x"));
}

#[test]
fn validation_reports_each_issue() {
    let mut c = Config::default();
    c.monitored_dirs.push(MonitoredDir { path: ".cache".to_string(), depth: Some(9) });
    c.ignored_processes = vec!["vim".to_string(), "vim".to_string(), "/bin/cat".to_string(), "a b".to_string()];
    c.ignored_packages = vec!["".to_string()];
    c.tracking_depth = 6;
    let issues = c.validate();
    assert_eq!(issues.len(), 7);
    assert!(matches!(&issues[0], ConfigIssue::DuplicateDir(p) if p == ".cache"));
    assert!(issues[0].is_error());
    assert!(matches!(&issues[1], ConfigIssue::DuplicateProcess(p) if p == "vim"));
    assert!(matches!(&issues[2], ConfigIssue::BadProcessName(p) if p == "/bin/cat"));
    assert!(matches!(&issues[3], ConfigIssue::BadProcessName(p) if p == "a b"));
    assert!(matches!(&issues[4], ConfigIssue::BadPackageName(p) if p.is_empty()));
    assert!(matches!(&issues[5], ConfigIssue::HighDepth(6)));
    assert!(matches!(&issues[6], ConfigIssue::HighDirDepth(p, 9) if p == ".cache"));
    assert!(Config::default().validate().is_empty());
}

#[test]
fn sudo_user_home_from_passwd() {
    let passwd = "root:x:0:0:root:/root:/bin/bash\nalice:x:1000:1001:Alice:/home/alice:/bin/zsh\r\n";
    let u = get_user_info(Some("alice"), Some(passwd), Some("/root"));
    assert_eq!(u.home, "/home/alice");
    assert_eq!(u.uid, Some(1000));
    assert_eq!(u.gid, Some(1001));
    let v = get_user_info(Some("bob"), Some(passwd), Some("/root"));
    assert_eq!((v.home.as_str(), v.uid, v.gid), ("/root", None, None));
    assert_eq!(get_user_home(None, None, None), "/tmp");
    let w = get_user_info(Some("eve"), Some("eve:x:abc:5::/home/eve"), None);
    assert_eq!((w.home.as_str(), w.uid, w.gid), ("/home/eve", None, Some(5)));
}

#[test]
fn sizes_for_people() {
    assert_eq!(format_size(0), "0B");
    assert_eq!(format_size(1023), "1023B");
    assert_eq!(format_size(1024), "1.0K");
    assert_eq!(format_size(1536), "1.5K");
    assert_eq!(format_size(2304), "2.2K");
    assert_eq!(format_size(1048575), "1024.0K");
    assert_eq!(format_size(1048576), "1.0M");
    assert_eq!(format_size(5 * 1073741824), "5.0G");
    assert_eq!(format_size(u64::MAX), "17179869184.0G");
}

#[test]
fn sizes_agree_with_float_formatting() {
    let mut values: Vec<u64> = (0..5000u64).map(|i| i * 37).collect();
    for k in 0..64u32 {
        let b = 1u64 << k;
        for d in [0u64, 1, 511, 512, 513, 1000] {
            values.push(b.wrapping_add(d));
            values.push(b.wrapping_sub(d));
        }
    }
    values.push(u64::MAX);
    values.push((1u64 << 53) + 1);
    values.push((1u64 << 60) + 3 * (1u64 << 7));
    for b in values {
        let expect = if b >= 1 << 30 {
            format!("{:.1}G", b as f64 / (1u64 << 30) as f64)
        } else if b >= 1 << 20 {
            format!("{:.1}M", b as f64 / (1u64 << 20) as f64)
        } else if b >= 1 << 10 {
            format!("{:.1}K", b as f64 / 1024.0)
        } else {
            format!("{}B", b)
        };
        assert_eq!(format_size(b), expect, "bytes = {}", b);
    }
}

fn record(path: &str) -> FileRecord {
    FileRecord {
        path: path.to_string(),
        created_by_package: "p".to_string(),
        created_by_process: "p".to_string(),
        created_at: 0,
        last_accessed_by_package: "p".to_string(),
        last_accessed_by_process: "p".to_string(),
        last_accessed_at: 0,
    }
}

#[test]
fn cleanup_targets_and_totals() {
    let link = CleanTarget::from_record(record("/l"), true, true, 99);
    assert_eq!((link.is_dir, link.size), (false, 0));
    assert_eq!(link.kind_label(), "link");
    assert_eq!(link.removal(), Removal::File);
    let dir = CleanTarget::from_record(record("/d"), false, true, 4096);
    assert_eq!(dir.kind_label(), "dir ");
    assert_eq!(dir.removal(), Removal::Tree);
    let file = CleanTarget::from_record(record("/f"), false, false, 10);
    assert_eq!(file.kind_label(), "file");
    let s = summarize(&vec![link, dir, file]);
    assert_eq!((s.total_size, s.file_count, s.dir_count, s.symlink_count), (4106, 1, 1, 1));
    let big = vec![
        CleanTarget::from_record(record("/a"), false, false, u64::MAX),
        CleanTarget::from_record(record("/b"), false, false, 5),
    ];
    assert_eq!(summarize(&big).total_size, u64::MAX);
}

#[test]
fn confirmation_answers() {
    assert!(is_confirmation("y\n"));
    assert!(is_confirmation("  YES "));
    assert!(is_confirmation("Yes"));
    assert!(!is_confirmation("no"));
    assert!(!is_confirmation(""));
    assert!(!is_confirmation("yess"));
}
