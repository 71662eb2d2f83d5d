use hdas::canon::{get_tracked_path, MonitoredDir};
use hdas::config::{expand_user_path, find_matching_dir, Config};
use hdas::event::{next_action, tracked_path_for_event, EventAction};
use hdas::resolve::PackageInfo;

fn dir(path: &str, depth: Option<u32>) -> MonitoredDir {
    MonitoredDir { path: path.to_string(), depth }
}

fn track(p: &str, dirs: &Vec<MonitoredDir>, depth: u32) -> Option<String> {
    get_tracked_path(p, "/home/u", dirs, depth)
}

#[test]
fn first_write_keeps_one_component() {
    let dirs = vec![dir(".cache", None)];
    assert_eq!(
        track("/home/u/.cache/mozilla/firefox/Crash Reports/pending/foo", &dirs, 1),
        Some("/home/u/.cache/mozilla".to_string())
    );
}

#[test]
fn depth_zero_keeps_whole_path() {
    let dirs = vec![dir("/etc", Some(0))];
    assert_eq!(
        track("/etc/nginx/conf.d/site.conf", &dirs, 1),
        Some("/etc/nginx/conf.d/site.conf".to_string())
    );
}

#[test]
fn depth_zero_relative_dir_keeps_whole_path() {
    let dirs = vec![dir(".config", Some(0))];
    assert_eq!(
        track("/home/u/.config/app/a/b", &dirs, 1),
        Some("/home/u/.config/app/a/b".to_string())
    );
}

#[test]
fn relative_filename_is_taken_from_home() {
    let dirs = vec![dir(".cache", None)];
    assert_eq!(track(".cache/foo/bar", &dirs, 1), Some("/home/u/.cache/foo".to_string()));
}

#[test]
fn unmonitored_path_is_dropped() {
    let dirs = vec![dir(".cache", None)];
    assert_eq!(track("/home/u/Documents/x.txt", &dirs, 1), None);
    assert_eq!(track("/home/u/.cache", &dirs, 1), None);
    assert_eq!(track("/var/log/x", &dirs, 1), None);
}

#[test]
fn depth_two_keeps_two_components() {
    let dirs = vec![dir(".config", Some(2))];
    assert_eq!(track("/home/u/.config/a/b/c/d", &dirs, 1), Some("/home/u/.config/a/b".to_string()));
    assert_eq!(track("/home/u/.config/a", &dirs, 1), Some("/home/u/.config/a".to_string()));
}

#[test]
fn local_share_gets_one_more_level() {
    let dirs = vec![dir(".local", None)];
    assert_eq!(
        track("/home/u/.local/share/app/data/x", &dirs, 1),
        Some("/home/u/.local/share/app".to_string())
    );
    assert_eq!(
        track("/home/u/.local/state/app/log", &dirs, 1),
        Some("/home/u/.local/state/app".to_string())
    );
    assert_eq!(track("/home/u/.local/bin/tool", &dirs, 1), Some("/home/u/.local/bin".to_string()));
}

#[test]
fn first_matching_dir_wins() {
    let dirs = vec![dir(".cache", Some(2)), dir("..cache", Some(1))];
    assert_eq!(track("/home/u/.cache/a/b/c", &dirs, 1), Some("/home/u/.cache/a/b".to_string()));
    let dirs2 = vec![dir("..cache", Some(1)), dir(".cache", Some(2))];
    assert_eq!(track("/home/u/.cache/a/b/c", &dirs2, 1), Some("/home/u/.cache/a".to_string()));
}

#[test]
fn absolute_dir_truncates_after_its_path() {
    let dirs = vec![dir("/opt/", None)];
    assert_eq!(track("/opt/x/y/z", &dirs, 1), Some("/opt/x".to_string()));
    assert_eq!(track("/opt", &dirs, 1), Some("/opt".to_string()));
    assert_eq!(track("/optional/x", &dirs, 1), None);
}

#[test]
fn tracked_path_is_prefix_of_opened_path() {
    let dirs = vec![dir(".cache", None), dir("/etc", Some(2)), dir(".local", None)];
    for p in [
        "/home/u/.cache/a/b/c",
        "/etc/ssl/certs/x.pem",
        "/home/u/.local/share/app/x",
        "/home/u/.cache/only",
    ] {
        let t = track(p, &dirs, 1).unwrap();
        assert!(p.starts_with(&t));
        assert!(t == p || p[t.len()..].starts_with('/'));
    }
}

#[test]
fn canonicalising_twice_changes_nothing() {
    let dirs = vec![dir(".cache", None), dir("/etc", Some(2)), dir(".local", Some(1))];
    for p in ["/home/u/.cache/a/b/c", "/etc/ssl/certs/x.pem", "/home/u/.local/share/app/x/y"] {
        let once = track(p, &dirs, 1).unwrap();
        let twice = track(&once, &dirs, 1).unwrap();
        assert_eq!(once, twice);
    }
}

#[test]
fn depth_d_gives_d_components() {
    for d in 1u32..5 {
        let dirs = vec![dir(".cache", Some(d))];
        let t = track("/home/u/.cache/a/b/c/d/e/f", &dirs, 1).unwrap();
        let beyond = t.strip_prefix("/home/u/.cache/").unwrap();
        assert_eq!(beyond.split('/').count(), d as usize);
    }
}

#[test]
fn event_path_needs_the_cheap_test() {
    let mut c = Config::default();
    c.monitored_dirs = vec![dir(".cache", None)];
    assert_eq!(
        tracked_path_for_event(&c, "/home/u", "/home/u/.cache/x/y"),
        Some("/home/u/.cache/x".to_string())
    );
    assert_eq!(tracked_path_for_event(&c, "/home/u", "/home/u/.config/x/y"), None);
}

#[test]
fn user_paths_expand_from_home() {
    assert_eq!(expand_user_path("/abs/p", "/home/u"), "/abs/p");
    assert_eq!(expand_user_path("~/x/y", "/home/u"), "/home/u/x/y");
    assert_eq!(expand_user_path("~", "/home/u"), "/home/u");
    assert_eq!(expand_user_path("x", "/home/u/"), "/home/u/x");
    assert_eq!(expand_user_path(".cache", "/home/u"), "/home/u/.cache");
}

#[test]
fn matching_dir_and_its_depth() {
    let mut c = Config::default();
    c.monitored_dirs = vec![dir(".cache", Some(3)), dir("/etc", None)];
    c.tracking_depth = 2;
    assert_eq!(
        find_matching_dir("/home/u/.cache/a", "/home/u", &c),
        (Some(".cache".to_string()), Some(3))
    );
    assert_eq!(find_matching_dir("/etc/a", "/home/u", &c), (Some("/etc".to_string()), Some(2)));
    assert_eq!(find_matching_dir("/usr/a", "/home/u", &c), (None, None));
}

#[test]
fn absolute_dir_passes_the_cheap_test() {
    let mut c = Config::default();
    c.monitored_dirs = vec![dir("/etc", Some(0))];
    assert_eq!(
        tracked_path_for_event(&c, "/home/u", "/etc/nginx/conf.d/site.conf"),
        Some("/etc/nginx/conf.d/site.conf".to_string())
    );
    assert_eq!(tracked_path_for_event(&c, "/home/u", "/usr/etc/x"), None);
}

#[test]
fn event_steps_in_order() {
    let mut c = Config::default();
    c.monitored_dirs = vec![dir(".cache", None)];
    c.ignored_packages = vec!["noisy".to_string()];
    let f = "/home/u/.cache/app/x";
    assert!(matches!(next_action(&c, "/home/u", "/tmp/x", None, None), EventAction::Drop));
    assert!(matches!(next_action(&c, "/home/u", f, None, None), EventAction::CheckRecorded(p) if p == "/home/u/.cache/app"));
    assert!(matches!(next_action(&c, "/home/u", f, Some(true), None), EventAction::Drop));
    assert!(matches!(next_action(&c, "/home/u", f, Some(false), None), EventAction::Resolve(p) if p == "/home/u/.cache/app"));
    let info = PackageInfo { package: "app".to_string(), process: "bash".to_string(), via_parent: true };
    match next_action(&c, "/home/u", f, Some(false), Some(&info)) {
        EventAction::Commit(p, commit) => {
            assert_eq!(p, "/home/u/.cache/app");
            assert!(commit.ignored_process);
            assert_eq!(commit.marker, '~');
        }
        _ => panic!("expected a commit"),
    }
    let noisy = PackageInfo { package: "noisy".to_string(), process: "n".to_string(), via_parent: false };
    assert!(matches!(next_action(&c, "/home/u", f, Some(false), Some(&noisy)), EventAction::Drop));
}
