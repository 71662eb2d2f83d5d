use std::collections::HashMap;

use hdas::resolve::{get_ppid, strip_deleted_marker, trim_comm, PackageInfo, PidTreeWalk, Probe, Reply, Step, MAX_DEPTH};

/// A synthetic process table: pid -> (parent, exe, comm), and exe -> package.
struct Table {
    procs: HashMap<u32, (u32, String, String)>,
    owners: HashMap<String, String>,
    owner_queries: Vec<String>,
    steps: usize,
}

impl Table {
    fn new() -> Table {
        Table { procs: HashMap::new(), owners: HashMap::new(), owner_queries: Vec::new(), steps: 0 }
    }

    fn add(&mut self, pid: u32, ppid: u32, exe: &str, comm: &str) {
        self.procs.insert(pid, (ppid, exe.to_string(), comm.to_string()));
    }

    fn own(&mut self, exe: &str, pkg: &str) {
        self.owners.insert(exe.to_string(), pkg.to_string());
    }

    fn resolve(&mut self, pid: u32, comm: &str) -> PackageInfo {
        let (mut walk, mut step) = PidTreeWalk::start(pid, comm);
        loop {
            let reply = match step {
                Step::Done(info) => return info,
                Step::Ask(Probe::Exe(p)) => Reply::Exe(self.procs.get(&p).map(|e| e.1.clone())),
                Step::Ask(Probe::Owner(path)) => {
                    self.owner_queries.push(path.clone());
                    Reply::Owner(self.owners.get(&path).cloned())
                }
                Step::Ask(Probe::Stat(p)) => Reply::Stat(
                    self.procs.get(&p).map(|e| format!("{} ({}) S {} 1 1 0 -1", p, e.2, e.0)),
                ),
                Step::Ask(Probe::Comm(p)) => Reply::Comm(self.procs.get(&p).map(|e| format!("{}\n", e.2))),
            };
            self.steps += 1;
            step = walk.advance(reply);
        }
    }
}

#[test]
fn caller_owned_directly() {
    let mut t = Table::new();
    t.add(100, 1, "/usr/lib/firefox/firefox", "firefox");
    t.own("/usr/lib/firefox/firefox", "firefox");
    let info = t.resolve(100, "firefox");
    assert_eq!(info.package, "firefox");
    assert_eq!(info.process, "firefox");
    assert!(!info.via_parent);
}

#[test]
fn parent_resolution() {
    let mut t = Table::new();
    t.add(300, 10, "/usr/bin/bash", "bash");
    t.add(10, 1, "/usr/bin/firefox", "firefox");
    t.own("/usr/bin/firefox", "firefox");
    let info = t.resolve(300, "bash");
    assert_eq!(info.package, "firefox");
    assert_eq!(info.process, "firefox");
    assert!(info.via_parent);
}

#[test]
fn unowned_chain_is_unknown() {
    let mut t = Table::new();
    let n = MAX_DEPTH + 1;
    for i in 0..=n {
        t.add(1000 + i, 1000 + i + 1, &format!("/bin/proc{}", i), &format!("proc{}", i));
    }
    t.add(1000 + n + 1, 1, "/bin/owned", "owned");
    t.own("/bin/owned", "pkg");
    let info = t.resolve(1000, "proc0");
    assert_eq!(info.package, "unknown");
    assert_eq!(info.process, "proc0");
    assert!(!info.via_parent);
}

#[test]
fn owned_ancestor_is_found() {
    for k in 1..=MAX_DEPTH {
        let mut t = Table::new();
        for i in 0..=MAX_DEPTH {
            t.add(2000 + i, 2000 + i + 1, &format!("/bin/q{}", i), &format!("q{}", i));
        }
        t.own(&format!("/bin/q{}", k), "owner");
        let info = t.resolve(2000, "q0");
        assert_eq!(info.package, "owner");
        assert_eq!(info.process, format!("q{}", k));
        assert!(info.via_parent);
    }
}

#[test]
fn init_parent_ends_the_walk() {
    let mut t = Table::new();
    t.add(50, 1, "/bin/sh", "sh");
    t.add(1, 0, "/sbin/init", "init");
    t.own("/sbin/init", "systemd");
    let info = t.resolve(50, "sh");
    assert_eq!(info.package, "unknown");
    assert_eq!(info.process, "sh");
}

#[test]
fn vanished_process_is_unknown() {
    let mut t = Table::new();
    let info = t.resolve(77, "gone");
    assert_eq!(info.package, "unknown");
    assert_eq!(info.process, "gone");
}

#[test]
fn deleted_executable_is_queried_without_marker() {
    let mut t = Table::new();
    t.add(5, 1, "/usr/bin/app (deleted)", "app");
    t.own("/usr/bin/app", "app-pkg");
    let info = t.resolve(5, "app");
    assert_eq!(info.package, "app-pkg");
    assert_eq!(t.owner_queries, vec!["/usr/bin/app".to_string()]);
}

#[test]
fn visited_ancestor_is_not_asked_again() {
    let mut t = Table::new();
    t.add(8, 9, "/bin/a", "a");
    t.add(9, 8, "/bin/b", "b");
    let info = t.resolve(8, "a");
    assert_eq!(info.package, "unknown");
    assert_eq!(t.owner_queries, vec!["/bin/a".to_string(), "/bin/b".to_string(), "/bin/a".to_string()]);
}

#[test]
fn ppid_after_last_paren() {
    assert_eq!(get_ppid("123 (a b) c) S 45 1 1"), Some(45));
    assert_eq!(get_ppid("7 (x) R 1"), Some(1));
    assert_eq!(get_ppid("7 (x) R"), None);
    assert_eq!(get_ppid("no paren here 1 2"), None);
    assert_eq!(get_ppid("7 (x) R -3"), None);
}

#[test]
fn marker_and_comm_cleanup() {
    assert_eq!(strip_deleted_marker("/usr/bin/x (deleted)"), "/usr/bin/x");
    assert_eq!(strip_deleted_marker("/usr/bin/x"), "/usr/bin/x");
    assert_eq!(trim_comm("  firefox\n"), "firefox");
}

#[test]
fn walk_is_bounded() {
    let mut t = Table::new();
    for i in 0..40u32 {
        t.add(3000 + i, 3000 + i + 1, &format!("/bin/r{}", i), &format!("r{}", i));
    }
    let info = t.resolve(3000, "r0");
    assert_eq!(info.package, "unknown");
    assert!(t.steps <= 4 * MAX_DEPTH as usize + 2);
    assert_eq!(t.owner_queries.len(), MAX_DEPTH as usize + 1);
}

#[test]
fn own_owner_ends_the_walk_at_once() {
    let mut t = Table::new();
    t.add(9, 10, "/usr/bin/editor", "editor");
    t.add(10, 1, "/usr/bin/other", "other");
    t.own("/usr/bin/editor", "editor-pkg");
    let info = t.resolve(9, "editor");
    assert_eq!(info.package, "editor-pkg");
    assert_eq!(t.steps, 2);
}
