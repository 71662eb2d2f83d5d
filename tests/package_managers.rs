use hdas::pkgmgr::{strip_version_str, PkgMgr};

fn sorted(mut v: Vec<String>) -> Vec<String> {
    v.sort();
    v
}

#[test]
fn detection_order() {
    let found = vec!["apk".to_string(), "rpm".to_string(), "dpkg".to_string()];
    assert_eq!(PkgMgr::detect(&found), Some(PkgMgr::Dpkg));
    assert_eq!(PkgMgr::detect(&vec!["xbps-query".to_string()]), Some(PkgMgr::Xbps));
    assert_eq!(PkgMgr::detect(&vec!["pacman".to_string(), "apk".to_string()]), Some(PkgMgr::Pacman));
    assert_eq!(PkgMgr::detect(&vec![]), None);
    assert_eq!(PkgMgr::candidates().len(), 5);
}

#[test]
fn manager_names_and_self_packages() {
    assert_eq!(PkgMgr::Xbps.name(), "xbps");
    assert_eq!(PkgMgr::Xbps.probe_binary(), "xbps-query");
    assert_eq!(PkgMgr::Dpkg.manager_package_names(), vec!["dpkg", "apt"]);
    assert!(PkgMgr::Rpm.is_self_package("dnf"));
    assert!(!PkgMgr::Rpm.is_self_package("apt"));
    assert!(PkgMgr::Pacman.is_self_package("pacman"));
}

#[test]
fn version_stripping() {
    assert_eq!(strip_version_str("firefox-128.0_1"), "firefox");
    assert_eq!(strip_version_str("libfoo-1-dev"), "libfoo");
    assert_eq!(strip_version_str("musl-utils-1.2.3-r0"), "musl-utils");
    assert_eq!(strip_version_str("noversion"), "noversion");
    assert_eq!(strip_version_str("trailing-"), "trailing-");
}

#[test]
fn owner_of_path_per_manager() {
    assert_eq!(
        PkgMgr::Pacman.parse_owner(true, "/usr/bin/firefox is owned by firefox 128.0-1\n"),
        Some("firefox".to_string())
    );
    assert_eq!(PkgMgr::Pacman.parse_owner(false, "/usr/bin/firefox is owned by firefox 1"), None);
    assert_eq!(PkgMgr::Pacman.parse_owner(true, "error: no package owns"), None);
    assert_eq!(
        PkgMgr::Dpkg.parse_owner(true, "coreutils: /usr/bin/ls\nother: /x\n"),
        Some("coreutils".to_string())
    );
    assert_eq!(
        PkgMgr::Dpkg.parse_owner(true, "libc6:amd64: /lib/x"),
        Some("libc6".to_string())
    );
    assert_eq!(PkgMgr::Dpkg.parse_owner(true, ""), None);
    assert_eq!(PkgMgr::Rpm.parse_owner(true, "bash\n"), Some("bash".to_string()));
    assert_eq!(PkgMgr::Rpm.parse_owner(true, "file /x is not owned by any package\n"), None);
    assert_eq!(
        PkgMgr::Xbps.parse_owner(true, "firefox-128.0_1: /usr/bin/firefox\n"),
        Some("firefox".to_string())
    );
    assert_eq!(
        PkgMgr::Apk.parse_owner(true, "/bin/busybox is owned by busybox-1.36.1-r2\n"),
        Some("busybox".to_string())
    );
    assert_eq!(PkgMgr::Apk.parse_owner(true, "ERROR: /x: Could not find owner package"), None);
}

#[test]
fn installed_listing_per_manager() {
    assert_eq!(
        sorted(PkgMgr::Pacman.parse_installed("bash\nfirefox\n\n  vim \nbash\n")),
        vec!["bash", "firefox", "vim"]
    );
    assert_eq!(
        sorted(PkgMgr::Xbps.parse_installed("ii firefox-128.0_1  Web browser\nii vim-9.0_2 editor\nbad\n")),
        vec!["firefox", "vim"]
    );
    assert_eq!(
        sorted(PkgMgr::Apk.parse_installed("musl-1.2.4-r2\nbusybox-1.36.1-r2\n")),
        vec!["busybox", "musl"]
    );
    assert!(PkgMgr::Dpkg.parse_installed("").is_empty());
}

#[test]
fn commands_per_manager() {
    assert_eq!(PkgMgr::Pacman.list_command(), vec!["pacman", "-Qq"]);
    assert_eq!(PkgMgr::Apk.owner_command(), vec!["apk", "info", "--who-owns"]);
}
