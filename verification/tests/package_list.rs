use eos_installer::packages::{
    names_head, PackageDb, PackageScan, ScanAction, ScanEvent, ScanSource,
    PACKAGES_HEAD_DIR, PACKAGES_TOML_PATH, PKEY_PATH,
};

fn field(path: &str) -> [u8; 256] {
    let mut f = [0u8; 256];
    f[..path.len()].copy_from_slice(path.as_bytes());
    f
}

fn strings(list: &[&str]) -> Vec<String> {
    list.iter().map(|s| s.to_string()).collect()
}

fn db() -> PackageDb {
    PackageDb {
        pubkeys: strings(&["other", "main"]),
        installed: vec![
            ("a".to_string(), "main".to_string()),
            ("b".to_string(), "other".to_string()),
        ],
    }
}

fn finished(action: ScanAction) -> Vec<String> {
    match action {
        ScanAction::Finish { files } => files,
        other => panic!("{:?}", other),
    }
}

fn because(action: ScanAction) -> String {
    match action {
        ScanAction::Fail { reason } => reason,
        other => panic!("{:?}", other),
    }
}

fn head_request(action: ScanAction) -> (String, usize) {
    match action {
        ScanAction::ReadHead { path, key } => (path, key),
        other => panic!("{:?}", other),
    }
}

#[test]
fn a_database_scan_lists_every_package() {
    let mut scan = PackageScan::new(ScanSource::Database, strings(&["filesystem.toml"]));
    assert!(matches!(scan.package_files(ScanEvent::Begin), ScanAction::ReadDatabase));
    let action = scan.package_files(ScanEvent::Database(db()));
    assert_eq!(head_request(action), ("var/lib/packages/a.pkgar_head".to_string(), 1));
    let action = scan.package_files(ScanEvent::Entries(vec![field("usr/bin/a"), field("etc/é")]));
    assert_eq!(head_request(action), ("var/lib/packages/b.pkgar_head".to_string(), 0));
    let action = scan.package_files(ScanEvent::Entries(Vec::new()));
    assert_eq!(
        finished(action),
        strings(&[
            "filesystem.toml",
            "etc/pkg/packages.toml",
            "usr/bin/a",
            "etc/é",
            "var/lib/packages/a.pkgar_head",
            "var/lib/packages/b.pkgar_head",
        ])
    );
    assert_eq!(PACKAGES_TOML_PATH, "etc/pkg/packages.toml");
    assert_eq!(PACKAGES_HEAD_DIR, "var/lib/packages");
}

#[test]
fn a_remote_without_a_key_ends_the_scan() {
    let mut scan = PackageScan::new(ScanSource::Database, Vec::new());
    scan.package_files(ScanEvent::Begin);
    let db = PackageDb {
        pubkeys: strings(&["main"]),
        installed: vec![("p".to_string(), "gone".to_string())],
    };
    assert_eq!(
        because(scan.package_files(ScanEvent::Database(db))),
        "package p names remote gone, which has no public key in the package database"
    );
}

#[test]
fn an_empty_database_lists_itself() {
    let mut scan = PackageScan::new(ScanSource::Database, Vec::new());
    scan.package_files(ScanEvent::Begin);
    let db = PackageDb { pubkeys: Vec::new(), installed: Vec::new() };
    let action = scan.package_files(ScanEvent::Database(db));
    assert_eq!(finished(action), strings(&["etc/pkg/packages.toml"]));
}

#[test]
fn a_directory_scan_lists_every_head() {
    let mut scan = PackageScan::new(ScanSource::Directory, strings(&["filesystem.toml"]));
    assert!(matches!(scan.package_files(ScanEvent::Begin), ScanAction::ReadKey));
    assert!(matches!(scan.package_files(ScanEvent::Done), ScanAction::OpenDirectory));
    assert!(matches!(scan.package_files(ScanEvent::Done), ScanAction::NextItem));
    assert!(matches!(
        scan.package_files(ScanEvent::Item("id_ed25519.pub.toml".to_string())),
        ScanAction::NextItem
    ));
    let action = scan.package_files(ScanEvent::Item("x.pkgar_head".to_string()));
    assert_eq!(head_request(action), ("pkg/x.pkgar_head".to_string(), 0));
    assert!(matches!(
        scan.package_files(ScanEvent::Entries(vec![field("usr/bin/x")])),
        ScanAction::NextItem
    ));
    let action = scan.package_files(ScanEvent::NoItem);
    assert_eq!(
        finished(action),
        strings(&["filesystem.toml", "pkg/id_ed25519.pub.toml", "usr/bin/x", "pkg/x.pkgar_head"])
    );
    assert_eq!(PKEY_PATH, "pkg/id_ed25519.pub.toml");
}

#[test]
fn entries_that_do_not_lead_down_are_refused() {
    for (bad, component) in [
        ("/etc/x", "/"),
        ("/../x", "/"),
        ("..", ".."),
        ("a/../b", ".."),
        ("../a", ".."),
        ("./a", "."),
        ("./..", "."),
        (".", "."),
        ("a/..", ".."),
        ("a/./é/..", ".."),
    ] {
        let mut scan = PackageScan::new(ScanSource::Directory, Vec::new());
        scan.package_files(ScanEvent::Begin);
        scan.package_files(ScanEvent::Done);
        scan.package_files(ScanEvent::Done);
        scan.package_files(ScanEvent::Item("x.pkgar_head".to_string()));
        let entries = vec![field("ok"), field(bad), field("/other")];
        assert_eq!(
            because(scan.package_files(ScanEvent::Entries(entries))),
            format!("Invalid component '{}' in path '{}' while parsing entry", component, bad)
        );
    }
}

#[test]
fn entries_that_lead_down_are_kept_as_they_are() {
    for good in ["", "a", "a/./b", "a//b", "a/b/", "...", "a..b", ".a", "..a/b", "a/."] {
        let mut scan = PackageScan::new(ScanSource::Directory, Vec::new());
        scan.package_files(ScanEvent::Begin);
        scan.package_files(ScanEvent::Done);
        scan.package_files(ScanEvent::Done);
        scan.package_files(ScanEvent::Item("x.pkgar_head".to_string()));
        let action = scan.package_files(ScanEvent::Entries(vec![field(good)]));
        assert!(matches!(action, ScanAction::NextItem), "{:?}", good);
        let files = finished(scan.package_files(ScanEvent::NoItem));
        assert_eq!(files[1], good);
    }
    // A path may fill its field, and ends at the first zero otherwise.
    let full = [b'x'; 256];
    let mut cut = [b'y'; 256];
    cut[2] = 0;
    let mut scan = PackageScan::new(ScanSource::Directory, Vec::new());
    scan.package_files(ScanEvent::Begin);
    scan.package_files(ScanEvent::Done);
    scan.package_files(ScanEvent::Done);
    scan.package_files(ScanEvent::Item("x.pkgar_head".to_string()));
    scan.package_files(ScanEvent::Entries(vec![full, cut]));
    let files = finished(scan.package_files(ScanEvent::NoItem));
    assert_eq!(files[1], "x".repeat(256));
    assert_eq!(files[2], "yy");
}

#[test]
fn failures_are_passed_on() {
    let mut scan = PackageScan::new(ScanSource::Database, Vec::new());
    scan.package_files(ScanEvent::Begin);
    assert_eq!(
        because(scan.package_files(ScanEvent::Failed("E".to_string()))),
        "cannot read the package database: E"
    );
    let mut scan = PackageScan::new(ScanSource::Database, Vec::new());
    scan.package_files(ScanEvent::Begin);
    scan.package_files(ScanEvent::Database(db()));
    assert_eq!(because(scan.package_files(ScanEvent::Failed("E".to_string()))), "E");
    let mut scan = PackageScan::new(ScanSource::Directory, Vec::new());
    scan.package_files(ScanEvent::Begin);
    assert_eq!(because(scan.package_files(ScanEvent::Failed("E".to_string()))), "E");
}

#[test]
fn heads_are_known_by_their_extension() {
    for name in [
        "a.pkgar_head", ".pkgar_head", "..pkgar_head", "pkgar_head", "a.pkgar_head.bak", "a.b.pkgar_head",
        "a.pkgar", "", "a.Pkgar_head", "x.ppkgar_head",
    ] {
        let expected = std::path::Path::new(name).extension().and_then(|e| e.to_str())
            == Some("pkgar_head");
        assert_eq!(names_head(name), expected, "{:?}", name);
    }
}

#[test]
fn a_refused_path_that_is_no_text_is_shown_with_stand_ins() {
    let mut odd = field("../x");
    odd[3] = 0xff;
    let mut scan = PackageScan::new(ScanSource::Directory, Vec::new());
    scan.package_files(ScanEvent::Begin);
    scan.package_files(ScanEvent::Done);
    scan.package_files(ScanEvent::Done);
    scan.package_files(ScanEvent::Item("x.pkgar_head".to_string()));
    assert_eq!(
        because(scan.package_files(ScanEvent::Entries(vec![odd]))),
        "Invalid component '..' in path '../\u{fffd}' while parsing entry"
    );
}
