use eos_installer::disks::{
    choose_disk, confirms, disk_menu, disk_paths, interface_of, is_disk_scheme, is_whole_disk,
    say_refused, scheme_dir_of, Choice, DiskEntry, DiskRow, LineRead, Removable, Scheme,
};

#[test]
fn interface_is_read_from_the_scheme_name() {
    // The exact string two real runs produced.
    let (iface, rem) = interface_of("disk.pci-0000-00-05.0-nvme");
    assert_eq!(iface, "NVMe");
    assert_eq!(rem, Removable::No);
}

#[test]
fn an_unmeasured_interface_is_reported_as_unknown_not_guessed() {
    // We must not claim removability for a driver this code has never been run against.
    let (iface, rem) = interface_of("disk.pci-0000-00-1f.2-ahci");
    assert_eq!(iface, "ahci");
    assert_eq!(rem, Removable::Unknown);
    assert!(rem.describe().contains("no removability flag"));
}

#[test]
fn scheme_dir_is_the_parent_not_the_partition() {
    assert_eq!(
        scheme_dir_of("/scheme/disk.pci-0000-00-06.0-nvme/1"),
        "disk.pci-0000-00-06.0-nvme"
    );
}

#[test]
fn confirmation_needs_the_whole_path() {
    let disk = Some("/scheme/disk.pci-0000-00-06.0-nvme/1");
    assert!(confirms("/scheme/disk.pci-0000-00-06.0-nvme/1", disk));
    assert!(confirms("  /scheme/disk.pci-0000-00-06.0-nvme/1\n", disk));
}

#[test]
fn a_near_miss_is_refused() {
    // These two differ by one character, and both existed in real runs.
    let disk = Some("/scheme/disk.pci-0000-00-06.0-nvme/1");
    assert!(!confirms("/scheme/disk.pci-0000-00-05.0-nvme/1", disk));
    assert!(!confirms("/scheme/disk.pci-0000-00-06.0-nvme", disk));
    // A path comparison would take this for the disk; a confirmation must not normalise.
    assert!(!confirms("/scheme/disk.pci-0000-00-06.0-nvme/1/", disk));
    assert!(!confirms("/scheme//disk.pci-0000-00-06.0-nvme/1", disk));
    assert!(!confirms("1", disk));
    assert!(!confirms("", disk));
    assert!(!confirms("   ", disk));
}

#[test]
fn a_path_that_is_no_text_is_refused() {
    assert!(!confirms("anything", None));
    assert!(!confirms("", Some("")));
}

#[test]
fn interfaces_at_the_edges() {
    assert_eq!(interface_of(""), ("".to_string(), Removable::Unknown));
    assert_eq!(interface_of("disk.x-"), ("".to_string(), Removable::Unknown));
    assert_eq!(interface_of("nvme"), ("NVMe".to_string(), Removable::No));
    assert_eq!(interface_of("NVME"), ("NVME".to_string(), Removable::Unknown));
    assert_eq!(Removable::Yes.describe(), "yes (inferred from the interface)");
    assert_eq!(Removable::No.describe(), "no (inferred from the interface)");
}

#[test]
fn scheme_dirs_agree_with_paths() {
    let paths = [
        "", "/", "a", "/a", "a/b", "/a/b", "/a/b/", "/a//b", "/a/./b", "./a", "../a", "a/..", "/..",
        "/../a", "a/../b", "/a/b/.", ".", "./.", "//", "/a/b/c/d", "a/b/../..",
    ];
    for p in paths {
        let path = std::path::Path::new(p);
        let expected = path
            .parent()
            .and_then(|q| q.file_name())
            .and_then(|n| n.to_str())
            .unwrap_or("");
        assert_eq!(scheme_dir_of(p), expected, "{:?}", p);
    }
}

#[test]
fn the_menu_shows_each_disk() {
    let rows = vec![DiskRow {
        path: "/scheme/disk.pci-0000-00-06.0-nvme/1".to_string(),
        size: "4 GB".to_string(),
    }];
    let menu = disk_menu(&rows).unwrap();
    assert_eq!(
        menu,
        "\nDisks found:\n\n  \u{1b}[1m/scheme/disk.pci-0000-00-06.0-nvme/1\u{1b}[0m\n      size:       4 GB\n      interface:  NVMe\n      removable:  no (inferred from the interface)\n\n\u{1b}[1mEVERYTHING on the disk you name will be ERASED.\u{1b}[0m\nType its full path exactly as shown above, or 'q' to quit.\nDisk to erase: "
    );
}

#[test]
fn without_disks_there_is_no_menu() {
    let message = disk_menu(&Vec::new()).unwrap_err();
    assert!(message.starts_with("redox_installer_tui: no RedoxFS partition found\n"));
    assert!(message.ends_with("unmounted RedoxFS disk in Redox OS\n"));
}

fn two_disks() -> Vec<(String, u64)> {
    vec![
        ("/scheme/disk.pci-0000-00-05.0-nvme/1".to_string(), 10),
        ("/scheme/disk.pci-0000-00-06.0-nvme/1".to_string(), 20),
    ]
}

#[test]
fn only_a_listed_disk_is_erased() {
    let disks = two_disks();
    assert_eq!(
        choose_disk(
            &disks,
            LineRead::Line(" /scheme/disk.pci-0000-00-06.0-nvme/1 \n".to_string())
        ),
        Choice::Erase("/scheme/disk.pci-0000-00-06.0-nvme/1".to_string())
    );
    assert_eq!(
        choose_disk(&disks, LineRead::Line("2\n".to_string())),
        Choice::Again(
            "\nrefused: \"2\" does not name any disk listed above. Nothing was written.\n"
                .to_string()
        )
    );
    assert_eq!(
        choose_disk(&disks, LineRead::Line("a\tb\n".to_string())),
        Choice::Again(say_refused("\"a\\tb\""))
    );
    assert_eq!(
        choose_disk(&disks, LineRead::Line("\n".to_string())),
        Choice::Again(say_refused("\"\""))
    );
}

#[test]
fn quitting_and_the_end_of_input_write_nothing() {
    let disks = two_disks();
    for q in ["q", "Q", " q\n"] {
        assert_eq!(
            choose_disk(&disks, LineRead::Line(q.to_string())),
            Choice::Stop(
                "redox_installer_tui: nothing was written; quitting at the operator's request\n"
                    .to_string()
            )
        );
    }
    assert_eq!(
        choose_disk(&disks, LineRead::End),
        Choice::Stop("redox_installer_tui: failed to read line: end of input\n".to_string())
    );
    assert_eq!(
        choose_disk(&disks, LineRead::Failed("broken".to_string())),
        Choice::Stop("redox_installer_tui: failed to read line: broken\n".to_string())
    );
}

fn entry(name: &str, size: Option<u64>) -> DiskEntry {
    DiskEntry {
        name: Some(name.to_string()),
        path: format!("/scheme/x/{}", name),
        size,
    }
}

#[test]
fn disks_are_the_whole_ones_with_a_size() {
    let mut paths = vec![("first".to_string(), 1)];
    let schemes = vec![
        Scheme {
            name: Some("disk.pci-nvme".to_string()),
            entries: vec![
                entry("0", Some(100)),
                entry("0p1", Some(50)),
                entry("1", Some(0)),
                entry("2", None),
                DiskEntry { name: None, path: "/scheme/x/?".to_string(), size: Some(7) },
                entry("3", Some(300)),
            ],
        },
        Scheme { name: Some("display".to_string()), entries: vec![entry("4", Some(4))] },
        Scheme { name: None, entries: vec![entry("5", Some(5))] },
        Scheme { name: Some("disk".to_string()), entries: vec![entry("6", Some(6))] },
    ];
    disk_paths(&mut paths, &schemes);
    assert_eq!(
        paths,
        vec![
            ("first".to_string(), 1),
            ("/scheme/x/0".to_string(), 100),
            ("/scheme/x/3".to_string(), 300),
            ("/scheme/x/6".to_string(), 6),
        ]
    );
    assert!(is_disk_scheme("disk") && is_disk_scheme("disk.live") && !is_disk_scheme("dis"));
    assert!(is_whole_disk("0") && !is_whole_disk("0p1"));
}
