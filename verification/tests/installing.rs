use eos_installer::install::{Install, InstallAction, InstallEvent, Note};
use eos_installer::net::NetCfg;
use eos_installer::packages::ScanSource;

fn settings() -> NetCfg {
    NetCfg {
        dhcp: false,
        ip: "1.2.3.4".to_string(),
        subnet: "255.0.0.0".to_string(),
        router: "1.1.1.1".to_string(),
        dns: "9.9.9.9".to_string(),
    }
}

fn message(progress: usize, text: &str) -> Note {
    Note::Message { progress, text: text.to_string() }
}

fn line(text: &str) -> Note {
    Note::Line(text.to_string())
}

fn leave(failure: Option<&str>) -> InstallAction {
    InstallAction::Leave { failure: failure.map(|s| s.to_string()) }
}

fn strings(list: &[&str]) -> Vec<String> {
    list.iter().map(|s| s.to_string()).collect()
}

/// An installation that was told all this.
fn told(mut i: Install, events: Vec<InstallEvent>) -> Install {
    for event in events {
        i.install(event);
    }
    i
}

fn to_clone() -> Vec<InstallEvent> {
    vec![
        InstallEvent::Begin,
        InstallEvent::Answer(false),
        InstallEvent::Answer(false),
        InstallEvent::DiskReady,
    ]
}

fn to_mount() -> Vec<InstallEvent> {
    let mut events = to_clone();
    events.push(InstallEvent::Cloned(false));
    events
}

fn failed() -> InstallEvent {
    InstallEvent::Failed("E".to_string())
}

#[test]
fn the_window_copies_file_by_file() {
    let mut i = Install::from_window(settings());
    assert_eq!(
        i.install(InstallEvent::Begin),
        (
            vec![message(0, "Loading bootloader")],
            InstallAction::ProbeBootloader {
                path: "/scheme/file/usr/lib/boot/bootloader.bios".to_string()
            }
        )
    );
    assert_eq!(
        i.install(InstallEvent::Answer(true)),
        (
            Vec::new(),
            InstallAction::ReadBootloader {
                path: "/scheme/file/usr/lib/boot/bootloader.bios".to_string()
            }
        )
    );
    assert_eq!(
        i.install(InstallEvent::Done),
        (
            vec![message(0, "Loading bootloader.efi")],
            InstallAction::ProbeBootloader {
                path: "/scheme/file/usr/lib/boot/bootloader.efi".to_string()
            }
        )
    );
    assert_eq!(
        i.install(InstallEvent::Answer(true)),
        (
            Vec::new(),
            InstallAction::ReadBootloader {
                path: "/scheme/file/usr/lib/boot/bootloader.efi".to_string()
            }
        )
    );
    assert_eq!(
        i.install(InstallEvent::Done),
        (vec![message(0, "Formatting disk")], InstallAction::UseDisk)
    );
    assert_eq!(i.install(InstallEvent::DiskReady), (Vec::new(), InstallAction::CloneDisk));
    assert_eq!(i.install(InstallEvent::Cloned(false)), (Vec::new(), InstallAction::Mount));
    assert_eq!(
        i.install(InstallEvent::Mounted),
        (
            vec![message(0, "Loading filesystem.toml")],
            InstallAction::ReadConfig { path: "/scheme/file/filesystem.toml".to_string() }
        )
    );
    assert_eq!(i.install(InstallEvent::Done), (Vec::new(), InstallAction::DecodeConfig));
    assert_eq!(
        i.install(InstallEvent::Done),
        (
            vec![message(0, "Loading package files")],
            InstallAction::ListPackages {
                source: ScanSource::Directory,
                files: strings(&["filesystem.toml"])
            }
        )
    );
    assert_eq!(
        i.install(InstallEvent::Packages(strings(&["filesystem.toml", "b", "a", "b"]))),
        (vec![message(0, "Configuring system")], InstallAction::Configure)
    );
    assert_eq!(
        i.install(InstallEvent::Done),
        (
            vec![message(0, "Copy a [0/3]")],
            InstallAction::CopyFile { name: "a".to_string(), keep_existing: false }
        )
    );
    assert_eq!(
        i.install(InstallEvent::Done),
        (
            vec![message(33, "Copy b [1/3]")],
            InstallAction::CopyFile { name: "b".to_string(), keep_existing: false }
        )
    );
    assert_eq!(
        i.install(InstallEvent::Done),
        (
            vec![message(66, "Copy filesystem.toml [2/3]")],
            InstallAction::CopyFile {
                name: "filesystem.toml".to_string(),
                keep_existing: false
            }
        )
    );
    assert_eq!(
        i.install(InstallEvent::Done),
        (
            vec![message(66, "Applying network settings")],
            InstallAction::WriteNet { settings: settings().write_into() }
        )
    );
    assert_eq!(
        i.install(InstallEvent::Done),
        (
            vec![message(100, "Finished installing, unmounting filesystem")],
            leave(None)
        )
    );
    assert_eq!(
        i.install(InstallEvent::Installed("3.5s".to_string())),
        (
            Vec::new(),
            InstallAction::Succeed {
                text: "Finished installing in 3.5s, ready to reboot".to_string()
            }
        )
    );
}

#[test]
fn the_window_applies_its_settings_to_a_clone() {
    let mut i = told(Install::from_window(settings()), to_clone());
    assert_eq!(
        i.install(InstallEvent::Progress(1_500_000, 3_000_000)),
        (vec![message(50, "50%: 1 MB/3 MB")], InstallAction::Wait)
    );
    assert_eq!(
        i.install(InstallEvent::Progress(1_500_001, 3_000_000)),
        (Vec::new(), InstallAction::Wait)
    );
    assert_eq!(
        i.install(InstallEvent::Cloned(true)),
        (
            vec![
                message(100, "Finished installing using fast mode"),
                message(100, "Applying network settings"),
            ],
            InstallAction::Mount
        )
    );
    assert_eq!(
        i.install(InstallEvent::Mounted),
        (Vec::new(), InstallAction::WriteNet { settings: settings().write_into() })
    );
    assert_eq!(i.install(InstallEvent::Done), (Vec::new(), leave(None)));
}

#[test]
fn progress_of_a_given_up_clone_stays() {
    let mut i = told(Install::from_window(settings()), to_clone());
    i.install(InstallEvent::Progress(7, 100));
    i.install(InstallEvent::Cloned(false));
    let (notes, _) = i.install(InstallEvent::Mounted);
    assert_eq!(notes, vec![message(7, "Loading filesystem.toml")]);
}

#[test]
fn the_terminal_copies_and_keeps_what_is_there() {
    let mut i = Install::from_terminal();
    assert_eq!(
        i.install(InstallEvent::Begin),
        (
            Vec::new(),
            InstallAction::ProbeBootloader { path: "/usr/lib/boot/bootloader.bios".to_string() }
        )
    );
    assert_eq!(
        i.install(InstallEvent::Answer(false)),
        (
            Vec::new(),
            InstallAction::ProbeBootloader { path: "/usr/lib/boot/bootloader.efi".to_string() }
        )
    );
    assert_eq!(i.install(InstallEvent::Answer(false)), (Vec::new(), InstallAction::UseDisk));
    assert_eq!(i.install(InstallEvent::DiskReady), (Vec::new(), InstallAction::CloneDisk));
    assert_eq!(i.install(InstallEvent::Cloned(false)), (Vec::new(), InstallAction::Mount));
    assert_eq!(
        i.install(InstallEvent::Mounted),
        (Vec::new(), InstallAction::LoadConfig { path: "/filesystem.toml".to_string() })
    );
    assert_eq!(
        i.install(InstallEvent::Done),
        (
            Vec::new(),
            InstallAction::ListPackages {
                source: ScanSource::Database,
                files: strings(&["filesystem.toml"])
            }
        )
    );
    assert_eq!(
        i.install(InstallEvent::Packages(strings(&["b", "a"]))),
        (vec![line("configuring system")], InstallAction::Configure)
    );
    assert_eq!(
        i.install(InstallEvent::Done),
        (
            vec![line("copy a [0/2]")],
            InstallAction::CopyFile { name: "a".to_string(), keep_existing: true }
        )
    );
    assert_eq!(
        i.install(InstallEvent::Done),
        (
            vec![line("copy b [1/2]")],
            InstallAction::CopyFile { name: "b".to_string(), keep_existing: true }
        )
    );
    assert_eq!(
        i.install(InstallEvent::Done),
        (vec![line("finished installing, unmounting filesystem")], leave(None))
    );
    assert_eq!(
        i.install(InstallEvent::Installed("1s".to_string())),
        (
            vec![line("redox_installer_tui: installed successfully in 1s")],
            InstallAction::Exit { code: 0 }
        )
    );
}

#[test]
fn the_terminal_is_done_with_a_clone() {
    let mut i = told(Install::from_terminal(), to_clone());
    assert_eq!(
        i.install(InstallEvent::Progress(2_000_000, 2_000_000)),
        (vec![Note::Open("\r100%: 2 MB/2 MB".to_string())], InstallAction::Wait)
    );
    assert_eq!(
        i.install(InstallEvent::Progress(2_000_000, 2_000_000)),
        (Vec::new(), InstallAction::Wait)
    );
    assert_eq!(
        i.install(InstallEvent::Cloned(true)),
        (vec![line("\rfinished installing using fast mode")], leave(None))
    );
    assert_eq!(
        i.install(InstallEvent::NotInstalled("E".to_string())),
        (
            vec![line("redox_installer_tui: failed to install: E")],
            InstallAction::Exit { code: 1 }
        )
    );
}

#[test]
fn a_boot_loader_that_cannot_be_read_stops_everything() {
    let mut i = told(
        Install::from_window(settings()),
        vec![InstallEvent::Begin, InstallEvent::Answer(true)],
    );
    assert_eq!(
        i.install(failed()),
        (
            Vec::new(),
            InstallAction::Fail {
                text: "/scheme/file/usr/lib/boot/bootloader.bios: failed to read: E".to_string()
            }
        )
    );
    let mut i = told(
        Install::from_terminal(),
        vec![InstallEvent::Begin, InstallEvent::Answer(false), InstallEvent::Answer(true)],
    );
    assert_eq!(
        i.install(failed()),
        (
            vec![line("redox_installer_tui: /usr/lib/boot/bootloader.efi: failed to read: E")],
            InstallAction::Exit { code: 1 }
        )
    );
}

#[test]
fn each_failure_gives_the_disk_back() {
    let window = || told(Install::from_window(settings()), to_mount());
    let mut i = told(Install::from_window(settings()), to_clone());
    assert_eq!(i.install(failed()), (Vec::new(), leave(Some("E"))));
    let mut i = told(window(), vec![InstallEvent::Mounted]);
    assert_eq!(
        i.install(failed()),
        (Vec::new(), leave(Some("/scheme/file/filesystem.toml: failed to read: E")))
    );
    let mut i = told(window(), vec![InstallEvent::Mounted, InstallEvent::Done]);
    assert_eq!(
        i.install(failed()),
        (Vec::new(), leave(Some("/scheme/file/filesystem.toml: failed to decode: E")))
    );
    let mut i = told(window(), vec![InstallEvent::Mounted, InstallEvent::Done, InstallEvent::Done]);
    assert_eq!(
        i.install(failed()),
        (Vec::new(), leave(Some("failed to read package files: E")))
    );
    let to_configure = || {
        vec![
            InstallEvent::Mounted,
            InstallEvent::Done,
            InstallEvent::Done,
            InstallEvent::Packages(strings(&["a"])),
        ]
    };
    let mut i = told(window(), to_configure());
    assert_eq!(i.install(failed()), (Vec::new(), leave(Some("E"))));
    let mut i = told(told(window(), to_configure()), vec![InstallEvent::Done]);
    assert_eq!(i.install(failed()), (Vec::new(), leave(Some("E"))));
    let mut i = told(told(window(), to_configure()), vec![InstallEvent::Done, InstallEvent::Done]);
    assert_eq!(i.install(failed()), (Vec::new(), leave(Some("E"))));
    assert_eq!(
        i.install(InstallEvent::NotInstalled("E".to_string())),
        (
            Vec::new(),
            InstallAction::Fail { text: "Failed to install: E".to_string() }
        )
    );
    let mut i = told(
        told(Install::from_terminal(), to_mount()),
        vec![InstallEvent::Mounted],
    );
    assert_eq!(i.install(failed()), (Vec::new(), leave(Some("E"))));
}

#[test]
fn no_files_means_nothing_to_copy() {
    let mut i = told(
        told(Install::from_terminal(), to_mount()),
        vec![
            InstallEvent::Mounted,
            InstallEvent::Done,
            InstallEvent::Packages(Vec::new()),
        ],
    );
    assert_eq!(
        i.install(InstallEvent::Done),
        (vec![line("finished installing, unmounting filesystem")], leave(None))
    );
}
