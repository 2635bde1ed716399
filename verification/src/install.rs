//! The course of an installation.
//!
//! The disk, the file systems and the clock belong to the caller. [`Install::install`] is told what
//! came of the last request and answers with what there is to say and with the next request. The
//! window and the terminal install in the same order; they differ in what they say, in where they
//! read from, and in that only the window has network settings to apply.
use vstd::prelude::*;

use crate::net;
use crate::net::{NetCfg, NetView};
use crate::packages::ScanSource;
use crate::text;

verus! {

/// Something to say.
#[derive(Debug, PartialEq, Eq)]
pub enum Note {
    /// For the window: how far the installation is, in hundredths, and what it is doing.
    Message { progress: usize, text: String },
    /// For the terminal: a line.
    Line(String),
    /// For the terminal: a text that leaves the line open.
    Open(String),
}

/// What an installation asks for.
#[derive(Debug, PartialEq, Eq)]
pub enum InstallAction {
    /// Say whether there is a boot loader at this path.
    ProbeBootloader { path: String },
    /// Read the boot loader at this path; where there is none, an empty one is used.
    ReadBootloader { path: String },
    /// Partition and format the disk, and go on with the new file system.
    UseDisk,
    /// Try to clone the running file system into the new one.
    CloneDisk,
    /// Nothing: cloning goes on.
    Wait,
    /// Mount the new file system and go on there.
    Mount,
    /// Read the configuration at this path.
    ReadConfig { path: String },
    /// Make sense of the configuration that was read.
    DecodeConfig,
    /// Read the configuration at this path and make sense of it.
    LoadConfig { path: String },
    /// Take the packages out of the configuration and add their files to these.
    ListPackages { source: ScanSource, files: Vec<String> },
    /// Install the configuration.
    Configure,
    /// Copy this file from the running system into the new one.
    CopyFile { name: String, keep_existing: bool },
    /// Write these files into `etc/net` of the new system.
    WriteNet { settings: Vec<(String, String)> },
    /// Give the file system back, and the disk: everything is there, or it failed for a reason.
    Leave { failure: Option<String> },
    /// Nothing more: the installation succeeded.
    Succeed { text: String },
    /// Nothing more: the installation failed.
    Fail { text: String },
    /// Nothing more: leave the program with this code.
    Exit { code: i32 },
}

/// What came of the last request.
#[derive(Debug)]
pub enum InstallEvent {
    /// Nothing yet.
    Begin,
    /// The answer to a question.
    Answer(bool),
    /// It was done.
    Done,
    /// The disk is formatted.
    DiskReady,
    /// This much is cloned, of so much.
    Progress(u64, u64),
    /// Cloning is over: it did the installation, or it cannot be used here.
    Cloned(bool),
    /// The new file system is mounted.
    Mounted,
    /// With the files of the packages these are the files.
    Packages(Vec<String>),
    /// It could not be done, for this reason.
    Failed(String),
    /// The disk is given back, after this time.
    Installed(String),
    /// The disk is given back: it failed, for this reason.
    NotInstalled(String),
}

/// What an installation is waiting for.
#[derive(Clone, Copy, Debug, PartialEq, Eq, Structural)]
pub enum InstallStep {
    Start,
    BiosProbe,
    BiosRead,
    EfiProbe,
    EfiRead,
    Disk,
    Clone,
    FastMount,
    FastNet,
    Mount,
    ConfigRead,
    ConfigDecode,
    ConfigLoad,
    Packages,
    Configure,
    Copy,
    Net,
    Left,
    End,
}

/// One installation.
#[derive(Debug)]
pub struct Install {
    net: Option<NetCfg>,
    step: InstallStep,
    progress: usize,
    last: u64,
    files: Vec<String>,
    at: usize,
}

/// An installation as characters.
#[verifier::ext_equal]
pub struct InstallView {
    /// The network settings that the window collected; the terminal has none.
    pub net: Option<NetView>,
    pub step: InstallStep,
    /// How far the installation is, in hundredths.
    pub progress: usize,
    /// The share that was last told while cloning.
    pub last: u64,
    /// The files to copy.
    pub files: Seq<Seq<char>>,
    /// The file that is being copied.
    pub at: nat,
}

/// Something to say, as characters.
pub enum NoteView {
    Message { progress: usize, text: Seq<char> },
    Line(Seq<char>),
    Open(Seq<char>),
}

/// A request as characters.
pub enum InstallActionView {
    ProbeBootloader { path: Seq<char> },
    ReadBootloader { path: Seq<char> },
    UseDisk,
    CloneDisk,
    Wait,
    Mount,
    ReadConfig { path: Seq<char> },
    DecodeConfig,
    LoadConfig { path: Seq<char> },
    ListPackages { source: ScanSource, files: Seq<Seq<char>> },
    Configure,
    CopyFile { name: Seq<char>, keep_existing: bool },
    WriteNet { settings: Seq<(Seq<char>, Seq<char>)> },
    Leave { failure: Option<Seq<char>> },
    Succeed { text: Seq<char> },
    Fail { text: Seq<char> },
    Exit { code: i32 },
}

/// An event as characters.
pub enum InstallEventView {
    Begin,
    Answer(bool),
    Done,
    DiskReady,
    Progress(u64, u64),
    Cloned(bool),
    Mounted,
    Packages(Seq<Seq<char>>),
    Failed(Seq<char>),
    Installed(Seq<char>),
    NotInstalled(Seq<char>),
}

impl View for Install {
    type V = InstallView;

    closed spec fn view(&self) -> InstallView {
        InstallView {
            net: match self.net {
                Some(cfg) => Some(cfg@),
                None => None,
            },
            step: self.step,
            progress: self.progress,
            last: self.last,
            files: text::texts(self.files@),
            at: self.at as nat,
        }
    }
}

impl View for Note {
    type V = NoteView;

    open spec fn view(&self) -> NoteView {
        match self {
            Note::Message { progress, text } => NoteView::Message {
                progress: *progress,
                text: text@,
            },
            Note::Line(text) => NoteView::Line(text@),
            Note::Open(text) => NoteView::Open(text@),
        }
    }
}

impl View for InstallAction {
    type V = InstallActionView;

    open spec fn view(&self) -> InstallActionView {
        match self {
            InstallAction::ProbeBootloader { path } => InstallActionView::ProbeBootloader {
                path: path@,
            },
            InstallAction::ReadBootloader { path } => InstallActionView::ReadBootloader {
                path: path@,
            },
            InstallAction::UseDisk => InstallActionView::UseDisk,
            InstallAction::CloneDisk => InstallActionView::CloneDisk,
            InstallAction::Wait => InstallActionView::Wait,
            InstallAction::Mount => InstallActionView::Mount,
            InstallAction::ReadConfig { path } => InstallActionView::ReadConfig { path: path@ },
            InstallAction::DecodeConfig => InstallActionView::DecodeConfig,
            InstallAction::LoadConfig { path } => InstallActionView::LoadConfig { path: path@ },
            InstallAction::ListPackages { source, files } => InstallActionView::ListPackages {
                source: *source,
                files: text::texts(files@),
            },
            InstallAction::Configure => InstallActionView::Configure,
            InstallAction::CopyFile { name, keep_existing } => InstallActionView::CopyFile {
                name: name@,
                keep_existing: *keep_existing,
            },
            InstallAction::WriteNet { settings } => InstallActionView::WriteNet {
                settings: net::file_views(settings@),
            },
            InstallAction::Leave { failure } => InstallActionView::Leave {
                failure: match failure {
                    Some(reason) => Some(reason@),
                    None => None,
                },
            },
            InstallAction::Succeed { text } => InstallActionView::Succeed { text: text@ },
            InstallAction::Fail { text } => InstallActionView::Fail { text: text@ },
            InstallAction::Exit { code } => InstallActionView::Exit { code: *code },
        }
    }
}

impl View for InstallEvent {
    type V = InstallEventView;

    open spec fn view(&self) -> InstallEventView {
        match self {
            InstallEvent::Begin => InstallEventView::Begin,
            InstallEvent::Answer(yes) => InstallEventView::Answer(*yes),
            InstallEvent::Done => InstallEventView::Done,
            InstallEvent::DiskReady => InstallEventView::DiskReady,
            InstallEvent::Progress(used, total) => InstallEventView::Progress(*used, *total),
            InstallEvent::Cloned(whole) => InstallEventView::Cloned(*whole),
            InstallEvent::Mounted => InstallEventView::Mounted,
            InstallEvent::Packages(files) => InstallEventView::Packages(text::texts(files@)),
            InstallEvent::Failed(reason) => InstallEventView::Failed(reason@),
            InstallEvent::Installed(time) => InstallEventView::Installed(time@),
            InstallEvent::NotInstalled(reason) => InstallEventView::NotInstalled(reason@),
        }
    }
}

/// What there is to say, as characters.
pub open spec fn note_views(notes: Seq<Note>) -> Seq<NoteView> {
    notes.map_values(|n: Note| n@)
}

/// The outcome of one step: the installation, what there is to say, and the next request.
pub struct StepView {
    pub state: InstallView,
    pub notes: Seq<NoteView>,
    pub action: InstallActionView,
}

/// Is a file being copied only while there is one?
pub open spec fn valid(i: InstallView) -> bool {
    i.step == InstallStep::Copy ==> i.at < i.files.len()
}

/// Can the request that the installation is waiting for fail?
pub open spec fn may_fail(step: InstallStep) -> bool {
    match step {
        InstallStep::BiosRead | InstallStep::EfiRead | InstallStep::Clone | InstallStep::FastNet
        | InstallStep::ConfigRead | InstallStep::ConfigDecode | InstallStep::ConfigLoad
        | InstallStep::Packages | InstallStep::Configure | InstallStep::Copy | InstallStep::Net =>
        true,
        _ => false,
    }
}

/// Is the disk in use?
pub open spec fn holds_disk(step: InstallStep) -> bool {
    match step {
        InstallStep::Start | InstallStep::BiosProbe | InstallStep::BiosRead
        | InstallStep::EfiProbe | InstallStep::EfiRead | InstallStep::End => false,
        _ => true,
    }
}

/// Is this an event that the installation is waiting for? Of nothing no share can be told.
pub open spec fn awaited(i: InstallView, e: InstallEventView) -> bool {
    match e {
        InstallEventView::Begin => i.step == InstallStep::Start,
        InstallEventView::Answer(_) => i.step == InstallStep::BiosProbe || i.step
            == InstallStep::EfiProbe,
        InstallEventView::Done => match i.step {
            InstallStep::BiosRead | InstallStep::EfiRead | InstallStep::FastNet
            | InstallStep::ConfigRead | InstallStep::ConfigDecode | InstallStep::ConfigLoad
            | InstallStep::Configure | InstallStep::Copy | InstallStep::Net => true,
            _ => false,
        },
        InstallEventView::DiskReady => i.step == InstallStep::Disk,
        InstallEventView::Progress(used, total) => i.step == InstallStep::Clone && total > 0 && used
            * 100 <= u64::MAX,
        InstallEventView::Cloned(_) => i.step == InstallStep::Clone,
        InstallEventView::Mounted => i.step == InstallStep::FastMount || i.step
            == InstallStep::Mount,
        InstallEventView::Packages(_) => i.step == InstallStep::Packages,
        InstallEventView::Failed(_) => may_fail(i.step),
        InstallEventView::Installed(_) | InstallEventView::NotInstalled(_) => holds_disk(i.step),
    }
}

/// The running system's root: the window and the terminal see it at different places.
pub open spec fn root(i: InstallView) -> Seq<char> {
    if i.net is Some {
        "/scheme/file/"@
    } else {
        "/"@
    }
}

/// The boot loader for machines with a BIOS.
pub open spec fn bios_path(i: InstallView) -> Seq<char> {
    root(i) + "usr/lib/boot/bootloader.bios"@
}

/// The boot loader for machines with EFI.
pub open spec fn efi_path(i: InstallView) -> Seq<char> {
    root(i) + "usr/lib/boot/bootloader.efi"@
}

/// The configuration of the file system.
pub open spec fn config_path(i: InstallView) -> Seq<char> {
    root(i) + "filesystem.toml"@
}

/// The same installation, waiting for something else.
pub open spec fn at_step(i: InstallView, step: InstallStep) -> InstallView {
    InstallView { step, ..i }
}

/// What is said by the window, and what by the terminal if it says anything.
pub open spec fn said(i: InstallView, window: Seq<char>, terminal: Option<Seq<char>>) -> Seq<
    NoteView,
> {
    if i.net is Some {
        seq![NoteView::Message { progress: i.progress, text: window }]
    } else {
        match terminal {
            Some(line) => seq![NoteView::Line(line)],
            None => Seq::empty(),
        }
    }
}

/// The file system is given back.
pub open spec fn left(i: InstallView, notes: Seq<NoteView>, failure: Option<Seq<char>>) -> StepView {
    StepView {
        state: at_step(i, InstallStep::Left),
        notes,
        action: InstallActionView::Leave { failure },
    }
}

/// After the first boot loader comes the second.
pub open spec fn after_bios(i: InstallView) -> StepView {
    StepView {
        state: at_step(i, InstallStep::EfiProbe),
        notes: said(i, "Loading bootloader.efi"@, None),
        action: InstallActionView::ProbeBootloader { path: efi_path(i) },
    }
}

/// After the boot loaders comes the disk.
pub open spec fn after_efi(i: InstallView) -> StepView {
    StepView {
        state: at_step(i, InstallStep::Disk),
        notes: said(i, "Formatting disk"@, None),
        action: InstallActionView::UseDisk,
    }
}

/// The share that is cloned, in hundredths.
pub open spec fn share(used: u64, total: u64) -> u64 {
    (used * 100 / (total as int)) as u64
}

/// What is said of the share that is cloned.
pub open spec fn say_share(hundredths: nat, used: u64, total: u64) -> Seq<char> {
    text::decimal(hundredths) + "%: "@ + text::decimal((used / 1000 / 1000) as nat) + " MB/"@
        + text::decimal((total / 1000 / 1000) as nat) + " MB"@
}

/// Some more is cloned: it is said if the share changed.
pub open spec fn cloned_more(i: InstallView, used: u64, total: u64) -> StepView {
    let told = share(used, total);
    if i.net is Some {
        let progress = told as usize;
        let j = InstallView { progress, last: progress as u64, ..i };
        StepView {
            state: j,
            notes: if progress as u64 != i.last {
                said(j, say_share(progress as nat, used, total), None)
            } else {
                Seq::empty()
            },
            action: InstallActionView::Wait,
        }
    } else {
        StepView {
            state: InstallView { last: told, ..i },
            notes: if told != i.last {
                seq![NoteView::Open("\r"@ + say_share(told as nat, used, total))]
            } else {
                Seq::empty()
            },
            action: InstallActionView::Wait,
        }
    }
}

/// Cloning did the installation: the window has its network settings left to apply.
pub open spec fn cloned_all(i: InstallView) -> StepView {
    if i.net is Some {
        let j = InstallView { progress: 100, ..i };
        StepView {
            state: at_step(j, InstallStep::FastMount),
            notes: said(j, "Finished installing using fast mode"@, None) + said(
                j,
                "Applying network settings"@,
                None,
            ),
            action: InstallActionView::Mount,
        }
    } else {
        left(i, seq![NoteView::Line("\rfinished installing using fast mode"@)], None)
    }
}

/// What is said of the file that is copied.
pub open spec fn say_copy(i: InstallView) -> Seq<char> {
    i.files[i.at as int] + " ["@ + text::decimal(i.at) + "/"@ + text::decimal(i.files.len()) + "]"@
}

/// The next file is copied, or all are: then the network settings follow, if there are any.
pub open spec fn next_copy(i: InstallView) -> StepView {
    if i.at < i.files.len() {
        let j = InstallView {
            step: InstallStep::Copy,
            progress: if i.net is Some {
                (i.at * 100 / i.files.len()) as usize
            } else {
                i.progress
            },
            ..i
        };
        StepView {
            state: j,
            notes: said(j, "Copy "@ + say_copy(j), Some("copy "@ + say_copy(j))),
            action: InstallActionView::CopyFile {
                name: i.files[i.at as int],
                keep_existing: i.net is None,
            },
        }
    } else {
        match i.net {
            Some(cfg) => StepView {
                state: at_step(i, InstallStep::Net),
                notes: said(i, "Applying network settings"@, None),
                action: InstallActionView::WriteNet { settings: net::settings_files(cfg) },
            },
            None => left(
                i,
                seq![NoteView::Line("finished installing, unmounting filesystem"@)],
                None,
            ),
        }
    }
}

/// The configuration is known: the packages come next.
pub open spec fn after_config(i: InstallView) -> StepView {
    StepView {
        state: at_step(i, InstallStep::Packages),
        notes: said(i, "Loading package files"@, None),
        action: InstallActionView::ListPackages {
            source: if i.net is Some {
                ScanSource::Directory
            } else {
                ScanSource::Database
            },
            files: seq!["filesystem.toml"@],
        },
    }
}

/// The new file system is mounted.
pub open spec fn mounted(i: InstallView) -> StepView {
    match i.net {
        Some(cfg) => if i.step == InstallStep::FastMount {
            StepView {
                state: at_step(i, InstallStep::FastNet),
                notes: Seq::empty(),
                action: InstallActionView::WriteNet { settings: net::settings_files(cfg) },
            }
        } else {
            StepView {
                state: at_step(i, InstallStep::ConfigRead),
                notes: said(i, "Loading filesystem.toml"@, None),
                action: InstallActionView::ReadConfig { path: config_path(i) },
            }
        },
        None => StepView {
            state: at_step(i, InstallStep::ConfigLoad),
            notes: Seq::empty(),
            action: InstallActionView::LoadConfig { path: config_path(i) },
        },
    }
}

/// What was asked for is done.
pub open spec fn done(i: InstallView) -> StepView {
    match i.step {
        InstallStep::BiosRead => after_bios(i),
        InstallStep::EfiRead => after_efi(i),
        InstallStep::ConfigRead => StepView {
            state: at_step(i, InstallStep::ConfigDecode),
            notes: Seq::empty(),
            action: InstallActionView::DecodeConfig,
        },
        InstallStep::ConfigDecode | InstallStep::ConfigLoad => after_config(i),
        InstallStep::Configure => next_copy(InstallView { at: 0, ..i }),
        InstallStep::Copy => next_copy(InstallView { at: i.at + 1, ..i }),
        InstallStep::Net => {
            let j = InstallView { progress: 100, ..i };
            left(j, said(j, "Finished installing, unmounting filesystem"@, None), None)
        },
        _ => left(i, Seq::empty(), None),
    }
}

/// What was asked for failed.
pub open spec fn failed(i: InstallView, reason: Seq<char>) -> StepView {
    match i.step {
        InstallStep::BiosRead => stopped(i, bios_path(i) + ": failed to read: "@ + reason),
        InstallStep::EfiRead => stopped(i, efi_path(i) + ": failed to read: "@ + reason),
        InstallStep::ConfigRead => left(
            i,
            Seq::empty(),
            Some(config_path(i) + ": failed to read: "@ + reason),
        ),
        InstallStep::ConfigDecode => left(
            i,
            Seq::empty(),
            Some(config_path(i) + ": failed to decode: "@ + reason),
        ),
        InstallStep::Packages => left(
            i,
            Seq::empty(),
            Some("failed to read package files: "@ + reason),
        ),
        _ => left(i, Seq::empty(), Some(reason)),
    }
}

/// The installation is over before the disk was touched.
pub open spec fn stopped(i: InstallView, text: Seq<char>) -> StepView {
    let state = at_step(i, InstallStep::End);
    if i.net is Some {
        StepView { state, notes: Seq::empty(), action: InstallActionView::Fail { text } }
    } else {
        StepView {
            state,
            notes: seq![NoteView::Line("redox_installer_tui: "@ + text)],
            action: InstallActionView::Exit { code: 1 },
        }
    }
}

/// The disk is given back: the installation is over.
pub open spec fn over(i: InstallView, success: bool, detail: Seq<char>) -> StepView {
    let state = at_step(i, InstallStep::End);
    if i.net is Some {
        StepView {
            state,
            notes: Seq::empty(),
            action: if success {
                InstallActionView::Succeed {
                    text: "Finished installing in "@ + detail + ", ready to reboot"@,
                }
            } else {
                InstallActionView::Fail { text: "Failed to install: "@ + detail }
            },
        }
    } else if success {
        StepView {
            state,
            notes: seq![NoteView::Line("redox_installer_tui: installed successfully in "@ + detail)],
            action: InstallActionView::Exit { code: 0 },
        }
    } else {
        StepView {
            state,
            notes: seq![NoteView::Line("redox_installer_tui: failed to install: "@ + detail)],
            action: InstallActionView::Exit { code: 1 },
        }
    }
}

/// One step of an installation: what came of the last request, and what follows.
pub open spec fn install_next(i: InstallView, e: InstallEventView) -> StepView {
    match e {
        InstallEventView::Begin => StepView {
            state: at_step(i, InstallStep::BiosProbe),
            notes: said(i, "Loading bootloader"@, None),
            action: InstallActionView::ProbeBootloader { path: bios_path(i) },
        },
        InstallEventView::Answer(there) => if i.step == InstallStep::BiosProbe {
            if there {
                StepView {
                    state: at_step(i, InstallStep::BiosRead),
                    notes: Seq::empty(),
                    action: InstallActionView::ReadBootloader { path: bios_path(i) },
                }
            } else {
                after_bios(i)
            }
        } else if there {
            StepView {
                state: at_step(i, InstallStep::EfiRead),
                notes: Seq::empty(),
                action: InstallActionView::ReadBootloader { path: efi_path(i) },
            }
        } else {
            after_efi(i)
        },
        InstallEventView::Done => done(i),
        InstallEventView::DiskReady => StepView {
            state: InstallView { step: InstallStep::Clone, last: 0, ..i },
            notes: Seq::empty(),
            action: InstallActionView::CloneDisk,
        },
        InstallEventView::Progress(used, total) => cloned_more(i, used, total),
        InstallEventView::Cloned(whole) => if whole {
            cloned_all(i)
        } else {
            StepView {
                state: at_step(i, InstallStep::Mount),
                notes: Seq::empty(),
                action: InstallActionView::Mount,
            }
        },
        InstallEventView::Mounted => mounted(i),
        InstallEventView::Packages(files) => StepView {
            state: InstallView {
                step: InstallStep::Configure,
                files: text::in_order(files),
                ..i
            },
            notes: said(i, "Configuring system"@, Some("configuring system"@)),
            action: InstallActionView::Configure,
        },
        InstallEventView::Failed(reason) => failed(i, reason),
        InstallEventView::Installed(time) => over(i, true, time),
        InstallEventView::NotInstalled(reason) => over(i, false, reason),
    }
}

/// Nothing to say.
fn silence() -> (r: Vec<Note>)
    ensures
        note_views(r@) == Seq::<NoteView>::empty(),
{
    let r: Vec<Note> = Vec::new();
    assert(note_views(r@) =~= Seq::<NoteView>::empty());
    r
}

/// One thing to say.
fn single(note: Note) -> (r: Vec<Note>)
    ensures
        note_views(r@) == seq![note@],
{
    let mut r: Vec<Note> = Vec::new();
    r.push(note);
    assert(note_views(r@) =~= seq![note@]);
    r
}

/// Two texts, one after the other.
fn glue(a: &str, b: &str) -> (r: String)
    ensures
        r@ == a@ + b@,
{
    let mut r = a.to_owned();
    r.append(b);
    r
}

/// What is said of the share that is cloned.
fn tell_share(hundredths: u64, used: u64, total: u64) -> (r: String)
    ensures
        r@ == say_share(hundredths as nat, used, total),
{
    let mut r = text::to_decimal(hundredths);
    r.append("%: ");
    r.append(text::to_decimal(used / 1000 / 1000).as_str());
    r.append(" MB/");
    r.append(text::to_decimal(total / 1000 / 1000).as_str());
    r.append(" MB");
    r
}

impl Install {
    /// An installation from the window, with these network settings.
    pub fn from_window(net: NetCfg) -> (r: Install)
        ensures
            r@ == (InstallView {
                net: Some(net@),
                step: InstallStep::Start,
                progress: 0,
                last: 0,
                files: Seq::empty(),
                at: 0,
            }),
            valid(r@),
    {
        let files: Vec<String> = Vec::new();
        assert(text::texts(files@) =~= Seq::empty());
        Install { net: Some(net), step: InstallStep::Start, progress: 0, last: 0, files, at: 0 }
    }

    /// An installation from the terminal.
    pub fn from_terminal() -> (r: Install)
        ensures
            r@ == (InstallView {
                net: None,
                step: InstallStep::Start,
                progress: 0,
                last: 0,
                files: Seq::empty(),
                at: 0,
            }),
            valid(r@),
    {
        let files: Vec<String> = Vec::new();
        assert(text::texts(files@) =~= Seq::empty());
        Install { net: None, step: InstallStep::Start, progress: 0, last: 0, files, at: 0 }
    }

    /// A path in the running system.
    fn path(&self, name: &str) -> (r: String)
        ensures
            r@ == root(self@) + name@,
    {
        match &self.net {
            Some(_) => glue("/scheme/file/", name),
            None => glue("/", name),
        }
    }

    /// What is said by the window, and what by the terminal if it says anything.
    fn say(&self, window: String, terminal: Option<String>) -> (r: Vec<Note>)
        ensures
            note_views(r@) == said(
                self@,
                window@,
                match terminal {
                    Some(line) => Some(line@),
                    None => None,
                },
            ),
    {
        match &self.net {
            Some(_) => single(Note::Message { progress: self.progress, text: window }),
            None => match terminal {
                Some(line) => single(Note::Line(line)),
                None => silence(),
            },
        }
    }

    /// The file system is given back.
    fn leave(&mut self, notes: Vec<Note>, failure: Option<String>) -> (r: (
        Vec<Note>,
        InstallAction,
    ))
        ensures
            (StepView { state: final(self)@, notes: note_views(r.0@), action: r.1@ }) == left(
                old(self)@,
                note_views(notes@),
                match failure {
                    Some(reason) => Some(reason@),
                    None => None,
                },
            ),
    {
        self.step = InstallStep::Left;
        (notes, InstallAction::Leave { failure })
    }

    /// After the first boot loader comes the second.
    fn after_bios(&mut self) -> (r: (Vec<Note>, InstallAction))
        ensures
            (StepView { state: final(self)@, notes: note_views(r.0@), action: r.1@ }) == after_bios(
                old(self)@,
            ),
    {
        self.step = InstallStep::EfiProbe;
        let path = self.path("usr/lib/boot/bootloader.efi");
        (
            self.say("Loading bootloader.efi".to_owned(), None),
            InstallAction::ProbeBootloader { path },
        )
    }

    /// After the boot loaders comes the disk.
    fn after_efi(&mut self) -> (r: (Vec<Note>, InstallAction))
        ensures
            (StepView { state: final(self)@, notes: note_views(r.0@), action: r.1@ }) == after_efi(
                old(self)@,
            ),
    {
        self.step = InstallStep::Disk;
        (self.say("Formatting disk".to_owned(), None), InstallAction::UseDisk)
    }

    /// Some more is cloned: it is said if the share changed.
    fn cloned_more(&mut self, used: u64, total: u64) -> (r: (Vec<Note>, InstallAction))
        requires
            total > 0,
            used * 100 <= u64::MAX,
        ensures
            (StepView { state: final(self)@, notes: note_views(r.0@), action: r.1@ })
                == cloned_more(old(self)@, used, total),
    {
        let told: u64 = used * 100 / total;
        match &self.net {
            Some(_) => {
                let progress: usize = told as usize;
                let changed = progress as u64 != self.last;
                self.progress = progress;
                self.last = progress as u64;
                if changed {
                    let text = tell_share(progress as u64, used, total);
                    return (self.say(text, None), InstallAction::Wait);
                }
            },
            None => {
                let changed = told != self.last;
                self.last = told;
                if changed {
                    let text = tell_share(told, used, total);
                    return (
                        single(Note::Open(glue("\r", text.as_str()))),
                        InstallAction::Wait,
                    );
                }
            },
        }
        (silence(), InstallAction::Wait)
    }

    /// Cloning did the installation: the window has its network settings left to apply.
    fn cloned_all(&mut self) -> (r: (Vec<Note>, InstallAction))
        ensures
            (StepView { state: final(self)@, notes: note_views(r.0@), action: r.1@ }) == cloned_all(
                old(self)@,
            ),
    {
        match &self.net {
            Some(_) => {
                self.progress = 100;
                self.step = InstallStep::FastMount;
                let mut notes: Vec<Note> = Vec::new();
                notes.push(
                    Note::Message {
                        progress: 100,
                        text: "Finished installing using fast mode".to_owned(),
                    },
                );
                notes.push(
                    Note::Message { progress: 100, text: "Applying network settings".to_owned() },
                );
                assert(note_views(notes@) =~= cloned_all(old(self)@).notes);
                (notes, InstallAction::Mount)
            },
            None => {
                let notes = single(Note::Line("\rfinished installing using fast mode".to_owned()));
                self.leave(notes, None)
            },
        }
    }

    /// The next file is copied, or all are: then the network settings follow, if there are any.
    fn next_copy(&mut self) -> (r: (Vec<Note>, InstallAction))
        ensures
            (StepView { state: final(self)@, notes: note_views(r.0@), action: r.1@ }) == next_copy(
                old(self)@,
            ),
            valid(final(self)@),
    {
        let at = self.at;
        let count = self.files.len();
        if at < count {
            let name = self.files[at].clone();
            assert(self@.files[at as int] == name@);
            let keep_existing = self.net.is_none();
            self.step = InstallStep::Copy;
            if self.net.is_some() {
                let hundredths: u128 = at as u128 * 100 / count as u128;
                assert(hundredths < 100) by (nonlinear_arith)
                    requires
                        at < count,
                        hundredths == at as int * 100 / count as int,
                ;
                self.progress = hundredths as usize;
            }
            let mut told = name.clone();
            told.append(" [");
            told.append(text::to_decimal(at as u64).as_str());
            told.append("/");
            told.append(text::to_decimal(count as u64).as_str());
            told.append("]");
            let notes = self.say(
                glue("Copy ", told.as_str()),
                Some(glue("copy ", told.as_str())),
            );
            return (notes, InstallAction::CopyFile { name, keep_existing });
        }
        match &self.net {
            Some(cfg) => {
                let settings = cfg.write_into();
                self.step = InstallStep::Net;
                (
                    self.say("Applying network settings".to_owned(), None),
                    InstallAction::WriteNet { settings },
                )
            },
            None => {
                let notes = single(
                    Note::Line("finished installing, unmounting filesystem".to_owned()),
                );
                self.leave(notes, None)
            },
        }
    }

    /// The configuration is known: the packages come next.
    fn after_config(&mut self) -> (r: (Vec<Note>, InstallAction))
        ensures
            (StepView { state: final(self)@, notes: note_views(r.0@), action: r.1@ })
                == after_config(old(self)@),
    {
        self.step = InstallStep::Packages;
        let mut files: Vec<String> = Vec::new();
        files.push("filesystem.toml".to_owned());
        assert(text::texts(files@) =~= seq!["filesystem.toml"@]);
        let source = if self.net.is_some() {
            ScanSource::Directory
        } else {
            ScanSource::Database
        };
        (
            self.say("Loading package files".to_owned(), None),
            InstallAction::ListPackages { source, files },
        )
    }

    /// The new file system is mounted.
    fn mounted(&mut self) -> (r: (Vec<Note>, InstallAction))
        ensures
            (StepView { state: final(self)@, notes: note_views(r.0@), action: r.1@ }) == mounted(
                old(self)@,
            ),
    {
        match &self.net {
            Some(cfg) => {
                if self.step == InstallStep::FastMount {
                    let settings = cfg.write_into();
                    self.step = InstallStep::FastNet;
                    return (silence(), InstallAction::WriteNet { settings });
                }
                self.step = InstallStep::ConfigRead;
                let path = self.path("filesystem.toml");
                (
                    self.say("Loading filesystem.toml".to_owned(), None),
                    InstallAction::ReadConfig { path },
                )
            },
            None => {
                self.step = InstallStep::ConfigLoad;
                let path = self.path("filesystem.toml");
                (silence(), InstallAction::LoadConfig { path })
            },
        }
    }

    /// What was asked for is done.
    fn done(&mut self) -> (r: (Vec<Note>, InstallAction))
        requires
            valid(old(self)@),
        ensures
            (StepView { state: final(self)@, notes: note_views(r.0@), action: r.1@ }) == done(
                old(self)@,
            ),
            valid(final(self)@),
    {
        match self.step {
            InstallStep::BiosRead => self.after_bios(),
            InstallStep::EfiRead => self.after_efi(),
            InstallStep::ConfigRead => {
                self.step = InstallStep::ConfigDecode;
                (silence(), InstallAction::DecodeConfig)
            },
            InstallStep::ConfigDecode => self.after_config(),
            InstallStep::ConfigLoad => self.after_config(),
            InstallStep::Configure => {
                self.at = 0;
                self.next_copy()
            },
            InstallStep::Copy => {
                assert(self.at < self.files.len());
                self.at = self.at + 1;
                self.next_copy()
            },
            InstallStep::Net => {
                self.progress = 100;
                let notes = self.say(
                    "Finished installing, unmounting filesystem".to_owned(),
                    None,
                );
                self.leave(notes, None)
            },
            _ => self.leave(silence(), None),
        }
    }

    /// The installation is over before the disk was touched.
    fn stop(&mut self, text: String) -> (r: (Vec<Note>, InstallAction))
        ensures
            (StepView { state: final(self)@, notes: note_views(r.0@), action: r.1@ }) == stopped(
                old(self)@,
                text@,
            ),
    {
        self.step = InstallStep::End;
        match &self.net {
            Some(_) => (silence(), InstallAction::Fail { text }),
            None => (
                single(Note::Line(glue("redox_installer_tui: ", text.as_str()))),
                InstallAction::Exit { code: 1 },
            ),
        }
    }

    /// What was asked for failed.
    fn failed(&mut self, reason: String) -> (r: (Vec<Note>, InstallAction))
        ensures
            (StepView { state: final(self)@, notes: note_views(r.0@), action: r.1@ }) == failed(
                old(self)@,
                reason@,
            ),
    {
        match self.step {
            InstallStep::BiosRead => {
                let mut text = self.path("usr/lib/boot/bootloader.bios");
                text.append(": failed to read: ");
                text.append(reason.as_str());
                self.stop(text)
            },
            InstallStep::EfiRead => {
                let mut text = self.path("usr/lib/boot/bootloader.efi");
                text.append(": failed to read: ");
                text.append(reason.as_str());
                self.stop(text)
            },
            InstallStep::ConfigRead => {
                let mut text = self.path("filesystem.toml");
                text.append(": failed to read: ");
                text.append(reason.as_str());
                self.leave(silence(), Some(text))
            },
            InstallStep::ConfigDecode => {
                let mut text = self.path("filesystem.toml");
                text.append(": failed to decode: ");
                text.append(reason.as_str());
                self.leave(silence(), Some(text))
            },
            InstallStep::Packages => {
                let text = glue("failed to read package files: ", reason.as_str());
                self.leave(silence(), Some(text))
            },
            _ => self.leave(silence(), Some(reason)),
        }
    }

    /// The disk is given back: the installation is over.
    fn over(&mut self, success: bool, detail: String) -> (r: (Vec<Note>, InstallAction))
        ensures
            (StepView { state: final(self)@, notes: note_views(r.0@), action: r.1@ }) == over(
                old(self)@,
                success,
                detail@,
            ),
    {
        self.step = InstallStep::End;
        match &self.net {
            Some(_) => {
                if success {
                    let mut text = glue("Finished installing in ", detail.as_str());
                    text.append(", ready to reboot");
                    (silence(), InstallAction::Succeed { text })
                } else {
                    let text = glue("Failed to install: ", detail.as_str());
                    (silence(), InstallAction::Fail { text })
                }
            },
            None => {
                if success {
                    let line = glue(
                        "redox_installer_tui: installed successfully in ",
                        detail.as_str(),
                    );
                    (single(Note::Line(line)), InstallAction::Exit { code: 0 })
                } else {
                    let line = glue("redox_installer_tui: failed to install: ", detail.as_str());
                    (single(Note::Line(line)), InstallAction::Exit { code: 1 })
                }
            },
        }
    }

    /// One step of the installation: what to say, and the next request.
    pub fn install(&mut self, event: InstallEvent) -> (r: (Vec<Note>, InstallAction))
        requires
            valid(old(self)@),
            awaited(old(self)@, event@),
        ensures
            (StepView { state: final(self)@, notes: note_views(r.0@), action: r.1@ })
                == install_next(old(self)@, event@),
            valid(final(self)@),
    {
        match event {
            InstallEvent::Begin => {
                self.step = InstallStep::BiosProbe;
                let path = self.path("usr/lib/boot/bootloader.bios");
                (
                    self.say("Loading bootloader".to_owned(), None),
                    InstallAction::ProbeBootloader { path },
                )
            },
            InstallEvent::Answer(there) => {
                if self.step == InstallStep::BiosProbe {
                    if !there {
                        return self.after_bios();
                    }
                    self.step = InstallStep::BiosRead;
                    let path = self.path("usr/lib/boot/bootloader.bios");
                    return (silence(), InstallAction::ReadBootloader { path });
                }
                if !there {
                    return self.after_efi();
                }
                self.step = InstallStep::EfiRead;
                let path = self.path("usr/lib/boot/bootloader.efi");
                (silence(), InstallAction::ReadBootloader { path })
            },
            InstallEvent::Done => self.done(),
            InstallEvent::DiskReady => {
                self.step = InstallStep::Clone;
                self.last = 0;
                (silence(), InstallAction::CloneDisk)
            },
            InstallEvent::Progress(used, total) => self.cloned_more(used, total),
            InstallEvent::Cloned(whole) => {
                if whole {
                    return self.cloned_all();
                }
                self.step = InstallStep::Mount;
                (silence(), InstallAction::Mount)
            },
            InstallEvent::Mounted => self.mounted(),
            InstallEvent::Packages(files) => {
                self.step = InstallStep::Configure;
                self.files = text::sort_and_dedup(files);
                (
                    self.say(
                        "Configuring system".to_owned(),
                        Some("configuring system".to_owned()),
                    ),
                    InstallAction::Configure,
                )
            },
            InstallEvent::Failed(reason) => self.failed(reason),
            InstallEvent::Installed(time) => self.over(true, time),
            InstallEvent::NotInstalled(reason) => self.over(false, reason),
        }
    }
}

/// The window gives the file system back without a failure only once its network settings were
/// written, and what is written is what was chosen. This holds when the disk is cloned and when the
/// files are copied.
pub proof fn law_network_settings_are_always_applied(
    i: InstallView,
    e: InstallEventView,
    cfg: NetView,
)
    requires
        i.net == Some(cfg),
        awaited(i, e),
    ensures
        install_next(i, e).action == (InstallActionView::Leave { failure: None }) ==> e is Done && (
        i.step == InstallStep::Net || i.step == InstallStep::FastNet),
        ({
            let next = install_next(i, e).state.step;
            next == InstallStep::Net || next == InstallStep::FastNet
        }) ==> install_next(i, e).action == (InstallActionView::WriteNet {
            settings: net::settings_files(cfg),
        }),
        install_next(i, e).state.net == Some(cfg),
{
}

/// The state of an installation after these events.
pub open spec fn after(i: InstallView, events: Seq<InstallEventView>) -> InstallView
    decreases events.len(),
{
    if events.len() == 0 {
        i
    } else {
        install_next(after(i, events.drop_last()), events.last()).state
    }
}

/// What is asked for at event number `k`.
pub open spec fn asked_at(
    i: InstallView,
    events: Seq<InstallEventView>,
    k: int,
) -> InstallActionView {
    install_next(after(i, events.take(k)), events[k]).action
}

/// Do these events answer what was asked for, one after the other, and does the disk count as
/// installed only right after it was given back without a failure?
pub open spec fn faithful(i: InstallView, events: Seq<InstallEventView>) -> bool {
    forall|k: int|
        #![trigger events[k]]
        0 <= k < events.len() ==> {
            &&& awaited(after(i, events.take(k)), events[k])
            &&& events[k] is Installed ==> k > 0 && asked_at(i, events, k - 1) == (
            InstallActionView::Leave { failure: None })
        }
}

/// The network settings of an installation never change.
proof fn lemma_settings_stay(i: InstallView, events: Seq<InstallEventView>)
    ensures
        after(i, events).net == i.net,
    decreases events.len(),
{
    if events.len() > 0 {
        lemma_settings_stay(i, events.drop_last());
    }
}

/// Where a run gives the file system back without a failure, the settings were asked to be written
/// just before, and the answer was that they were.
#[verifier::spinoff_prover]
proof fn lemma_settings_come_before_leaving(
    i: InstallView,
    events: Seq<InstallEventView>,
    k: int,
    cfg: NetView,
)
    requires
        i.net == Some(cfg),
        i.step == InstallStep::Start,
        faithful(i, events),
        0 <= k < events.len(),
        asked_at(i, events, k) == (InstallActionView::Leave { failure: None }),
    ensures
        k > 0,
        events[k] is Done,
        asked_at(i, events, k - 1) == (InstallActionView::WriteNet {
            settings: net::settings_files(cfg),
        }),
{
    let s = after(i, events.take(k));
    assert(awaited(s, events[k]));
    lemma_settings_stay(i, events.take(k));
    law_network_settings_are_always_applied(s, events[k], cfg);
    if k == 0 {
        assert(events.take(0) =~= Seq::empty());
        assert(false);
    }
    lemma_settings_are_asked(i, events, k, cfg);
}

/// Where a run waits for the settings to be written, they were just asked to be.
#[verifier::spinoff_prover]
proof fn lemma_settings_are_asked(
    i: InstallView,
    events: Seq<InstallEventView>,
    k: int,
    cfg: NetView,
)
    requires
        i.net == Some(cfg),
        faithful(i, events),
        0 < k < events.len(),
        ({
            let step = after(i, events.take(k)).step;
            step == InstallStep::Net || step == InstallStep::FastNet
        }),
    ensures
        asked_at(i, events, k - 1) == (InstallActionView::WriteNet {
            settings: net::settings_files(cfg),
        }),
{
    let before = after(i, events.take(k - 1));
    assert(awaited(before, events[k - 1]));
    lemma_settings_stay(i, events.take(k - 1));
    assert(events.take(k).drop_last() =~= events.take(k - 1));
    assert(events.take(k).last() == events[k - 1]);
    law_network_settings_are_always_applied(before, events[k - 1], cfg);
}

/// The window never reports a whole installation without its network settings: in a run that ends
/// in success, the settings that were chosen were asked to be written, and the answer was that they
/// were.
#[verifier::spinoff_prover]
pub proof fn law_success_follows_the_network_settings(
    i: InstallView,
    events: Seq<InstallEventView>,
    cfg: NetView,
)
    requires
        i.net == Some(cfg),
        i.step == InstallStep::Start,
        faithful(i, events),
        events.len() > 0,
        asked_at(i, events, events.len() - 1) is Succeed,
    ensures
        exists|k: int|
            #![trigger events[k]]
            0 < k < events.len() && events[k] is Done && asked_at(i, events, k - 1) == (
            InstallActionView::WriteNet { settings: net::settings_files(cfg) }),
{
    let last = events.len() - 1;
    assert(awaited(after(i, events.take(last)), events[last]));
    law_success_needs_an_installed_disk(after(i, events.take(last)), events[last]);
    lemma_settings_come_before_leaving(i, events, last - 1, cfg);
}

/// After the network settings nothing more is written: neither the configuration nor a copied file
/// can replace what was chosen.
pub proof fn law_nothing_overwrites_the_network_settings(i: InstallView)
    requires
        i.step == InstallStep::Net || i.step == InstallStep::FastNet,
    ensures
        install_next(i, InstallEventView::Done).action == (InstallActionView::Leave {
            failure: None,
        }),
{
}

/// The files that are copied, one after the other, if every copy succeeds.
pub open spec fn copies(step: StepView) -> Seq<Seq<char>>
    decreases step.state.files.len() - step.state.at,
{
    match step.action {
        InstallActionView::CopyFile { name, .. } => if step.state.step == InstallStep::Copy
            && step.state.at < step.state.files.len() {
            seq![name] + copies(install_next(step.state, InstallEventView::Done))
        } else {
            seq![name]
        },
        _ => Seq::empty(),
    }
}

/// Once the system is configured, every listed file is copied: in order, and each once however often
/// it was listed.
pub proof fn law_every_file_is_copied_once(i: InstallView, listed: Seq<Seq<char>>)
    requires
        i.step == InstallStep::Configure,
        i.files == text::in_order(listed),
    ensures
        copies(install_next(i, InstallEventView::Done)) == text::in_order(listed),
        text::strictly_sorted(text::in_order(listed)),
        text::in_order(listed).to_set() == listed.to_set(),
{
    let j = InstallView { at: 0, ..i };
    text::lemma_in_order(listed);
    lemma_copies_the_rest(j);
    assert(j.files.skip(0) =~= j.files);
}

/// From any file on, the rest of the files are copied.
proof fn lemma_copies_the_rest(i: InstallView)
    requires
        i.at <= i.files.len(),
    ensures
        copies(next_copy(i)) == i.files.skip(i.at as int),
    decreases i.files.len() - i.at,
{
    if i.at < i.files.len() {
        let step = next_copy(i);
        let j = InstallView { at: i.at + 1, ..step.state };
        lemma_copies_the_rest(j);
        assert(install_next(step.state, InstallEventView::Done) == next_copy(j));
        assert(seq![i.files[i.at as int]] + i.files.skip(i.at as int + 1) =~= i.files.skip(
            i.at as int,
        ));
    } else {
        assert(i.files.skip(i.at as int) =~= Seq::empty());
    }
}

/// Files are copied only after the configuration was installed, and at the terminal a copy leaves
/// alone what is there: where the configuration replaces a packaged file, the configuration wins.
pub proof fn law_the_configuration_wins(i: InstallView, e: InstallEventView)
    requires
        awaited(i, e),
    ensures
        match install_next(i, e).action {
            InstallActionView::CopyFile { keep_existing, .. } => {
                &&& e is Done
                &&& i.step == InstallStep::Configure || i.step == InstallStep::Copy
                &&& keep_existing == (i.net is None)
            },
            _ => true,
        },
        install_next(i, e).state.step == InstallStep::Copy ==> i.step == InstallStep::Configure
            || i.step == InstallStep::Copy,
{
}

/// While files are copied the window's progress stays below the whole and never goes back.
pub proof fn law_copying_progress_grows(i: InstallView)
    requires
        i.net is Some,
        i.step == InstallStep::Copy,
        i.at < i.files.len(),
        i.files.len() <= usize::MAX,
        i.progress == i.at * 100 / i.files.len(),
    ensures
        ({
            let next = install_next(i, InstallEventView::Done).state;
            &&& i.progress < 100
            &&& next.step == InstallStep::Copy ==> i.progress <= next.progress < 100
        }),
{
    let count = i.files.len();
    let at = i.at;
    assert(at * 100 / count < 100) by (nonlinear_arith)
        requires
            at < count,
    ;
    if at + 1 < count {
        assert((at + 1) * 100 / count < 100) by (nonlinear_arith)
            requires
                at + 1 < count,
        ;
        assert(at * 100 / count <= (at + 1) * 100 / count) by (nonlinear_arith)
            requires
                count > 0,
        ;
    }
}

/// While the disk is cloned something is said exactly when the share changed, so the same share is
/// never told twice in a row.
pub proof fn law_a_share_is_told_once(i: InstallView, used: u64, total: u64)
    requires
        i.step == InstallStep::Clone,
        i.last <= usize::MAX,
        total > 0,
        used * 100 <= u64::MAX,
        share(used, total) <= usize::MAX,
    ensures
        ({
            let step = install_next(i, InstallEventView::Progress(used, total));
            &&& step.notes.len() == (if share(used, total) == i.last {
                0int
            } else {
                1int
            })
            &&& step.state.last == share(used, total)
            &&& install_next(step.state, InstallEventView::Progress(used, total)).notes.len() == 0
        }),
{
}

/// A failure is reported as one: it never leads to success.
pub proof fn law_a_failure_is_reported(i: InstallView, reason: Seq<char>)
    requires
        may_fail(i.step),
    ensures
        match install_next(i, InstallEventView::Failed(reason)).action {
            InstallActionView::Leave { failure } => failure is Some,
            InstallActionView::Fail { .. } => i.net is Some,
            InstallActionView::Exit { code } => i.net is None && code != 0,
            _ => false,
        },
{
}

/// Success is reported only once the disk was given back as installed.
pub proof fn law_success_needs_an_installed_disk(i: InstallView, e: InstallEventView)
    requires
        awaited(i, e),
    ensures
        match install_next(i, e).action {
            InstallActionView::Succeed { .. } => e is Installed,
            InstallActionView::Exit { code } => code == 0 <==> e is Installed,
            _ => true,
        },
{
}

/// A boot loader that cannot be read ends the installation before the disk is touched.
pub proof fn law_disk_is_untouched_without_boot_loader(i: InstallView, reason: Seq<char>)
    requires
        i.step == InstallStep::BiosRead || i.step == InstallStep::EfiRead,
    ensures
        install_next(i, InstallEventView::Failed(reason)).state.step == InstallStep::End,
        !holds_disk(i.step),
{
}

/// Where the boot loaders and the configuration are, from the window and from the terminal.
proof fn lemma_paths(i: InstallView)
    ensures
        i.net is Some ==> bios_path(i) == "/scheme/file/usr/lib/boot/bootloader.bios"@,
        i.net is Some ==> efi_path(i) == "/scheme/file/usr/lib/boot/bootloader.efi"@,
        i.net is Some ==> config_path(i) == "/scheme/file/filesystem.toml"@,
        i.net is None ==> bios_path(i) == "/usr/lib/boot/bootloader.bios"@,
        i.net is None ==> efi_path(i) == "/usr/lib/boot/bootloader.efi"@,
        i.net is None ==> config_path(i) == "/filesystem.toml"@,
{
    reveal_strlit("/scheme/file/");
    reveal_strlit("/");
    reveal_strlit("usr/lib/boot/bootloader.bios");
    reveal_strlit("usr/lib/boot/bootloader.efi");
    reveal_strlit("filesystem.toml");
    reveal_strlit("/scheme/file/usr/lib/boot/bootloader.bios");
    reveal_strlit("/scheme/file/usr/lib/boot/bootloader.efi");
    reveal_strlit("/scheme/file/filesystem.toml");
    reveal_strlit("/usr/lib/boot/bootloader.bios");
    reveal_strlit("/usr/lib/boot/bootloader.efi");
    reveal_strlit("/filesystem.toml");
    if i.net is Some {
        assert(bios_path(i) =~= "/scheme/file/usr/lib/boot/bootloader.bios"@);
        assert(efi_path(i) =~= "/scheme/file/usr/lib/boot/bootloader.efi"@);
        assert(config_path(i) =~= "/scheme/file/filesystem.toml"@);
    } else {
        assert(bios_path(i) =~= "/usr/lib/boot/bootloader.bios"@);
        assert(efi_path(i) =~= "/usr/lib/boot/bootloader.efi"@);
        assert(config_path(i) =~= "/filesystem.toml"@);
    }
}

/// An installation first asks for the boot loader for machines with a BIOS and then for the one with
/// EFI, each at its place in the running system. One that is there is read; then, or if it is not
/// there, comes the next, and after both the disk. This is so from the window and from the terminal.
pub proof fn law_each_boot_loader_that_is_there_is_read(i: InstallView)
    ensures
        ({
            let bios = if i.net is Some {
                "/scheme/file/usr/lib/boot/bootloader.bios"@
            } else {
                "/usr/lib/boot/bootloader.bios"@
            };
            let efi = if i.net is Some {
                "/scheme/file/usr/lib/boot/bootloader.efi"@
            } else {
                "/usr/lib/boot/bootloader.efi"@
            };
            let begun = install_next(i, InstallEventView::Begin);
            let yes = install_next(i, InstallEventView::Answer(true));
            let no = install_next(i, InstallEventView::Answer(false));
            let read = install_next(i, InstallEventView::Done);
            &&& i.step == InstallStep::Start ==> begun.action == (
            InstallActionView::ProbeBootloader { path: bios }) && begun.state == (InstallView {
                step: InstallStep::BiosProbe,
                ..i
            })
            &&& i.step == InstallStep::BiosProbe ==> yes.action == (
            InstallActionView::ReadBootloader { path: bios }) && yes.state == (InstallView {
                step: InstallStep::BiosRead,
                ..i
            })
            &&& i.step == InstallStep::BiosProbe ==> no.action == (
            InstallActionView::ProbeBootloader { path: efi }) && no.state == (InstallView {
                step: InstallStep::EfiProbe,
                ..i
            })
            &&& i.step == InstallStep::BiosRead ==> read.action == (
            InstallActionView::ProbeBootloader { path: efi }) && read.state == (InstallView {
                step: InstallStep::EfiProbe,
                ..i
            })
            &&& i.step == InstallStep::EfiProbe ==> yes.action == (
            InstallActionView::ReadBootloader { path: efi }) && yes.state == (InstallView {
                step: InstallStep::EfiRead,
                ..i
            })
            &&& i.step == InstallStep::EfiProbe ==> no.action is UseDisk && no.state == (
            InstallView { step: InstallStep::Disk, ..i })
            &&& i.step == InstallStep::EfiRead ==> read.action is UseDisk && read.state == (
            InstallView { step: InstallStep::Disk, ..i })
        }),
{
    lemma_paths(i);
}

/// Does every event answer what was asked for just before?
pub open spec fn answered_in_turn(i: InstallView, events: Seq<InstallEventView>) -> bool {
    forall|k: int| 0 <= k < events.len() ==> #[trigger] answers_at(i, events, k)
}

/// Does event number `k` answer what was asked for just before?
pub open spec fn answers_at(i: InstallView, events: Seq<InstallEventView>, k: int) -> bool {
    awaited(after(i, events.take(k)), events[k])
}

/// One event further.
proof fn lemma_after_one_more(i: InstallView, events: Seq<InstallEventView>, k: int)
    requires
        0 <= k < events.len(),
    ensures
        after(i, events.take(k + 1)) == install_next(after(i, events.take(k)), events[k]).state,
{
    assert(events.take(k + 1).drop_last() =~= events.take(k));
    assert(events.take(k + 1).last() == events[k]);
}

/// What was just asked for, where a boot loader is asked about.
proof fn lemma_asked_about(i: InstallView, e: InstallEventView)
    requires
        awaited(i, e),
    ensures
        ({
            let next = install_next(i, e);
            &&& next.state.net == i.net
            &&& next.state.step == InstallStep::BiosProbe ==> next.action == (
            InstallActionView::ProbeBootloader { path: bios_path(i) })
            &&& next.state.step == InstallStep::EfiProbe ==> next.action == (
            InstallActionView::ProbeBootloader { path: efi_path(i) })
        }),
{
}

/// A boot loader that is there is asked to be read.
proof fn lemma_found(i: InstallView)
    requires
        awaited(i, InstallEventView::Answer(true)),
    ensures
        ({
            let next = install_next(i, InstallEventView::Answer(true));
            &&& i.step == InstallStep::BiosProbe || i.step == InstallStep::EfiProbe
            &&& next.state.step == InstallStep::BiosRead || next.state.step == InstallStep::EfiRead
            &&& i.step == InstallStep::BiosProbe ==> next.action == (
            InstallActionView::ReadBootloader { path: bios_path(i) })
            &&& i.step == InstallStep::EfiProbe ==> next.action == (
            InstallActionView::ReadBootloader { path: efi_path(i) })
        }),
{
}

/// A boot loader that is not read ends the installation.
proof fn lemma_not_read(i: InstallView, e: InstallEventView)
    requires
        awaited(i, e),
        i.step == InstallStep::BiosRead || i.step == InstallStep::EfiRead,
        !(e is Done),
    ensures
        install_next(i, e).state.step == InstallStep::End,
        !(install_next(i, e).action is UseDisk),
{
}

/// Does event number `k` answer with yes whether a boot loader is there, and is that boot loader asked
/// to be read right away, at the path that was asked about?
pub open spec fn read_where_found(
    i: InstallView,
    events: Seq<InstallEventView>,
    k: int,
) -> bool {
    &&& k > 0
    &&& asked_at(i, events, k - 1) is ProbeBootloader
    &&& asked_at(i, events, k) is ReadBootloader
    &&& asked_at(i, events, k)->ReadBootloader_path == asked_at(
        i,
        events,
        k - 1,
    )->ProbeBootloader_path
}

/// In every run, from the window and from the terminal alike: where the question whether a boot loader
/// is there is answered with yes, that boot loader is asked to be read right away, at the path that
/// was asked about.
#[verifier::spinoff_prover]
pub proof fn law_a_boot_loader_that_is_found_is_asked_for(
    i: InstallView,
    events: Seq<InstallEventView>,
    k: int,
)
    requires
        i.step == InstallStep::Start,
        answered_in_turn(i, events),
        0 <= k < events.len(),
        events[k] == InstallEventView::Answer(true),
    ensures
        read_where_found(i, events, k),
{
    let s = after(i, events.take(k));
    assert(answers_at(i, events, k));
    lemma_found(s);
    if k == 0 {
        assert(events.take(0) =~= Seq::empty());
        assert(s == i);
        assert(false);
    }
    let before = after(i, events.take(k - 1));
    assert(answers_at(i, events, k - 1));
    lemma_after_one_more(i, events, k - 1);
    lemma_asked_about(before, events[k - 1]);
}

/// Nothing is answered once the installation has ended.
proof fn lemma_nothing_follows(i: InstallView, events: Seq<InstallEventView>, k: int)
    requires
        answered_in_turn(i, events),
        0 <= k < events.len(),
    ensures
        after(i, events.take(k)).step != InstallStep::End,
{
    assert(answers_at(i, events, k));
}

/// In every run, from the window and from the terminal alike: where the question whether a boot loader
/// is there was answered with yes and the disk is used later, that boot loader was asked to be read
/// right away, at the path that was asked about, and the answer was that it was read.
#[verifier::spinoff_prover]
pub proof fn law_the_disk_is_used_only_with_the_boot_loaders_read(
    i: InstallView,
    events: Seq<InstallEventView>,
    k: int,
    m: int,
)
    requires
        i.step == InstallStep::Start,
        answered_in_turn(i, events),
        0 <= k < m < events.len(),
        events[k] == InstallEventView::Answer(true),
        asked_at(i, events, m) is UseDisk,
    ensures
        read_where_found(i, events, k),
        events[k + 1] is Done,
{
    law_a_boot_loader_that_is_found_is_asked_for(i, events, k);
    let s = after(i, events.take(k));
    assert(answers_at(i, events, k));
    lemma_found(s);
    lemma_after_one_more(i, events, k);
    let t = after(i, events.take(k + 1));
    assert(answers_at(i, events, k + 1));
    if !(events[k + 1] is Done) {
        lemma_not_read(t, events[k + 1]);
        lemma_after_one_more(i, events, k + 1);
        if m > k + 1 {
            lemma_nothing_follows(i, events, k + 2);
        }
    }
}

/// What the window says before the disk is used; the terminal says nothing then.
pub proof fn law_the_window_tells_what_it_loads(i: InstallView)
    ensures
        i.net is None && (i.step == InstallStep::Start) ==> install_next(
            i,
            InstallEventView::Begin,
        ).notes.len() == 0,
        i.net is Some && (i.step == InstallStep::Start) ==> install_next(
            i,
            InstallEventView::Begin,
        ).notes == seq![
            NoteView::Message { progress: i.progress, text: "Loading bootloader"@ },
        ],
        i.step == InstallStep::BiosProbe || i.step == InstallStep::EfiProbe ==> install_next(
            i,
            InstallEventView::Answer(true),
        ).notes.len() == 0,
        i.step == InstallStep::BiosProbe ==> install_next(i, InstallEventView::Answer(false)).notes
            == (if i.net is Some {
            seq![NoteView::Message { progress: i.progress, text: "Loading bootloader.efi"@ }]
        } else {
            Seq::empty()
        }),
        i.step == InstallStep::BiosRead ==> install_next(i, InstallEventView::Done).notes == (
        if i.net is Some {
            seq![NoteView::Message { progress: i.progress, text: "Loading bootloader.efi"@ }]
        } else {
            Seq::empty()
        }),
        i.step == InstallStep::EfiProbe ==> install_next(i, InstallEventView::Answer(false)).notes
            == (if i.net is Some {
            seq![NoteView::Message { progress: i.progress, text: "Formatting disk"@ }]
        } else {
            Seq::empty()
        }),
        i.step == InstallStep::EfiRead ==> install_next(i, InstallEventView::Done).notes == (
        if i.net is Some {
            seq![NoteView::Message { progress: i.progress, text: "Formatting disk"@ }]
        } else {
            Seq::empty()
        }),
{
}

/// The share that is told is the number of whole hundredths that are cloned.
pub proof fn law_the_share_is_in_hundredths(used: u64, total: u64)
    requires
        total > 0,
        used * 100 <= u64::MAX,
    ensures
        share(used, total) * total <= used * 100,
        used * 100 < (share(used, total) + 1) * total,
{
    let x = used as int * 100;
    let y = total as int;
    vstd::arithmetic::div_mod::lemma_fundamental_div_mod(x, y);
    let q = x / y;
    assert(0 <= q <= x) by (nonlinear_arith)
        requires
            x >= 0,
            y > 0,
            q == x / y,
    ;
    assert(share(used, total) == q);
    assert(q * y <= x < (q + 1) * y) by (nonlinear_arith)
        requires
            y > 0,
            x == y * q + x % y,
            0 <= x % y < y,
    ;
}

/// A share that changed is told with the megabytes that it stands for, and becomes the window's
/// progress; one that did not change is not told, and at the terminal it opens the line anew.
pub proof fn law_a_changed_share_is_told_in_megabytes(i: InstallView, used: u64, total: u64)
    requires
        total > 0,
        used * 100 <= u64::MAX,
        share(used, total) <= usize::MAX,
    ensures
        ({
            let hundredths = share(used, total);
            let text = text::decimal(hundredths as nat) + "%: "@ + text::decimal(
                (used / 1_000_000) as nat,
            ) + " MB/"@ + text::decimal((total / 1_000_000) as nat) + " MB"@;
            let next = install_next(i, InstallEventView::Progress(used, total));
            &&& next.action is Wait
            &&& next.state.last == hundredths
            &&& next.state == (InstallView {
                progress: if i.net is Some {
                    hundredths as usize
                } else {
                    i.progress
                },
                last: hundredths,
                ..i
            })
            &&& hundredths == i.last ==> next.notes.len() == 0
            &&& hundredths != i.last && i.net is Some ==> next.notes == seq![
                NoteView::Message { progress: hundredths as usize, text },
            ]
            &&& hundredths != i.last && i.net is None ==> next.notes == seq![
                NoteView::Open("\r"@ + text),
            ]
        }),
{
    assert(used / 1000 / 1000 == used / 1_000_000);
    assert(total / 1000 / 1000 == total / 1_000_000);
}

/// The formatted disk is first cloned to; where that did the installation, the terminal is done and
/// the window mounts the clone to write its settings into it and nothing else. Otherwise both mount
/// the new file system.
pub proof fn law_a_disk_is_cloned_or_mounted(i: InstallView, cfg: NetView)
    requires
        i.net is Some ==> i.net == Some(cfg),
    ensures
        ({
            let ready = install_next(i, InstallEventView::DiskReady);
            let whole = install_next(i, InstallEventView::Cloned(true));
            let not = install_next(i, InstallEventView::Cloned(false));
            let mount = install_next(i, InstallEventView::Mounted);
            let done = install_next(i, InstallEventView::Done);
            &&& ready.action is CloneDisk && ready.notes.len() == 0 && ready.state == (InstallView {
                step: InstallStep::Clone,
                last: 0,
                ..i
            })
            &&& not.action is Mount && not.notes.len() == 0 && not.state == (InstallView {
                step: InstallStep::Mount,
                ..i
            })
            &&& i.net is None ==> whole.action == (InstallActionView::Leave { failure: None })
                && whole.notes == seq![NoteView::Line("\rfinished installing using fast mode"@)]
                && whole.state.step == InstallStep::Left
            &&& i.net is Some ==> whole.action is Mount && whole.state == (InstallView {
                step: InstallStep::FastMount,
                progress: 100,
                ..i
            }) && whole.notes =~= seq![
                NoteView::Message {
                    progress: 100,
                    text: "Finished installing using fast mode"@,
                },
                NoteView::Message { progress: 100, text: "Applying network settings"@ },
            ]
            &&& i.net is Some && i.step == InstallStep::FastMount ==> mount.action == (
            InstallActionView::WriteNet { settings: net::settings_files(cfg) })
                && mount.notes.len() == 0 && mount.state.step == InstallStep::FastNet
            &&& i.step == InstallStep::FastNet ==> done.action == (InstallActionView::Leave {
                failure: None,
            }) && done.notes.len() == 0 && done.state.step == InstallStep::Left
        }),
{
}

/// In the mounted file system the configuration is read from the running system, then the packages are
/// listed behind the configuration file, then the configuration is installed. The window reads and
/// decodes the configuration itself and has its packages in a directory; the terminal has them in a
/// database.
pub proof fn law_a_mounted_system_is_configured(i: InstallView, files: Seq<Seq<char>>)
    ensures
        ({
            let mount = install_next(i, InstallEventView::Mounted);
            let done = install_next(i, InstallEventView::Done);
            let listed = install_next(i, InstallEventView::Packages(files));
            &&& i.net is Some && i.step == InstallStep::Mount ==> mount == (StepView {
                state: InstallView { step: InstallStep::ConfigRead, ..i },
                notes: seq![
                    NoteView::Message { progress: i.progress, text: "Loading filesystem.toml"@ },
                ],
                action: InstallActionView::ReadConfig { path: "/scheme/file/filesystem.toml"@ },
            })
            &&& i.net is None && i.step == InstallStep::Mount ==> mount == (StepView {
                state: InstallView { step: InstallStep::ConfigLoad, ..i },
                notes: Seq::empty(),
                action: InstallActionView::LoadConfig { path: "/filesystem.toml"@ },
            })
            &&& i.step == InstallStep::ConfigRead ==> done == (StepView {
                state: InstallView { step: InstallStep::ConfigDecode, ..i },
                notes: Seq::empty(),
                action: InstallActionView::DecodeConfig,
            })
            &&& i.net is Some && i.step == InstallStep::ConfigDecode ==> done == (StepView {
                state: InstallView { step: InstallStep::Packages, ..i },
                notes: seq![
                    NoteView::Message { progress: i.progress, text: "Loading package files"@ },
                ],
                action: InstallActionView::ListPackages {
                    source: ScanSource::Directory,
                    files: seq!["filesystem.toml"@],
                },
            })
            &&& i.net is None && i.step == InstallStep::ConfigLoad ==> done == (StepView {
                state: InstallView { step: InstallStep::Packages, ..i },
                notes: Seq::empty(),
                action: InstallActionView::ListPackages {
                    source: ScanSource::Database,
                    files: seq!["filesystem.toml"@],
                },
            })
            &&& listed.action is Configure && listed.state.step == InstallStep::Configure
            &&& listed.state.progress == i.progress && listed.state.net == i.net
            &&& listed.notes == (if i.net is Some {
                seq![NoteView::Message { progress: i.progress, text: "Configuring system"@ }]
            } else {
                seq![NoteView::Line("configuring system"@)]
            })
        }),
{
    lemma_paths(i);
}

/// The list that is copied from has every file that was listed, and no other.
pub proof fn law_no_listed_file_is_lost(i: InstallView, files: Seq<Seq<char>>, file: Seq<char>)
    ensures
        install_next(i, InstallEventView::Packages(files)).state.files.contains(file)
            <==> files.contains(file),
{
    text::law_putting_in_order_loses_nothing(files, file);
}

/// Copying begins with the first file of the list and goes on to the next after each, naming it, its
/// number and how many there are; after the last the window writes its settings and the terminal is
/// done.
pub proof fn law_copying_goes_file_by_file(i: InstallView, cfg: NetView)
    requires
        i.step == InstallStep::Configure || (i.step == InstallStep::Copy && i.at < i.files.len()),
        i.net is Some ==> i.net == Some(cfg),
        i.files.len() <= usize::MAX,
    ensures
        ({
            let n = if i.step == InstallStep::Configure {
                0
            } else {
                i.at + 1
            };
            let count = i.files.len();
            let text = i.files[n as int] + " ["@ + text::decimal(n) + "/"@ + text::decimal(count)
                + "]"@;
            let next = install_next(i, InstallEventView::Done);
            &&& next.state.files == i.files
            &&& next.state.net == i.net
            &&& n < count ==> {
                &&& next.action == (InstallActionView::CopyFile {
                    name: i.files[n as int],
                    keep_existing: i.net is None,
                })
                &&& next.state.step == InstallStep::Copy
                &&& next.state.at == n
                &&& i.net is None ==> next.notes == seq![NoteView::Line("copy "@ + text)]
                &&& i.net is Some ==> next.state.progress * count <= n * 100 && n * 100 < (
                next.state.progress + 1) * count && next.notes == seq![
                    NoteView::Message { progress: next.state.progress, text: "Copy "@ + text },
                ]
            }
            &&& n >= count && i.net is Some ==> next.action == (InstallActionView::WriteNet {
                settings: net::settings_files(cfg),
            }) && next.state.step == InstallStep::Net && next.state.progress == i.progress
                && next.notes == seq![
                NoteView::Message { progress: i.progress, text: "Applying network settings"@ },
            ]
            &&& n >= count && i.net is None ==> next.action == (InstallActionView::Leave {
                failure: None,
            }) && next.state.step == InstallStep::Left && next.notes == seq![
                NoteView::Line("finished installing, unmounting filesystem"@),
            ]
        }),
{
    let n = if i.step == InstallStep::Configure {
        0int
    } else {
        i.at as int + 1
    };
    let count = i.files.len() as int;
    if n < count && i.net is Some {
        let x = n * 100;
        vstd::arithmetic::div_mod::lemma_fundamental_div_mod(x, count);
        let q = x / count;
        assert(0 <= q < 100) by (nonlinear_arith)
            requires
                0 <= n < count,
                x == n * 100,
                q == x / count,
        ;
        assert(q * count <= x < (q + 1) * count) by (nonlinear_arith)
            requires
                count > 0,
                x == count * q + x % count,
                0 <= x % count < count,
        ;
        assert(install_next(i, InstallEventView::Done).state.progress as int == q);
    }
}

/// Once its settings are written the window says so at its full progress, and gives the file system
/// back.
pub proof fn law_the_window_finishes_at_its_full_progress(i: InstallView)
    requires
        i.step == InstallStep::Net,
        i.net is Some,
    ensures
        install_next(i, InstallEventView::Done) == (StepView {
            state: InstallView { step: InstallStep::Left, progress: 100, ..i },
            notes: seq![
                NoteView::Message {
                    progress: 100,
                    text: "Finished installing, unmounting filesystem"@,
                },
            ],
            action: InstallActionView::Leave { failure: None },
        }),
{
}

/// A failure is told with its reason, and where a file could not be read, decoded or listed, with
/// what it was. Before the disk is used it ends the installation; after that it gives the disk back.
pub proof fn law_a_failure_says_where_it_happened(i: InstallView, reason: Seq<char>)
    requires
        may_fail(i.step),
    ensures
        ({
            let next = install_next(i, InstallEventView::Failed(reason));
            &&& i.step == InstallStep::BiosRead && i.net is Some ==> next.action == (
            InstallActionView::Fail {
                text: "/scheme/file/usr/lib/boot/bootloader.bios"@ + ": failed to read: "@ + reason,
            }) && next.notes.len() == 0
            &&& i.step == InstallStep::EfiRead && i.net is Some ==> next.action == (
            InstallActionView::Fail {
                text: "/scheme/file/usr/lib/boot/bootloader.efi"@ + ": failed to read: "@ + reason,
            }) && next.notes.len() == 0
            &&& i.step == InstallStep::BiosRead && i.net is None ==> next.action == (
            InstallActionView::Exit { code: 1 }) && next.notes == seq![
                NoteView::Line(
                    "redox_installer_tui: "@ + ("/usr/lib/boot/bootloader.bios"@
                        + ": failed to read: "@ + reason),
                ),
            ]
            &&& i.step == InstallStep::EfiRead && i.net is None ==> next.action == (
            InstallActionView::Exit { code: 1 }) && next.notes == seq![
                NoteView::Line(
                    "redox_installer_tui: "@ + ("/usr/lib/boot/bootloader.efi"@
                        + ": failed to read: "@ + reason),
                ),
            ]
            &&& i.step == InstallStep::ConfigRead && i.net is Some ==> next.action == (
            InstallActionView::Leave {
                failure: Some(
                    "/scheme/file/filesystem.toml"@ + ": failed to read: "@ + reason,
                ),
            })
            &&& i.step == InstallStep::ConfigDecode && i.net is Some ==> next.action == (
            InstallActionView::Leave {
                failure: Some(
                    "/scheme/file/filesystem.toml"@ + ": failed to decode: "@ + reason,
                ),
            })
            &&& i.step == InstallStep::Packages ==> next.action == (InstallActionView::Leave {
                failure: Some("failed to read package files: "@ + reason),
            })
            &&& i.step == InstallStep::Clone || i.step == InstallStep::ConfigLoad || i.step
                == InstallStep::Configure || i.step == InstallStep::Copy || i.step
                == InstallStep::Net || i.step == InstallStep::FastNet ==> next.action == (
            InstallActionView::Leave { failure: Some(reason) })
            &&& holds_disk(i.step) ==> next.notes.len() == 0 && next.state == (InstallView {
                step: InstallStep::Left,
                ..i
            })
            &&& !holds_disk(i.step) ==> next.state == (InstallView { step: InstallStep::End, ..i })
        }),
{
    lemma_paths(i);
}

/// At the end the window reports success with the time that it took, or the reason of the failure; the
/// terminal writes the same as a line and ends with the code for it. Nothing else decides.
pub proof fn law_an_installation_ends_with_its_outcome(i: InstallView, detail: Seq<char>)
    requires
        holds_disk(i.step),
    ensures
        ({
            let good = install_next(i, InstallEventView::Installed(detail));
            let bad = install_next(i, InstallEventView::NotInstalled(detail));
            &&& good.state.step == InstallStep::End && bad.state.step == InstallStep::End
            &&& i.net is Some ==> good.notes.len() == 0 && bad.notes.len() == 0
            &&& i.net is Some ==> good.action == (InstallActionView::Succeed {
                text: "Finished installing in "@ + detail + ", ready to reboot"@,
            })
            &&& i.net is Some ==> bad.action == (InstallActionView::Fail {
                text: "Failed to install: "@ + detail,
            })
            &&& i.net is None ==> good.action == (InstallActionView::Exit { code: 0 })
                && good.notes == seq![
                NoteView::Line("redox_installer_tui: installed successfully in "@ + detail),
            ]
            &&& i.net is None ==> bad.action == (InstallActionView::Exit { code: 1 })
                && bad.notes == seq![
                NoteView::Line("redox_installer_tui: failed to install: "@ + detail),
            ]
        }),
{
}

/// What an installation is for does not change on the way: neither the network settings, nor, once
/// the packages are listed, the files.
pub proof fn law_an_installation_keeps_its_settings(i: InstallView, e: InstallEventView)
    requires
        awaited(i, e),
    ensures
        install_next(i, e).state.net == i.net,
        !(e is Packages) ==> install_next(i, e).state.files == i.files,
        !(e is Done) ==> install_next(i, e).state.at == i.at,
        !(e is DiskReady || e is Progress) ==> install_next(i, e).state.last == i.last,
{
}

/// Whatever an installation asks for, it takes every answer to it: that a boot loader is there or not,
/// that a request is done or that it failed, and from the disk at any time that all is over.
pub proof fn law_every_answer_is_awaited(
    i: InstallView,
    e: InstallEventView,
    there: bool,
    files: Seq<Seq<char>>,
    reason: Seq<char>,
)
    requires
        awaited(i, e),
    ensures
        ({
            let next = install_next(i, e);
            let j = next.state;
            &&& next.action is ProbeBootloader ==> awaited(j, InstallEventView::Answer(there))
            &&& next.action is ReadBootloader || next.action is ReadConfig || next.action
                is DecodeConfig || next.action is LoadConfig || next.action is Configure
                || next.action is CopyFile || next.action is WriteNet ==> awaited(
                j,
                InstallEventView::Done,
            ) && awaited(j, InstallEventView::Failed(reason))
            &&& next.action is UseDisk ==> awaited(j, InstallEventView::DiskReady)
            &&& next.action is CloneDisk || next.action is Wait ==> awaited(
                j,
                InstallEventView::Cloned(there),
            ) && awaited(j, InstallEventView::Failed(reason))
            &&& next.action is CloneDisk || next.action is Wait ==> forall|used: u64, total: u64|
                total > 0 && used * 100 <= u64::MAX ==> #[trigger] awaited(
                    j,
                    InstallEventView::Progress(used, total),
                )
            &&& next.action is Mount ==> awaited(j, InstallEventView::Mounted)
            &&& next.action is ListPackages ==> awaited(j, InstallEventView::Packages(files))
                && awaited(j, InstallEventView::Failed(reason))
            &&& !(next.action is ProbeBootloader || next.action is ReadBootloader || next.action
                is Succeed || next.action is Fail || next.action is Exit) ==> awaited(
                j,
                InstallEventView::Installed(reason),
            ) && awaited(j, InstallEventView::NotInstalled(reason))
        }),
{
}

/// While files are copied, the one that is copied is one of the list; this stays so.
pub proof fn law_the_file_that_is_copied_is_listed(i: InstallView, e: InstallEventView)
    requires
        i.step == InstallStep::Copy ==> i.at < i.files.len(),
        awaited(i, e),
    ensures
        valid(i),
        valid(install_next(i, e).state),
        install_next(i, e).state.step == InstallStep::Copy ==> install_next(i, e).state.at
            < install_next(i, e).state.files.len(),
{
}

} // verus!
