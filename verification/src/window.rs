//! The pages of the installer's window: what each shows, and what leads from one to the next.
//!
//! Drawing, the live system's files, the questions for privileges and the worker belong to the
//! caller. [`Window::update`] is told what happened and answers with what there is to do;
//! [`Window::view_page`] says what the window shows.
use vstd::prelude::*;

use crate::net;
use crate::net::{LiveNet, NetCfg, NetView};

verus! {

/// The name by which the desktop knows the installer.
pub const APP_ID: &'static str = "org.redox-os.InstallerGui";

/// The title of the window.
pub const TITLE: &'static str = "Redox OS Installer";

/// The system that the installer runs on.
#[derive(Clone, Copy, Debug, PartialEq, Eq, Structural)]
pub enum Platform {
    Redox,
    Linux,
}

/// One page of the window.
#[derive(Debug, PartialEq, Eq)]
pub enum Page {
    /// A password is asked for; this much is typed.
    Sudo(String),
    /// A disk is asked for; this one is chosen.
    Disk(Option<usize>),
    /// The network settings are asked for.
    Network(NetCfg),
    /// The installation goes on: how far it is, in hundredths, and what it is doing.
    Install(usize, String),
    /// The installation succeeded.
    Success(String),
    /// Something failed.
    Error(String),
}

/// A page as characters.
pub enum PageView {
    Sudo(Seq<char>),
    Disk(Option<usize>),
    Network(NetView),
    Install(usize, Seq<char>),
    Success(Seq<char>),
    Error(Seq<char>),
}

/// What the person does in the window, and what the worker reports.
#[derive(Clone, Debug, PartialEq, Eq)]
pub enum Message {
    /// Nothing happened.
    Idle,
    /// The worker is there.
    Worker,
    SudoInput(String),
    SudoSubmit,
    DiskChoose(usize),
    DiskConfirm(usize),
    NetDhcp(bool),
    NetIp(String),
    NetSubnet(String),
    NetRouter(String),
    NetDns(String),
    NetConfirm,
    Install(usize, String),
    Success(String),
    Exit,
    Error(String),
}

/// A message as characters.
pub enum MessageView {
    Idle,
    Worker,
    SudoInput(Seq<char>),
    SudoSubmit,
    DiskChoose(usize),
    DiskConfirm(usize),
    NetDhcp(bool),
    NetIp(Seq<char>),
    NetSubnet(Seq<char>),
    NetRouter(Seq<char>),
    NetDns(Seq<char>),
    NetConfirm,
    Install(usize, Seq<char>),
    Success(Seq<char>),
    Exit,
    Error(Seq<char>),
}

/// What happened.
#[derive(Debug)]
pub enum WindowEvent {
    Message(Message),
    /// The privileges were granted.
    RootGranted,
    /// The privileges were refused, for this reason.
    RootRefused(String),
    /// The live system has these network settings.
    Live(LiveNet),
    /// The worker got its command.
    Sent,
    /// The worker did not get its command, for this reason.
    NotSent(String),
}

/// What happened, as characters.
pub enum WindowEventView {
    Message(MessageView),
    RootGranted,
    RootRefused(Seq<char>),
    Live(NetView),
    Sent,
    NotSent(Seq<char>),
}

/// What there is to do.
#[derive(Debug, PartialEq, Eq)]
pub enum WindowAction {
    Nothing,
    /// Ask for the privileges of the superuser, with this password if one was typed.
    AskRoot { password: Option<String> },
    /// Read the network settings of the live system.
    ReadLive,
    /// Tell the worker to install to this disk, without a password, with these network settings.
    Send { disk: String, settings: NetCfg },
    /// Say why the privileges were refused.
    Tell { reason: String },
    /// Close the window.
    Close,
    /// Wait for the worker to end if there is one, and close the window.
    Quit { join: bool },
}

/// What there is to do, as characters.
pub enum WindowActionView {
    Nothing,
    AskRoot { password: Option<Seq<char>> },
    ReadLive,
    Send { disk: Seq<char>, settings: NetView },
    Tell { reason: Seq<char> },
    Close,
    Quit { join: bool },
}

/// What the window is waiting for.
#[derive(Clone, Copy, Debug, PartialEq, Eq, Structural)]
pub enum Pending {
    Nothing,
    /// The answer to the question for privileges.
    Root,
    /// The live settings to start from.
    LiveToShow,
    /// The live settings to install with.
    LiveToSend,
    /// Whether the worker got its command.
    Send,
}

/// The window.
#[derive(Debug)]
pub struct Window {
    platform: Platform,
    page: Page,
    disk_paths: Vec<(String, bool, u64)>,
    disk_i: Option<usize>,
    worker: bool,
    pending: Pending,
}

/// The window as characters.
#[verifier::ext_equal]
pub struct WindowView {
    pub platform: Platform,
    pub page: PageView,
    /// The disks: where each is, whether it is only a part of one, and its size.
    pub disk_paths: Seq<(Seq<char>, bool, u64)>,
    /// The disk that was confirmed, remembered while the network settings are asked for.
    pub disk_i: Option<usize>,
    /// Is the worker there?
    pub worker: bool,
    pub pending: Pending,
}

/// The disks as characters.
pub open spec fn disk_views(disks: Seq<(String, bool, u64)>) -> Seq<(Seq<char>, bool, u64)> {
    disks.map_values(|d: (String, bool, u64)| (d.0@, d.1, d.2))
}

impl View for Page {
    type V = PageView;

    open spec fn view(&self) -> PageView {
        match self {
            Page::Sudo(password) => PageView::Sudo(password@),
            Page::Disk(chosen) => PageView::Disk(*chosen),
            Page::Network(cfg) => PageView::Network(cfg@),
            Page::Install(progress, text) => PageView::Install(*progress, text@),
            Page::Success(text) => PageView::Success(text@),
            Page::Error(text) => PageView::Error(text@),
        }
    }
}

impl View for Message {
    type V = MessageView;

    open spec fn view(&self) -> MessageView {
        match self {
            Message::Idle => MessageView::Idle,
            Message::Worker => MessageView::Worker,
            Message::SudoInput(password) => MessageView::SudoInput(password@),
            Message::SudoSubmit => MessageView::SudoSubmit,
            Message::DiskChoose(i) => MessageView::DiskChoose(*i),
            Message::DiskConfirm(i) => MessageView::DiskConfirm(*i),
            Message::NetDhcp(dhcp) => MessageView::NetDhcp(*dhcp),
            Message::NetIp(v) => MessageView::NetIp(v@),
            Message::NetSubnet(v) => MessageView::NetSubnet(v@),
            Message::NetRouter(v) => MessageView::NetRouter(v@),
            Message::NetDns(v) => MessageView::NetDns(v@),
            Message::NetConfirm => MessageView::NetConfirm,
            Message::Install(progress, text) => MessageView::Install(*progress, text@),
            Message::Success(text) => MessageView::Success(text@),
            Message::Exit => MessageView::Exit,
            Message::Error(text) => MessageView::Error(text@),
        }
    }
}

impl View for WindowEvent {
    type V = WindowEventView;

    open spec fn view(&self) -> WindowEventView {
        match self {
            WindowEvent::Message(message) => WindowEventView::Message(message@),
            WindowEvent::RootGranted => WindowEventView::RootGranted,
            WindowEvent::RootRefused(reason) => WindowEventView::RootRefused(reason@),
            WindowEvent::Live(live) => WindowEventView::Live(net::live_settings(*live)),
            WindowEvent::Sent => WindowEventView::Sent,
            WindowEvent::NotSent(reason) => WindowEventView::NotSent(reason@),
        }
    }
}

impl View for WindowAction {
    type V = WindowActionView;

    open spec fn view(&self) -> WindowActionView {
        match self {
            WindowAction::Nothing => WindowActionView::Nothing,
            WindowAction::AskRoot { password } => WindowActionView::AskRoot {
                password: match password {
                    Some(p) => Some(p@),
                    None => None,
                },
            },
            WindowAction::ReadLive => WindowActionView::ReadLive,
            WindowAction::Send { disk, settings } => WindowActionView::Send {
                disk: disk@,
                settings: settings@,
            },
            WindowAction::Tell { reason } => WindowActionView::Tell { reason: reason@ },
            WindowAction::Close => WindowActionView::Close,
            WindowAction::Quit { join } => WindowActionView::Quit { join: *join },
        }
    }
}

impl View for Window {
    type V = WindowView;

    closed spec fn view(&self) -> WindowView {
        WindowView {
            platform: self.platform,
            page: self.page@,
            disk_paths: disk_views(self.disk_paths@),
            disk_i: self.disk_i,
            worker: self.worker,
            pending: self.pending,
        }
    }
}

/// Is this something that the window is waiting for?
pub open spec fn may_happen(w: WindowView, e: WindowEventView) -> bool {
    match e {
        WindowEventView::Message(_) => w.pending == Pending::Nothing,
        WindowEventView::RootGranted | WindowEventView::RootRefused(_) => w.pending
            == Pending::Root,
        WindowEventView::Live(_) => w.pending == Pending::LiveToShow || w.pending
            == Pending::LiveToSend,
        WindowEventView::Sent | WindowEventView::NotSent(_) => w.pending == Pending::Send,
    }
}

/// Another page.
pub open spec fn turned(w: WindowView, page: PageView) -> WindowView {
    WindowView { page, ..w }
}

/// The disk that was confirmed, if it is one of the list.
pub open spec fn confirmed_disk(w: WindowView) -> Option<Seq<char>> {
    match w.disk_i {
        Some(i) => if i < w.disk_paths.len() {
            Some(w.disk_paths[i as int].0)
        } else {
            None
        },
        None => None,
    }
}

/// What keeps the window from telling the worker to install, if anything does.
pub open spec fn obstacle(w: WindowView) -> Option<Seq<char>> {
    if confirmed_disk(w) is None {
        Some("no disk chosen"@)
    } else if !w.worker {
        Some("command sender not found"@)
    } else {
        None
    }
}

/// The worker is told to install with these settings, unless something keeps the window from it.
pub open spec fn sending(w: WindowView, settings: NetView) -> (WindowView, WindowActionView) {
    match (obstacle(w), confirmed_disk(w)) {
        (None, Some(disk)) => (
            WindowView { pending: Pending::Send, ..w },
            WindowActionView::Send { disk, settings },
        ),
        (Some(text), _) => (
            WindowView { pending: Pending::Nothing, page: PageView::Error(text), ..w },
            WindowActionView::Nothing,
        ),
        _ => (w, WindowActionView::Nothing),
    }
}

/// A setting is changed, if the settings are being asked for.
pub open spec fn setting_changed(w: WindowView, m: MessageView) -> WindowView {
    match w.page {
        PageView::Network(cfg) => turned(
            w,
            PageView::Network(
                match m {
                    MessageView::NetDhcp(dhcp) => NetView { dhcp, ..cfg },
                    MessageView::NetIp(ip) => NetView { ip, ..cfg },
                    MessageView::NetSubnet(subnet) => NetView { subnet, ..cfg },
                    MessageView::NetRouter(router) => NetView { router, ..cfg },
                    MessageView::NetDns(dns) => NetView { dns, ..cfg },
                    _ => cfg,
                },
            ),
        ),
        _ => w,
    }
}

/// What a message leads to.
pub open spec fn message_next(w: WindowView, m: MessageView) -> (WindowView, WindowActionView) {
    match m {
        MessageView::Idle => (w, WindowActionView::Nothing),
        MessageView::Worker => (WindowView { worker: true, ..w }, WindowActionView::Nothing),
        MessageView::SudoInput(password) => (
            turned(w, PageView::Sudo(password)),
            WindowActionView::Nothing,
        ),
        MessageView::SudoSubmit => match w.platform {
            Platform::Redox => match w.page {
                PageView::Sudo(password) => (
                    WindowView { pending: Pending::Root, ..w },
                    WindowActionView::AskRoot { password: Some(password) },
                ),
                _ => (w, WindowActionView::Nothing),
            },
            Platform::Linux => (
                WindowView { pending: Pending::Root, ..w },
                WindowActionView::AskRoot { password: None },
            ),
        },
        MessageView::DiskChoose(i) => (
            turned(w, PageView::Disk(Some(i))),
            WindowActionView::Nothing,
        ),
        MessageView::DiskConfirm(i) => (
            WindowView { disk_i: Some(i), pending: Pending::LiveToShow, ..w },
            WindowActionView::ReadLive,
        ),
        MessageView::NetDhcp(_) | MessageView::NetIp(_) | MessageView::NetSubnet(_)
        | MessageView::NetRouter(_) | MessageView::NetDns(_) => (
            setting_changed(w, m),
            WindowActionView::Nothing,
        ),
        MessageView::NetConfirm => match (obstacle(w), w.page) {
            (Some(text), _) => (turned(w, PageView::Error(text)), WindowActionView::Nothing),
            (None, PageView::Network(cfg)) => sending(w, cfg),
            _ => (
                WindowView { pending: Pending::LiveToSend, ..w },
                WindowActionView::ReadLive,
            ),
        },
        MessageView::Install(progress, text) => (
            turned(w, PageView::Install(progress, text)),
            WindowActionView::Nothing,
        ),
        MessageView::Success(text) => (
            turned(w, PageView::Success(text)),
            WindowActionView::Nothing,
        ),
        MessageView::Error(text) => (turned(w, PageView::Error(text)), WindowActionView::Nothing),
        MessageView::Exit => (
            WindowView { worker: false, ..w },
            WindowActionView::Quit { join: w.worker },
        ),
    }
}

/// What an event leads to: the window, and what there is to do.
pub open spec fn window_next(w: WindowView, e: WindowEventView) -> (WindowView, WindowActionView) {
    let settled = WindowView { pending: Pending::Nothing, ..w };
    match e {
        WindowEventView::Message(m) => message_next(w, m),
        WindowEventView::RootGranted => match w.platform {
            Platform::Redox => (turned(settled, PageView::Disk(None)), WindowActionView::Nothing),
            Platform::Linux => (settled, WindowActionView::Close),
        },
        WindowEventView::RootRefused(reason) => (settled, WindowActionView::Tell { reason }),
        WindowEventView::Live(live) => if w.pending == Pending::LiveToShow {
            (turned(settled, PageView::Network(live)), WindowActionView::Nothing)
        } else {
            sending(w, live)
        },
        WindowEventView::Sent => (
            turned(settled, PageView::Install(0, "Starting install..."@)),
            WindowActionView::Nothing,
        ),
        WindowEventView::NotSent(reason) => (
            turned(settled, PageView::Error("failed to send command: "@ + reason)),
            WindowActionView::Nothing,
        ),
    }
}

impl Window {
    /// The first page: the disks, or why they cannot be listed.
    pub fn init(platform: Platform, disk_paths: Result<Vec<(String, bool, u64)>, String>) -> (r:
        Window)
        ensures
            r@ == (WindowView {
                platform,
                page: match disk_paths {
                    Ok(_) => PageView::Disk(None),
                    Err(err) => PageView::Error(err@),
                },
                disk_paths: match disk_paths {
                    Ok(disks) => disk_views(disks@),
                    Err(_) => Seq::empty(),
                },
                disk_i: None,
                worker: false,
                pending: Pending::Nothing,
            }),
    {
        let (page, disk_paths) = match disk_paths {
            Ok(disks) => (Page::Disk(None), disks),
            Err(err) => {
                let none: Vec<(String, bool, u64)> = Vec::new();
                assert(disk_views(none@) =~= Seq::empty());
                (Page::Error(err), none)
            },
        };
        Window {
            platform,
            page,
            disk_paths,
            disk_i: None,
            worker: false,
            pending: Pending::Nothing,
        }
    }

    /// The disk that was confirmed, if it is one of the list.
    fn confirmed_disk(&self) -> (r: Option<String>)
        ensures
            confirmed_disk(self@) == (match r {
                Some(disk) => Some(disk@),
                None => None,
            }),
    {
        match self.disk_i {
            Some(i) => {
                if i < self.disk_paths.len() {
                    assert(self@.disk_paths[i as int].0 == self.disk_paths@[i as int].0@);
                    Some(self.disk_paths[i].0.clone())
                } else {
                    None
                }
            },
            None => None,
        }
    }

    /// What keeps the window from telling the worker to install, if anything does.
    fn obstacle(&self) -> (r: Option<String>)
        ensures
            obstacle(self@) == (match r {
                Some(text) => Some(text@),
                None => None,
            }),
    {
        if self.confirmed_disk().is_none() {
            Some("no disk chosen".to_owned())
        } else if !self.worker {
            Some("command sender not found".to_owned())
        } else {
            None
        }
    }

    /// The worker is told to install with these settings, unless something keeps the window from it.
    fn send(&mut self, settings: NetCfg) -> (action: WindowAction)
        ensures
            (final(self)@, action@) == sending(old(self)@, settings@),
    {
        match self.obstacle() {
            Some(text) => {
                self.pending = Pending::Nothing;
                self.page = Page::Error(text);
                WindowAction::Nothing
            },
            None => match self.confirmed_disk() {
                Some(disk) => {
                    self.pending = Pending::Send;
                    WindowAction::Send { disk, settings }
                },
                None => WindowAction::Nothing,
            },
        }
    }

    /// What a message leads to.
    fn take(&mut self, message: Message) -> (action: WindowAction)
        requires
            old(self)@.pending == Pending::Nothing,
        ensures
            (final(self)@, action@) == message_next(old(self)@, message@),
    {
        match message {
            Message::Idle => WindowAction::Nothing,
            Message::Worker => {
                self.worker = true;
                WindowAction::Nothing
            },
            Message::SudoInput(password) => {
                self.page = Page::Sudo(password);
                WindowAction::Nothing
            },
            Message::SudoSubmit => match self.platform {
                Platform::Redox => match &self.page {
                    Page::Sudo(password) => {
                        let password = Some(password.clone());
                        self.pending = Pending::Root;
                        WindowAction::AskRoot { password }
                    },
                    _ => WindowAction::Nothing,
                },
                Platform::Linux => {
                    self.pending = Pending::Root;
                    WindowAction::AskRoot { password: None }
                },
            },
            Message::DiskChoose(i) => {
                self.page = Page::Disk(Some(i));
                WindowAction::Nothing
            },
            Message::DiskConfirm(i) => {
                self.disk_i = Some(i);
                self.pending = Pending::LiveToShow;
                WindowAction::ReadLive
            },
            Message::NetDhcp(dhcp) => {
                if let Page::Network(cfg) = &mut self.page {
                    cfg.dhcp = dhcp;
                }
                WindowAction::Nothing
            },
            Message::NetIp(v) => {
                if let Page::Network(cfg) = &mut self.page {
                    cfg.ip = v;
                }
                WindowAction::Nothing
            },
            Message::NetSubnet(v) => {
                if let Page::Network(cfg) = &mut self.page {
                    cfg.subnet = v;
                }
                WindowAction::Nothing
            },
            Message::NetRouter(v) => {
                if let Page::Network(cfg) = &mut self.page {
                    cfg.router = v;
                }
                WindowAction::Nothing
            },
            Message::NetDns(v) => {
                if let Page::Network(cfg) = &mut self.page {
                    cfg.dns = v;
                }
                WindowAction::Nothing
            },
            Message::NetConfirm => match self.obstacle() {
                Some(text) => {
                    self.page = Page::Error(text);
                    WindowAction::Nothing
                },
                None => match &self.page {
                    Page::Network(cfg) => {
                        let settings = cfg.clone();
                        self.send(settings)
                    },
                    _ => {
                        self.pending = Pending::LiveToSend;
                        WindowAction::ReadLive
                    },
                },
            },
            Message::Install(progress, text) => {
                self.page = Page::Install(progress, text);
                WindowAction::Nothing
            },
            Message::Success(text) => {
                self.page = Page::Success(text);
                WindowAction::Nothing
            },
            Message::Error(text) => {
                self.page = Page::Error(text);
                WindowAction::Nothing
            },
            Message::Exit => {
                let join = self.worker;
                self.worker = false;
                WindowAction::Quit { join }
            },
        }
    }

    /// What an event leads to.
    pub fn update(&mut self, event: WindowEvent) -> (action: WindowAction)
        requires
            may_happen(old(self)@, event@),
        ensures
            (final(self)@, action@) == window_next(old(self)@, event@),
    {
        match event {
            WindowEvent::Message(message) => self.take(message),
            WindowEvent::RootGranted => {
                self.pending = Pending::Nothing;
                match self.platform {
                    Platform::Redox => {
                        self.page = Page::Disk(None);
                        WindowAction::Nothing
                    },
                    Platform::Linux => WindowAction::Close,
                }
            },
            WindowEvent::RootRefused(reason) => {
                self.pending = Pending::Nothing;
                WindowAction::Tell { reason }
            },
            WindowEvent::Live(live) => {
                let settings = NetCfg::from_live(&live);
                if self.pending == Pending::LiveToShow {
                    self.pending = Pending::Nothing;
                    self.page = Page::Network(settings);
                    return WindowAction::Nothing;
                }
                self.send(settings)
            },
            WindowEvent::Sent => {
                self.pending = Pending::Nothing;
                self.page = Page::Install(0, "Starting install...".to_owned());
                WindowAction::Nothing
            },
            WindowEvent::NotSent(reason) => {
                let mut text = "failed to send command: ".to_owned();
                text.append(reason.as_str());
                self.pending = Pending::Nothing;
                self.page = Page::Error(text);
                WindowAction::Nothing
            },
        }
    }
}

/// How a button looks.
#[derive(Clone, Copy, Debug, PartialEq, Eq, Structural)]
pub enum ButtonKind {
    /// It destroys something.
    Destructive,
    /// It is what most people want.
    Suggested,
    Standard,
}

/// A setting that can be typed.
#[derive(Clone, Copy, Debug, PartialEq, Eq, Structural)]
pub enum NetField {
    Ip,
    Subnet,
    Router,
    Dns,
}

/// One thing that a page shows; they stand below each other.
#[derive(Debug, PartialEq, Eq)]
pub enum Widget {
    /// A large line.
    Title(String),
    /// A line.
    Text(String),
    /// Room that takes what is left of the height.
    Space,
    /// A password being typed; it is not shown.
    Password { value: String },
    /// A disk to choose, and its size.
    DiskChoice { label: String, index: usize, chosen: bool, size: u64 },
    /// A way to get an address.
    NetChoice { label: String, dhcp: bool, chosen: bool },
    /// A setting being typed, with an example of one.
    NetInput { label: String, example: String, value: String, field: NetField },
    /// How far the installation is, in hundredths.
    Progress { hundredths: usize },
    /// A button at the right end, with a text at the left if there is one.
    Button { text: Option<String>, kind: ButtonKind, label: String, press: Message },
}

/// One thing that a page shows, as characters.
pub enum WidgetView {
    Title(Seq<char>),
    Text(Seq<char>),
    Space,
    Password { value: Seq<char> },
    DiskChoice { label: Seq<char>, index: usize, chosen: bool, size: u64 },
    NetChoice { label: Seq<char>, dhcp: bool, chosen: bool },
    NetInput { label: Seq<char>, example: Seq<char>, value: Seq<char>, field: NetField },
    Progress { hundredths: usize },
    Button { text: Option<Seq<char>>, kind: ButtonKind, label: Seq<char>, press: MessageView },
}

impl View for Widget {
    type V = WidgetView;

    open spec fn view(&self) -> WidgetView {
        match self {
            Widget::Title(text) => WidgetView::Title(text@),
            Widget::Text(text) => WidgetView::Text(text@),
            Widget::Space => WidgetView::Space,
            Widget::Password { value } => WidgetView::Password { value: value@ },
            Widget::DiskChoice { label, index, chosen, size } => WidgetView::DiskChoice {
                label: label@,
                index: *index,
                chosen: *chosen,
                size: *size,
            },
            Widget::NetChoice { label, dhcp, chosen } => WidgetView::NetChoice {
                label: label@,
                dhcp: *dhcp,
                chosen: *chosen,
            },
            Widget::NetInput { label, example, value, field } => WidgetView::NetInput {
                label: label@,
                example: example@,
                value: value@,
                field: *field,
            },
            Widget::Progress { hundredths } => WidgetView::Progress { hundredths: *hundredths },
            Widget::Button { text, kind, label, press } => WidgetView::Button {
                text: match text {
                    Some(t) => Some(t@),
                    None => None,
                },
                kind: *kind,
                label: label@,
                press: press@,
            },
        }
    }
}

/// What a page shows, as characters.
pub open spec fn widget_views(widgets: Seq<Widget>) -> Seq<WidgetView> {
    widgets.map_values(|x: Widget| x@)
}

/// The disks to choose from: all but those that are only a part of one.
pub open spec fn disk_choices(disks: Seq<(Seq<char>, bool, u64)>, chosen: Option<usize>) -> Seq<
    WidgetView,
>
    decreases disks.len(),
{
    if disks.len() == 0 {
        Seq::empty()
    } else {
        let before = disk_choices(disks.drop_last(), chosen);
        let index = (disks.len() - 1) as usize;
        let (label, is_partition, size) = disks.last();
        if is_partition {
            before
        } else {
            before.push(
                WidgetView::DiskChoice { label, index, chosen: chosen == Some(index), size },
            )
        }
    }
}

/// The page with the disks, seen with or without the privileges to write to them.
pub open spec fn disk_page(w: WindowView, chosen: Option<usize>, root: bool) -> Seq<WidgetView> {
    if w.disk_paths.len() == 0 {
        seq![WidgetView::Text("No drives found"@), WidgetView::Text("(try to rerun with sudo)"@)]
    } else if root {
        seq![WidgetView::Title("Choose a drive:"@)] + disk_choices(w.disk_paths, chosen) + (
        match chosen {
            Some(i) => seq![
                WidgetView::Space,
                WidgetView::Button {
                    text: None,
                    kind: ButtonKind::Destructive,
                    label: "Confirm"@,
                    press: MessageView::DiskConfirm(i),
                },
            ],
            None => Seq::empty(),
        })
    } else {
        seq![
            WidgetView::Space,
            WidgetView::Button {
                text: Some("Ask superuser permission to install into drives"@),
                kind: ButtonKind::Suggested,
                label: "Ask root access"@,
                press: match w.platform {
                    Platform::Linux => MessageView::SudoSubmit,
                    Platform::Redox => MessageView::SudoInput(Seq::empty()),
                },
            },
        ]
    }
}

/// The fields for the settings of a fixed address, or what takes their place.
pub open spec fn address_fields(cfg: NetView) -> Seq<WidgetView> {
    if cfg.dhcp {
        seq![WidgetView::Text("The installed system will lease its address on boot."@)]
    } else {
        seq![
            WidgetView::NetInput {
                label: "IP address"@,
                example: "10.0.2.15"@,
                value: cfg.ip,
                field: NetField::Ip,
            },
            WidgetView::NetInput {
                label: "Subnet mask"@,
                example: "255.255.255.0"@,
                value: cfg.subnet,
                field: NetField::Subnet,
            },
            WidgetView::NetInput {
                label: "Gateway"@,
                example: "10.0.2.2"@,
                value: cfg.router,
                field: NetField::Router,
            },
            WidgetView::NetInput {
                label: "DNS server"@,
                example: "9.9.9.9"@,
                value: cfg.dns,
                field: NetField::Dns,
            },
        ]
    }
}

/// The page with the network settings.
pub open spec fn network_page(cfg: NetView) -> Seq<WidgetView> {
    seq![
        WidgetView::Title("Network configuration:"@),
        WidgetView::NetChoice { label: "Automatic (DHCP)"@, dhcp: true, chosen: cfg.dhcp },
        WidgetView::NetChoice { label: "Static address"@, dhcp: false, chosen: !cfg.dhcp },
    ] + address_fields(cfg) + seq![
        WidgetView::Space,
        WidgetView::Button {
            text: None,
            kind: ButtonKind::Suggested,
            label: "Install"@,
            press: MessageView::NetConfirm,
        },
    ]
}

/// What the window shows, seen with or without the privileges of the superuser.
pub open spec fn shown(w: WindowView, root: bool) -> Seq<WidgetView> {
    match w.page {
        PageView::Sudo(password) => seq![
            WidgetView::Text("Enter your password:"@),
            WidgetView::Password { value: password },
        ],
        PageView::Disk(chosen) => disk_page(w, chosen, root),
        PageView::Network(cfg) => network_page(cfg),
        PageView::Install(hundredths, text) => seq![
            WidgetView::Title("Installation progress:"@),
            WidgetView::Progress { hundredths },
            WidgetView::Text(text),
        ],
        PageView::Success(text) => seq![
            WidgetView::Title("Installation complete!"@),
            WidgetView::Text(text),
            WidgetView::Space,
            WidgetView::Button {
                text: None,
                kind: ButtonKind::Standard,
                label: "Exit"@,
                press: MessageView::Exit,
            },
        ],
        PageView::Error(text) => seq![WidgetView::Text(text)],
    }
}

/// Shows one thing more.
fn show(widgets: &mut Vec<Widget>, widget: Widget)
    ensures
        widget_views(final(widgets)@) == widget_views(old(widgets)@).push(widget@),
{
    widgets.push(widget);
    assert(widget_views(widgets@) =~= widget_views(old(widgets)@).push(widget@));
}

/// Nothing is shown yet.
fn blank() -> (r: Vec<Widget>)
    ensures
        widget_views(r@) == Seq::<WidgetView>::empty(),
{
    let r: Vec<Widget> = Vec::new();
    assert(widget_views(r@) =~= Seq::<WidgetView>::empty());
    r
}

impl Window {
    /// The page with the disks.
    fn show_disks(&self, chosen: Option<usize>, root: bool) -> (r: Vec<Widget>)
        ensures
            widget_views(r@) == disk_page(self@, chosen, root),
    {
        let mut widgets = blank();
        if self.disk_paths.len() == 0 {
            show(&mut widgets, Widget::Text("No drives found".to_owned()));
            show(&mut widgets, Widget::Text("(try to rerun with sudo)".to_owned()));
            assert(widget_views(widgets@) =~= disk_page(self@, chosen, root));
            return widgets;
        }
        if !root {
            let press = match self.platform {
                Platform::Linux => Message::SudoSubmit,
                Platform::Redox => Message::SudoInput(String::new()),
            };
            show(&mut widgets, Widget::Space);
            show(
                &mut widgets,
                Widget::Button {
                    text: Some("Ask superuser permission to install into drives".to_owned()),
                    kind: ButtonKind::Suggested,
                    label: "Ask root access".to_owned(),
                    press,
                },
            );
            assert(widget_views(widgets@) =~= disk_page(self@, chosen, root));
            return widgets;
        }
        show(&mut widgets, Widget::Title("Choose a drive:".to_owned()));
        let ghost disks = self@.disk_paths;
        let ghost title = widget_views(widgets@);
        let mut i: usize = 0;
        assert(disks.take(0) =~= Seq::empty());
        assert(title =~= title + disk_choices(disks.take(0), chosen));
        while i < self.disk_paths.len()
            invariant
                i <= self.disk_paths@.len(),
                disks == disk_views(self.disk_paths@),
                widget_views(widgets@) == title + disk_choices(disks.take(i as int), chosen),
            decreases self.disk_paths@.len() - i,
        {
            let ghost before = widget_views(widgets@);
            let (label, is_partition, size) = (
                self.disk_paths[i].0.clone(),
                self.disk_paths[i].1,
                self.disk_paths[i].2,
            );
            assert(disks.take(i + 1).drop_last() =~= disks.take(i as int));
            assert(disks.take(i + 1).last() == (label@, is_partition, size));
            if !is_partition {
                let is_chosen = match chosen {
                    Some(c) => c == i,
                    None => false,
                };
                let choice = Widget::DiskChoice { label, index: i, chosen: is_chosen, size };
                let ghost what = choice@;
                show(&mut widgets, choice);
                assert(before.push(what) =~= title + disk_choices(
                    disks.take(i as int),
                    chosen,
                ).push(what));
            }
            i = i + 1;
        }
        assert(disks.take(i as int) =~= disks);
        match chosen {
            Some(c) => {
                show(&mut widgets, Widget::Space);
                show(
                    &mut widgets,
                    Widget::Button {
                        text: None,
                        kind: ButtonKind::Destructive,
                        label: "Confirm".to_owned(),
                        press: Message::DiskConfirm(c),
                    },
                );
            },
            None => {},
        }
        assert(widget_views(widgets@) =~= disk_page(self@, chosen, root)) by {
            assert(title =~= seq![WidgetView::Title("Choose a drive:"@)]);
        }
        widgets
    }

    /// The page with the network settings.
    fn show_network(cfg: &NetCfg) -> (r: Vec<Widget>)
        ensures
            widget_views(r@) == network_page(cfg@),
    {
        let mut widgets = blank();
        show(&mut widgets, Widget::Title("Network configuration:".to_owned()));
        show(
            &mut widgets,
            Widget::NetChoice {
                label: "Automatic (DHCP)".to_owned(),
                dhcp: true,
                chosen: cfg.dhcp,
            },
        );
        show(
            &mut widgets,
            Widget::NetChoice {
                label: "Static address".to_owned(),
                dhcp: false,
                chosen: !cfg.dhcp,
            },
        );
        if cfg.dhcp {
            show(
                &mut widgets,
                Widget::Text("The installed system will lease its address on boot.".to_owned()),
            );
        } else {
            show(
                &mut widgets,
                Widget::NetInput {
                    label: "IP address".to_owned(),
                    example: "10.0.2.15".to_owned(),
                    value: cfg.ip.clone(),
                    field: NetField::Ip,
                },
            );
            show(
                &mut widgets,
                Widget::NetInput {
                    label: "Subnet mask".to_owned(),
                    example: "255.255.255.0".to_owned(),
                    value: cfg.subnet.clone(),
                    field: NetField::Subnet,
                },
            );
            show(
                &mut widgets,
                Widget::NetInput {
                    label: "Gateway".to_owned(),
                    example: "10.0.2.2".to_owned(),
                    value: cfg.router.clone(),
                    field: NetField::Router,
                },
            );
            show(
                &mut widgets,
                Widget::NetInput {
                    label: "DNS server".to_owned(),
                    example: "9.9.9.9".to_owned(),
                    value: cfg.dns.clone(),
                    field: NetField::Dns,
                },
            );
        }
        show(&mut widgets, Widget::Space);
        show(
            &mut widgets,
            Widget::Button {
                text: None,
                kind: ButtonKind::Suggested,
                label: "Install".to_owned(),
                press: Message::NetConfirm,
            },
        );
        assert(widget_views(widgets@) =~= network_page(cfg@));
        widgets
    }

    /// What the window shows, seen with or without the privileges of the superuser.
    pub fn view_page(&self, root: bool) -> (r: Vec<Widget>)
        ensures
            widget_views(r@) == shown(self@, root),
    {
        let mut widgets = blank();
        match &self.page {
            Page::Sudo(password) => {
                show(&mut widgets, Widget::Text("Enter your password:".to_owned()));
                show(&mut widgets, Widget::Password { value: password.clone() });
            },
            Page::Disk(chosen) => {
                return self.show_disks(*chosen, root);
            },
            Page::Network(cfg) => {
                return Self::show_network(cfg);
            },
            Page::Install(progress, text) => {
                show(&mut widgets, Widget::Title("Installation progress:".to_owned()));
                show(&mut widgets, Widget::Progress { hundredths: *progress });
                show(&mut widgets, Widget::Text(text.clone()));
            },
            Page::Success(text) => {
                show(&mut widgets, Widget::Title("Installation complete!".to_owned()));
                show(&mut widgets, Widget::Text(text.clone()));
                show(&mut widgets, Widget::Space);
                show(
                    &mut widgets,
                    Widget::Button {
                        text: None,
                        kind: ButtonKind::Standard,
                        label: "Exit".to_owned(),
                        press: Message::Exit,
                    },
                );
            },
            Page::Error(text) => {
                show(&mut widgets, Widget::Text(text.clone()));
            },
        }
        assert(widget_views(widgets@) =~= shown(self@, root));
        widgets
    }
}

/// Where the stream of the worker's messages is.
#[derive(Clone, Copy, Debug, PartialEq, Eq, Structural)]
pub enum StreamState {
    /// The worker is to be started.
    Ready,
    /// The worker's next message is awaited.
    Waiting,
    /// The worker is gone.
    Finished,
}

/// The next message of the stream, and where the stream is then.
pub open spec fn stream_next(state: StreamState, received: Option<MessageView>) -> (
    MessageView,
    StreamState,
) {
    match state {
        StreamState::Ready => (MessageView::Worker, StreamState::Waiting),
        _ => match received {
            Some(message) => (message, StreamState::Waiting),
            None => (MessageView::Idle, StreamState::Finished),
        },
    }
}

/// The next message of the stream, and where the stream is then: first that the worker is there,
/// then what it reports, for as long as it is there. A stream that is finished has no next message.
pub fn worker_stream(state: StreamState, received: Option<Message>) -> (r: (Message, StreamState))
    requires
        state != StreamState::Finished,
    ensures
        (r.0@, r.1) == stream_next(
            state,
            match received {
                Some(message) => Some(message@),
                None => None,
            },
        ),
{
    match state {
        StreamState::Ready => (Message::Worker, StreamState::Waiting),
        _ => match received {
            Some(message) => (message, StreamState::Waiting),
            None => (Message::Idle, StreamState::Finished),
        },
    }
}

/// The worker is told to install only when the network settings were accepted, only while it is
/// there, and only to the disk that was confirmed.
pub proof fn law_install_needs_a_confirmed_disk(w: WindowView, e: WindowEventView)
    requires
        may_happen(w, e),
    ensures
        match window_next(w, e).1 {
            WindowActionView::Send { disk, .. } => {
                &&& e == WindowEventView::Message(MessageView::NetConfirm) || w.pending
                    == Pending::LiveToSend
                &&& w.worker
                &&& w.disk_i is Some
                &&& w.disk_i->Some_0 < w.disk_paths.len()
                &&& disk == w.disk_paths[w.disk_i->Some_0 as int].0
            },
            _ => true,
        },
        window_next(w, e).0.pending == Pending::LiveToSend ==> e == WindowEventView::Message(
            MessageView::NetConfirm,
        ),
{
}

/// What the page with the network settings shows when they are accepted is what the worker gets.
pub proof fn law_shown_settings_are_sent(w: WindowView, cfg: NetView)
    requires
        w.page == PageView::Network(cfg),
        w.pending == Pending::Nothing,
    ensures
        match window_next(w, WindowEventView::Message(MessageView::NetConfirm)).1 {
            WindowActionView::Send { settings, .. } => settings == cfg,
            action => action is Nothing && obstacle(w) is Some,
        },
{
}

/// The disk that was confirmed is remembered until another one is confirmed, and the list of disks
/// never changes.
pub proof fn law_the_confirmed_disk_is_remembered(w: WindowView, e: WindowEventView)
    requires
        may_happen(w, e),
    ensures
        window_next(w, e).0.disk_paths == w.disk_paths,
        window_next(w, e).0.disk_i == (match e {
            WindowEventView::Message(MessageView::DiskConfirm(i)) => Some(i),
            _ => w.disk_i,
        }),
{
}

/// A setting that is changed changes alone, and only on the page with the network settings.
pub proof fn law_a_setting_changes_alone(w: WindowView, m: MessageView)
    requires
        w.pending == Pending::Nothing,
        m is NetDhcp || m is NetIp || m is NetSubnet || m is NetRouter || m is NetDns,
    ensures
        ({
            let (v, action) = window_next(w, WindowEventView::Message(m));
            &&& action is Nothing
            &&& v == turned(w, v.page)
            &&& match (w.page, v.page) {
                (PageView::Network(old_cfg), PageView::Network(new_cfg)) => {
                    &&& new_cfg.dhcp == if m is NetDhcp {
                        m->NetDhcp_0
                    } else {
                        old_cfg.dhcp
                    }
                    &&& new_cfg.ip == if m is NetIp {
                        m->NetIp_0
                    } else {
                        old_cfg.ip
                    }
                    &&& new_cfg.subnet == if m is NetSubnet {
                        m->NetSubnet_0
                    } else {
                        old_cfg.subnet
                    }
                    &&& new_cfg.router == if m is NetRouter {
                        m->NetRouter_0
                    } else {
                        old_cfg.router
                    }
                    &&& new_cfg.dns == if m is NetDns {
                        m->NetDns_0
                    } else {
                        old_cfg.dns
                    }
                },
                (PageView::Network(_), _) => false,
                _ => v == w,
            }
        }),
{
}

/// A field for an address is shown only while a fixed address is chosen, so none can look editable
/// while the address is leased; all four are shown then.
pub proof fn law_address_fields_are_shown_for_static_only(w: WindowView, cfg: NetView, root: bool)
    requires
        w.page == PageView::Network(cfg),
    ensures
        cfg.dhcp ==> forall|i: int|
            0 <= i < shown(w, root).len() ==> !((#[trigger] shown(w, root)[i]) is NetInput),
        !cfg.dhcp ==> ({
            let page = shown(w, root);
            &&& page.len() == 9
            &&& page[3] is NetInput && page[3]->field == NetField::Ip && page[3]->NetInput_value
                == cfg.ip
            &&& page[4] is NetInput && page[4]->field == NetField::Subnet
                && page[4]->NetInput_value == cfg.subnet
            &&& page[5] is NetInput && page[5]->field == NetField::Router
                && page[5]->NetInput_value == cfg.router
            &&& page[6] is NetInput && page[6]->field == NetField::Dns && page[6]->NetInput_value
                == cfg.dns
        }),
{
}

/// A choice that is offered is a whole disk of the list, at its place in the list.
proof fn lemma_disk_choices(
    disks: Seq<(Seq<char>, bool, u64)>,
    chosen: Option<usize>,
    i: int,
)
    requires
        disks.len() <= usize::MAX,
        0 <= i < disk_choices(disks, chosen).len(),
    ensures
        match disk_choices(disks, chosen)[i] {
            WidgetView::DiskChoice { label, index, chosen: marked, size } => {
                &&& index < disks.len()
                &&& disks[index as int] == (label, false, size)
                &&& marked == (chosen == Some(index))
            },
            _ => false,
        },
    decreases disks.len(),
{
    let before = disks.drop_last();
    if i < disk_choices(before, chosen).len() {
        lemma_disk_choices(before, chosen, i);
        assert(disk_choices(disks, chosen)[i] == disk_choices(before, chosen)[i]);
    }
}

/// What the page with the disks offers: whole disks of the list, and the confirmation of the one
/// that was chosen.
proof fn lemma_offered(w: WindowView, root: bool, i: int)
    requires
        w.disk_paths.len() <= usize::MAX,
        0 <= i < shown(w, root).len(),
    ensures
        match shown(w, root)[i] {
            WidgetView::DiskChoice { label, index, size, .. } => {
                &&& root
                &&& index < w.disk_paths.len()
                &&& w.disk_paths[index as int] == (label, false, size)
            },
            WidgetView::Button { press: MessageView::DiskConfirm(disk), .. } => {
                &&& root
                &&& w.page == PageView::Disk(Some(disk))
            },
            _ => true,
        },
{
    match w.page {
        PageView::Disk(chosen) => {
            let choices = disk_choices(w.disk_paths, chosen);
            if w.disk_paths.len() > 0 && root {
                if 1 <= i < 1 + choices.len() {
                    lemma_disk_choices(w.disk_paths, chosen, i - 1);
                    assert(shown(w, root)[i] == choices[i - 1]);
                }
            }
        },
        _ => {},
    }
}

/// A part of a disk is never offered: every choice is a whole disk of the list, shown with its own
/// size, and choosing it chooses that disk.
pub proof fn law_partitions_are_not_offered(w: WindowView, root: bool, i: int)
    requires
        w.disk_paths.len() <= usize::MAX,
        0 <= i < shown(w, root).len(),
    ensures
        match shown(w, root)[i] {
            WidgetView::DiskChoice { label, index, size, .. } => {
                &&& root
                &&& index < w.disk_paths.len()
                &&& w.disk_paths[index as int] == (label, false, size)
            },
            _ => true,
        },
{
    lemma_offered(w, root, i);
}

/// A disk can be confirmed only once one was chosen, and the button confirms that disk.
pub proof fn law_confirming_needs_a_choice(w: WindowView, root: bool, i: int, disk: usize)
    requires
        w.disk_paths.len() <= usize::MAX,
        0 <= i < shown(w, root).len(),
        shown(w, root)[i] is Button,
        shown(w, root)[i]->press == MessageView::DiskConfirm(disk),
    ensures
        w.page == PageView::Disk(Some(disk)),
        root,
{
    lemma_offered(w, root, i);
}

/// What is typed, chosen or reported is what the next page holds, and nothing else of the window
/// changes; a worker that is there is remembered, and leaving waits for it if it is.
pub proof fn law_a_message_turns_to_its_page(w: WindowView, text: Seq<char>, n: usize)
    ensures
        ({
            let nothing = WindowActionView::Nothing;
            &&& window_next(w, WindowEventView::Message(MessageView::Idle)) == (w, nothing)
            &&& window_next(w, WindowEventView::Message(MessageView::SudoInput(text))) == (
                WindowView { page: PageView::Sudo(text), ..w },
                nothing,
            )
            &&& window_next(w, WindowEventView::Message(MessageView::DiskChoose(n))) == (
                WindowView { page: PageView::Disk(Some(n)), ..w },
                nothing,
            )
            &&& window_next(w, WindowEventView::Message(MessageView::Install(n, text))) == (
                WindowView { page: PageView::Install(n, text), ..w },
                nothing,
            )
            &&& window_next(w, WindowEventView::Message(MessageView::Success(text))) == (
                WindowView { page: PageView::Success(text), ..w },
                nothing,
            )
            &&& window_next(w, WindowEventView::Message(MessageView::Error(text))) == (
                WindowView { page: PageView::Error(text), ..w },
                nothing,
            )
            &&& window_next(w, WindowEventView::Message(MessageView::Worker)) == (
                WindowView { worker: true, ..w },
                nothing,
            )
            &&& window_next(w, WindowEventView::Message(MessageView::Exit)) == (
                WindowView { worker: false, ..w },
                WindowActionView::Quit { join: w.worker },
            )
        }),
{
}

/// Redox asks for the privileges with the password that was typed, and shows the disks once they are
/// granted; Linux asks without one and closes the window, as another takes its place. Where they are
/// refused, the reason is told and the page stays.
pub proof fn law_privileges_are_asked_for_in_the_way_of_the_system(
    w: WindowView,
    reason: Seq<char>,
)
    ensures
        ({
            let asked = window_next(w, WindowEventView::Message(MessageView::SudoSubmit));
            let granted = window_next(w, WindowEventView::RootGranted);
            let refused = window_next(w, WindowEventView::RootRefused(reason));
            &&& w.platform == Platform::Linux ==> asked == (
                WindowView { pending: Pending::Root, ..w },
                WindowActionView::AskRoot { password: None },
            )
            &&& w.platform == Platform::Redox && w.page is Sudo ==> asked == (
                WindowView { pending: Pending::Root, ..w },
                WindowActionView::AskRoot { password: Some(w.page->Sudo_0) },
            )
            &&& w.platform == Platform::Redox && !(w.page is Sudo) ==> asked == (
                w,
                WindowActionView::Nothing,
            )
            &&& w.platform == Platform::Linux ==> granted == (
                WindowView { pending: Pending::Nothing, ..w },
                WindowActionView::Close,
            )
            &&& w.platform == Platform::Redox ==> granted == (
                WindowView { pending: Pending::Nothing, page: PageView::Disk(None), ..w },
                WindowActionView::Nothing,
            )
            &&& refused == (
                WindowView { pending: Pending::Nothing, ..w },
                WindowActionView::Tell { reason },
            )
        }),
{
}

/// A disk that is confirmed leads to the network settings, which start from those of the live system.
pub proof fn law_a_confirmed_disk_leads_to_the_network_settings(
    w: WindowView,
    disk: usize,
    live: NetView,
)
    ensures
        ({
            let (v, action) = window_next(
                w,
                WindowEventView::Message(MessageView::DiskConfirm(disk)),
            );
            &&& action is ReadLive
            &&& v == (WindowView { disk_i: Some(disk), pending: Pending::LiveToShow, ..w })
            &&& window_next(v, WindowEventView::Live(live)) == (
                WindowView {
                    page: PageView::Network(live),
                    disk_i: Some(disk),
                    pending: Pending::Nothing,
                    ..w
                },
                WindowActionView::Nothing,
            )
        }),
{
}

/// Settings that are accepted go to the worker, with the disk that was confirmed: those of the page,
/// or, on another page, those of the live system. Without a disk of the list, and without a worker, the
/// window says what is missing, and nothing is installed.
pub proof fn law_accepted_settings_start_the_installation(
    w: WindowView,
    disk: usize,
    live: NetView,
)
    requires
        w.pending == Pending::Nothing,
    ensures
        ({
            let (v, action) = window_next(w, WindowEventView::Message(MessageView::NetConfirm));
            let chosen = w.disk_i == Some(disk) && disk < w.disk_paths.len();
            let path = w.disk_paths[disk as int].0;
            &&& w.disk_i is None || (w.disk_i == Some(disk) && disk >= w.disk_paths.len()) ==> (
            v,
            action,
            ) == (
                WindowView { page: PageView::Error("no disk chosen"@), ..w },
                WindowActionView::Nothing,
            )
            &&& chosen && !w.worker ==> (v, action) == (
                WindowView { page: PageView::Error("command sender not found"@), ..w },
                WindowActionView::Nothing,
            )
            &&& chosen && w.worker && w.page is Network ==> (v, action) == (
                WindowView { pending: Pending::Send, ..w },
                WindowActionView::Send { disk: path, settings: w.page->Network_0 },
            )
            &&& chosen && w.worker && !(w.page is Network) ==> {
                &&& (v, action) == (
                    WindowView { pending: Pending::LiveToSend, ..w },
                    WindowActionView::ReadLive,
                )
                &&& window_next(v, WindowEventView::Live(live)) == (
                    WindowView { pending: Pending::Send, ..w },
                    WindowActionView::Send { disk: path, settings: live },
                )
            }
        }),
{
}

/// Once the worker has its command, the window shows that the installation starts; if it did not get
/// it, the window says why.
pub proof fn law_the_command_is_answered(w: WindowView, reason: Seq<char>)
    ensures
        window_next(w, WindowEventView::Sent) == (
            WindowView {
                page: PageView::Install(0, "Starting install..."@),
                pending: Pending::Nothing,
                ..w
            },
            WindowActionView::Nothing,
        ),
        window_next(w, WindowEventView::NotSent(reason)) == (
            WindowView {
                page: PageView::Error("failed to send command: "@ + reason),
                pending: Pending::Nothing,
                ..w
            },
            WindowActionView::Nothing,
        ),
{
}

/// Whatever the window asks for, it takes every answer to it; where it asks for nothing, it takes the
/// next message.
pub proof fn law_every_answer_may_happen(
    w: WindowView,
    e: WindowEventView,
    live: NetView,
    reason: Seq<char>,
    m: MessageView,
)
    requires
        may_happen(w, e),
    ensures
        ({
            let (v, action) = window_next(w, e);
            &&& action is AskRoot ==> may_happen(v, WindowEventView::RootGranted) && may_happen(
                v,
                WindowEventView::RootRefused(reason),
            )
            &&& action is ReadLive ==> may_happen(v, WindowEventView::Live(live))
            &&& action is Send ==> may_happen(v, WindowEventView::Sent) && may_happen(
                v,
                WindowEventView::NotSent(reason),
            )
            &&& !(action is AskRoot || action is ReadLive || action is Send) ==> may_happen(
                v,
                WindowEventView::Message(m),
            )
        }),
{
}

/// A whole disk behind a list of disks is offered behind them, with its place in the list, its size and
/// whether it is the one that is chosen; a part of a disk adds nothing.
pub proof fn law_each_disk_is_offered_behind_those_before_it(
    disks: Seq<(Seq<char>, bool, u64)>,
    disk: (Seq<char>, bool, u64),
    chosen: Option<usize>,
)
    requires
        disks.len() < usize::MAX,
    ensures
        disk_choices(Seq::empty(), chosen) == Seq::<WidgetView>::empty(),
        disk.1 ==> disk_choices(disks.push(disk), chosen) == disk_choices(disks, chosen),
        !disk.1 ==> disk_choices(disks.push(disk), chosen) == disk_choices(disks, chosen).push(
            WidgetView::DiskChoice {
                label: disk.0,
                index: disks.len() as usize,
                chosen: chosen == Some(disks.len() as usize),
                size: disk.2,
            },
        ),
{
    assert(disks.push(disk).drop_last() =~= disks);
}

/// A whole disk of the list is among the choices.
proof fn lemma_every_whole_disk(
    disks: Seq<(Seq<char>, bool, u64)>,
    chosen: Option<usize>,
    k: usize,
) -> (at: int)
    requires
        disks.len() <= usize::MAX,
        k < disks.len(),
        !disks[k as int].1,
    ensures
        0 <= at < disk_choices(disks, chosen).len(),
        disk_choices(disks, chosen)[at] == (WidgetView::DiskChoice {
            label: disks[k as int].0,
            index: k,
            chosen: chosen == Some(k),
            size: disks[k as int].2,
        }),
    decreases disks.len(),
{
    let before = disks.drop_last();
    if k == disks.len() - 1 {
        disk_choices(before, chosen).len() as int
    } else {
        let at = lemma_every_whole_disk(before, chosen, k);
        assert(disk_choices(disks, chosen)[at] == disk_choices(before, chosen)[at]);
        at
    }
}

/// With the privileges to write to them every whole disk of the list is offered, the first as well as
/// the last, marked if it is the one that is chosen.
pub proof fn law_every_whole_disk_is_offered(w: WindowView, chosen: Option<usize>, k: usize)
    requires
        w.disk_paths.len() <= usize::MAX,
        w.page == PageView::Disk(chosen),
        k < w.disk_paths.len(),
        !w.disk_paths[k as int].1,
    ensures
        shown(w, true).contains(
            WidgetView::DiskChoice {
                label: w.disk_paths[k as int].0,
                index: k,
                chosen: chosen == Some(k),
                size: w.disk_paths[k as int].2,
            },
        ),
{
    let at = lemma_every_whole_disk(w.disk_paths, chosen, k);
    assert(shown(w, true)[at + 1] == disk_choices(w.disk_paths, chosen)[at]);
}

/// The page with the disks begins with the question; if one is chosen it ends with the button that
/// confirms it, and the choices are between the two.
pub proof fn law_the_page_with_the_disks(w: WindowView, chosen: Option<usize>, root: bool)
    requires
        w.page == PageView::Disk(chosen),
    ensures
        ({
            let page = shown(w, root);
            let choices = disk_choices(w.disk_paths, chosen);
            let n = choices.len() as int;
            &&& w.disk_paths.len() == 0 ==> page == seq![
                WidgetView::Text("No drives found"@),
                WidgetView::Text("(try to rerun with sudo)"@),
            ]
            &&& w.disk_paths.len() > 0 && root ==> {
                &&& page[0] == WidgetView::Title("Choose a drive:"@)
                &&& page.subrange(1, n + 1) =~= choices
                &&& chosen is None ==> page.len() == n + 1
                &&& chosen is Some ==> page.len() == n + 3 && page[n + 1] == WidgetView::Space
                    && page[n + 2] == (WidgetView::Button {
                    text: None,
                    kind: ButtonKind::Destructive,
                    label: "Confirm"@,
                    press: MessageView::DiskConfirm(chosen->Some_0),
                })
            }
            &&& w.disk_paths.len() > 0 && !root ==> {
                &&& page.len() == 2
                &&& page[0] == WidgetView::Space
                &&& page[1] == (WidgetView::Button {
                    text: Some("Ask superuser permission to install into drives"@),
                    kind: ButtonKind::Suggested,
                    label: "Ask root access"@,
                    press: if w.platform == Platform::Linux {
                        MessageView::SudoSubmit
                    } else {
                        MessageView::SudoInput(Seq::empty())
                    },
                })
            }
        }),
{
}

/// The page with the network settings shows both ways to get an address, marks the one that is chosen,
/// and ends with the button that installs.
pub proof fn law_the_page_with_the_network_settings(w: WindowView, cfg: NetView, root: bool)
    requires
        w.page == PageView::Network(cfg),
    ensures
        ({
            let page = shown(w, root);
            let n = page.len() as int;
            &&& page[0] == WidgetView::Title("Network configuration:"@)
            &&& page[1] == (WidgetView::NetChoice {
                label: "Automatic (DHCP)"@,
                dhcp: true,
                chosen: cfg.dhcp,
            })
            &&& page[2] == (WidgetView::NetChoice {
                label: "Static address"@,
                dhcp: false,
                chosen: !cfg.dhcp,
            })
            &&& n == if cfg.dhcp {
                6int
            } else {
                9
            }
            &&& page[n - 2] == WidgetView::Space
            &&& page[n - 1] == (WidgetView::Button {
                text: None,
                kind: ButtonKind::Suggested,
                label: "Install"@,
                press: MessageView::NetConfirm,
            })
            &&& cfg.dhcp ==> page[3] == WidgetView::Text(
                "The installed system will lease its address on boot."@,
            )
            &&& !cfg.dhcp ==> {
                &&& page[3] == (WidgetView::NetInput {
                    label: "IP address"@,
                    example: "10.0.2.15"@,
                    value: cfg.ip,
                    field: NetField::Ip,
                })
                &&& page[4] == (WidgetView::NetInput {
                    label: "Subnet mask"@,
                    example: "255.255.255.0"@,
                    value: cfg.subnet,
                    field: NetField::Subnet,
                })
                &&& page[5] == (WidgetView::NetInput {
                    label: "Gateway"@,
                    example: "10.0.2.2"@,
                    value: cfg.router,
                    field: NetField::Router,
                })
                &&& page[6] == (WidgetView::NetInput {
                    label: "DNS server"@,
                    example: "9.9.9.9"@,
                    value: cfg.dns,
                    field: NetField::Dns,
                })
            }
        }),
{
}

/// The other pages show what they hold: the password that is typed, how far the installation is and
/// what it is doing, that it succeeded with a way out, and what failed.
pub proof fn law_the_other_pages_show_what_they_hold(
    w: WindowView,
    text: Seq<char>,
    hundredths: usize,
    root: bool,
)
    ensures
        w.page == PageView::Sudo(text) ==> shown(w, root) == seq![
            WidgetView::Text("Enter your password:"@),
            WidgetView::Password { value: text },
        ],
        w.page == PageView::Install(hundredths, text) ==> shown(w, root) == seq![
            WidgetView::Title("Installation progress:"@),
            WidgetView::Progress { hundredths },
            WidgetView::Text(text),
        ],
        w.page == PageView::Success(text) ==> shown(w, root) == seq![
            WidgetView::Title("Installation complete!"@),
            WidgetView::Text(text),
            WidgetView::Space,
            WidgetView::Button {
                text: None,
                kind: ButtonKind::Standard,
                label: "Exit"@,
                press: MessageView::Exit,
            },
        ],
        w.page == PageView::Error(text) ==> shown(w, root) == seq![WidgetView::Text(text)],
{
}

/// The stream says first that the worker is there, whatever was received; from then on it passes on
/// what the worker reports, and ends when nothing more comes.
pub proof fn law_the_stream_passes_on_what_the_worker_reports(
    received: Option<MessageView>,
    message: MessageView,
)
    ensures
        stream_next(StreamState::Ready, received) == (MessageView::Worker, StreamState::Waiting),
        stream_next(StreamState::Waiting, Some(message)) == (message, StreamState::Waiting),
        stream_next(StreamState::Waiting, None) == (MessageView::Idle, StreamState::Finished),
{
}

} // verus!
