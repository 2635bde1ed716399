use eos_installer::net::{LiveNet, NetCfg};
use eos_installer::window::{
    worker_stream, ButtonKind, Message, NetField, Platform, StreamState, Widget, Window,
    WindowAction, WindowEvent, APP_ID, TITLE,
};

fn disks() -> Vec<(String, bool, u64)> {
    vec![
        ("/d0".to_string(), false, 10),
        ("/d0p1".to_string(), true, 5),
        ("/d1".to_string(), false, 20),
    ]
}

fn live() -> LiveNet {
    LiveNet {
        ip: Some("10.0.2.15\n".to_string()),
        ip_subnet: None,
        ip_router: None,
        dns: None,
    }
}

fn say(w: &mut Window, m: Message) -> WindowAction {
    w.update(WindowEvent::Message(m))
}

fn text(s: &str) -> Widget {
    Widget::Text(s.to_string())
}

fn title(s: &str) -> Widget {
    Widget::Title(s.to_string())
}

fn button(kind: ButtonKind, label: &str, press: Message) -> Widget {
    Widget::Button { text: None, kind, label: label.to_string(), press }
}

#[test]
fn the_disks_are_offered_without_partitions() {
    let mut w = Window::init(Platform::Redox, Ok(disks()));
    let choice = |label: &str, index: usize, chosen: bool, size: u64| Widget::DiskChoice {
        label: label.to_string(),
        index,
        chosen,
        size,
    };
    assert_eq!(
        w.view_page(true),
        vec![title("Choose a drive:"), choice("/d0", 0, false, 10), choice("/d1", 2, false, 20)]
    );
    assert_eq!(say(&mut w, Message::DiskChoose(2)), WindowAction::Nothing);
    assert_eq!(
        w.view_page(true),
        vec![
            title("Choose a drive:"),
            choice("/d0", 0, false, 10),
            choice("/d1", 2, true, 20),
            Widget::Space,
            button(ButtonKind::Destructive, "Confirm", Message::DiskConfirm(2)),
        ]
    );
}

#[test]
fn without_privileges_they_are_asked_for() {
    let ask = |press: Message| {
        vec![
            Widget::Space,
            Widget::Button {
                text: Some("Ask superuser permission to install into drives".to_string()),
                kind: ButtonKind::Suggested,
                label: "Ask root access".to_string(),
                press,
            },
        ]
    };
    let w = Window::init(Platform::Linux, Ok(disks()));
    assert_eq!(w.view_page(false), ask(Message::SudoSubmit));
    let w = Window::init(Platform::Redox, Ok(disks()));
    assert_eq!(w.view_page(false), ask(Message::SudoInput(String::new())));
    let w = Window::init(Platform::Redox, Ok(Vec::new()));
    assert_eq!(
        w.view_page(false),
        vec![text("No drives found"), text("(try to rerun with sudo)")]
    );
    let w = Window::init(Platform::Redox, Err("broken".to_string()));
    assert_eq!(w.view_page(true), vec![text("broken")]);
}

#[test]
fn the_password_is_asked_for_on_redox() {
    let mut w = Window::init(Platform::Redox, Ok(disks()));
    assert_eq!(say(&mut w, Message::SudoSubmit), WindowAction::Nothing);
    say(&mut w, Message::SudoInput("pw".to_string()));
    assert_eq!(
        w.view_page(false),
        vec![text("Enter your password:"), Widget::Password { value: "pw".to_string() }]
    );
    assert_eq!(
        say(&mut w, Message::SudoSubmit),
        WindowAction::AskRoot { password: Some("pw".to_string()) }
    );
    assert_eq!(
        w.update(WindowEvent::RootRefused("no".to_string())),
        WindowAction::Tell { reason: "no".to_string() }
    );
    assert_eq!(w.view_page(false).len(), 2);
    say(&mut w, Message::SudoSubmit);
    assert_eq!(w.update(WindowEvent::RootGranted), WindowAction::Nothing);
    assert_eq!(w.view_page(true)[0], title("Choose a drive:"));
}

#[test]
fn the_window_closes_when_linux_grants_privileges() {
    let mut w = Window::init(Platform::Linux, Ok(disks()));
    assert_eq!(say(&mut w, Message::SudoSubmit), WindowAction::AskRoot { password: None });
    assert_eq!(w.update(WindowEvent::RootGranted), WindowAction::Close);
}

/// A window on which the second whole disk was confirmed.
fn confirmed(worker: bool) -> Window {
    let mut w = Window::init(Platform::Redox, Ok(disks()));
    if worker {
        say(&mut w, Message::Worker);
    }
    say(&mut w, Message::DiskChoose(2));
    assert_eq!(say(&mut w, Message::DiskConfirm(2)), WindowAction::ReadLive);
    assert_eq!(w.update(WindowEvent::Live(live())), WindowAction::Nothing);
    w
}

#[test]
fn address_fields_are_shown_for_a_static_address_only() {
    let mut w = confirmed(true);
    let choice = |label: &str, dhcp: bool, chosen: bool| Widget::NetChoice {
        label: label.to_string(),
        dhcp,
        chosen,
    };
    let install = || button(ButtonKind::Suggested, "Install", Message::NetConfirm);
    assert_eq!(
        w.view_page(true),
        vec![
            title("Network configuration:"),
            choice("Automatic (DHCP)", true, true),
            choice("Static address", false, false),
            text("The installed system will lease its address on boot."),
            Widget::Space,
            install(),
        ]
    );
    say(&mut w, Message::NetDhcp(false));
    say(&mut w, Message::NetRouter("10.0.2.2".to_string()));
    let input = |label: &str, example: &str, value: &str, field: NetField| Widget::NetInput {
        label: label.to_string(),
        example: example.to_string(),
        value: value.to_string(),
        field,
    };
    assert_eq!(
        w.view_page(true),
        vec![
            title("Network configuration:"),
            choice("Automatic (DHCP)", true, false),
            choice("Static address", false, true),
            input("IP address", "10.0.2.15", "10.0.2.15", NetField::Ip),
            input("Subnet mask", "255.255.255.0", "255.255.255.0", NetField::Subnet),
            input("Gateway", "10.0.2.2", "10.0.2.2", NetField::Router),
            input("DNS server", "9.9.9.9", "", NetField::Dns),
            Widget::Space,
            install(),
        ]
    );
}

#[test]
fn the_shown_settings_are_sent_with_the_confirmed_disk() {
    let mut w = confirmed(true);
    say(&mut w, Message::NetDhcp(false));
    say(&mut w, Message::NetIp("1.2.3.4".to_string()));
    say(&mut w, Message::NetSubnet("255.0.0.0".to_string()));
    say(&mut w, Message::NetDns("8.8.8.8".to_string()));
    assert_eq!(
        say(&mut w, Message::NetConfirm),
        WindowAction::Send {
            disk: "/d1".to_string(),
            settings: NetCfg {
                dhcp: false,
                ip: "1.2.3.4".to_string(),
                subnet: "255.0.0.0".to_string(),
                router: "".to_string(),
                dns: "8.8.8.8".to_string(),
            }
        }
    );
    assert_eq!(w.update(WindowEvent::Sent), WindowAction::Nothing);
    assert_eq!(
        w.view_page(true),
        vec![
            title("Installation progress:"),
            Widget::Progress { hundredths: 0 },
            text("Starting install..."),
        ]
    );
    say(&mut w, Message::Install(42, "Copy x".to_string()));
    assert_eq!(
        w.view_page(true),
        vec![
            title("Installation progress:"),
            Widget::Progress { hundredths: 42 },
            text("Copy x"),
        ]
    );
    say(&mut w, Message::Success("done".to_string()));
    assert_eq!(
        w.view_page(true),
        vec![
            title("Installation complete!"),
            text("done"),
            Widget::Space,
            button(ButtonKind::Standard, "Exit", Message::Exit),
        ]
    );
    assert_eq!(say(&mut w, Message::Exit), WindowAction::Quit { join: true });
    assert_eq!(say(&mut w, Message::Exit), WindowAction::Quit { join: false });
}

#[test]
fn nothing_is_sent_without_a_disk_or_a_worker() {
    let mut w = Window::init(Platform::Redox, Ok(disks()));
    assert_eq!(say(&mut w, Message::NetConfirm), WindowAction::Nothing);
    assert_eq!(w.view_page(true), vec![text("no disk chosen")]);
    let mut w = confirmed(false);
    assert_eq!(say(&mut w, Message::NetConfirm), WindowAction::Nothing);
    assert_eq!(w.view_page(true), vec![text("command sender not found")]);
    let mut w = Window::init(Platform::Redox, Ok(disks()));
    say(&mut w, Message::Worker);
    say(&mut w, Message::DiskConfirm(3));
    w.update(WindowEvent::Live(live()));
    assert_eq!(say(&mut w, Message::NetConfirm), WindowAction::Nothing);
    assert_eq!(w.view_page(true), vec![text("no disk chosen")]);
    let mut w = confirmed(true);
    say(&mut w, Message::NetConfirm);
    w.update(WindowEvent::NotSent("gone".to_string()));
    assert_eq!(w.view_page(true), vec![text("failed to send command: gone")]);
}

#[test]
fn live_settings_are_sent_when_none_are_shown() {
    let mut w = confirmed(true);
    say(&mut w, Message::Error("oops".to_string()));
    say(&mut w, Message::NetIp("1.1.1.1".to_string()));
    assert_eq!(w.view_page(true), vec![text("oops")]);
    assert_eq!(say(&mut w, Message::NetConfirm), WindowAction::ReadLive);
    assert_eq!(
        w.update(WindowEvent::Live(live())),
        WindowAction::Send { disk: "/d1".to_string(), settings: NetCfg::from_live(&live()) }
    );
    assert_eq!(say_idle(), WindowAction::Nothing);
}

fn say_idle() -> WindowAction {
    let mut w = Window::init(Platform::Redox, Ok(disks()));
    say(&mut w, Message::Idle)
}

#[test]
fn the_stream_starts_the_worker_and_passes_its_messages_on() {
    assert_eq!(
        worker_stream(StreamState::Ready, None),
        (Message::Worker, StreamState::Waiting)
    );
    assert_eq!(
        worker_stream(StreamState::Waiting, Some(Message::Error("x".to_string()))),
        (Message::Error("x".to_string()), StreamState::Waiting)
    );
    assert_eq!(
        worker_stream(StreamState::Waiting, None),
        (Message::Idle, StreamState::Finished)
    );
    assert_eq!(APP_ID, "org.redox-os.InstallerGui");
    assert_eq!(TITLE, "Redox OS Installer");
}
