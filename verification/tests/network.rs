use eos_installer::net::{LiveNet, NetCfg};

fn live(ip: Option<&str>, subnet: Option<&str>, router: Option<&str>, dns: Option<&str>) -> LiveNet {
    LiveNet {
        ip: ip.map(|s| s.to_string()),
        ip_subnet: subnet.map(|s| s.to_string()),
        ip_router: router.map(|s| s.to_string()),
        dns: dns.map(|s| s.to_string()),
    }
}

#[test]
fn settings_start_from_the_live_system() {
    let cfg = NetCfg::from_live(&live(
        Some("10.0.2.15\n"),
        Some(" 255.255.0.0 \n"),
        Some("10.0.2.2"),
        None,
    ));
    assert!(cfg.dhcp);
    assert_eq!(cfg.ip, "10.0.2.15");
    assert_eq!(cfg.subnet, "255.255.0.0");
    assert_eq!(cfg.router, "10.0.2.2");
    assert_eq!(cfg.dns, "");
}

#[test]
fn a_missing_mask_gets_the_usual_one() {
    assert_eq!(NetCfg::from_live(&live(None, None, None, None)).subnet, "255.255.255.0");
    assert_eq!(NetCfg::from_live(&live(None, Some(" \n"), None, None)).subnet, "255.255.255.0");
}

#[test]
fn a_leased_address_writes_only_the_mode() {
    let cfg = NetCfg::from_live(&live(Some("1.2.3.4"), None, None, None));
    assert_eq!(cfg.write_into(), vec![("mode".to_string(), "dhcp\n".to_string())]);
}

#[test]
fn static_settings_are_written_and_read_back() {
    let cfg = NetCfg {
        dhcp: false,
        ip: "10.0.2.15".to_string(),
        subnet: "255.255.255.0".to_string(),
        router: "10.0.2.2".to_string(),
        dns: "9.9.9.9".to_string(),
    };
    let files = cfg.write_into();
    let expected: Vec<(String, String)> = [
        ("mode", "static\n"),
        ("ip", "10.0.2.15\n"),
        ("ip_subnet", "255.255.255.0\n"),
        ("ip_router", "10.0.2.2\n"),
        ("dns", "9.9.9.9\n"),
    ]
    .iter()
    .map(|(a, b)| (a.to_string(), b.to_string()))
    .collect();
    assert_eq!(files, expected);
    let back = NetCfg::from_live(&live(
        Some(files[1].1.as_str()),
        Some(files[2].1.as_str()),
        Some(files[3].1.as_str()),
        Some(files[4].1.as_str()),
    ));
    assert_eq!(back, NetCfg { dhcp: true, ..cfg.clone() });
}
