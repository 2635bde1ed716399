//! Network settings: what the live system has, and what is written into the installed one.
use vstd::prelude::*;

use crate::text;

verus! {

/// Network settings collected by the installer and written into the installed system's
/// `/etc/net/*`.
#[derive(Debug, PartialEq, Eq)]
pub struct NetCfg {
    /// Is the address leased on boot?
    pub dhcp: bool,
    pub ip: String,
    pub subnet: String,
    pub router: String,
    pub dns: String,
}

/// Network settings as characters.
pub struct NetView {
    pub dhcp: bool,
    pub ip: Seq<char>,
    pub subnet: Seq<char>,
    pub router: Seq<char>,
    pub dns: Seq<char>,
}

impl View for NetCfg {
    type V = NetView;

    open spec fn view(&self) -> NetView {
        NetView {
            dhcp: self.dhcp,
            ip: self.ip@,
            subnet: self.subnet@,
            router: self.router@,
            dns: self.dns@,
        }
    }
}

/// The texts of the live system's `/etc/net` files; `None` for a file that cannot be read.
#[derive(Debug)]
pub struct LiveNet {
    pub ip: Option<String>,
    pub ip_subnet: Option<String>,
    pub ip_router: Option<String>,
    pub dns: Option<String>,
}

/// The setting that a file holds: its text, trimmed; nothing if there is no text.
pub open spec fn setting(file: Option<String>) -> Seq<char> {
    match file {
        Some(t) => text::trimmed(t@),
        None => Seq::empty(),
    }
}

/// The settings to start from: the live system's, leased on boot, with a usual subnet mask where
/// the live system has none.
pub open spec fn live_settings(live: LiveNet) -> NetView {
    NetView {
        dhcp: true,
        ip: setting(live.ip),
        subnet: if setting(live.ip_subnet).len() == 0 {
            "255.255.255.0"@
        } else {
            setting(live.ip_subnet)
        },
        router: setting(live.ip_router),
        dns: setting(live.dns),
    }
}

/// The setting that a file holds.
fn read_setting(file: &Option<String>) -> (r: String)
    ensures
        r@ == setting(*file),
{
    match file {
        Some(t) => text::trim(t.as_str()),
        None => String::new(),
    }
}

/// The files that carry settings, with their contents, in the order in which they are written.
pub open spec fn settings_files(cfg: NetView) -> Seq<(Seq<char>, Seq<char>)> {
    if cfg.dhcp {
        seq![("mode"@, "dhcp\n"@)]
    } else {
        seq![
            ("mode"@, "static\n"@),
            ("ip"@, cfg.ip + "\n"@),
            ("ip_subnet"@, cfg.subnet + "\n"@),
            ("ip_router"@, cfg.router + "\n"@),
            ("dns"@, cfg.dns + "\n"@),
        ]
    }
}

/// What a list of files says.
pub open spec fn file_views(files: Seq<(String, String)>) -> Seq<(Seq<char>, Seq<char>)> {
    files.map_values(|f: (String, String)| (f.0@, f.1@))
}

/// A line with this text.
fn line(s: &String) -> (r: String)
    ensures
        r@ == s@ + "\n"@,
{
    let mut r = s.clone();
    r.append("\n");
    r
}

impl NetCfg {
    /// Settings that start from values which already work on this machine.
    pub fn from_live(live: &LiveNet) -> (r: NetCfg)
        ensures
            r@ == live_settings(*live),
    {
        let mut subnet = read_setting(&live.ip_subnet);
        if subnet.as_str().is_empty() {
            subnet = "255.255.255.0".to_owned();
        }
        NetCfg {
            dhcp: true,
            ip: read_setting(&live.ip),
            subnet,
            router: read_setting(&live.ip_router),
            dns: read_setting(&live.dns),
        }
    }

    /// What to write into `etc/net` of the installed system: names and contents, in this order.
    pub fn write_into(&self) -> (r: Vec<(String, String)>)
        ensures
            file_views(r@) == settings_files(self@),
    {
        let mut r: Vec<(String, String)> = Vec::new();
        if self.dhcp {
            r.push(("mode".to_owned(), "dhcp\n".to_owned()));
        } else {
            r.push(("mode".to_owned(), "static\n".to_owned()));
            r.push(("ip".to_owned(), line(&self.ip)));
            r.push(("ip_subnet".to_owned(), line(&self.subnet)));
            r.push(("ip_router".to_owned(), line(&self.router)));
            r.push(("dns".to_owned(), line(&self.dns)));
        }
        assert(file_views(r@) =~= settings_files(self@));
        r
    }
}

impl Clone for NetCfg {
    fn clone(&self) -> (r: NetCfg)
        ensures
            r@ == self@,
    {
        NetCfg {
            dhcp: self.dhcp,
            ip: self.ip.clone(),
            subnet: self.subnet.clone(),
            router: self.router.clone(),
            dns: self.dns.clone(),
        }
    }
}

/// A leased address leaves every address file of the installed system as it is: only the mode is
/// written.
pub proof fn law_dhcp_writes_no_address(cfg: NetView, i: int)
    requires
        cfg.dhcp,
        0 <= i < settings_files(cfg).len(),
    ensures
        settings_files(cfg)[i].0 == "mode"@,
{
}

/// Reading a setting back from the line that was written for it gives the trimmed setting.
pub proof fn lemma_setting_reads_back(file: String, value: Seq<char>)
    requires
        file@ == value + "\n"@,
    ensures
        setting(Some(file)) == text::trimmed(value),
{
    reveal_strlit("\n");
    let s = text::trim_start(value);
    if s.len() > 0 {
        lemma_trim_start_prefix(value, "\n"@);
        text::lemma_trim_end_of(s, "\n"@);
    } else {
        lemma_all_space(value);
        text::lemma_trim_start_of(value, "\n"@);
        assert("\n"@.drop_first() =~= Seq::empty());
        assert(text::trim_start("\n"@) == text::trim_start(Seq::empty()));
        assert(s =~= Seq::empty());
    }
}

/// What comes after a text does not change what is trimmed off its start.
proof fn lemma_trim_start_prefix(s: Seq<char>, after: Seq<char>)
    requires
        text::trim_start(s).len() > 0,
    ensures
        text::trim_start(s + after) == text::trim_start(s) + after,
    decreases s.len(),
{
    if text::is_space(s[0]) {
        assert((s + after).drop_first() =~= s.drop_first() + after);
        lemma_trim_start_prefix(s.drop_first(), after);
    }
}

/// A text of which nothing is left is white space throughout.
proof fn lemma_all_space(s: Seq<char>)
    requires
        text::trim_start(s).len() == 0,
    ensures
        forall|i: int| 0 <= i < s.len() ==> text::is_space(#[trigger] s[i]),
    decreases s.len(),
{
    if s.len() > 0 {
        lemma_all_space(s.drop_first());
        assert forall|i: int| 0 <= i < s.len() implies text::is_space(#[trigger] s[i]) by {
            if i > 0 {
                assert(s[i] == s.drop_first()[i - 1]);
            }
        }
    }
}

/// A static configuration is read back from what was written: the same address, mask, router and
/// name server, trimmed. The mask must not be blank, or the usual one is read for it; the mode is
/// not read back.
pub proof fn law_static_settings_read_back(cfg: NetView, live: LiveNet)
    requires
        !cfg.dhcp,
        live.ip is Some && live.ip->Some_0@ == settings_files(cfg)[1].1,
        live.ip_subnet is Some && live.ip_subnet->Some_0@ == settings_files(cfg)[2].1,
        live.ip_router is Some && live.ip_router->Some_0@ == settings_files(cfg)[3].1,
        live.dns is Some && live.dns->Some_0@ == settings_files(cfg)[4].1,
        text::trimmed(cfg.subnet).len() > 0,
    ensures
        live_settings(live) == (NetView {
            dhcp: true,
            ip: text::trimmed(cfg.ip),
            subnet: text::trimmed(cfg.subnet),
            router: text::trimmed(cfg.router),
            dns: text::trimmed(cfg.dns),
        }),
{
    lemma_setting_reads_back(live.ip->Some_0, cfg.ip);
    lemma_setting_reads_back(live.ip_subnet->Some_0, cfg.subnet);
    lemma_setting_reads_back(live.ip_router->Some_0, cfg.router);
    lemma_setting_reads_back(live.dns->Some_0, cfg.dns);
}

/// The form starts with what each file of the live system says, each in its own field, without the
/// white space around it, and with nothing for a file that cannot be read; only a mask that is
/// missing or blank is replaced by the usual one. The address is leased until something else is
/// chosen.
pub proof fn law_the_form_starts_from_the_live_files(live: LiveNet)
    ensures
        live_settings(live).dhcp,
        live_settings(live).ip == (match live.ip {
            Some(t) => text::trimmed(t@),
            None => Seq::empty(),
        }),
        live_settings(live).router == (match live.ip_router {
            Some(t) => text::trimmed(t@),
            None => Seq::empty(),
        }),
        live_settings(live).dns == (match live.dns {
            Some(t) => text::trimmed(t@),
            None => Seq::empty(),
        }),
        live.ip_subnet matches Some(t) && text::trimmed(t@).len() > 0 ==> live_settings(live).subnet
            == text::trimmed(live.ip_subnet->Some_0@),
        (live.ip_subnet is None || text::trimmed(live.ip_subnet->Some_0@).len() == 0)
            ==> live_settings(live).subnet == "255.255.255.0"@,
{
}

/// A leased address is one file, which says so.
pub proof fn law_a_leased_address_is_written_as_its_mode(cfg: NetView)
    requires
        cfg.dhcp,
    ensures
        settings_files(cfg).len() == 1,
        settings_files(cfg)[0].0 == "mode"@,
        settings_files(cfg)[0].1 == "dhcp\n"@,
{
}

/// A fixed address is five files: the mode, and each setting, whatever it is, as one line in the file
/// of its own name.
pub proof fn law_a_fixed_address_is_written_setting_by_setting(cfg: NetView)
    requires
        !cfg.dhcp,
    ensures
        settings_files(cfg).len() == 5,
        settings_files(cfg)[0] == ("mode"@, "static\n"@),
        settings_files(cfg)[1].0 == "ip"@,
        settings_files(cfg)[1].1 == cfg.ip.push('\n'),
        settings_files(cfg)[2].0 == "ip_subnet"@,
        settings_files(cfg)[2].1 == cfg.subnet.push('\n'),
        settings_files(cfg)[3].0 == "ip_router"@,
        settings_files(cfg)[3].1 == cfg.router.push('\n'),
        settings_files(cfg)[4].0 == "dns"@,
        settings_files(cfg)[4].1 == cfg.dns.push('\n'),
{
    reveal_strlit("\n");
    assert(cfg.ip + "\n"@ =~= cfg.ip.push('\n'));
    assert(cfg.subnet + "\n"@ =~= cfg.subnet.push('\n'));
    assert(cfg.router + "\n"@ =~= cfg.router.push('\n'));
    assert(cfg.dns + "\n"@ =~= cfg.dns.push('\n'));
}

} // verus!
