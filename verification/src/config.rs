//! Where things are kept, and the settings of the program itself.

use vstd::prelude::*;
use crate::path::{join, joined_path, Os};
use crate::text::{self, ascii_lowered, trimmed};
use crate::vpn::ProviderId;

verus! {

/// The files and directories controlcenter keeps.
#[derive(Debug)]
pub struct Paths {
    pub config_dir: String,
    pub tunnels_file: String,
    pub config_file: String,
    pub rdp_file: String,
    pub ssh_file: String,
    pub vpn_file: String,
    /// WireGuard configs controlcenter generates and hands to `wg-quick`.
    pub wireguard_dir: String,
    /// One directory per imported OpenVPN profile: the `.ovpn` plus the
    /// certificates it ships with.
    pub openvpn_dir: String,
    /// Short-lived files, e.g. the pid openvpn writes so it can be signalled.
    pub run_dir: String,
    /// Reports exported from a log pane. Created the first time one is written.
    pub reports_dir: String,
}

impl Paths {
    /// Everything under the configuration directory, and a directory for
    /// short-lived files under the one the system has for them.
    pub fn new(os: Os, config_dir: &str, runtime_dir: &str) -> (r: Self)
        ensures
            r.config_dir@ == config_dir@,
            r.tunnels_file@ == joined_path(os, config_dir@, "tunnels.toml"@),
            r.config_file@ == joined_path(os, config_dir@, "config.toml"@),
            r.rdp_file@ == joined_path(os, config_dir@, "rdp.toml"@),
            r.ssh_file@ == joined_path(os, config_dir@, "ssh.toml"@),
            r.vpn_file@ == joined_path(os, config_dir@, "vpn.toml"@),
            r.wireguard_dir@ == joined_path(os, config_dir@, "wireguard"@),
            r.openvpn_dir@ == joined_path(os, config_dir@, "openvpn"@),
            r.reports_dir@ == joined_path(os, config_dir@, "reports"@),
            r.run_dir@ == joined_path(os, runtime_dir@, "controlcenter"@),
    {
        Paths {
            config_dir: config_dir.to_owned(),
            tunnels_file: join(os, config_dir, "tunnels.toml"),
            config_file: join(os, config_dir, "config.toml"),
            rdp_file: join(os, config_dir, "rdp.toml"),
            ssh_file: join(os, config_dir, "ssh.toml"),
            vpn_file: join(os, config_dir, "vpn.toml"),
            wireguard_dir: join(os, config_dir, "wireguard"),
            openvpn_dir: join(os, config_dir, "openvpn"),
            run_dir: join(os, runtime_dir, "controlcenter"),
            reports_dir: join(os, config_dir, "reports"),
        }
    }
}

/// The settings in `config.toml`.
#[derive(Debug)]
pub struct AppConfig {
    pub ui: UiConfig,
    pub ssh: SshConfig,
    pub vpn: VpnAppConfig,
}

impl Default for AppConfig {
    fn default() -> (r: Self)
        ensures
            r.ui.theme@ == "dark"@,
            r.ssh.terminal@ == "auto"@,
            r.vpn.sudo@ == "ask"@,
            r.vpn.on_exit@ == "ask"@,
    {
        AppConfig {
            ui: UiConfig::default(),
            ssh: SshConfig::default(),
            vpn: VpnAppConfig::default(),
        }
    }
}

/// How controlcenter handles the two things about a VPN that outlive it: the
/// root it needs to take one down, and the sessions still up when it quits.
#[derive(Debug)]
pub struct VpnAppConfig {
    /// Whether to take a sudo ticket on the terminal before the TUI starts:
    ///   ask     ask for a password if there is no valid ticket (default)
    ///   auto    use a ticket that is already there, never ask
    ///   never   leave sudo alone; every escalation goes through polkit
    ///
    /// With a ticket, stopping a VPN is a silent `sudo -n` instead of a polkit
    /// dialog per connection.
    pub sudo: String,
    /// What happens to OpenVPN sessions still up when you quit:
    ///   ask     ask, every time (default)
    ///   stop    take them down
    ///   keep    leave them running
    ///
    /// An OpenVPN session is a root process; once controlcenter is gone,
    /// nothing that is left knows how to reach it.
    pub on_exit: String,
}

/// A client that takes root to bring a profile up is among these.
pub open spec fn some_need_root(clients: Seq<ProviderId>, os: Os) -> bool {
    exists|i: int| 0 <= i < clients.len() && (#[trigger] clients[i]).needs_root_spec(os)
}

/// Whether a sudo ticket is asked for before the screen is taken. `mode` is the
/// setting [`VpnAppConfig::sudo`], `clients` are the installed ones.
pub open spec fn ticket_wanted(mode: Seq<char>, clients: Seq<ProviderId>, os: Os) -> bool {
    let m = ascii_lowered(trimmed(mode));
    some_need_root(clients, os) && m != "never"@ && m != "auto"@
}

/// Whether to ask for a sudo ticket while the terminal is still the user's.
/// Nothing is asked for where no client that needs root is installed.
pub fn wants_ticket(mode: &str, clients: &Vec<ProviderId>, os: Os) -> (r: bool)
    ensures
        r == ticket_wanted(mode@, clients@, os),
{
    let m = text::to_ascii_lower(text::trim(mode).as_str());
    if text::same(m.as_str(), "never") || text::same(m.as_str(), "auto") {
        return false;
    }
    let mut i: usize = 0;
    while i < clients.len()
        invariant
            i <= clients@.len(),
            m@ == ascii_lowered(trimmed(mode@)),
            m@ != "never"@ && m@ != "auto"@,
            forall|k: int| 0 <= k < i ==> !(#[trigger] clients@[k]).needs_root_spec(os),
        decreases clients@.len() - i,
    {
        if clients[i].needs_root(os) {
            assert(clients@[i as int].needs_root_spec(os));
            return true;
        }
        i = i + 1;
    }
    false
}

impl Default for VpnAppConfig {
    fn default() -> (r: Self)
        ensures
            r.sudo@ == "ask"@,
            r.on_exit@ == "ask"@,
    {
        VpnAppConfig { sudo: "ask".to_owned(), on_exit: "ask".to_owned() }
    }
}

#[derive(Debug)]
pub struct SshConfig {
    /// Where an interactive session opens:
    ///   auto     the first terminal emulator found on PATH ($TERMINAL first),
    ///            falling back to inline when there is none
    ///   inline   hand the current terminal to ssh until the session ends
    ///   <cmd>    a terminal command line of your own, e.g.
    ///            "kitty --title ssh" or "alacritty -e sh -c {cmd}";
    ///            without a {cmd} placeholder the command is appended
    pub terminal: String,
}

impl Default for SshConfig {
    fn default() -> (r: Self)
        ensures
            r.terminal@ == "auto"@,
    {
        SshConfig { terminal: "auto".to_owned() }
    }
}

#[derive(Debug)]
pub struct UiConfig {
    pub theme: String,
}

impl Default for UiConfig {
    fn default() -> (r: Self)
        ensures
            r.theme@ == "dark"@,
    {
        UiConfig { theme: "dark".to_owned() }
    }
}

}
