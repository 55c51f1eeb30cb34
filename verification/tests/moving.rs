//! Moving what is selected, and moving about.

use controlcenter::app::{App, Around};
use controlcenter::config::{AppConfig, Paths};
use controlcenter::effects::{Effect, Store};
use controlcenter::path::Os;
use controlcenter::rdp::Client;
use controlcenter::rows::RowItem;
use controlcenter::screen::{Key, KeyCode, Tab};
use controlcenter::ssh::{Launch, Machine, PasswordHelper};
use controlcenter::types::{
    ForwardType, RdpConnection, SshHost, TailscaleProfile, Tunnel, VpnConfig,
};
use controlcenter::vpn::ProviderId;
use controlcenter::vpn_view::VpnProfile;

fn tunnel(name: &str, group: &str) -> Tunnel {
    Tunnel {
        name: name.into(),
        group: group.into(),
        ssh_host: "bastion".into(),
        forward: ForwardType::Local,
        local_port: 5000,
        remote_host: "db".into(),
        remote_port: 5432,
        extra_args: String::new(),
        auto_reconnect: false,
        requires_vpn: String::new(),
        depends_on: String::new(),
    }
}

fn ssh_host(name: &str) -> SshHost {
    SshHost {
        name: name.into(),
        group: String::new(),
        host: "10.0.0.1".into(),
        port: 22,
        username: String::new(),
        key_path: String::new(),
        password: String::new(),
        skip_host_key_check: false,
        extra_args: String::new(),
        depends_on: String::new(),
        requires_vpn: String::new(),
    }
}

fn rdp_conn(name: &str, group: &str) -> RdpConnection {
    RdpConnection {
        name: name.into(),
        group: group.into(),
        host: "10.0.0.1".into(),
        port: 3389,
        domain: String::new(),
        username: "user".into(),
        extra_args: String::new(),
        depends_on: String::new(),
        requires_vpn: String::new(),
    }
}

fn tailscale(name: &str) -> TailscaleProfile {
    TailscaleProfile { name: name.into(), ..TailscaleProfile::default() }
}

fn app(tunnels: Vec<Tunnel>, ssh: Vec<SshHost>, rdp: Vec<RdpConnection>) -> App {
    let vpn = VpnConfig {
        wireguard: Vec::new(),
        openvpn: Vec::new(),
        tailscale: vec![tailscale("home"), tailscale("work")],
    };
    App::new(
        tunnels,
        rdp,
        ssh,
        vpn,
        Paths::new(Os::Unix, "/cfg", "/run/cc"),
        AppConfig::default(),
        Around {
            machine: Machine { os: Os::Unix, home: None },
            ssh_launcher: Launch::Inline,
            ssh_password_helper: PasswordHelper::Sshpass,
            rdp_client: Client::Freerdp,
            rdp_installed: true,
            vpn_clients: vec![ProviderId::Tailscale],
            now: 0,
        },
    )
}

fn ctrl(code: KeyCode) -> Key {
    Key { code, ctrl: true }
}

fn names(app: &App) -> Vec<&str> {
    app.tunnels.iter().map(|t| t.name.as_str()).collect()
}

fn shape(app: &App) -> Vec<String> {
    app.rows
        .iter()
        .map(|r| match r {
            RowItem::Group(g) => format!("[{g}]"),
            RowItem::Item(i) => app.tunnels[*i].name.clone(),
        })
        .collect()
}

fn said(effects: &[Effect]) -> Vec<String> {
    effects
        .iter()
        .map(|e| match e {
            Effect::Flash(t, _) => t.clone(),
            other => format!("{other:?}"),
        })
        .collect()
}

fn listed() -> Vec<Tunnel> {
    vec![
        tunnel("a1", "alpha"),
        tunnel("loose", ""),
        tunnel("b1", "beta"),
        tunnel("a2", "alpha"),
        tunnel("b2", "beta"),
        tunnel("lone", ""),
    ]
}

#[test]
fn an_entry_moves_inside_its_own_group() {
    let mut a = app(listed(), Vec::new(), Vec::new());
    a.tab = Tab::Tunnels;
    assert_eq!(shape(&a), ["loose", "lone", "[alpha]", "a1", "a2", "[beta]", "b1", "b2"]);
    a.selected = 3;
    let e = a.on_key(ctrl(KeyCode::Down), 0);
    assert_eq!(shape(&a), ["loose", "lone", "[alpha]", "a2", "a1", "[beta]", "b1", "b2"]);
    assert_eq!(names(&a), ["a2", "loose", "b1", "a1", "b2", "lone"]);
    assert_eq!(a.selected, 4, "the cursor stays on what was moved");
    assert!(matches!(e.as_slice(), [Effect::Save(Store::Tunnels)]));
}

#[test]
fn the_last_of_a_group_stays_in_it() {
    let mut a = app(listed(), Vec::new(), Vec::new());
    a.tab = Tab::Tunnels;
    a.selected = 4;
    let e = a.on_key(ctrl(KeyCode::Down), 0);
    assert_eq!(said(&e), ["already the last of its group"]);
    assert_eq!(names(&a), ["a1", "loose", "b1", "a2", "b2", "lone"]);
    a.selected = 3;
    let e = a.on_key(ctrl(KeyCode::Up), 0);
    assert_eq!(said(&e), ["already the first of its group"]);
}

#[test]
fn entries_without_a_group_move_among_themselves() {
    let mut a = app(listed(), Vec::new(), Vec::new());
    a.tab = Tab::Tunnels;
    a.selected = 1;
    let _ = a.on_key(ctrl(KeyCode::Up), 0);
    assert_eq!(shape(&a)[..2], ["lone".to_string(), "loose".to_string()]);
    assert_eq!(a.selected, 0);
}

#[test]
fn a_header_moves_the_whole_group() {
    let mut a = app(listed(), Vec::new(), Vec::new());
    a.tab = Tab::Tunnels;
    a.selected = 5;
    let e = a.on_key(ctrl(KeyCode::Up), 0);
    assert_eq!(shape(&a), ["loose", "lone", "[beta]", "b1", "b2", "[alpha]", "a1", "a2"]);
    assert_eq!(a.selected, 2, "the cursor stays on the header");
    assert!(matches!(e.as_slice(), [Effect::Save(Store::Tunnels)]));
    let e = a.on_key(ctrl(KeyCode::Up), 0);
    assert_eq!(said(&e), ["already the first group"]);
    let _ = a.on_key(ctrl(KeyCode::Down), 0);
    assert_eq!(shape(&a), ["loose", "lone", "[alpha]", "a1", "a2", "[beta]", "b1", "b2"]);
    let e = a.on_key(ctrl(KeyCode::Down), 0);
    assert_eq!(said(&e), ["already the last group"]);
}

#[test]
fn hosts_and_connections_move_too() {
    let hosts = vec![ssh_host("one"), ssh_host("two")];
    let conns = vec![rdp_conn("x", "g"), rdp_conn("y", "g")];
    let mut a = app(Vec::new(), hosts, conns);
    a.tab = Tab::Ssh;
    let e = a.on_key(ctrl(KeyCode::Down), 0);
    assert_eq!(a.ssh_hosts[0].name, "two");
    assert!(matches!(e.as_slice(), [Effect::Save(Store::Ssh)]));
    a.tab = Tab::Rdp;
    a.rdp_selected = 2;
    let e = a.on_key(ctrl(KeyCode::Up), 0);
    assert_eq!(a.rdp_conns[0].name, "y");
    assert_eq!(a.rdp_selected, 1);
    assert!(matches!(e.as_slice(), [Effect::Save(Store::Rdp)]));
}

#[test]
fn a_profile_moves_in_the_list_that_is_kept() {
    let mut a = app(Vec::new(), Vec::new(), Vec::new());
    a.tab = Tab::Vpn;
    a.vpn.client_idx = ProviderId::Tailscale.index();
    for name in ["home", "work"] {
        a.vpn.providers[ProviderId::Tailscale.index()].profiles.push(VpnProfile {
            name: name.into(),
            active: false,
            detail: String::new(),
            foreign: None,
        });
    }
    let e = a.on_key(ctrl(KeyCode::Down), 0);
    assert_eq!(a.vpn_cfg.tailscale[0].name, "work");
    assert_eq!(a.vpn.current().selected, 1);
    assert!(matches!(
        e.as_slice(),
        [Effect::Save(Store::Vpn), Effect::Refresh(ProviderId::Tailscale)]
    ));
    let e = a.on_key(ctrl(KeyCode::Down), 0);
    assert_eq!(said(&e), ["already the last profile"]);
}

#[test]
fn netbird_keeps_its_own_profiles() {
    let mut a = app(Vec::new(), Vec::new(), Vec::new());
    a.tab = Tab::Vpn;
    let e = a.on_key(ctrl(KeyCode::Up), 0);
    assert_eq!(said(&e), ["netbird profiles are managed by netbird itself"]);
}

#[test]
fn the_dashboard_has_nothing_to_move() {
    let mut a = app(listed(), Vec::new(), Vec::new());
    let e = a.on_key(ctrl(KeyCode::Up), 0);
    assert_eq!(
        said(&e),
        ["the dashboard only watches — act on the VPN, Tunnels, SSH or RDP tab"]
    );
}

#[test]
fn a_page_is_ten_rows_and_stops_at_the_ends() {
    let many: Vec<Tunnel> = (0..25).map(|i| tunnel(&format!("t{i}"), "")).collect();
    let mut a = app(many, Vec::new(), Vec::new());
    a.tab = Tab::Tunnels;
    let _ = a.on_key(Key::plain(KeyCode::PageDown), 0);
    assert_eq!(a.selected, 10);
    let _ = a.on_key(Key::plain(KeyCode::PageDown), 0);
    let _ = a.on_key(Key::plain(KeyCode::PageDown), 0);
    assert_eq!(a.selected, 24);
    let _ = a.on_key(Key::plain(KeyCode::PageUp), 0);
    assert_eq!(a.selected, 14);
    let _ = a.on_key(Key::plain(KeyCode::PageUp), 0);
    let _ = a.on_key(Key::plain(KeyCode::PageUp), 0);
    assert_eq!(a.selected, 0);
    // A single step goes round.
    let _ = a.on_key(Key::plain(KeyCode::Up), 0);
    assert_eq!(a.selected, 24);
    let _ = a.on_key(Key::plain(KeyCode::Down), 0);
    assert_eq!(a.selected, 0);
}
