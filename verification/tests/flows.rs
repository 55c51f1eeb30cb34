//! The program at work: keys, plans, replies and ticks, against a machine that
//! only writes down what it is asked.

use controlcenter::app::{App, Around, Scan};
use controlcenter::config::{wants_ticket, AppConfig, Paths};
use controlcenter::effects::{Effect, Store};
use controlcenter::live::OvpnStatus;
use controlcenter::logs::LogTarget;
use controlcenter::path::Os;
use controlcenter::plan::Step;
use controlcenter::rdp::{Client, RdpStatus};
use controlcenter::rdp_form::RdpMode;
use controlcenter::report::{build, Facts, OpenvpnFacts, WireguardFacts};
use controlcenter::rows::RowItem;
use controlcenter::running::OvpnStart;
use controlcenter::screen::{Key, KeyCode, Tab};
use controlcenter::ssh::{Launch, Machine, PasswordHelper, SessionOutcome};
use controlcenter::ssh_form::SshMode;
use controlcenter::ssh_tab::Opening;
use controlcenter::tick::{OvpnLook, TunnelLook};
use controlcenter::tunnel::{Counters, Seen, Status};
use controlcenter::tunnel_form::FormMode;
use controlcenter::types::{
    ForwardType, OpenvpnProfile, RdpConnection, SshHost, TailscaleProfile, Tunnel, VpnConfig,
    WireguardProfile,
};
use controlcenter::vpn::ProviderId;
use controlcenter::vpn_form::{VpnKey, VpnMode};
use controlcenter::vpn_profiles::{import_openvpn, ImportFound};
use controlcenter::vpn_sync::VpnFacts;
use controlcenter::vpn_view::{Foreign, Link, LinkKind, Process, VpnPane, VpnProfile, VpnStatus};

fn tunnel(name: &str, port: u16, vpn: &str, dep: &str) -> Tunnel {
    Tunnel {
        name: name.into(),
        group: String::new(),
        ssh_host: "bastion".into(),
        forward: ForwardType::Local,
        local_port: port,
        remote_host: "db".into(),
        remote_port: 5432,
        extra_args: String::new(),
        auto_reconnect: false,
        requires_vpn: vpn.into(),
        depends_on: dep.into(),
    }
}

fn ssh_host(name: &str, dep: &str) -> SshHost {
    SshHost {
        name: name.into(),
        group: String::new(),
        host: "127.0.0.1".into(),
        port: 22,
        username: String::new(),
        key_path: String::new(),
        password: String::new(),
        skip_host_key_check: false,
        extra_args: String::new(),
        depends_on: dep.into(),
        requires_vpn: String::new(),
    }
}

fn rdp_conn(name: &str, group: &str) -> RdpConnection {
    RdpConnection {
        name: name.into(),
        group: group.into(),
        host: format!("10.0.0.{}", name.len()),
        port: 3389,
        domain: String::new(),
        username: "user".into(),
        extra_args: String::new(),
        depends_on: String::new(),
        requires_vpn: String::new(),
    }
}

fn wireguard(name: &str) -> WireguardProfile {
    WireguardProfile {
        name: name.into(),
        config_path: String::new(),
        private_key: "sekrit-private".into(),
        address: "10.8.0.2/24".into(),
        dns: String::new(),
        listen_port: 0,
        mtu: 0,
        peer_public_key: "peer".into(),
        preshared_key: String::new(),
        endpoint: "vpn:51820".into(),
        allowed_ips: "0.0.0.0/0".into(),
        persistent_keepalive: 25,
    }
}

fn openvpn(name: &str) -> OpenvpnProfile {
    OpenvpnProfile {
        name: name.into(),
        config_path: "/etc/work.ovpn".into(),
        import: false,
        username: String::new(),
        password: String::new(),
        extra_args: String::new(),
    }
}

fn no_vpn() -> VpnConfig {
    VpnConfig { wireguard: Vec::new(), openvpn: Vec::new(), tailscale: Vec::new() }
}

fn app_with(
    tunnels: Vec<Tunnel>,
    rdp: Vec<RdpConnection>,
    ssh: Vec<SshHost>,
    vpn: VpnConfig,
    clients: Vec<ProviderId>,
) -> App {
    App::new(
        tunnels,
        rdp,
        ssh,
        vpn,
        Paths::new(Os::Unix, "/cfg", "/run/cc"),
        AppConfig::default(),
        Around {
            machine: Machine { os: Os::Unix, home: Some("/home/me".into()) },
            ssh_launcher: Launch::Inline,
            ssh_password_helper: PasswordHelper::Sshpass,
            rdp_client: Client::Freerdp,
            rdp_installed: true,
            vpn_clients: clients,
            now: 0,
        },
    )
}

fn key(code: KeyCode) -> Key {
    Key::plain(code)
}

fn ch(c: char) -> Key {
    Key::plain(KeyCode::Char(c))
}

fn facts(app: &App) -> VpnFacts {
    VpnFacts {
        interfaces: app.vpn_cfg.wireguard.iter().map(|w| w.name.clone()).collect(),
        wireguard: app.vpn_cfg.wireguard.iter().map(|w| w.endpoint.clone()).collect(),
        openvpn: app.vpn_cfg.openvpn.iter().map(|o| o.config_path.clone()).collect(),
        pid_files: app.scan.processes.iter().map(|_| None).collect(),
        devices: Vec::new(),
        leaked: Vec::new(),
        processes: app
            .scan
            .processes
            .iter()
            .map(|p| (format!("pid {}", p.pid), "found".to_string()))
            .collect(),
        links: app
            .scan
            .links
            .iter()
            .map(|l| (l.name.clone(), "device".to_string()))
            .collect(),
    }
}

/// A machine on which everything works, except what is on the list.
struct World {
    broken: Vec<String>,
    did: Vec<String>,
}

impl World {
    fn new() -> World {
        World { broken: Vec::new(), did: Vec::new() }
    }

    fn result(&self, name: &str) -> Result<Vec<String>, String> {
        if self.broken.iter().any(|b| b == name) {
            Err("port in use".into())
        } else {
            Ok(vec!["ssh".to_string(), name.to_string()])
        }
    }

    /// Perform what is asked for, in order, each with what follows from it.
    fn run(&mut self, app: &mut App, effects: Vec<Effect>, now: u64) {
        for e in effects {
            match e {
                Effect::Flash(..) | Effect::Note(..) => app.settle(e, now),
                Effect::StartTunnel(i) => {
                    let name = app.tunnels[i].name.clone();
                    self.did.push(format!("start {name}"));
                    let r = self.result(&name);
                    let more = app.tunnel_started(i, r, now);
                    self.run(app, more, now);
                }
                Effect::RetryTunnel { idx, attempts } => {
                    let name = app.tunnels[idx].name.clone();
                    self.did.push(format!("retry {name} {attempts}"));
                    let r = self.result(&name);
                    let more = app.tunnel_retried(idx, attempts, r, now);
                    self.run(app, more, now);
                }
                Effect::StopTunnel(n) => self.did.push(format!("stop {n}")),
                Effect::StartRdp(n, p) => {
                    self.did.push(format!("rdp {n} with {p}"));
                    let r = self.result(&n);
                    let more = app.rdp_started(&n, r, now);
                    self.run(app, more, now);
                }
                Effect::StopRdp(n) => self.did.push(format!("close {n}")),
                Effect::CloseWindows => self.did.push("close windows".into()),
                Effect::OpenSsh(n) => app.queue_ssh(n),
                Effect::StartOpenvpn(n) => {
                    self.did.push(format!("openvpn {n}"));
                    let r = self.result(&n).map(|argv| OvpnStart {
                        argv,
                        pid_file: format!("/run/cc/{n}.pid"),
                        label: "connecting".into(),
                    });
                    let more = app.openvpn_started(&n, r, now);
                    self.run(app, more, now);
                }
                Effect::StopOpenvpn(n) => {
                    self.did.push(format!("stop openvpn {n}"));
                    let more = app.openvpn_stopped(&n, None);
                    self.run(app, more, now);
                }
                Effect::Vpn { provider, profile, desc, up } => {
                    self.did.push(format!(
                        "{} {} {}",
                        provider.slug(),
                        if up { "up" } else { "down" },
                        profile.clone().unwrap_or_default()
                    ));
                    let r = if self.broken.iter().any(|b| b == provider.slug()) {
                        Err("no root".to_string())
                    } else {
                        Ok(vec!["cmd".to_string()])
                    };
                    let more = app.vpn_started(provider, profile, desc, r);
                    self.run(app, more, now);
                }
                Effect::StopForeign { provider, row, force, desc } => {
                    self.did.push(format!("foreign {} {row} {force} {desc}", provider.slug()));
                }
                Effect::Refresh(id) => {
                    let f = facts(app);
                    let more = app.refresh_provider(&f, id, now);
                    self.run(app, more, now);
                }
                Effect::SyncOpenvpn => {
                    let f = facts(app);
                    app.sync_openvpn(&f, now);
                }
                Effect::Merge => {
                    let f = facts(app);
                    app.merge_everywhere(&f);
                }
                Effect::Scan => {
                    let more = app.refresh_scan(now);
                    self.run(app, more, now);
                }
                Effect::Save(s) => self.did.push(format!("save {s:?}")),
                Effect::SaveThen(s, text, error) => {
                    self.did.push(format!("save {s:?}"));
                    let more = app.store_written(s, Ok(()), Some((text, error)));
                    self.run(app, more, now);
                }
                Effect::CheckProfile => {
                    let more = app.profile_checked(Ok(()));
                    self.run(app, more, now);
                }
                Effect::WriteProfileFiles(n) => {
                    self.did.push(format!("write {n}"));
                    let more = app.profile_written(Ok(()));
                    self.run(app, more, now);
                }
                Effect::ImportProfile => {
                    let more = app.profile_imported(Ok(Some("imported".into())));
                    self.run(app, more, now);
                }
                Effect::Proceed => {
                    let more = app.step_started(now);
                    self.run(app, more, now);
                }
                other => self.did.push(format!("{other:?}")),
            }
        }
    }

    fn press(&mut self, app: &mut App, k: Key, now: u64) {
        let e = app.on_key(k, now);
        self.run(app, e, now);
    }

    fn type_text(&mut self, app: &mut App, text: &str) {
        for c in text.chars() {
            self.press(app, ch(c), 0);
        }
    }
}

fn says(app: &App) -> &str {
    app.status_msg.as_ref().map(|m| m.text.as_str()).unwrap_or("")
}

fn look_up() -> TunnelLook {
    TunnelLook {
        seen: Seen::Alive { answers: Some(true), age: 10 },
        counters: Counters { tx: 10, rx: 20, active_conns: 1, total_conns: 1 },
        rate_tx: 3,
        rate_rx: 4,
    }
}

fn look_dead() -> TunnelLook {
    TunnelLook {
        seen: Seen::Exited("exit status: 255".into()),
        counters: Counters::default(),
        rate_tx: 0,
        rate_rx: 0,
    }
}

#[test]
fn a_chain_is_brought_up_from_the_bottom() {
    let mut app = app_with(
        vec![tunnel("base", 1, "", ""), tunnel("top", 2, "", "base")],
        Vec::new(),
        vec![ssh_host("login", "top")],
        no_vpn(),
        Vec::new(),
    );
    let mut w = World::new();
    let e = app.activate(vec![Step::Ssh("login".into())], 0);
    w.run(&mut app, e, 0);
    assert_eq!(w.did, ["start base"]);
    // Nothing happens until the tunnel is up.
    let e = app.advance_activation(1_000);
    w.run(&mut app, e, 1_000);
    assert_eq!(w.did.len(), 1);
    let e = app.tunnel_looked(0, look_up());
    w.run(&mut app, e, 1_000);
    let e = app.advance_activation(1_000);
    w.run(&mut app, e, 1_000);
    assert_eq!(w.did, ["start base", "start top"]);
    let e = app.tunnel_looked(1, look_up());
    w.run(&mut app, e, 1_000);
    let e = app.advance_activation(2_000);
    w.run(&mut app, e, 2_000);
    assert_eq!(app.ssh_launch, ["login"]);
    assert!(app.activation.is_none());
    assert_eq!(says(&app), "ssh 'login' started");
    assert_eq!(app.next_ssh().as_deref(), Some("login"));
    assert_eq!(app.next_ssh(), None);
}

#[test]
fn a_step_that_takes_too_long_ends_the_plan() {
    let mut app = app_with(vec![tunnel("a", 1, "", "")], vec![], vec![], no_vpn(), vec![]);
    let mut w = World::new();
    let e = app.activate(vec![Step::Tunnel("a".into())], 0);
    w.run(&mut app, e, 0);
    let e = app.advance_activation(29_999);
    w.run(&mut app, e, 29_999);
    assert!(app.activation.is_some());
    let e = app.advance_activation(30_000);
    w.run(&mut app, e, 30_000);
    assert!(app.activation.is_none());
    assert_eq!(says(&app), "tunnel 'a' timed out");
}

#[test]
fn a_tunnel_that_cannot_be_started_ends_the_plan() {
    let mut app = app_with(vec![tunnel("a", 1, "", "")], vec![], vec![], no_vpn(), vec![]);
    let mut w = World::new();
    w.broken.push("a".into());
    let e = app.activate(vec![Step::Tunnel("a".into())], 0);
    w.run(&mut app, e, 0);
    assert!(app.activation.is_none());
    assert_eq!(says(&app), "tunnel 'a': tunnel 'a' could not be started");
    let log = app.log_lines(&LogTarget::Tunnel("a".into()));
    assert!(log.iter().any(|e| e.text == "'a': port in use" && e.error));
}

#[test]
fn only_one_plan_runs_at_a_time() {
    let mut app = app_with(
        vec![tunnel("a", 1, "", ""), tunnel("b", 2, "", "")],
        vec![],
        vec![],
        no_vpn(),
        vec![],
    );
    let mut w = World::new();
    let e = app.activate(vec![Step::Tunnel("a".into())], 0);
    w.run(&mut app, e, 0);
    let e = app.activate(vec![Step::Tunnel("b".into())], 0);
    w.run(&mut app, e, 0);
    assert_eq!(says(&app), "busy: tunnel 'a' (1/1 · tunnel 'a')");
    assert_eq!(w.did, ["start a"]);
}

#[test]
fn a_port_that_is_taken_is_asked_about() {
    let mut app = app_with(
        vec![tunnel("a", 5432, "", ""), tunnel("b", 5432, "", "")],
        vec![],
        vec![],
        no_vpn(),
        vec![],
    );
    let mut w = World::new();
    let e = app.activate(vec![Step::Tunnel("a".into())], 0);
    w.run(&mut app, e, 0);
    let e = app.tunnel_looked(0, look_up());
    w.run(&mut app, e, 0);
    let e = app.advance_activation(0);
    w.run(&mut app, e, 0);
    let e = app.activate(vec![Step::Tunnel("b".into())], 0);
    w.run(&mut app, e, 0);
    assert_eq!(app.conflict.as_ref().unwrap().resource, "local port 5432");
    // Anything but yes leaves it all as it is.
    w.press(&mut app, ch('n'), 0);
    assert!(app.conflict.is_none() && app.activation.is_none());
    assert_eq!(app.active.len(), 1);
    assert_eq!(says(&app), "tunnel 'b' cancelled — tunnel 'a' stays");
    // And yes clears the way.
    let e = app.activate(vec![Step::Tunnel("b".into())], 0);
    w.run(&mut app, e, 0);
    w.press(&mut app, ch('y'), 0);
    assert_eq!(w.did, ["start a", "stop a", "start b"]);
    assert_eq!(app.active.len(), 1);
    assert_eq!(app.active[0].name, "b");
}

#[test]
fn a_group_that_fights_itself_is_reported_and_not_asked_about() {
    let mut a = tunnel("a", 5432, "", "");
    let mut b = tunnel("b", 5432, "", "");
    a.group = "g".into();
    b.group = "g".into();
    let mut app = app_with(vec![a, b], vec![], vec![], no_vpn(), vec![]);
    let mut w = World::new();
    app.tab = Tab::Tunnels;
    w.press(&mut app, key(KeyCode::Enter), 0);
    let e = app.tunnel_looked(0, look_up());
    w.run(&mut app, e, 0);
    let e = app.advance_activation(0);
    w.run(&mut app, e, 0);
    assert!(app.conflict.is_none());
    let log = app.log_lines(&LogTarget::Tunnel("b".into()));
    assert!(log
        .iter()
        .any(|e| e.text == "skipped tunnel 'b': local port 5432 already held by a"));
    // All of it is up as far as it goes; Enter brings the rest up, not down.
    assert_eq!(w.did, ["start a"]);
}

#[test]
fn enter_on_a_group_that_is_up_takes_it_down() {
    let mut a = tunnel("a", 1, "", "");
    let mut b = tunnel("b", 2, "", "");
    a.group = "g".into();
    b.group = "g".into();
    let mut app = app_with(vec![a, b], vec![], vec![], no_vpn(), vec![]);
    let mut w = World::new();
    app.tab = Tab::Tunnels;
    assert_eq!(app.rows[0], RowItem::Group("g".into()));
    let e = app.tunnel_started(0, Ok(vec!["ssh".into()]), 0);
    w.run(&mut app, e, 0);
    let e = app.tunnel_started(1, Ok(vec!["ssh".into()]), 0);
    w.run(&mut app, e, 0);
    w.press(&mut app, key(KeyCode::Enter), 0);
    assert_eq!(w.did, ["stop a", "stop b"]);
    assert!(app.active.is_empty());
}

#[test]
fn a_running_tunnel_is_restarted_and_a_failed_one_is_cleared() {
    let mut app = app_with(vec![tunnel("a", 1, "", "")], vec![], vec![], no_vpn(), vec![]);
    let mut w = World::new();
    app.tab = Tab::Tunnels;
    w.press(&mut app, ch('r'), 0);
    assert_eq!(says(&app), "nothing running to reconnect here");
    let e = app.tunnel_started(0, Ok(vec!["ssh".into()]), 0);
    w.run(&mut app, e, 0);
    w.press(&mut app, ch('r'), 0);
    assert_eq!(w.did, ["stop a", "start a"]);
    assert_eq!(says(&app), "restarted 1 tunnel(s)");
    w.press(&mut app, ch('c'), 0);
    assert_eq!(says(&app), "no failed tunnels to clear");
    let e = app.tunnel_looked(0, look_dead());
    w.run(&mut app, e, 0);
    assert_eq!(app.active[0].status, Status::Failed);
    assert_eq!(app.active[0].error.as_deref(), Some("ssh exited (exit status: 255)"));
    w.press(&mut app, ch('c'), 0);
    assert_eq!(says(&app), "cleared 1 failed tunnel(s)");
    assert!(app.active.is_empty());
}

#[test]
fn a_failed_tunnel_is_tried_again_later_and_later() {
    let mut t = tunnel("a", 1, "", "");
    t.auto_reconnect = true;
    let mut app = app_with(vec![t], vec![], vec![], no_vpn(), vec![]);
    let mut w = World::new();
    let e = app.tunnel_started(0, Ok(vec!["ssh".into()]), 0);
    w.run(&mut app, e, 0);
    let e = app.tunnel_looked(0, look_dead());
    w.run(&mut app, e, 0);
    w.broken.push("a".into());
    let e = app.handle_reconnects(1_000);
    w.run(&mut app, e, 1_000);
    assert!(w.did.is_empty());
    assert_eq!(app.reconnect[0].next_at, 4_000);
    let e = app.handle_reconnects(4_000);
    w.run(&mut app, e, 4_000);
    assert_eq!(w.did, ["retry a 1"]);
    assert_eq!(app.reconnect[0].next_at, 7_000);
    let e = app.handle_reconnects(7_000);
    w.run(&mut app, e, 7_000);
    assert_eq!(app.reconnect[0].next_at, 13_000);
    assert_eq!(app.reconnect[0].attempts, 2);
    w.broken.clear();
    let e = app.handle_reconnects(13_000);
    w.run(&mut app, e, 13_000);
    assert_eq!(says(&app), "reconnecting 'a' (attempt 3)");
    assert_eq!(app.active[0].restarts, 1);
    assert!(app.reconnect.is_empty());
}

#[test]
fn a_tunnel_is_not_tried_again_while_what_it_needs_is_down() {
    let mut t = tunnel("a", 1, "", "base");
    t.auto_reconnect = true;
    let mut app = app_with(
        vec![t, tunnel("base", 2, "", "")],
        vec![],
        vec![],
        no_vpn(),
        vec![],
    );
    let mut w = World::new();
    let e = app.tunnel_started(0, Ok(vec!["ssh".into()]), 0);
    w.run(&mut app, e, 0);
    let e = app.tunnel_looked(0, look_dead());
    w.run(&mut app, e, 0);
    let e = app.handle_reconnects(60_000);
    w.run(&mut app, e, 60_000);
    assert!(app.reconnect.is_empty() && w.did.is_empty());
}

#[test]
fn the_panic_button_asks_and_then_leaves_nothing_up() {
    let mut app = app_with(
        vec![tunnel("a", 1, "", "")],
        vec![rdp_conn("desk", "")],
        vec![ssh_host("h", "")],
        VpnConfig {
            wireguard: vec![wireguard("home")],
            openvpn: vec![openvpn("work")],
            tailscale: Vec::new(),
        },
        vec![ProviderId::Wireguard, ProviderId::Openvpn],
    );
    let mut w = World::new();
    w.press(&mut app, ch('x'), 0);
    assert_eq!(says(&app), "nothing is connected");
    let e = app.tunnel_started(0, Ok(vec!["ssh".into()]), 0);
    w.run(&mut app, e, 0);
    let e = app.rdp_started("desk", Ok(vec!["xfreerdp3".into()]), 0);
    w.run(&mut app, e, 0);
    let e = app.window_opened("h", "xterm", Ok(()));
    w.run(&mut app, e, 0);
    let e = app.start_openvpn("work");
    w.run(&mut app, e, 0);
    let e = app.ovpn_looked(
        0,
        OvpnLook {
            status: OvpnStatus::Up,
            label: "up".into(),
            fault: None,
            root_pid: Some(77),
            device: None,
        },
    );
    w.run(&mut app, e, 0);
    let f = facts(&app);
    app.sync_openvpn(&f, 0);
    w.did.clear();
    w.press(&mut app, ch('x'), 0);
    assert_eq!(
        app.panic.as_ref().unwrap().lines(),
        ["1 tunnel", "1 RDP session", "1 SSH window", "VPN: openvpn:work"]
    );
    w.press(&mut app, ch('n'), 0);
    assert!(app.panic.is_none() && app.active.len() == 1);
    w.press(&mut app, ch('x'), 0);
    w.press(&mut app, key(KeyCode::Enter), 0);
    assert!(app.active.is_empty() && app.rdp_active.is_empty());
    assert!(app.ssh_windows.is_empty() && app.ovpn_active.is_empty());
    assert_eq!(w.did, ["stop a", "close desk", "close windows", "stop openvpn work"]);
    assert_eq!(
        says(&app),
        "disconnected everything: 1 tunnel, 1 RDP session, 1 SSH window, VPN: openvpn:work"
    );
}

#[test]
fn every_member_of_a_group_is_asked_for_its_own_password() {
    let mut app = app_with(
        vec![],
        vec![rdp_conn("one", "g"), rdp_conn("three", "g")],
        vec![],
        no_vpn(),
        vec![],
    );
    let mut w = World::new();
    app.tab = Tab::Rdp;
    w.press(&mut app, key(KeyCode::Enter), 0);
    w.type_text(&mut app, "axb");
    w.press(&mut app, key(KeyCode::Backspace), 0);
    w.press(&mut app, key(KeyCode::Enter), 0);
    w.type_text(&mut app, "q");
    w.press(&mut app, key(KeyCode::Enter), 0);
    assert_eq!(w.did, ["rdp one with ax", "rdp three with q"]);
    assert_eq!(app.rdp_active.len(), 2);
    // All of it is up, so Enter takes it down.
    w.did.clear();
    w.press(&mut app, key(KeyCode::Enter), 0);
    assert_eq!(w.did, ["close one", "close three"]);
    assert_eq!(says(&app), "disconnected 'three'");
}

#[test]
fn escape_drops_the_whole_group() {
    let mut app = app_with(
        vec![],
        vec![rdp_conn("one", "g"), rdp_conn("three", "g")],
        vec![],
        no_vpn(),
        vec![],
    );
    let mut w = World::new();
    app.tab = Tab::Rdp;
    w.press(&mut app, key(KeyCode::Enter), 0);
    w.press(&mut app, key(KeyCode::Enter), 0);
    w.press(&mut app, key(KeyCode::Esc), 0);
    assert!(matches!(app.rdp_mode, RdpMode::Closed));
    assert!(w.did.is_empty());
}

#[test]
fn an_rdp_session_that_ends_leaves_a_line() {
    let mut app = app_with(vec![], vec![rdp_conn("desk", "")], vec![], no_vpn(), vec![]);
    let mut w = World::new();
    app.tab = Tab::Rdp;
    let e = app.rdp_started("desk", Ok(vec!["xfreerdp3".into(), "/p:x".into()]), 0);
    w.run(&mut app, e, 0);
    assert_eq!(says(&app), "connecting to 'desk'");
    let e = app.rdp_looked(0, Some(131), 5);
    w.run(&mut app, e, 5);
    assert_eq!(app.rdp_active[0].status, RdpStatus::Exited(131));
    assert_eq!(
        app.rdp_active[0].log.last_text().as_deref(),
        Some("── xfreerdp3 exited (131) ──")
    );
    let log = app.log_lines(&LogTarget::Rdp("desk".into()));
    assert!(log.iter().any(|e| e.text == "exited (131)" && e.error));
    assert!(!log.iter().any(|e| e.text.contains("/p:x")));
    w.press(&mut app, ch('c'), 0);
    assert!(app.rdp_active.is_empty());
    w.press(&mut app, ch('p'), 0);
    assert_eq!(says(&app), "the RDP password is asked for on connect and never stored");
}

#[test]
fn a_tunnel_is_added_edited_and_deleted() {
    let mut app = app_with(
        vec![tunnel("base", 1, "", "")],
        vec![],
        vec![ssh_host("h", "base")],
        no_vpn(),
        vec![],
    );
    let mut w = World::new();
    app.tab = Tab::Tunnels;
    w.press(&mut app, ch('a'), 0);
    assert_eq!(app.form_mode, FormMode::Add);
    w.press(&mut app, key(KeyCode::Enter), 0);
    assert_eq!(app.form.error.as_deref(), Some("name is required"));
    w.type_text(&mut app, "base");
    w.press(&mut app, key(KeyCode::Down), 0);
    w.press(&mut app, key(KeyCode::Down), 0);
    w.type_text(&mut app, "bastion");
    w.press(&mut app, key(KeyCode::Down), 0);
    w.press(&mut app, key(KeyCode::Right), 0);
    assert_eq!(app.form.forward, ForwardType::Remote);
    w.press(&mut app, key(KeyCode::Right), 0);
    w.press(&mut app, key(KeyCode::Down), 0);
    w.type_text(&mut app, "80");
    w.press(&mut app, key(KeyCode::Enter), 0);
    assert_eq!(app.form.error.as_deref(), Some("a tunnel named 'base' already exists"));
    w.press(&mut app, key(KeyCode::Esc), 0);
    assert_eq!(app.form_mode, FormMode::Closed);

    // A rename is followed by what depends on it.
    w.press(&mut app, ch('e'), 0);
    w.press(&mut app, ch('2'), 0);
    w.press(&mut app, key(KeyCode::Enter), 0);
    assert_eq!(app.tunnels[0].name, "base2");
    assert_eq!(app.ssh_hosts[0].depends_on, "base2");
    assert_eq!(w.did, ["save Ssh", "save Tunnels"]);

    w.did.clear();
    w.press(&mut app, ch('d'), 0);
    w.press(&mut app, ch('n'), 0);
    assert_eq!(app.tunnels.len(), 1);
    w.press(&mut app, ch('d'), 0);
    w.press(&mut app, ch('y'), 0);
    assert!(app.tunnels.is_empty() && app.rows.is_empty());
    assert_eq!(
        says(&app),
        "deleted 'base2' — ssh h now depend(s) on a missing tunnel"
    );
}

#[test]
fn a_tunnel_that_closes_a_loop_is_not_stored() {
    let mut app = app_with(
        vec![tunnel("a", 1, "", ""), tunnel("b", 2, "", "a")],
        vec![],
        vec![],
        no_vpn(),
        vec![],
    );
    let mut w = World::new();
    app.tab = Tab::Tunnels;
    w.press(&mut app, ch('e'), 0);
    // The last field picks the tunnel it runs through.
    w.press(&mut app, key(KeyCode::Up), 0);
    w.press(&mut app, key(KeyCode::Right), 0);
    w.press(&mut app, key(KeyCode::Enter), 0);
    assert_eq!(
        app.form.error.as_deref(),
        Some("that makes a dependency cycle: a → b → a")
    );
    assert!(w.did.is_empty());
}

#[test]
fn a_password_is_only_stored_after_the_warning() {
    let mut app = app_with(vec![], vec![], vec![], no_vpn(), vec![]);
    let mut w = World::new();
    app.tab = Tab::Ssh;
    w.press(&mut app, ch('a'), 0);
    w.type_text(&mut app, "h");
    w.press(&mut app, key(KeyCode::Down), 0);
    w.press(&mut app, key(KeyCode::Down), 0);
    w.type_text(&mut app, "example.com");
    for _ in 0..4 {
        w.press(&mut app, key(KeyCode::Down), 0);
    }
    w.type_text(&mut app, "hunter2");
    w.press(&mut app, key(KeyCode::Enter), 0);
    assert_eq!(app.ssh_mode, SshMode::PasswordWarning);
    assert!(app.ssh_hosts.is_empty());
    w.press(&mut app, ch('n'), 0);
    assert_eq!(app.ssh_mode, SshMode::Add);
    w.press(&mut app, key(KeyCode::Enter), 0);
    w.press(&mut app, ch('y'), 0);
    assert_eq!(app.ssh_mode, SshMode::Closed);
    assert_eq!(app.ssh_hosts[0].password, "hunter2");
    assert_eq!(w.did, ["save Ssh"]);
    w.press(&mut app, ch('p'), 0);
    assert_eq!(app.ssh_hosts[0].password, "");
    assert_eq!(says(&app), "cleared stored password for 'h'");
    w.press(&mut app, ch('p'), 0);
    assert_eq!(says(&app), "no password stored for this host");
}

#[test]
fn a_session_says_where_it_is_opened_and_how_it_ended() {
    let mut app = app_with(vec![], vec![], vec![ssh_host("h", "")], no_vpn(), vec![]);
    let mut w = World::new();
    let (way, e) = app.open_session("h");
    assert!(matches!(way, Opening::Here));
    w.run(&mut app, e, 0);
    let log = app.log_lines(&LogTarget::Ssh("h".into()));
    assert_eq!(log[0].text, "opening in this terminal: ssh 127.0.0.1");
    let o = SessionOutcome { code: 2, duration: 61_000, finished_at: 0, windowed: false };
    let e = app.session_ended("h", Ok(o));
    w.run(&mut app, e, 0);
    assert_eq!(says(&app), "'h' session exited (2) after 1m01s");
    assert_eq!(app.ssh_last.len(), 1);
    app.tab = Tab::Ssh;
    w.press(&mut app, ch('c'), 0);
    assert_eq!(says(&app), "cleared the last session of 'h'");
    let (way, _) = app.open_session("gone");
    assert!(matches!(way, Opening::Nowhere));
    app.ssh_hosts[0].password = "x".into();
    app.ssh_password_helper = PasswordHelper::Nothing;
    let (way, e) = app.open_session("h");
    assert!(matches!(way, Opening::Nowhere));
    w.run(&mut app, e, 0);
    assert_eq!(says(&app), "'h' has a stored password but sshpass is not on PATH");
}

#[test]
fn windows_are_counted() {
    let mut app = app_with(vec![], vec![], vec![ssh_host("h", "")], no_vpn(), vec![]);
    let mut w = World::new();
    let e = app.window_opened("h", "xterm", Ok(()));
    w.run(&mut app, e, 0);
    let e = app.window_opened("h", "xterm", Ok(()));
    w.run(&mut app, e, 0);
    assert_eq!(app.ssh_windows_open("h"), 2);
    assert_eq!(says(&app), "'h' opened in a new xterm window");
    let o = SessionOutcome { code: 0, duration: 5_000, finished_at: 0, windowed: true };
    let e = app.window_closed("h", o);
    w.run(&mut app, e, 0);
    assert_eq!(app.ssh_windows_open("h"), 1);
    let e = app.window_closed("h", o);
    w.run(&mut app, e, 0);
    assert_eq!(app.ssh_windows_open("h"), 0);
    assert!(app.ssh_windows.is_empty());
    let log = app.log_lines(&LogTarget::Ssh("h".into()));
    assert!(log.iter().any(|e| e.text == "session window closed after 5s"));
}

#[test]
fn a_vpn_client_does_one_thing_at_a_time() {
    let mut app = app_with(
        vec![],
        vec![],
        vec![],
        VpnConfig {
            wireguard: vec![wireguard("home"), wireguard("office")],
            openvpn: vec![],
            tailscale: vec![],
        },
        vec![ProviderId::Wireguard],
    );
    let mut w = World::new();
    app.tab = Tab::Vpn;
    w.press(&mut app, key(KeyCode::Enter), 0);
    assert_eq!(says(&app), "netbird is not installed");
    w.press(&mut app, key(KeyCode::Down), 0);
    w.press(&mut app, ch('r'), 0);
    assert_eq!(says(&app), "refreshing wireguard");
    assert_eq!(app.vpn.current().profiles.len(), 2);
    w.did.clear();
    w.press(&mut app, key(KeyCode::Enter), 0);
    assert_eq!(w.did, ["wireguard up home"]);
    assert_eq!(says(&app), "wireguard: bringing up 'home'…");
    w.press(&mut app, key(KeyCode::Enter), 0);
    assert_eq!(says(&app), "wireguard is busy (bringing up 'home')");
    let e = app.action_done(ProviderId::Wireguard, "bringing up 'home'", None, 10_000);
    w.run(&mut app, e, 10_000);
    assert_eq!(says(&app), "wireguard: bringing up 'home' done");
    assert_eq!(app.scan_at, Some(5_000));
    let e = app.action_done(
        ProviderId::Wireguard,
        "disconnecting",
        Some("refused".into()),
        10_000,
    );
    w.run(&mut app, e, 10_000);
    assert_eq!(says(&app), "wireguard disconnecting failed: refused");
    assert_eq!(app.vpn.current().error.as_deref(), Some("refused"));
    w.press(&mut app, ch('c'), 0);
    assert_eq!(says(&app), "cleared");
    w.press(&mut app, ch('c'), 0);
    assert_eq!(says(&app), "nothing to clear");
    w.press(&mut app, key(KeyCode::Right), 0);
    assert_eq!(app.vpn.focus, VpnPane::Profiles);
    w.press(&mut app, key(KeyCode::Down), 0);
    assert_eq!(app.vpn.current().selected, 1);
    w.press(&mut app, ch('p'), 0);
    assert_eq!(says(&app), "wireguard profiles store no password");
}

#[test]
fn a_plan_says_what_a_client_refused() {
    let mut app = app_with(
        vec![tunnel("a", 1, "wireguard:home", "")],
        vec![],
        vec![],
        no_vpn(),
        vec![ProviderId::Wireguard],
    );
    let mut w = World::new();
    w.broken.push("wireguard".into());
    let e = app.activate(vec![Step::Tunnel("a".into())], 0);
    w.run(&mut app, e, 0);
    assert!(app.activation.is_none());
    assert_eq!(says(&app), "tunnel 'a': no root");
    w.broken.clear();
    let e = app.activate(vec![Step::Tunnel("a".into())], 0);
    w.run(&mut app, e, 0);
    assert_eq!(app.vpn.get(ProviderId::Wireguard).busy.as_deref(), Some("bringing up 'home'"));
    let f = facts(&app);
    let up = VpnProfile { name: "home".into(), active: true, detail: String::new(), foreign: None };
    let status = VpnStatus { connected: true, ..VpnStatus::default() };
    let e = app.client_refreshed(&f, ProviderId::Wireguard, Ok(vec![up]), status, 0);
    w.run(&mut app, e, 0);
    let e = app.advance_activation(0);
    w.run(&mut app, e, 0);
    assert_eq!(w.did.last().map(String::as_str), Some("start a"));
}

#[test]
fn what_is_found_on_the_machine_is_listed_and_can_be_stopped() {
    let mut app = app_with(
        vec![],
        vec![],
        vec![],
        VpnConfig { wireguard: vec![], openvpn: vec![openvpn("work")], tailscale: vec![] },
        vec![ProviderId::Openvpn],
    );
    let mut w = World::new();
    let e = app.refresh_scan(0);
    w.run(&mut app, e, 0);
    assert_eq!(w.did, ["Sweep"]);
    // One at a time, until the first is given up on.
    assert!(app.refresh_scan(29_999).is_empty());
    let found = Scan {
        processes: vec![Process {
            pid: 4242,
            provider: ProviderId::Openvpn,
            argv: vec!["openvpn".into()],
            uid: 0,
            age_secs: Some(60),
        }],
        links: vec![Link { name: "wg9".into(), kind: LinkKind::Wireguard, addrs: vec![] }],
        error: Some("ip is missing".into()),
    };
    let e = app.scan_found(found);
    w.run(&mut app, e, 0);
    let f = facts(&app);
    app.sync_openvpn(&f, 0);
    let rows = &app.vpn.get(ProviderId::Openvpn).profiles;
    assert_eq!(rows.len(), 2);
    assert_eq!(rows[1].name, "pid 4242");
    assert!(matches!(rows[1].foreign, Some(Foreign::Process(_))));
    assert_eq!(app.vpn.get(ProviderId::Wireguard).profiles[0].name, "wg9");
    assert_eq!(app.vpn.foreign_count(), 2);
    app.tab = Tab::Vpn;
    app.vpn.client_idx = ProviderId::Openvpn.index();
    app.vpn.get_mut(ProviderId::Openvpn).selected = 1;
    w.did.clear();
    w.press(&mut app, ch('e'), 0);
    assert_eq!(
        says(&app),
        "'pid 4242' was not started here — there is no profile to edit; Enter stops it"
    );
    w.press(&mut app, key(KeyCode::Enter), 0);
    assert_eq!(
        w.did,
        ["foreign openvpn 1 false stopping 'pid 4242', which was not started here"]
    );
    let e = app.action_done(ProviderId::Openvpn, "x", None, 0);
    w.run(&mut app, e, 0);
    // The first was ignored, so the second cannot be.
    w.press(&mut app, key(KeyCode::Enter), 0);
    assert_eq!(
        w.did[1],
        "foreign openvpn 1 true killing 'pid 4242' — it ignored SIGTERM"
    );
    // A process that has gone is forgotten.
    let gone = Scan { processes: vec![], links: vec![], error: None };
    let e = app.scan_found(gone);
    w.run(&mut app, e, 0);
    assert!(app.termed.is_empty());
    assert_eq!(app.vpn.get(ProviderId::Openvpn).profiles.len(), 1);
}

#[test]
fn quitting_asks_about_sessions_that_run_as_root() {
    let mut app = app_with(
        vec![],
        vec![],
        vec![],
        VpnConfig { wireguard: vec![], openvpn: vec![openvpn("work")], tailscale: vec![] },
        vec![ProviderId::Openvpn],
    );
    let mut w = World::new();
    let e = app.start_openvpn("work");
    w.run(&mut app, e, 0);
    assert_eq!(says(&app), "openvpn: connecting 'work'…");
    let e = app.start_openvpn("work");
    w.run(&mut app, e, 0);
    assert_eq!(says(&app), "openvpn 'work' is already up");
    w.press(&mut app, ch('q'), 0);
    assert_eq!(app.quit_prompt.as_ref().unwrap().sessions, ["work — connecting"]);
    w.press(&mut app, key(KeyCode::Esc), 0);
    assert!(app.quit_prompt.is_none() && !app.should_quit);
    w.press(&mut app, ch('q'), 0);
    w.press(&mut app, ch('k'), 0);
    assert!(app.should_quit && app.ovpn_active.len() == 1);
    let log = app.log_lines(&LogTarget::Program);
    assert!(log.iter().any(|e| e.text == "quit with 1 openvpn session(s) left running"));
    app.should_quit = false;
    app.app_config.vpn.on_exit = " Stop ".into();
    w.press(&mut app, ch('q'), 0);
    assert!(app.should_quit && app.ovpn_active.is_empty());
    assert_eq!(says(&app), "openvpn: 'work' stopped");
}

#[test]
fn a_wireguard_profile_is_stored_after_the_warning_and_renamed() {
    let mut app = app_with(
        vec![tunnel("a", 1, "wireguard:home", "")],
        vec![],
        vec![],
        no_vpn(),
        vec![ProviderId::Wireguard],
    );
    let mut w = World::new();
    app.tab = Tab::Vpn;
    w.press(&mut app, ch('a'), 0);
    assert_eq!(says(&app), "netbird profiles are managed by netbird itself");
    w.press(&mut app, key(KeyCode::Down), 0);
    w.press(&mut app, ch('a'), 0);
    w.type_text(&mut app, "home");
    let e = app.key_generated(Ok(("PRIV".into(), "PUB".into())));
    w.run(&mut app, e, 0);
    assert_eq!(says(&app), "generated a key — its public half is PUB");
    assert_eq!(app.vpn_form.typed(VpnKey::PrivateKey), "PRIV");
    w.press(&mut app, key(KeyCode::Enter), 0);
    assert!(matches!(app.vpn_mode, VpnMode::SecretWarning { .. }));
    assert!(app.vpn_cfg.wireguard.is_empty());
    w.press(&mut app, ch('y'), 0);
    assert_eq!(app.vpn_mode, VpnMode::Closed);
    assert_eq!(app.vpn_cfg.wireguard[0].name, "home");
    assert_eq!(says(&app), "wireguard: saved 'home'");
    assert_eq!(w.did, ["write home", "save Vpn", "Ask(Wireguard)"]);
    w.did.clear();
    w.press(&mut app, ch('e'), 0);
    w.press(&mut app, ch('2'), 0);
    w.press(&mut app, key(KeyCode::Enter), 0);
    assert_eq!(app.tunnels[0].requires_vpn, "wireguard:home2");
    assert!(w.did.contains(&"save Rdp".to_string()));
    w.press(&mut app, ch('d'), 0);
    w.press(&mut app, ch('y'), 0);
    assert!(app.vpn_cfg.wireguard.is_empty());
    assert_eq!(says(&app), "wireguard: deleted 'home2'");
}

#[test]
fn an_openvpn_profile_is_imported_before_it_is_stored() {
    let o = OpenvpnProfile { import: true, ..openvpn("work") };
    let here = ImportFound { source: true, copy: false, copied: Ok((vec![], 2)) };
    assert_eq!(
        import_openvpn(&o, &here),
        Ok(Some("imported 'work' with 2 file(s)".to_string()))
    );
    let inline = ImportFound { source: true, copy: false, copied: Ok((vec![], 0)) };
    assert_eq!(
        import_openvpn(&o, &inline),
        Ok(Some("imported 'work' (everything is inline)".to_string()))
    );
    let missing = ImportFound {
        source: true,
        copy: false,
        copied: Ok((vec!["ca.crt".into(), "key.pem".into()], 0)),
    };
    assert_eq!(
        import_openvpn(&o, &missing),
        Err("the config needs ca.crt, key.pem which are not next to it".to_string())
    );
    let gone = ImportFound { source: false, copy: true, copied: Ok((vec![], 0)) };
    assert_eq!(
        import_openvpn(&o, &gone),
        Ok(Some("'work' kept its imported copy — /etc/work.ovpn is gone".to_string()))
    );
    let lost = ImportFound { source: false, copy: false, copied: Ok((vec![], 0)) };
    assert_eq!(
        import_openvpn(&openvpn("work"), &lost),
        Err("/etc/work.ovpn does not exist".to_string())
    );

    let mut app = app_with(
        vec![],
        vec![],
        vec![],
        VpnConfig { wireguard: vec![], openvpn: vec![openvpn("work")], tailscale: vec![] },
        vec![ProviderId::Openvpn],
    );
    let mut w = World::new();
    app.tab = Tab::Vpn;
    app.vpn.client_idx = ProviderId::Openvpn.index();
    let f = facts(&app);
    app.sync_openvpn(&f, 0);
    let e = app.start_openvpn("work");
    w.run(&mut app, e, 0);
    w.press(&mut app, ch('e'), 0);
    w.press(&mut app, ch('2'), 0);
    w.press(&mut app, key(KeyCode::Enter), 0);
    assert_eq!(app.vpn_cfg.openvpn[0].name, "work2");
    assert_eq!(app.ovpn_active[0].name, "work2");
    assert_eq!(says(&app), "openvpn: saved 'work2'");
}

#[test]
fn a_tailscale_profile_needs_a_name_of_its_own() {
    let mut app = app_with(
        vec![],
        vec![],
        vec![],
        VpnConfig {
            wireguard: vec![],
            openvpn: vec![],
            tailscale: vec![TailscaleProfile {
                name: "work".into(),
                login_server: String::new(),
                exit_node: String::new(),
                exit_node_allow_lan: false,
                accept_routes: true,
                accept_dns: true,
                ssh: false,
                shields_up: false,
                hostname: String::new(),
                advertise_routes: String::new(),
                advertise_exit_node: false,
                extra_args: String::new(),
            }],
        },
        vec![],
    );
    let mut w = World::new();
    app.tab = Tab::Vpn;
    app.vpn.client_idx = ProviderId::Tailscale.index();
    w.press(&mut app, ch('a'), 0);
    w.press(&mut app, key(KeyCode::Enter), 0);
    assert_eq!(app.vpn_form.error.as_deref(), Some("name is required"));
    w.type_text(&mut app, "work");
    w.press(&mut app, key(KeyCode::Enter), 0);
    assert_eq!(
        app.vpn_form.error.as_deref(),
        Some("a tailscale profile named 'work' already exists")
    );
}

#[test]
fn the_tabs_and_overlays_answer_to_their_keys() {
    let mut app = app_with(vec![], vec![], vec![], no_vpn(), vec![]);
    let mut w = World::new();
    w.press(&mut app, ch('4'), 0);
    assert_eq!(app.tab, Tab::Ssh);
    w.press(&mut app, key(KeyCode::Tab), 0);
    assert_eq!(app.tab, Tab::Rdp);
    w.press(&mut app, key(KeyCode::Tab), 0);
    assert_eq!(app.tab, Tab::Dashboard);
    w.press(&mut app, key(KeyCode::BackTab), 0);
    assert_eq!(app.tab, Tab::Rdp);
    w.press(&mut app, ch('?'), 0);
    assert!(app.show_help);
    w.press(&mut app, ch('k'), 0);
    assert!(!app.show_help && app.show_keys);
    w.press(&mut app, ch('1'), 0);
    assert!(!app.show_keys && app.tab == Tab::Rdp);
    w.press(&mut app, ch('1'), 0);
    w.press(&mut app, ch('a'), 0);
    assert_eq!(
        says(&app),
        "the dashboard only watches — act on the VPN, Tunnels, SSH or RDP tab"
    );
    w.press(&mut app, ch('c'), 0);
    assert_eq!(says(&app), "nothing finished to clear");
    w.press(&mut app, ch('t'), 0);
    assert_eq!(app.theme.name, "dracula");
    assert_eq!(app.app_config.ui.theme, "dracula");
    assert_eq!(w.did.last().map(String::as_str), Some("save Config"));
    w.press(&mut app, ch('r'), 0);
    assert_eq!(says(&app), "refreshing every VPN client");
    w.press(&mut app, ch('q'), 0);
    assert!(app.should_quit);
}

#[test]
fn the_log_pane_scrolls_clears_and_closes() {
    let mut app = app_with(vec![tunnel("a", 1, "", "")], vec![], vec![], no_vpn(), vec![]);
    let mut w = World::new();
    let e = app.tunnel_started(0, Ok(vec!["ssh".into()]), 0);
    w.run(&mut app, e, 0);
    for i in 0..20 {
        app.active[0].log.push(i, "line");
    }
    app.tab = Tab::Tunnels;
    w.press(&mut app, ch('l'), 0);
    w.press(&mut app, key(KeyCode::PageUp), 0);
    assert_eq!(app.log_pane.as_ref().unwrap().scroll, 10);
    w.press(&mut app, key(KeyCode::PageUp), 0);
    w.press(&mut app, key(KeyCode::PageUp), 0);
    assert_eq!(app.log_pane.as_ref().unwrap().scroll, 20);
    w.press(&mut app, key(KeyCode::Down), 0);
    assert_eq!(app.log_pane.as_ref().unwrap().scroll, 19);
    w.press(&mut app, ch('s'), 0);
    assert!(w.did.last().unwrap().starts_with("Export"));
    w.press(&mut app, ch('c'), 0);
    assert!(app.log_lines(&LogTarget::Tunnel("a".into())).is_empty());
    assert_eq!(app.log_pane.as_ref().unwrap().scroll, 0);
    w.press(&mut app, ch('q'), 0);
    assert!(app.log_pane.is_none() && !app.should_quit);
    app.tab = Tab::Ssh;
    w.press(&mut app, ch('l'), 0);
    assert_eq!(says(&app), "no ssh host is configured yet");
}

#[test]
fn a_path_is_picked_into_the_form() {
    let mut app = app_with(vec![], vec![], vec![], no_vpn(), vec![]);
    let mut w = World::new();
    app.tab = Tab::Ssh;
    w.press(&mut app, ch('a'), 0);
    let ctrl_o = Key { code: KeyCode::Char('o'), ctrl: true };
    w.press(&mut app, ctrl_o, 0);
    assert_eq!(says(&app), "Ctrl+O picks a file — only on the path fields");
    for _ in 0..5 {
        w.press(&mut app, key(KeyCode::Down), 0);
    }
    w.press(&mut app, ctrl_o, 0);
    assert_eq!(app.browser.as_ref().unwrap().dir, "/home/me");
    app.directory_read(Ok(vec![controlcenter::browser::Entry {
        name: "id_ed25519".into(),
        is_dir: false,
    }]));
    w.press(&mut app, key(KeyCode::Enter), 0);
    assert!(app.browser.is_none());
    assert_eq!(app.ssh_form.key_path, "/home/me/id_ed25519");
}

#[test]
fn what_is_due_comes_due() {
    let mut app = app_with(
        vec![],
        vec![],
        vec![],
        no_vpn(),
        vec![ProviderId::Netbird, ProviderId::Openvpn],
    );
    let mut w = World::new();
    let e = app.due(0);
    w.run(&mut app, e, 0);
    assert_eq!(w.did, ["Ask(Netbird)", "Sweep"]);
    w.did.clear();
    let e = app.due(4_999);
    w.run(&mut app, e, 4_999);
    assert!(w.did.is_empty());
    let e = app.due(120_000);
    w.run(&mut app, e, 120_000);
    assert_eq!(w.did, ["Ask(Netbird)", "Sweep", "KeepTicket"]);
    let e = vec![Effect::Flash("hello".into(), false)];
    w.run(&mut app, e, 1_000);
    app.expire_status(7_000);
    assert_eq!(says(&app), "hello");
    app.expire_status(7_001);
    assert_eq!(says(&app), "");
}

#[test]
fn throughput_is_sampled_over_all_tunnels() {
    let mut app = app_with(
        vec![tunnel("a", 1, "", ""), tunnel("b", 2, "", "")],
        vec![],
        vec![],
        no_vpn(),
        vec![],
    );
    let mut w = World::new();
    for i in 0..2 {
        let e = app.tunnel_started(i, Ok(vec!["ssh".into()]), 0);
        w.run(&mut app, e, 0);
        let e = app.tunnel_looked(i, look_up());
        w.run(&mut app, e, 0);
    }
    for _ in 0..130 {
        app.sample_throughput();
    }
    assert_eq!(app.throughput_history.len(), 120);
    assert_eq!(app.throughput_history[0], 14);
}

#[test]
fn a_failed_save_is_said() {
    let app = app_with(vec![], vec![], vec![], no_vpn(), vec![]);
    let full = || Err("disk full".to_string());
    let text = |e: Vec<Effect>| match e.into_iter().next() {
        Some(Effect::Flash(t, true)) => t,
        _ => String::new(),
    };
    assert_eq!(text(app.store_written(Store::Ssh, full(), None)), "save failed: disk full");
    assert_eq!(
        text(app.store_written(Store::Vpn, full(), None)),
        "could not save vpn.toml: disk full"
    );
    assert!(app.store_written(Store::Config, full(), None).is_empty());
    assert!(app.report_written(LogTarget::Program, Err("x".into())).len() == 2);
}

fn report_facts(app: &App) -> Facts {
    Facts {
        now: 1_787_752_991,
        clock: 0,
        version: "1.0".into(),
        platform: "linux".into(),
        programs: vec![("ssh".into(), "/usr/bin/ssh".into())],
        binaries: vec![vec!["netbird".into()], vec!["wg".into()], vec!["openvpn".into()], vec![]],
        root_available: false,
        has_ticket: false,
        wireguard: app
            .vpn_cfg
            .wireguard
            .iter()
            .map(|w| WireguardFacts {
                interface: w.name.clone(),
                external: false,
                conf_path: String::new(),
            })
            .collect(),
        openvpn: app
            .vpn_cfg
            .openvpn
            .iter()
            .map(|_| OpenvpnFacts { config: String::new(), argv: vec![] })
            .collect(),
        tailscale: vec![],
        processes: vec![],
        links: vec![],
        devices: vec![],
    }
}

#[test]
fn a_report_carries_the_chain_and_no_secret() {
    let mut host = ssh_host("login", "base");
    host.password = "hunter2".into();
    let mut app = app_with(
        vec![tunnel("base", 1, "wireguard:home", "")],
        vec![],
        vec![host],
        VpnConfig { wireguard: vec![wireguard("home")], openvpn: vec![], tailscale: vec![] },
        vec![ProviderId::Wireguard],
    );
    let mut w = World::new();
    let e = app.tunnel_started(0, Ok(vec!["ssh".into(), "-N".into(), "bastion".into()]), 0);
    w.run(&mut app, e, 0);
    let f = report_facts(&app);
    let r = build(&app, &f, &LogTarget::Ssh("login".into()), "stem");
    assert!(r.body.contains("2026-08-26 14:03:11 UTC"));
    assert!(r.body.contains("/usr/bin/ssh"));
    assert!(r.body.contains("tunnel 'base'"));
    assert!(r.body.contains("starting: ssh -N bastion"));
    assert!(!r.body.contains("hunter2") && !r.body.contains("sekrit-private"));
    assert_eq!(r.attachments.len(), 1);
    assert_eq!(r.attachments[0].0, "stem-chain.log");
    assert!(r.body.contains("stem-chain.log"));
    // On the whole program there is no chain, so nothing is written beside it.
    let all = build(&app, &f, &LogTarget::Program, "stem");
    assert!(all.attachments.is_empty());
    assert!(all.body.contains("none configured"));
    assert!(!all.body.contains("hunter2"));
}

fn running(argv: &[&str], pid: u32) -> Process {
    Process {
        pid,
        provider: ProviderId::Openvpn,
        argv: argv.iter().map(|a| a.to_string()).collect(),
        uid: 0,
        age_secs: None,
    }
}

#[test]
fn a_session_accounts_for_its_process_however_the_file_is_written() {
    let mut app = app_with(
        vec![],
        vec![],
        vec![],
        VpnConfig {
            wireguard: vec![],
            openvpn: vec![openvpn("work"), openvpn("home")],
            tailscale: vec![],
        },
        vec![ProviderId::Openvpn],
    );
    for name in ["work", "home"] {
        let start = OvpnStart {
            argv: vec!["openvpn".into()],
            pid_file: format!("/run/cc/{name}.pid"),
            label: "connecting".into(),
        };
        let _ = app.openvpn_started(name, Ok(start), 0);
    }
    for s in &mut app.ovpn_active {
        s.device = if s.name == "work" { Some("tun0".into()) } else { None };
    }
    app.scan.processes = vec![running(&["openvpn", "--writepid", "/run//cc/./work.pid"], 7)];
    let files = |app: &App| -> Vec<Option<String>> {
        app.scan.processes.iter().map(|p| p.given("--writepid")).collect()
    };
    assert_eq!(app.device_question(&files(&app)), (vec!["tun0".to_string()], false));
    app.scan.processes.push(running(&["openvpn", "--config", "/etc/x.ovpn"], 8));
    assert_eq!(app.device_question(&files(&app)), (vec!["tun0".to_string()], true));
    // A session that has ended accounts for nothing and has no device.
    app.scan.processes.pop();
    for s in &mut app.ovpn_active {
        s.status = OvpnStatus::Exited(1);
    }
    assert_eq!(app.device_question(&files(&app)), (Vec::new(), true));
}

#[test]
fn a_process_tells_what_it_was_given() {
    let p = running(&["openvpn", "--config", "/etc/x.ovpn", "--config", "/etc/y", "--dev"], 1);
    assert_eq!(p.given("--config").as_deref(), Some("/etc/x.ovpn"));
    assert_eq!(p.given("--dev"), None);
    assert_eq!(p.given("--writepid"), None);
}

#[test]
fn what_needs_root_depends_on_the_system() {
    assert!(ProviderId::Tailscale.needs_root(Os::Unix));
    assert!(!ProviderId::Tailscale.needs_root(Os::Windows));
    for os in [Os::Unix, Os::Windows] {
        assert!(ProviderId::Wireguard.needs_root(os) && ProviderId::Openvpn.needs_root(os));
        assert!(!ProviderId::Netbird.needs_root(os));
    }
}

#[test]
fn a_report_is_the_same_for_secrets_of_the_same_length() {
    let with = |password: &str, key: &str| {
        let mut host = ssh_host("login", "base");
        host.password = password.into();
        let mut wg = wireguard("home");
        wg.private_key = key.into();
        let mut ovpn = openvpn("work");
        ovpn.password = password.into();
        app_with(
            vec![tunnel("base", 1, "wireguard:home", "")],
            vec![],
            vec![host],
            VpnConfig { wireguard: vec![wg], openvpn: vec![ovpn], tailscale: vec![] },
            vec![ProviderId::Wireguard],
        )
    };
    let a = with("hunter2", "alpha-key");
    let b = with("swordfi", "gamma-key");
    let subjects = [
        LogTarget::Program,
        LogTarget::Ssh("login".into()),
        LogTarget::Vpn(ProviderId::Wireguard, "home".into()),
        LogTarget::Vpn(ProviderId::Openvpn, "work".into()),
    ];
    for t in subjects {
        let x = build(&a, &report_facts(&a), &t, "stem");
        let y = build(&b, &report_facts(&b), &t, "stem");
        assert_eq!(x.body, y.body);
        assert_eq!(x.attachments, y.attachments);
        assert!(!x.body.contains("hunter2") && !x.body.contains("alpha-key"));
    }
    let facts = report_facts(&a);
    let longer = build(&with("hunter22", "k"), &facts, &LogTarget::Ssh("login".into()), "stem");
    assert!(longer.body.contains("set (8 characters, not shown)"));
}

#[test]
fn the_panic_button_takes_every_profile_down_whatever_its_client_is_doing() {
    let mut app = app_with(
        vec![],
        vec![],
        vec![],
        VpnConfig {
            wireguard: vec![wireguard("home"), wireguard("work")],
            openvpn: vec![],
            tailscale: vec![],
        },
        vec![ProviderId::Wireguard],
    );
    let mut w = World::new();
    let up = |n: &str| VpnProfile {
        name: n.into(),
        active: true,
        detail: String::new(),
        foreign: None,
    };
    app.vpn.get_mut(ProviderId::Wireguard).profiles = vec![up("home"), up("work")];
    app.vpn.get_mut(ProviderId::Wireguard).busy = Some("bringing up 'home'".into());
    w.press(&mut app, ch('x'), 0);
    w.press(&mut app, ch('y'), 0);
    assert_eq!(w.did, ["close windows", "wireguard down home", "wireguard down work"]);
}

#[test]
fn a_conflict_from_a_tab_starts_its_step_and_leaves_the_plan_alone() {
    let mut app = app_with(
        vec![tunnel("rider", 1, "netbird:old", ""), tunnel("b", 2, "", "")],
        vec![],
        vec![],
        no_vpn(),
        vec![ProviderId::Netbird],
    );
    let mut w = World::new();
    let e = app.tunnel_started(0, Ok(vec!["ssh".into()]), 0);
    w.run(&mut app, e, 0);
    // A plan waits for its tunnel.
    let e = app.activate(vec![Step::Tunnel("b".into())], 0);
    w.run(&mut app, e, 0);
    assert!(app.activation.as_ref().unwrap().waiting.is_some());
    // Meanwhile another profile is picked on the VPN tab.
    let row = |n: &str, active: bool| VpnProfile {
        name: n.into(),
        active,
        detail: String::new(),
        foreign: None,
    };
    let state = app.vpn.get_mut(ProviderId::Netbird);
    state.profiles = vec![row("old", true), row("new", false)];
    state.status = VpnStatus {
        connected: true,
        active_profile: Some("old".into()),
        ..VpnStatus::default()
    };
    state.selected = 1;
    app.tab = Tab::Vpn;
    app.vpn.client_idx = ProviderId::Netbird.index();
    w.did.clear();
    w.press(&mut app, key(KeyCode::Enter), 0);
    assert!(app.conflict.is_some());
    w.press(&mut app, ch('y'), 0);
    assert_eq!(w.did, ["stop rider", "netbird up new"]);
    assert!(app.conflict.is_none());
    assert!(app.activation.as_ref().unwrap().waiting.is_some());
}

#[test]
fn a_rename_that_closes_a_circle_is_caught_before_it_is_saved() {
    let mut app = app_with(
        vec![tunnel("a", 1, "", ""), tunnel("b", 2, "", "a")],
        vec![],
        vec![],
        no_vpn(),
        vec![],
    );
    let mut w = World::new();
    app.tab = Tab::Tunnels;
    app.selected = 0;
    w.press(&mut app, ch('e'), 0);
    // a is to be called x and to run through b, which runs through a.
    app.form.name = "x".into();
    app.form.dep.next();
    assert_eq!(app.form.dep.value(), "b");
    w.press(&mut app, key(KeyCode::Enter), 0);
    assert_eq!(
        app.form.error.as_deref(),
        Some("that makes a dependency cycle: x → b → x")
    );
    assert_eq!(app.tunnels[0].name, "a");
    // Without the circle what depended on it follows it.
    app.form.dep.prev();
    w.press(&mut app, key(KeyCode::Enter), 0);
    assert_eq!(app.tunnels[0].name, "x");
    assert_eq!(app.tunnels[1].depends_on, "x");
}

#[test]
fn a_ticket_is_asked_for_only_where_it_is_of_use() {
    let root = vec![ProviderId::Netbird, ProviderId::Openvpn];
    for mode in ["ask", " ASK ", "", "yes"] {
        assert!(wants_ticket(mode, &root, Os::Unix));
    }
    for mode in ["never", " Never", "auto", "AUTO "] {
        assert!(!wants_ticket(mode, &root, Os::Unix));
    }
    assert!(!wants_ticket("ask", &vec![ProviderId::Netbird], Os::Unix));
    assert!(!wants_ticket("ask", &vec![], Os::Unix));
    assert!(wants_ticket("ask", &vec![ProviderId::Tailscale], Os::Unix));
    assert!(!wants_ticket("ask", &vec![ProviderId::Tailscale], Os::Windows));
}

#[test]
fn the_program_starts_with_nothing_heard_and_nothing_typed() {
    let tunnels = vec![tunnel("a", 1, "", "")];
    let app = app_with(tunnels, vec![], vec![], no_vpn(), vec![ProviderId::Netbird]);
    assert_eq!(app.vpn.client_idx, 0);
    assert_eq!(app.vpn.focus, VpnPane::Clients);
    for s in &app.vpn.providers {
        assert_eq!(s.installed, s.id == ProviderId::Netbird);
        assert!(!s.status.connected && s.status.fields.is_empty() && s.status.error.is_none());
        assert!(s.profiles.is_empty() && s.selected == 0);
        assert!(s.busy.is_none() && s.error.is_none() && s.last_refresh.is_none());
    }
    assert_eq!(app.form.dep.options, ["", "a"]);
    assert!(app.form.name.is_empty() && app.form.group.is_empty() && app.form.vpn.idx == 0);
    assert_eq!(app.ssh_form.port, "22");
    assert_eq!(app.rdp_form.port, "3389");
    assert_eq!(app.vpn_form.str_value("persistent_keepalive"), "25");
    assert!(app.vpn_form.str_value("name").is_empty());
}

#[test]
fn what_an_rdp_session_ended_with_is_the_last_line_of_its_own_log() {
    let conns = vec![rdp_conn("desk", "")];
    let mut app = app_with(vec![], conns, vec![], no_vpn(), vec![]);
    let _ = app.rdp_started("desk", Ok(vec!["xfreerdp3".into()]), 0);
    let _ = app.rdp_looked(0, Some(131), 7_000);
    let lines = app.rdp_active[0].log.all();
    assert_eq!(lines.len(), 1);
    assert_eq!(lines[0].text, "── xfreerdp3 exited (131) ──");
    assert_eq!(lines[0].source, "xfreerdp");
    assert_eq!(lines[0].at, 7_000);
    assert!(!lines[0].error);
}
