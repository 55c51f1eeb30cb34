//! What is drawn, line by line.

use controlcenter::activation::{Activation, ConflictPrompt};
use controlcenter::app::{App, Around};
use controlcenter::browser::{Entry, FileBrowser};
use controlcenter::config::{AppConfig, Paths};
use controlcenter::pages::{help_page, keys_page};
use controlcenter::path::Os;
use controlcenter::plan::Step;
use controlcenter::prompts;
use controlcenter::rdp::Client;
use controlcenter::screen::{Key, KeyCode, PanicSummary, QuitPrompt, Tab};
use controlcenter::sheet::{Bit, Ink, Sheet};
use controlcenter::ssh::{Launch, Machine, PasswordHelper};
use controlcenter::tick::TunnelLook;
use controlcenter::tunnel::{Counters, Seen};
use controlcenter::types::{
    ForwardType, OpenvpnProfile, RdpConnection, SshHost, Tunnel, VpnConfig,
};
use controlcenter::vpn::ProviderId;
use controlcenter::vpn_panes::StatusFacts;

fn tunnel(name: &str, group: &str, vpn: &str, dep: &str) -> Tunnel {
    Tunnel {
        name: name.into(),
        group: group.into(),
        ssh_host: "bastion".into(),
        forward: ForwardType::Local,
        local_port: 5000,
        remote_host: "db".into(),
        remote_port: 5432,
        extra_args: String::new(),
        auto_reconnect: false,
        requires_vpn: vpn.into(),
        depends_on: dep.into(),
    }
}

fn ssh_host(name: &str, password: &str) -> SshHost {
    SshHost {
        name: name.into(),
        group: String::new(),
        host: "10.0.0.1".into(),
        port: 22,
        username: "root".into(),
        key_path: String::new(),
        password: password.into(),
        skip_host_key_check: false,
        extra_args: String::new(),
        depends_on: String::new(),
        requires_vpn: String::new(),
    }
}

fn rdp_conn(name: &str) -> RdpConnection {
    RdpConnection {
        name: name.into(),
        group: String::new(),
        host: "10.0.0.9".into(),
        port: 3389,
        domain: "CORP".into(),
        username: "ann".into(),
        extra_args: String::new(),
        depends_on: String::new(),
        requires_vpn: String::new(),
    }
}

fn openvpn(name: &str) -> OpenvpnProfile {
    OpenvpnProfile {
        name: name.into(),
        config_path: "/etc/work.ovpn".into(),
        import: true,
        username: "ann".into(),
        password: "hunter2".into(),
        extra_args: String::new(),
    }
}

fn app() -> App {
    App::new(
        vec![tunnel("db", "prod", "netbird:work", ""), tunnel("web", "", "", "db")],
        vec![rdp_conn("desk")],
        vec![ssh_host("shell", "hunter2")],
        VpnConfig { wireguard: Vec::new(), openvpn: vec![openvpn("work")], tailscale: Vec::new() },
        Paths::new(Os::Unix, "/cfg", "/run/cc"),
        AppConfig::default(),
        Around {
            machine: Machine { os: Os::Unix, home: Some("/home/me".into()) },
            ssh_launcher: Launch::Inline,
            ssh_password_helper: PasswordHelper::Sshpass,
            rdp_client: Client::Freerdp,
            rdp_installed: true,
            vpn_clients: vec![ProviderId::Netbird],
            now: 0,
        },
    )
}

fn line(bits: &[Bit]) -> String {
    bits.iter().map(|b| b.text.as_str()).collect()
}

fn text(s: &Sheet) -> Vec<String> {
    s.lines.iter().map(|l| line(l)).collect()
}

fn whole(s: &Sheet) -> String {
    text(s).join("\n")
}

#[test]
fn a_row_of_the_tunnels_tab() {
    let a = app();
    let rows = a.tunnel_list();
    assert_eq!(
        text(&rows)[0],
        " ○ web             :5000 → db:5432       via bastion     needs tun"
    );
    assert!(text(&rows)[1].contains("prod"));
    assert!(text(&rows)[1].contains("(0/1 active)"));
    assert_eq!(
        text(&rows)[2],
        "   ○ db              :5000 → db:5432       via bastion     needs vpn"
    );
    assert_eq!(rows.lines[0][1].ink, Ink::Dim);
}

#[test]
fn a_dependency_that_is_missing_is_marked() {
    let mut a = app();
    a.tunnels[1].depends_on = "gone".into();
    let rows = a.tunnel_list();
    assert_eq!(rows.lines[0].last().map(|b| b.ink), Some(Ink::Danger));
}

#[test]
fn a_tunnel_that_is_up_has_a_full_dot_and_counts_in_the_header() {
    let mut a = app();
    let _ = a.tunnel_started(1, Ok(vec!["ssh".into()]), 0);
    assert_eq!(a.tunnel_list().lines[0][1].text, "◐");
    assert_eq!(a.header_line(), " ssh 0/1 up · vpn down · rdp 0 ");
    let look = TunnelLook {
        seen: Seen::Alive { answers: Some(true), age: 10 },
        counters: Counters { tx: 1536, rx: 10, active_conns: 1, total_conns: 2 },
        rate_tx: 0,
        rate_rx: 0,
    };
    let _ = a.tunnel_looked(0, look);
    assert_eq!(a.tunnel_list().lines[0][1].text, "●");
    assert_eq!(a.header_line(), " ssh 1/1 up · vpn down · rdp 0 ");
    let panel = whole(&a.tunnels_summary_panel());
    assert!(panel.contains("↑ 1.5 KiB  ↓ 10 B"), "{panel}");
    let table = text(&a.active_table(61_000));
    assert!(table[1].contains("web") && table[1].contains("1m01s"), "{table:?}");
    assert!(table[1].contains("1 / 2"), "{table:?}");
}

#[test]
fn an_empty_table_says_how_to_start_something() {
    let a = app();
    let table = text(&a.active_table(0));
    assert_eq!(table.len(), 2);
    assert_eq!(table[1], "  nothing active — start a tunnel [3] or an RDP session [5]");
}

#[test]
fn the_dashboard_counts_what_is_configured() {
    let a = app();
    let panel = text(&a.tunnels_summary_panel());
    assert!(panel[0].contains("configured") && panel[0].ends_with('2'), "{panel:?}");
    assert_eq!(panel.last().map(String::as_str), Some(" no active tunnels"));
    assert!(whole(&a.ssh_summary_panel()).contains("1 password(s)"));
    assert!(whole(&a.vpn_summary_panel()).contains("netbird"));
}

#[test]
fn a_stored_password_is_marked_and_never_shown() {
    let mut a = app();
    a.tab = Tab::Ssh;
    let list = a.ssh_list();
    assert_eq!(list.lines[0][2].text, "!");
    assert_eq!(list.lines[0][2].ink, Ink::Warn);
    assert!(!whole(&a.ssh_panel(0)).contains("hunter2"));
    let facts = StatusFacts {
        install_hint: "get it".into(),
        root_available: false,
        imported: None,
        interfaces: Vec::new(),
        devices: Vec::new(),
        links: Vec::new(),
    };
    a.vpn.client_idx = ProviderId::Openvpn.index();
    assert!(!whole(&a.vpn_status_panel(&facts)).contains("hunter2"));
}

#[test]
fn the_rdp_tab_says_where_it_goes() {
    let a = app();
    let row = text(&a.rdp_list())[0].clone();
    assert!(row.contains("desk") && row.contains("10.0.0.9:3389"), "{row}");
    let panel = whole(&a.rdp_panel(0));
    assert!(panel.contains("CORP") && panel.contains("ann"), "{panel}");
}

#[test]
fn the_clients_are_listed_in_their_order() {
    let a = app();
    let rows = text(&a.client_list());
    assert_eq!(rows.len(), 4);
    assert!(rows[0].contains("netbird") && rows[3].contains("tailscale"), "{rows:?}");
}

#[test]
fn the_status_bar_shows_the_keys_until_something_is_said() {
    let mut a = app();
    a.tab = Tab::Tunnels;
    let bar = line(&a.status_line());
    assert!(bar.contains("ctrl↑↓") && bar.contains("start/stop"), "{bar}");
    let e = a.on_key(Key::plain(KeyCode::Char('p')), 0);
    for x in e {
        a.settle(x, 0);
    }
    let bar = line(&a.status_line());
    assert_eq!(bar, " tunnels authenticate with a key or an agent — no password is stored");
}

#[test]
fn a_tunnel_form_shows_its_fields_and_the_one_being_typed_into() {
    let mut a = app();
    a.tab = Tab::Tunnels;
    let _ = a.on_key(Key::plain(KeyCode::Char('a')), 0);
    for c in "very-long-name".chars() {
        let _ = a.on_key(Key::plain(KeyCode::Char(c)), 0);
    }
    let s = a.form.sheet(6);
    assert!(s.lines[0][0].bold && s.lines[0][0].ink == Ink::Accent);
    assert_eq!(s.lines[0][0].text.chars().count(), 33);
    assert_eq!(s.lines[0][1].text, "…-name");
    assert_eq!(s.lines[0][2].text, "▏");
    assert_eq!(s.lines[1][2].text, "");
    assert!(text(&s).iter().any(|l| l.contains("◂") && l.contains("▸")));
    assert_eq!(
        text(&s).last().map(String::as_str),
        Some(" tab/↓ next · ↑ prev · ◂▸ toggle · Enter save · Esc cancel")
    );
    let _ = a.on_key(Key::plain(KeyCode::Enter), 0);
    let s = a.form.sheet(40);
    assert_eq!(s.lines.last().map(|l| l[0].ink), Some(Ink::Danger));
}

#[test]
fn a_form_does_not_show_a_vpn_password() {
    let mut a = app();
    a.tab = Tab::Vpn;
    a.vpn.client_idx = ProviderId::Openvpn.index();
    let _ = a.open_vpn_form(Some(0));
    let shown = whole(&a.vpn_form.sheet(40));
    assert!(!shown.contains("hunter2"), "{shown}");
    assert!(shown.contains("•••••••"), "{shown}");
    assert!(shown.contains("◂ yes ▸"), "{shown}");
}

#[test]
fn an_ssh_form_warns_about_what_is_in_the_clear() {
    let mut a = app();
    a.tab = Tab::Ssh;
    let _ = a.on_key(Key::plain(KeyCode::Char('e')), 0);
    let s = a.ssh_form.sheet(40);
    let at = s.lines.iter().position(|l| line(l).contains("assword")).unwrap();
    assert_eq!(s.lines[at][1].ink, Ink::Warn);
}

#[test]
fn deleting_asks_by_name() {
    let a = app();
    assert_eq!(
        text(&prompts::ask_about_tunnel(&a.tunnels, 0)),
        [" delete tunnel 'db'?", "", " y delete · any other key cancel"]
    );
    assert_eq!(text(&prompts::ask_about_tunnel(&a.tunnels, 9))[0], " delete tunnel '?'?");
    assert_eq!(text(&prompts::ask_about_ssh(&a.ssh_hosts, 0))[0], " delete SSH host 'shell'?");
    assert_eq!(
        text(&prompts::ask_about_rdp(&a.rdp_conns, 0))[0],
        " delete RDP connection 'desk'?"
    );
    assert_eq!(
        text(&prompts::ask_about_profile(&a.vpn_cfg, ProviderId::Openvpn, 0))[0],
        " delete openvpn profile 'work'?"
    );
    assert_eq!(
        text(&prompts::ask_about_profile(&a.vpn_cfg, ProviderId::Netbird, 0))[0],
        " delete netbird profile '?'?"
    );
}

#[test]
fn a_secret_in_the_clear_is_warned_about() {
    let w = text(&prompts::vpn_secret_warning(ProviderId::Wireguard, "/cfg/vpn.toml"));
    assert_eq!(w[0], " The private key is saved in cleartext.");
    assert_eq!(w[2], " It goes into /cfg/vpn.toml, which is written mode 0600.");
    let o = text(&prompts::vpn_secret_warning(ProviderId::Openvpn, "/cfg/vpn.toml"));
    assert_eq!(o[0], " The password is saved in cleartext.");
    let s = text(&prompts::password_warning("/cfg/ssh.toml"));
    assert_eq!(s[2], " It is written to /cfg/ssh.toml");
    assert_eq!(s[7], " y save it anyway · any other key back to the form");
}

#[test]
fn a_password_prompt_shows_dots() {
    let a = app();
    let s = text(&prompts::rdp_password_box(&a.rdp_conns, &vec![0], 0, "abc"));
    assert_eq!(s[0], " connect to desk");
    assert_eq!(s[1], " CORP\\ann @ 10.0.0.9:3389");
    assert_eq!(s[3], " password  •••▏");
    let s = text(&prompts::rdp_password_box(&a.rdp_conns, &vec![0, 0], 1, ""));
    assert_eq!(s[0], " connect to desk  (2 of 3)");
}

#[test]
fn the_panic_button_lists_what_goes() {
    let p = PanicSummary { tunnels: 2, rdp: 1, ssh: 0, vpn: vec!["netbird:work".into()] };
    assert_eq!(
        text(&prompts::panic_prompt(&p)),
        [
            " Disconnect everything?",
            "   2 tunnels",
            "   1 RDP session",
            "   VPN: netbird:work",
            "",
            " Taking a VPN down asks for root.",
            " Auto-reconnect stops too; nothing comes back on its own.",
            " y/enter disconnect  any key leave it",
        ]
    );
}

#[test]
fn quitting_names_the_sessions_it_would_leave() {
    let q = QuitPrompt { sessions: vec!["work — connected".into()] };
    let s = text(&prompts::quit_question(&q));
    assert_eq!(s[0], " 1 openvpn session(s) are still up:");
    assert_eq!(s[1], "   work — connected");
    assert_eq!(s.last().unwrap(), " s/enter stop and quit  k keep and quit  any key stay");
}

#[test]
fn a_conflict_names_what_is_in_the_way() {
    let c = ConflictPrompt {
        step: Step::Tunnel("db".into()),
        resource: "local port 5000".into(),
        stop_tunnels: (1..=5).map(|i| format!("t{i}")).collect(),
        stop_rdp: Vec::new(),
        note: Some("a → b".into()),
    };
    let plan = Activation::new(vec![Step::Tunnel("db".into()), Step::Ssh("x".into())], "x".into());
    let s = text(&prompts::conflict_question(&c, &Some(plan)));
    assert_eq!(
        s,
        [
            " starting  tunnel 'db'",
            " needs     local port 5000",
            " change    a → b",
            "",
            " These are disconnected first:",
            "   tunnel 't1'",
            "   tunnel 't2'",
            "   tunnel 't3'",
            "   tunnel 't4'",
            " Part of starting x (1/2 · tunnel 'db').",
            "",
            " y/Enter go ahead · any other key cancel",
        ]
    );
    assert_eq!(text(&prompts::conflict_question(&c, &None)).len(), 11);
}

#[test]
fn the_file_picker_marks_directories() {
    let mut b = FileBrowser::open(Os::Unix, "/etc/", None);
    assert_eq!(text(&b.head(20, 20))[1], " nothing here matches");
    b.refresh(Ok(vec![
        Entry { name: "hosts".into(), is_dir: false },
        Entry { name: "ssh".into(), is_dir: true },
    ]));
    assert_eq!(text(&b.head(20, 20)), [" path /etc/▏", " 2 entries"]);
    assert_eq!(text(&b.list()), ["▸ ssh/", "  hosts"]);
    b.refresh(Err("not allowed at all".into()));
    assert_eq!(text(&b.head(20, 10))[1], " /etc: not…");
}

#[test]
fn the_help_and_the_keys_are_pages() {
    let help = text(&help_page());
    assert_eq!(help[0], " SSH tunnels, SSH logins, VPN clients and RDP sessions in one place.");
    assert_eq!(help[3], "   dashboard everything that is up, and what it is moving");
    assert_eq!(help.last().unwrap(), " k for the keys · any key closes");
    let keys = keys_page();
    assert_eq!(text(&keys)[1], " enter space   connect · disconnect if it is already up");
    let panic = keys.lines.iter().find(|l| line(l).contains("panic button")).unwrap();
    assert_eq!((panic[0].ink, panic[0].bold), (Ink::Danger, true));
    assert!(text(&keys).iter().any(|l| {
        l == " r       refresh        restart        new session    reconnect"
    }));
    assert_eq!(text(&keys).last().unwrap(), " ? for help · any key closes");
}
