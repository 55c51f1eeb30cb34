//! What holds of the library as a whole, on concrete values.

use controlcenter::calendar::{civil_from_days, clock, file_stamp, stamp};
use controlcenter::logs::{Entry, LogTarget};
use controlcenter::number;
use controlcenter::path::{join, parent, Os};
use controlcenter::plan::Step;
use controlcenter::platform::split_command_line;
use controlcenter::rdp_form::RdpForm;
use controlcenter::redact::redact;
use controlcenter::remote_path::{base_name, join_remote, parent_remote};
use controlcenter::screen::Tab;
use controlcenter::ssh_form::SshForm;
use controlcenter::theme::{by_name, next};
use controlcenter::tunnel::{poll, Seen, Status};
use controlcenter::tunnel_form::{FormContext, TunnelForm};
use controlcenter::types::{
    ForwardType, OpenvpnProfile, RdpConnection, SshHost, TailscaleProfile, Tunnel,
    WireguardProfile,
};
use controlcenter::ui::{log_rows, truncate_pub};
use controlcenter::vpn::ProviderId;
use controlcenter::vpn_form::VpnForm;
use controlcenter::vpn_view::VpnView;

fn tunnel(name: &str, dep: &str) -> Tunnel {
    Tunnel {
        name: name.into(),
        group: "prod".into(),
        ssh_host: "bastion".into(),
        forward: ForwardType::Local,
        local_port: 5000,
        remote_host: "db".into(),
        remote_port: 5432,
        extra_args: "-v".into(),
        auto_reconnect: true,
        requires_vpn: String::new(),
        depends_on: dep.into(),
    }
}

#[test]
fn tabs_and_themes_and_forwards_go_round() {
    let mut t = Tab::Dashboard;
    for _ in 0..5 {
        assert_eq!(t.next().prev(), t);
        t = t.next();
    }
    assert_eq!(t, Tab::Dashboard);
    let mut name = by_name("dark").name;
    for _ in 0..4 {
        name = next(name).name;
    }
    assert_eq!(name, "dark");
    assert!(ForwardType::Local.next().prev() == ForwardType::Local);
}

#[test]
fn a_number_that_is_written_is_read_back() {
    for n in [0u64, 7, 10, 65_535, u64::MAX] {
        assert_eq!(number::read(&number::write(n), u64::MAX), Some(n));
    }
    assert_eq!(number::read_u16("65536"), None);
    assert_eq!(number::read_u16(""), None);
}

#[test]
fn joining_a_name_and_walking_up_comes_back() {
    assert_eq!(parent(Os::Unix, &join(Os::Unix, "/etc", "hosts")).as_deref(), Some("/etc"));
    assert_eq!(parent_remote(&join_remote("/srv", "data")), "/srv");
    assert_eq!(base_name("/srv/data"), "data");
}

#[test]
fn a_slug_names_its_client() {
    for id in ProviderId::all() {
        assert_eq!(ProviderId::from_slug(id.slug()), Some(id));
    }
    assert_eq!(ProviderId::from_slug("pptp"), None);
}

#[test]
fn dates_are_those_of_the_calendar() {
    assert_eq!(civil_from_days(0), (1970, 1, 1));
    assert_eq!(civil_from_days(59), (1970, 3, 1));
    assert_eq!(civil_from_days(789), (1972, 2, 29));
    assert_eq!(civil_from_days(790), (1972, 3, 1));
    // Before 1970 the days count down.
    assert_eq!(civil_from_days(-1), (1969, 12, 31));
    assert_eq!(civil_from_days(-719_528), (0, 1, 1));
    assert_eq!(civil_from_days(-719_529), (-1, 12, 31));
    assert_eq!(clock(3_661), "01:01:01");
    assert_ne!(stamp(0), stamp(1));
    assert_eq!(file_stamp(0), "19700101-000000");
}

#[test]
fn redacting_twice_is_redacting_once() {
    let once = redact("tool --password hunter2 --token=abc");
    assert_eq!(redact(&once), once);
    assert!(!once.contains("hunter2"));
}

#[test]
fn masking_a_line_is_done_once_and_for_all() {
    for line in ["  a   b ", "x --password  = hunter2 y", "/p:one two:three", "Token : a : b", ""] {
        let once = redact(line);
        assert_eq!(redact(&once), once);
    }
}

#[test]
fn no_part_of_an_assigned_secret_is_left() {
    for c in ["=", ":"] {
        for k in ["--password", "/p", "PrivateKey", "auth-token"] {
            for a in ["", "run", "x --secret"] {
                let one = redact(&format!("{a} {k}{c}alpha b c"));
                let two = redact(&format!("{a} {k}{c}q=7:z b c"));
                assert_eq!(one, two);
                assert!(!one.contains("alpha"));
            }
        }
    }
}

#[test]
fn no_part_of_a_flagged_secret_is_left() {
    let one = redact("--password alpha --verbose");
    assert_eq!(one, redact("--password beta=1 --verbose"));
    assert_eq!(one, "--password <redacted> --verbose");
}

#[test]
fn a_command_line_in_quotes_reads_back() {
    for args in [
        vec!["openvpn", "--cd", r"C:\my dir\sub", "", r"a\\b"],
        vec![""],
        vec![],
        vec![r"\\server\share x", "two  spaces"],
    ] {
        let quoted: Vec<String> = args.iter().map(|a| format!("\"{a}\"")).collect();
        assert_eq!(split_command_line(&quoted.join(" ")), args);
    }
}

#[test]
fn a_look_never_brings_a_failed_tunnel_back() {
    let alive = Seen::Alive { answers: Some(true), age: 10 };
    let (s, e) = poll(Status::Failed, Some("gone".into()), &alive, None);
    assert!(s == Status::Failed);
    assert_eq!(e.as_deref(), Some("gone"));
    let (s, _) = poll(Status::Connecting, None, &alive, None);
    assert!(s == Status::Up);
    let (s, e) = poll(Status::Up, None, &Seen::Exited("exit status: 255".into()), Some("refused"));
    assert!(s == Status::Failed);
    assert_eq!(e.as_deref(), Some("refused"));
}

#[test]
fn a_tunnel_goes_through_its_form_unchanged() {
    let view = VpnView::new(&Vec::new());
    let all = vec![tunnel("base", ""), tunnel("db", "base")];
    let ctx = FormContext { tunnels: &all, vpn: &view };
    let back = TunnelForm::from_tunnel(&all[1], ctx).to_tunnel().unwrap();
    assert_eq!(back.name, "db");
    assert_eq!(back.group, "prod");
    assert_eq!(back.local_port, 5000);
    assert_eq!(back.remote_port, 5432);
    assert_eq!(back.extra_args, "-v");
    assert_eq!(back.depends_on, "base");
    assert!(back.auto_reconnect);
}

#[test]
fn a_form_never_offers_a_tunnel_as_its_own_dependency() {
    let view = VpnView::new(&Vec::new());
    let all = vec![tunnel("base", ""), tunnel("db", "base")];
    let ctx = FormContext { tunnels: &all, vpn: &view };
    let mut form = TunnelForm::from_tunnel(&all[1], ctx);
    for _ in 0..4 {
        form.dep.next();
        assert_ne!(form.to_tunnel().unwrap().depends_on, "db");
    }
}

#[test]
fn a_host_and_a_connection_go_through_their_forms_unchanged() {
    let view = VpnView::new(&Vec::new());
    let none: Vec<Tunnel> = Vec::new();
    let host = SshHost {
        name: "shell".into(),
        group: String::new(),
        host: "10.0.0.1".into(),
        port: 2222,
        username: "root".into(),
        key_path: "~/.ssh/id".into(),
        password: "hunter2".into(),
        skip_host_key_check: true,
        extra_args: "-A".into(),
        depends_on: String::new(),
        requires_vpn: String::new(),
    };
    let ctx = FormContext { tunnels: &none, vpn: &view };
    let back = SshForm::from_host(&host, ctx).to_host().unwrap();
    assert_eq!((back.port, back.username.as_str()), (2222, "root"));
    assert_eq!(back.password, "hunter2");
    assert!(back.skip_host_key_check);
    let conn = RdpConnection {
        name: "desk".into(),
        group: "g".into(),
        host: "10.0.0.9".into(),
        port: 3390,
        domain: "CORP".into(),
        username: "ann".into(),
        extra_args: "/f".into(),
        depends_on: String::new(),
        requires_vpn: String::new(),
    };
    let ctx = FormContext { tunnels: &none, vpn: &view };
    let back = RdpForm::from_connection(&conn, ctx).to_connection().unwrap();
    assert_eq!((back.port, back.domain.as_str()), (3390, "CORP"));
    assert_eq!(back.extra_args, "/f");
}

#[test]
fn profiles_go_through_their_forms_unchanged() {
    let w = WireguardProfile {
        name: "wg0".into(),
        private_key: "k".into(),
        address: "10.8.0.2/24".into(),
        peer_public_key: "p".into(),
        endpoint: "vpn:51820".into(),
        listen_port: 51_820,
        persistent_keepalive: 25,
        ..WireguardProfile::default()
    };
    let back = VpnForm::from_wireguard(&w).to_wireguard(Os::Unix, None).unwrap();
    assert_eq!(back.address, "10.8.0.2/24");
    assert_eq!((back.listen_port, back.persistent_keepalive), (51_820, 25));
    let o = OpenvpnProfile {
        name: "work".into(),
        config_path: "/etc/work.ovpn".into(),
        import: false,
        username: "ann".into(),
        password: "hunter2".into(),
        extra_args: String::new(),
    };
    let back = VpnForm::from_openvpn(&o).to_openvpn(Os::Unix, None).unwrap();
    assert_eq!(back.password, "hunter2");
    assert!(!back.import);
    let t = TailscaleProfile { name: "home".into(), ssh: true, ..TailscaleProfile::default() };
    let back = VpnForm::from_tailscale(&t).to_tailscale().unwrap();
    assert_eq!(back.name, "home");
    assert!(back.ssh && back.accept_dns);
}

#[test]
fn what_is_shown_fits() {
    assert_eq!(truncate_pub("abcdefgh", 4).chars().count(), 4);
    let entries: Vec<Entry> = (0..50)
        .map(|i| Entry {
            at: 0,
            source: "ssh",
            text: format!("line {i} with enough words to need more than one row"),
            error: false,
        })
        .collect();
    for rows in [1usize, 5, 20] {
        assert!(log_rows(&entries, 0, rows, 40).len() <= rows);
    }
    let last = log_rows(&entries, 0, 20, 60);
    assert!(last.iter().any(|r| r.text.contains("line 49")));
    assert_eq!(LogTarget::Program.slug(), "everything");
}

#[test]
fn a_step_says_nothing_of_its_password() {
    let step = Step::Rdp { name: "desk".into(), password: "hunter2".into() };
    assert_eq!(step.describe(), "rdp 'desk'");
    assert_eq!(step.short(), "rdp desk");
}
