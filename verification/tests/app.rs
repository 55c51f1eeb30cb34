//! Pickers, plans and rows.

use controlcenter::activation::{provider_for_any_vpn, riders_of};
use controlcenter::live::{LiveRdp, LiveTunnel};
use controlcenter::logs::Ring;
use controlcenter::picker::Picker;
use controlcenter::plan::{tunnel_cycle, Catalog, Step};
use controlcenter::rdp::RdpStatus;
use controlcenter::rows::{build_rows, members_of, RowItem};
use controlcenter::tunnel::{Counters, Status};
use controlcenter::types::{ForwardType, RdpConnection, SshHost, Tunnel, VPN_ANY};
use controlcenter::vpn::ProviderId;
use controlcenter::vpn_view::{Foreign, Process, VpnProfile, VpnView};

/// A tunnel that is running.
fn up(name: &str) -> LiveTunnel {
    LiveTunnel {
        name: name.into(),
        status: Status::Up,
        error: None,
        started_at: 0,
        argv: Vec::new(),
        counters: Counters::default(),
        rate_tx: 0,
        rate_rx: 0,
        restarts: 0,
        log: Ring::new("ssh"),
    }
}

/// An rdp session that is running.
fn session(name: &str) -> LiveRdp {
    LiveRdp {
        name: name.into(),
        status: RdpStatus::Running,
        started_at: 0,
        argv: Vec::new(),
        log: Ring::new("xfreerdp"),
    }
}

fn tunnel(name: &str, vpn: &str, dep: &str) -> Tunnel {
    Tunnel {
        name: name.into(),
        group: String::new(),
        ssh_host: "bastion".into(),
        forward: ForwardType::Local,
        local_port: 1234,
        remote_host: "db".into(),
        remote_port: 5432,
        extra_args: String::new(),
        auto_reconnect: false,
        requires_vpn: vpn.into(),
        depends_on: dep.into(),
    }
}

fn ssh_host(name: &str, vpn: &str, dep: &str) -> SshHost {
    SshHost {
        name: name.into(),
        group: String::new(),
        host: "127.0.0.1".into(),
        port: 22,
        username: String::new(),
        key_path: String::new(),
        password: String::new(),
        skip_host_key_check: false,
        extra_args: String::new(),
        depends_on: dep.into(),
        requires_vpn: vpn.into(),
    }
}

fn catalog<'a>(tunnels: &'a [Tunnel], hosts: &'a [SshHost]) -> Catalog<'a> {
    Catalog {
        tunnels,
        ssh_hosts: hosts,
        rdp_conns: &[],
    }
}

fn rdp_conn(name: &str, vpn: &str) -> RdpConnection {
    RdpConnection {
        name: name.into(),
        group: String::new(),
        host: "10.0.0.1".into(),
        port: 3389,
        domain: String::new(),
        username: "user".into(),
        extra_args: String::new(),
        depends_on: String::new(),
        requires_vpn: vpn.into(),
    }
}

fn names(steps: &[Step]) -> Vec<String> {
    steps.iter().map(Step::short).collect()
}

#[test]
fn picker_starts_on_none_and_cycles_through_tunnels() {
    let ts = vec![tunnel("a", "", ""), tunnel("b", "", "")];
    let mut p = Picker::tunnels(&ts, "", None);
    assert_eq!(p.value(), "");
    assert_eq!(p.label(), "(none)");
    p.next();
    assert_eq!(p.value(), "a");
    p.next();
    assert_eq!(p.value(), "b");
    p.next();
    assert_eq!(p.value(), "");
    p.prev();
    assert_eq!(p.value(), "b");
}

#[test]
fn a_tunnel_is_not_offered_as_its_own_dependency() {
    let ts = vec![tunnel("a", "", ""), tunnel("b", "", "")];
    let p = Picker::tunnels(&ts, "", Some("a"));
    assert_eq!(p.options, vec!["".to_string(), "b".to_string()]);
}

#[test]
fn picker_keeps_a_dependency_whose_tunnel_is_gone() {
    // Deleting the tunnel must not silently unlink the connection.
    let ts = vec![tunnel("a", "", "")];
    let p = Picker::tunnels(&ts, "deleted", None);
    assert_eq!(p.value(), "deleted");
    assert_eq!(p.options.len(), 3);
}

/// A view with one provider marked installed and given some profiles, so
/// the picker and the plan can be exercised without any VPN client present.
fn view_with(entries: &[(ProviderId, &[&str])]) -> VpnView {
    let mut view = VpnView::new(&Vec::new());
    for state in &mut view.providers {
        state.installed = false;
        state.profiles.clear();
    }
    for (id, names) in entries {
        let state = &mut view.providers[id.index()];
        state.installed = true;
        state.profiles = names
            .iter()
            .map(|n| VpnProfile {
                name: (*n).to_string(),
                active: false,
                detail: String::new(),
                foreign: None,
            })
            .collect();
    }
    view
}

#[test]
fn a_connection_controlcenter_is_not_holding_never_speaks_for_the_client() {
    let mut view = view_with(&[(ProviderId::Openvpn, &["work"])]);
    let state = &mut view.providers[ProviderId::Openvpn.index()];
    state.profiles.push(VpnProfile {
        name: "orphan".into(),
        // It is up — that is why it is listed at all.
        active: true,
        detail: "pid 4242 · root · not started here".into(),
        foreign: Some(Foreign::Process(Process {
            pid: 4242,
            provider: ProviderId::Openvpn,
            argv: vec!["/usr/bin/openvpn".into(), "--config".into(), "/etc/x.ovpn".into()],
            uid: 0,
            age_secs: Some(60),
        })),
    });
    // The client is not "on" the orphan's profile: nothing here brought it
    // up, so nothing here may report it as the profile that is active.
    assert_eq!(state.active_profile(), None);
    assert_eq!(state.stored().len(), 1);
    assert_eq!(state.foreign().len(), 1);
    assert_eq!(state.foreign()[0].name, "orphan");

    // And once one of ours really is up, that is the one that answers.
    state.profiles[0].active = true;
    assert_eq!(state.active_profile(), Some("work"));
}

#[test]
fn vpn_picker_offers_none_any_vpn_and_every_provider_profile() {
    let view = view_with(&[
        (ProviderId::Netbird, &["work", "home"]),
        (ProviderId::Wireguard, &["office"]),
    ]);
    let p = Picker::vpn(&view, VPN_ANY);
    assert_eq!(p.label(), "any VPN");
    assert_eq!(
        p.options,
        vec![
            "",
            "*",
            "netbird:*",
            "netbird:work",
            "netbird:home",
            "wireguard:*",
            "wireguard:office",
        ]
    );
}

#[test]
fn the_picker_shows_a_legacy_bare_name_as_the_netbird_profile_it_means() {
    let view = view_with(&[(ProviderId::Netbird, &["work"])]);
    let p = Picker::vpn(&view, "work");
    assert_eq!(p.value(), "netbird:work");
    assert_eq!(p.label(), "netbird: work");
}

#[test]
fn a_configured_profile_is_offered_even_before_its_client_is_installed() {
    let mut view = view_with(&[(ProviderId::Wireguard, &["home"])]);
    view.providers[ProviderId::Wireguard.index()].installed = false;
    let p = Picker::vpn(&view, "");
    assert!(p.options.contains(&"wireguard:home".to_string()));
}

#[test]
fn a_client_with_neither_an_install_nor_profiles_is_left_out() {
    let view = view_with(&[]);
    assert_eq!(Picker::vpn(&view, "").options, vec!["", "*"]);
}

#[test]
fn the_picker_keeps_a_requirement_whose_profile_is_gone() {
    let view = view_with(&[(ProviderId::Wireguard, &["office"])]);
    let p = Picker::vpn(&view, "wireguard:deleted");
    assert_eq!(p.value(), "wireguard:deleted");
}

#[test]
fn stacked_tunnels_are_planned_bottom_up() {
    // app runs through mid, mid runs through base.
    let ts = vec![
        tunnel("base", "", ""),
        tunnel("mid", "", "base"),
        tunnel("app", "", "mid"),
    ];
    let plan = catalog(&ts, &[])
        .build_plan(vec![Step::Tunnel("app".into())])
        .unwrap();
    assert_eq!(names(&plan), ["tun base", "tun mid", "tun app"]);
}

#[test]
fn the_vpn_a_tunnel_deep_in_the_stack_needs_is_hoisted_to_the_front() {
    let ts = vec![tunnel("base", "work", ""), tunnel("app", "", "base")];
    let hosts = vec![ssh_host("login", "", "app")];
    let plan = catalog(&ts, &hosts)
        .build_plan(vec![Step::Ssh("login".into())])
        .unwrap();
    assert_eq!(
        names(&plan),
        ["vpn netbird: work", "tun base", "tun app", "ssh login"]
    );
}

#[test]
fn every_tunnel_comes_before_anything_that_is_no_tunnel() {
    let ts = vec![tunnel("base", "", "")];
    let hosts = vec![ssh_host("a", "", ""), ssh_host("b", "", "base")];
    let plan = catalog(&ts, &hosts)
        .build_plan(vec![Step::Ssh("a".into()), Step::Ssh("b".into())])
        .unwrap();
    assert_eq!(names(&plan), ["tun base", "ssh a", "ssh b"]);
}

#[test]
fn a_legacy_bare_profile_name_still_means_netbird() {
    let ts = vec![tunnel("a", "work", "")];
    let plan = catalog(&ts, &[])
        .build_plan(vec![Step::Tunnel("a".into())])
        .unwrap();
    assert_eq!(plan[0], Step::Vpn("netbird:work".into()));
}

#[test]
fn a_named_profile_wins_over_any_profile_of_the_same_provider() {
    let ts = vec![
        tunnel("base", "netbird:*", ""),
        tunnel("app", "netbird:work", "base"),
    ];
    let plan = catalog(&ts, &[])
        .build_plan(vec![Step::Tunnel("app".into())])
        .unwrap();
    assert_eq!(plan[0], Step::Vpn("netbird:work".into()));
    assert_eq!(plan.len(), 3);
}

#[test]
fn a_named_provider_supersedes_a_bare_any_vpn() {
    let ts = vec![
        tunnel("base", VPN_ANY, ""),
        tunnel("app", "wireguard:home", "base"),
    ];
    let plan = catalog(&ts, &[])
        .build_plan(vec![Step::Tunnel("app".into())])
        .unwrap();
    assert_eq!(plan[0], Step::Vpn("wireguard:home".into()));
    assert_eq!(plan.len(), 3);
}

#[test]
fn two_providers_in_one_chain_both_get_a_step_in_provider_order() {
    // The tailscale requirement is declared first but netbird sorts ahead.
    let ts = vec![
        tunnel("base", "tailscale:work", ""),
        tunnel("app", "netbird:tn", "base"),
    ];
    let plan = catalog(&ts, &[])
        .build_plan(vec![Step::Tunnel("app".into())])
        .unwrap();
    assert_eq!(
        plan[..2],
        [
            Step::Vpn("netbird:tn".into()),
            Step::Vpn("tailscale:work".into())
        ]
    );
    assert_eq!(names(&plan)[2..], ["tun base", "tun app"]);
}

#[test]
fn two_different_profiles_of_the_same_provider_are_still_rejected() {
    let ts = vec![
        tunnel("base", "wireguard:home", ""),
        tunnel("app", "wireguard:office", "base"),
    ];
    let err = catalog(&ts, &[])
        .build_plan(vec![Step::Tunnel("app".into())])
        .unwrap_err();
    assert!(
        err.contains("wireguard") && err.contains("'home'") && err.contains("'office'"),
        "{err}"
    );
}

#[test]
fn two_different_netbird_profiles_are_rejected_however_they_are_spelled() {
    // One legacy bare name, one namespaced — the same contradiction.
    let ts = vec![tunnel("base", "home", ""), tunnel("app", "netbird:work", "base")];
    let err = catalog(&ts, &[])
        .build_plan(vec![Step::Tunnel("app".into())])
        .unwrap_err();
    assert!(err.contains("'work'") && err.contains("'home'"), "{err}");
}

#[test]
fn a_cycle_is_reported_instead_of_recursing_forever() {
    let ts = vec![tunnel("a", "", "b"), tunnel("b", "", "a")];
    let err = catalog(&ts, &[])
        .build_plan(vec![Step::Tunnel("a".into())])
        .unwrap_err();
    assert!(err.starts_with("dependency cycle: a → b → a"), "{err}");
}

#[test]
fn a_shared_dependency_is_started_once_for_a_whole_group() {
    let ts = vec![
        tunnel("base", "", ""),
        tunnel("one", "", "base"),
        tunnel("two", "", "base"),
    ];
    let plan = catalog(&ts, &[])
        .build_plan(vec![Step::Tunnel("one".into()), Step::Tunnel("two".into())])
        .unwrap();
    assert_eq!(names(&plan), ["tun base", "tun one", "tun two"]);
}

#[test]
fn a_shared_dependency_is_started_once_for_a_whole_ssh_group() {
    // Opening a group of logins that all sit behind the same tunnel and
    // VPN brings each of those up once, then hands out the sessions.
    let ts = vec![tunnel("base", "work", "")];
    let hosts = vec![
        ssh_host("app-1", "", "base"),
        ssh_host("app-2", "", "base"),
    ];
    let plan = catalog(&ts, &hosts)
        .build_plan(vec![Step::Ssh("app-1".into()), Step::Ssh("app-2".into())])
        .unwrap();
    assert_eq!(
        names(&plan),
        ["vpn netbird: work", "tun base", "ssh app-1", "ssh app-2"]
    );
}

#[test]
fn every_member_of_an_rdp_group_keeps_its_own_password() {
    let conns = vec![
        Step::Rdp {
            name: "one".into(),
            password: "a".into(),
        },
        Step::Rdp {
            name: "two".into(),
            password: "b".into(),
        },
    ];
    let plan = catalog(&[], &[])
        .build_plan(conns.iter().cloned().collect())
        .unwrap();
    assert_eq!(plan, conns);
}

fn grouped(name: &str, group: &str) -> SshHost {
    SshHost {
        group: group.into(),
        ..ssh_host(name, "", "")
    }
}

#[test]
fn rows_put_ungrouped_entries_first_then_each_group_with_its_members() {
    let hosts = vec![
        grouped("a", "prod"),
        grouped("loose", ""),
        grouped("b", "prod"),
        grouped("c", "dev"),
    ];
    let rows = build_rows(&hosts);
    assert_eq!(
        rows,
        vec![
            RowItem::Item(1),
            RowItem::Group("prod".into()),
            RowItem::Item(0),
            RowItem::Item(2),
            RowItem::Group("dev".into()),
            RowItem::Item(3),
        ]
    );
    assert_eq!(members_of(&hosts, "prod"), vec![0, 2]);
}

#[test]
fn a_list_without_groups_has_a_row_per_entry() {
    let hosts = vec![ssh_host("a", "", ""), ssh_host("b", "", "")];
    let rows = build_rows(&hosts);
    assert_eq!(rows, vec![RowItem::Item(0), RowItem::Item(1)]);
}

#[test]
fn a_missing_dependency_names_the_tunnel_that_is_gone() {
    let hosts = vec![ssh_host("login", "", "deleted")];
    let err = catalog(&[], &hosts)
        .build_plan(vec![Step::Ssh("login".into())])
        .unwrap_err();
    assert!(err.contains("'deleted'"), "{err}");
}

#[test]
fn only_what_is_up_and_asks_for_the_profile_counts_as_a_rider() {
    let ts = vec![
        tunnel("up-on-home", "netbird:home", ""),
        tunnel("down-on-home", "netbird:home", ""),
        tunnel("on-work", "netbird:work", ""),
    ];
    let conns = vec![rdp_conn("desk", "netbird:home"), rdp_conn("other", "")];
    let cat = Catalog {
        tunnels: &ts,
        ssh_hosts: &[],
        rdp_conns: &conns,
    };
    let (tunnels, rdp) =
        riders_of(&cat, "netbird:home", &vec![up("up-on-home")], &vec![session("desk")]);
    assert_eq!(tunnels, ["up-on-home"]);
    assert_eq!(rdp, ["desk"]);
}

#[test]
fn a_legacy_bare_profile_name_rides_on_the_same_netbird_profile() {
    // "home" is how a requirement was written before there was more than
    // one client, so it must count against netbird:home.
    let ts = vec![tunnel("legacy", "home", "")];
    let cat = catalog(&ts, &[]);
    let (tunnels, _) = riders_of(&cat, "netbird:home", &vec![up("legacy")], &Vec::new());
    assert_eq!(tunnels, ["legacy"]);
}

#[test]
fn nothing_rides_on_a_profile_no_one_asks_for() {
    // The switch then goes through without a prompt.
    let ts = vec![tunnel("a", "netbird:work", "")];
    let cat = catalog(&ts, &[]);
    let (tunnels, rdp) = riders_of(&cat, "netbird:home", &vec![up("a")], &Vec::new());
    assert!(tunnels.is_empty() && rdp.is_empty());
}

#[test]
fn saving_a_tunnel_that_closes_a_loop_is_caught() {
    let ts = vec![tunnel("a", "", "b"), tunnel("b", "", "a")];
    assert!(tunnel_cycle(&ts, "a").is_some());
    let fine = vec![tunnel("a", "", ""), tunnel("b", "", "a")];
    assert!(tunnel_cycle(&fine, "b").is_none());
}

#[test]
fn a_connection_that_is_not_ours_is_never_picked_to_be_brought_up() {
    let mut view = VpnView::new(&vec![ProviderId::Wireguard]);
    let found = || VpnProfile {
        name: "pid 7".into(),
        active: true,
        detail: String::new(),
        foreign: Some(Foreign::Process(Process {
            pid: 7,
            provider: ProviderId::Wireguard,
            argv: Vec::new(),
            uid: 0,
            age_secs: None,
        })),
    };
    view.get_mut(ProviderId::Wireguard).profiles = vec![found()];
    assert_eq!(provider_for_any_vpn(&view), Err("no VPN client is installed".to_string()));
    let home = VpnProfile {
        name: "home".into(),
        active: false,
        detail: String::new(),
        foreign: None,
    };
    view.get_mut(ProviderId::Wireguard).profiles = vec![home, found()];
    // Nor is it offered as something to depend on.
    let picker = Picker::vpn(&view, "");
    assert_eq!(picker.options, ["", "*", "wireguard:*", "wireguard:home"]);
    assert_eq!(
        provider_for_any_vpn(&view),
        Ok((ProviderId::Wireguard, Some("home".to_string())))
    );
}
