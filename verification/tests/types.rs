//! Connections and what they require.

use controlcenter::types::{
    canonical_vpn_requirement, parse_vpn_requirement, tunnel_conflict, vpn_requirement_label,
    ForwardType, Tunnel,
};
use controlcenter::vpn::ProviderId;

fn tunnel(name: &str, forward: ForwardType, local: u16, remote: u16) -> Tunnel {
    Tunnel {
        name: name.into(),
        group: String::new(),
        ssh_host: "bastion".into(),
        forward,
        local_port: local,
        remote_host: "db.internal".into(),
        remote_port: remote,
        extra_args: String::new(),
        auto_reconnect: false,
        requires_vpn: String::new(),
        depends_on: String::new(),
    }
}

#[test]
fn an_unqualified_requirement_is_netbirds_the_way_it_always_was() {
    let r = parse_vpn_requirement("work").unwrap();
    assert_eq!(r.provider, Some(ProviderId::Netbird));
    assert_eq!(r.profile.as_deref(), Some("work"));
    assert_eq!(r.canonical(), "netbird:work");
}

#[test]
fn a_bare_star_means_any_provider_at_all() {
    let r = parse_vpn_requirement("*").unwrap();
    assert_eq!(r.provider, None);
    assert_eq!(r.profile, None);
    assert_eq!(r.canonical(), "*");
    assert_eq!(r.label(), "any VPN");
}

#[test]
fn a_provider_can_be_named_with_or_without_a_profile() {
    let any = parse_vpn_requirement("netbird:*").unwrap();
    assert_eq!(any.provider, Some(ProviderId::Netbird));
    assert_eq!(any.profile, None);
    assert_eq!(any.canonical(), "netbird:*");

    let one = parse_vpn_requirement("wireguard:home").unwrap();
    assert_eq!(one.provider, Some(ProviderId::Wireguard));
    assert_eq!(one.profile.as_deref(), Some("home"));
    assert_eq!(one.label(), "wireguard: home");
}

#[test]
fn nothing_required_parses_to_nothing() {
    assert!(parse_vpn_requirement("").is_none());
    assert!(parse_vpn_requirement("   ").is_none());
    assert_eq!(canonical_vpn_requirement(""), "");
    assert_eq!(vpn_requirement_label(""), "\u{2014}");
}

#[test]
fn an_unknown_prefix_is_a_profile_name_not_a_dropped_requirement() {
    // A netbird profile really can contain a colon.
    let r = parse_vpn_requirement("acme:prod").unwrap();
    assert_eq!(r.provider, Some(ProviderId::Netbird));
    assert_eq!(r.profile.as_deref(), Some("acme:prod"));
}

#[test]
fn same_local_listen_port_conflicts_across_forward_types() {
    let a = tunnel("a", ForwardType::Local, 5432, 5432);
    let b = tunnel("b", ForwardType::Dynamic, 5432, 0);
    assert_eq!(tunnel_conflict(&a, &b), Some("local port 5432".into()));
}

#[test]
fn different_local_ports_do_not_conflict() {
    let a = tunnel("a", ForwardType::Local, 5432, 5432);
    let b = tunnel("b", ForwardType::Local, 5433, 5432);
    assert_eq!(tunnel_conflict(&a, &b), None);
}

#[test]
fn remote_forwards_bind_on_the_ssh_host_not_locally() {
    // -R listens on the ssh host, so a local port of the same number is free.
    let local = tunnel("local", ForwardType::Local, 8080, 80);
    let remote = tunnel("remote", ForwardType::Remote, 8080, 8080);
    assert_eq!(tunnel_conflict(&local, &remote), None);

    let same = tunnel("same", ForwardType::Remote, 9000, 8080);
    assert_eq!(
        tunnel_conflict(&remote, &same),
        Some("port 8080 on bastion".into())
    );

    let other_host = Tunnel {
        ssh_host: "other".into(),
        ..tunnel("elsewhere", ForwardType::Remote, 8080, 8080)
    };
    assert_eq!(tunnel_conflict(&remote, &other_host), None);
}

#[test]
fn a_canonical_requirement_stays_as_it_is() {
    for req in ["", "*", "work", "netbird:*", "wireguard: home ", "acme:prod"] {
        let once = canonical_vpn_requirement(req);
        assert_eq!(canonical_vpn_requirement(&once), once);
    }
}

#[test]
fn the_forward_types_go_round() {
    assert_eq!(ForwardType::Local.next(), ForwardType::Remote);
    assert_eq!(ForwardType::Remote.next(), ForwardType::Dynamic);
    assert_eq!(ForwardType::Dynamic.next(), ForwardType::Local);
    assert_eq!(ForwardType::Local.prev(), ForwardType::Dynamic);
}

#[test]
fn a_tunnel_says_what_it_requires() {
    let t = Tunnel {
        requires_vpn: "work".into(),
        depends_on: "base".into(),
        ..tunnel("a", ForwardType::Local, 1, 2)
    };
    let r = t.required();
    assert_eq!(r.vpn, "work");
    assert_eq!(r.tunnel, "base");
}

#[test]
fn a_client_is_known_by_its_slug() {
    for id in ProviderId::all() {
        assert_eq!(ProviderId::from_slug(id.slug()), Some(id));
    }
    assert_eq!(ProviderId::from_slug("nothing"), None);
}
