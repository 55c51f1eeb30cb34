//! What no report shows: the secrets that are stored.
//!
//! Two states that differ in nothing but the characters of stored secrets have
//! the same report, the files beside it among it. So a report tells of a secret
//! how long it is, and nothing else.

use vstd::prelude::*;
use crate::app::App;
use crate::list::lemma_first_where_same;
use crate::live::{called, place_of, Named};
use crate::logs::Subject;
use crate::plan::{ssh_index, ssh_named, Job, Lists};
use crate::report::{
    chain_log_text, chain_spec, header_of, programs_for_all, report_of, section_text, with_chain,
    with_clients, with_conn, with_conns, with_devices, with_environment, with_everything, with_host,
    with_hosts, with_links, with_logs, with_needs, with_openvpn, with_subject, with_target,
    with_tunnel, with_tunnels, with_vpn_profile, with_what_comes_first, with_what_it_did,
    with_wireguard, Facts, OpenvpnFacts, WireguardFacts,
};
use crate::ssh;
use crate::types::{OpenvpnProfile, RdpConnection, SshHost, Tunnel, WireguardProfile};
use crate::vpn::ProviderId;

verus! {

/// The same host, but for a password that is as long.
pub open spec fn same_host(a: SshHost, b: SshHost) -> bool {
    &&& a == (SshHost { password: a.password, ..b })
    &&& a.password@.len() == b.password@.len()
}

/// The same WireGuard profile, but for keys that are as long.
pub open spec fn same_wireguard(a: WireguardProfile, b: WireguardProfile) -> bool {
    &&& a == (WireguardProfile { private_key: a.private_key, preshared_key: a.preshared_key, ..b })
    &&& a.private_key@.len() == b.private_key@.len()
    &&& a.preshared_key@.len() == b.preshared_key@.len()
}

/// The same OpenVPN profile, but for a password that is as long.
pub open spec fn same_openvpn(a: OpenvpnProfile, b: OpenvpnProfile) -> bool {
    &&& a == (OpenvpnProfile { password: a.password, ..b })
    &&& a.password@.len() == b.password@.len()
}

pub open spec fn same_hosts(a: Seq<SshHost>, b: Seq<SshHost>) -> bool {
    a.len() == b.len() && forall|i: int| 0 <= i < a.len() ==> same_host(#[trigger] a[i], b[i])
}

pub open spec fn same_wireguards(a: Seq<WireguardProfile>, b: Seq<WireguardProfile>) -> bool {
    a.len() == b.len() && forall|i: int| 0 <= i < a.len() ==> same_wireguard(#[trigger] a[i], b[i])
}

pub open spec fn same_openvpns(a: Seq<OpenvpnProfile>, b: Seq<OpenvpnProfile>) -> bool {
    a.len() == b.len() && forall|i: int| 0 <= i < a.len() ==> same_openvpn(#[trigger] a[i], b[i])
}

/// The same state, but for stored secrets that are as long.
pub open spec fn same_but_secrets(a: App, b: App) -> bool {
    &&& a == (App { ssh_hosts: a.ssh_hosts, vpn_cfg: a.vpn_cfg, ..b })
    &&& same_hosts(a.ssh_hosts@, b.ssh_hosts@)
    &&& same_wireguards(a.vpn_cfg.wireguard@, b.vpn_cfg.wireguard@)
    &&& same_openvpns(a.vpn_cfg.openvpn@, b.vpn_cfg.openvpn@)
    &&& a.vpn_cfg.tailscale == b.vpn_cfg.tailscale
}

proof fn lemma_same_place<T: Named>(a: Seq<T>, b: Seq<T>, name: Seq<char>)
    requires
        a.len() == b.len(),
        forall|i: int| 0 <= i < a.len() ==> (#[trigger] a[i]).name_spec() == b[i].name_spec(),
    ensures
        place_of(a, name) == place_of(b, name),
{
    lemma_first_where_same(a, b, called::<T>(name));
}

proof fn lemma_same_tunnel(out: Seq<char>, a: App, b: App, clock: u64, t: Tunnel)
    requires
        same_but_secrets(a, b),
    ensures
        with_tunnel(out, a, clock, t) == with_tunnel(out, b, clock, t),
{
    reveal(with_tunnel);
    reveal(with_needs);
}

proof fn lemma_same_conn(out: Seq<char>, a: App, b: App, clock: u64, c: RdpConnection)
    requires
        same_but_secrets(a, b),
    ensures
        with_conn(out, a, clock, c) == with_conn(out, b, clock, c),
{
    reveal(with_conn);
    reveal(with_needs);
}

/// What a report says of a host is the same for any other password of the same
/// length.
pub proof fn law_report_hides_a_host_password(
    out: Seq<char>,
    a: App,
    b: App,
    x: SshHost,
    y: SshHost,
)
    requires
        same_but_secrets(a, b),
        same_host(x, y),
    ensures
        with_host(out, a, x) == with_host(out, b, y),
{
    reveal(with_host);
    reveal(with_needs);
    ssh::law_password_is_never_an_argument(a.machine, x, y, a.ssh_password_helper);
}

proof fn lemma_same_wireguard(
    out: Seq<char>,
    x: WireguardProfile,
    y: WireguardProfile,
    f: WireguardFacts,
)
    requires
        same_wireguard(x, y),
    ensures
        with_wireguard(out, x, f) == with_wireguard(out, y, f),
{
    reveal(with_wireguard);
}

proof fn lemma_same_openvpn(
    out: Seq<char>,
    a: App,
    b: App,
    facts: Facts,
    x: OpenvpnProfile,
    y: OpenvpnProfile,
    f: OpenvpnFacts,
)
    requires
        same_but_secrets(a, b),
        same_openvpn(x, y),
    ensures
        with_openvpn(out, a, facts, x, f) == with_openvpn(out, b, facts, y, f),
{
    reveal(with_openvpn);
}

/// What a report says of a VPN profile is the same for any other keys and
/// passwords of the same lengths.
pub proof fn law_report_hides_a_vpn_secret(
    out: Seq<char>,
    a: App,
    b: App,
    facts: Facts,
    provider: ProviderId,
    profile: Seq<char>,
)
    requires
        same_but_secrets(a, b),
    ensures
        with_vpn_profile(out, a, facts, provider, profile) == with_vpn_profile(
            out,
            b,
            facts,
            provider,
            profile,
        ),
{
    reveal(with_vpn_profile);
    let wa = a.vpn_cfg.wireguard@;
    let wb = b.vpn_cfg.wireguard@;
    let oa = a.vpn_cfg.openvpn@;
    let ob = b.vpn_cfg.openvpn@;
    lemma_same_place(wa, wb, profile);
    lemma_same_place(oa, ob, profile);
    crate::list::lemma_first_where(wa, called(profile));
    crate::list::lemma_first_where(oa, called(profile));
    let i = place_of(wa, profile);
    let j = place_of(oa, profile);
    assert forall|s: Seq<char>| i < wa.len() implies #[trigger] with_wireguard(
        s,
        wa[i],
        facts.wireguard@[i],
    ) == with_wireguard(s, wb[i], facts.wireguard@[i]) by {
        lemma_same_wireguard(s, wa[i], wb[i], facts.wireguard@[i]);
    }
    assert forall|s: Seq<char>| j < oa.len() implies #[trigger] with_openvpn(
        s,
        a,
        facts,
        oa[j],
        facts.openvpn@[j],
    ) == with_openvpn(s, b, facts, ob[j], facts.openvpn@[j]) by {
        lemma_same_openvpn(s, a, b, facts, oa[j], ob[j], facts.openvpn@[j]);
    }
}

proof fn lemma_same_target(out: Seq<char>, a: App, b: App, facts: Facts, t: Subject)
    requires
        same_but_secrets(a, b),
    ensures
        with_target(out, a, facts, t) == with_target(out, b, facts, t),
{
    match t {
        Subject::Program => {},
        Subject::Tunnel(n) => {
            lemma_same_tunnel(out, a, b, facts.clock, a.tunnels@[place_of(a.tunnels@, n)]);
        },
        Subject::Ssh(n) => {
            lemma_same_ssh(out, a, b, n);
        },
        Subject::Rdp(n) => {
            lemma_same_conn(out, a, b, facts.clock, a.rdp_conns@[place_of(a.rdp_conns@, n)]);
        },
        Subject::Vpn(p, n) => {
            law_report_hides_a_vpn_secret(out, a, b, facts, p, n);
        },
    }
}

proof fn lemma_same_ssh(out: Seq<char>, a: App, b: App, n: Seq<char>)
    requires
        same_but_secrets(a, b),
    ensures
        ({
            let i = place_of(a.ssh_hosts@, n);
            &&& place_of(b.ssh_hosts@, n) == i
            &&& i < a.ssh_hosts@.len() ==> with_host(out, a, a.ssh_hosts@[i]) == with_host(
                out,
                b,
                b.ssh_hosts@[i],
            )
        }),
{
    let x = a.ssh_hosts@;
    let y = b.ssh_hosts@;
    lemma_same_place(x, y, n);
    crate::list::lemma_first_where(x, called(n));
    let i = place_of(x, n);
    if i < x.len() {
        law_report_hides_a_host_password(out, a, b, x[i], y[i]);
    }
}

proof fn lemma_same_requires(a: Lists, b: Lists, j: Job)
    requires
        a == (Lists { ssh_hosts: a.ssh_hosts, ..b }),
        same_hosts(a.ssh_hosts, b.ssh_hosts),
    ensures
        a.requires_of_spec(j) == b.requires_of_spec(j),
{
    if let Job::Ssh(n) = j {
        let p = ssh_named(n);
        lemma_first_where_same(a.ssh_hosts, b.ssh_hosts, p);
        crate::list::lemma_first_where(a.ssh_hosts, p);
        let i = ssh_index(a.ssh_hosts, n);
        if i < a.ssh_hosts.len() {
            assert(same_host(a.ssh_hosts[i], b.ssh_hosts[i]));
        }
    }
}

proof fn lemma_same_gathered(a: Lists, b: Lists, targets: Seq<Job>)
    requires
        a == (Lists { ssh_hosts: a.ssh_hosts, ..b }),
        same_hosts(a.ssh_hosts, b.ssh_hosts),
    ensures
        a.gathered(targets) == b.gathered(targets),
    decreases targets.len(),
{
    if targets.len() > 0 {
        lemma_same_gathered(a, b, targets.drop_last());
        lemma_same_requires(a, b, targets.last());
    }
}

/// Which connections a plan holds, and in what order, has nothing to do with any
/// secret.
pub proof fn law_plan_ignores_secrets(a: App, b: App, targets: Seq<Job>)
    requires
        same_but_secrets(a, b),
    ensures
        a.lists().plan(targets) == b.lists().plan(targets),
{
    lemma_same_gathered(a.lists(), b.lists(), targets);
}

proof fn lemma_same_chain(a: App, b: App, t: Subject)
    requires
        same_but_secrets(a, b),
    ensures
        chain_spec(a, t) == chain_spec(b, t),
{
    if let Some(j) = crate::report::step_for(t) {
        law_plan_ignores_secrets(a, b, seq![j]);
    }
}

proof fn lemma_same_subject(out: Seq<char>, a: App, b: App, facts: Facts, t: Subject)
    requires
        same_but_secrets(a, b),
    ensures
        with_subject(out, a, facts, t) == with_subject(out, b, facts, t),
{
    reveal(with_subject);
    reveal(with_chain);
    let head = out + section_text("subject: "@ + crate::logs::title_of(t));
    lemma_same_target(head, a, b, facts, t);
    match t {
        Subject::Tunnel(n) => {
            law_plan_ignores_secrets(a, b, seq![Job::Tunnel(n)]);
        },
        Subject::Ssh(n) => {
            lemma_same_ssh(head, a, b, n);
            law_plan_ignores_secrets(a, b, seq![Job::Ssh(n)]);
        },
        Subject::Rdp(n) => {
            law_plan_ignores_secrets(a, b, seq![Job::Rdp(n, Seq::empty())]);
        },
        _ => {},
    }
}

proof fn lemma_same_links(out: Seq<char>, a: App, b: App, facts: Facts, chain: Seq<Subject>)
    requires
        same_but_secrets(a, b),
    ensures
        with_links(out, a, facts, chain) == with_links(out, b, facts, chain),
    decreases chain.len(),
{
    if chain.len() > 0 {
        let head = chain.drop_last();
        lemma_same_links(out, a, b, facts, head);
        let s = with_links(out, a, facts, head) + ("### "@ + crate::logs::title_of(chain.last())
            + "\n"@);
        lemma_same_target(s, a, b, facts, chain.last());
    }
}

proof fn lemma_same_tunnels(out: Seq<char>, a: App, b: App, clock: u64, ts: Seq<Tunnel>)
    requires
        same_but_secrets(a, b),
    ensures
        with_tunnels(out, a, clock, ts) == with_tunnels(out, b, clock, ts),
    decreases ts.len(),
{
    if ts.len() > 0 {
        let head = ts.drop_last();
        lemma_same_tunnels(out, a, b, clock, head);
        let s = with_tunnels(out, a, clock, head) + ("### "@ + ts.last().name@ + "\n"@);
        lemma_same_tunnel(s, a, b, clock, ts.last());
    }
}

proof fn lemma_same_hosts(out: Seq<char>, a: App, b: App, x: Seq<SshHost>, y: Seq<SshHost>)
    requires
        same_but_secrets(a, b),
        same_hosts(x, y),
    ensures
        with_hosts(out, a, x) == with_hosts(out, b, y),
    decreases x.len(),
{
    if x.len() > 0 {
        let p = x.drop_last();
        let q = y.drop_last();
        assert forall|i: int| 0 <= i < p.len() implies same_host(#[trigger] p[i], q[i]) by {
            assert(same_host(x[i], y[i]));
        }
        lemma_same_hosts(out, a, b, p, q);
        assert(same_host(x[x.len() - 1], y[x.len() - 1]));
        let s = with_hosts(out, a, p) + ("### "@ + x.last().name@ + "\n"@);
        law_report_hides_a_host_password(s, a, b, x.last(), y.last());
    }
}

proof fn lemma_same_conns(out: Seq<char>, a: App, b: App, clock: u64, cs: Seq<RdpConnection>)
    requires
        same_but_secrets(a, b),
    ensures
        with_conns(out, a, clock, cs) == with_conns(out, b, clock, cs),
    decreases cs.len(),
{
    if cs.len() > 0 {
        let head = cs.drop_last();
        lemma_same_conns(out, a, b, clock, head);
        let s = with_conns(out, a, clock, head) + ("### "@ + cs.last().name@ + "\n"@);
        lemma_same_conn(s, a, b, clock, cs.last());
    }
}

proof fn lemma_same_programs(a: App, b: App, facts: Facts, ts: Seq<Subject>)
    requires
        same_but_secrets(a, b),
    ensures
        programs_for_all(a, facts, ts) == programs_for_all(b, facts, ts),
    decreases ts.len(),
{
    if ts.len() > 0 {
        lemma_same_programs(a, b, facts, ts.drop_last());
    }
}

proof fn lemma_same_devices(out: Seq<char>, a: App, b: App, facts: Facts, n: nat)
    requires
        same_but_secrets(a, b),
    ensures
        with_devices(out, a, facts, n) == with_devices(out, b, facts, n),
    decreases n,
{
    if n > 0 {
        lemma_same_devices(out, a, b, facts, (n - 1) as nat);
    }
}

proof fn lemma_same_environment(out: Seq<char>, a: App, b: App, facts: Facts, ts: Seq<Subject>)
    requires
        same_but_secrets(a, b),
    ensures
        with_environment(out, a, facts, ts) == with_environment(out, b, facts, ts),
{
    reveal(with_environment);
    lemma_same_programs(a, b, facts, ts);
    assert forall|s: Seq<char>, n: nat| #[trigger] with_devices(s, a, facts, n) == with_devices(
        s,
        b,
        facts,
        n,
    ) by {
        lemma_same_devices(s, a, b, facts, n);
    }
}

proof fn lemma_same_chain_log(a: App, b: App, chain: Seq<Subject>)
    requires
        same_but_secrets(a, b),
    ensures
        chain_log_text(a, chain) == chain_log_text(b, chain),
    decreases chain.len(),
{
    if chain.len() > 0 {
        lemma_same_chain_log(a, b, chain.drop_last());
    }
}

/// The part of the program's own report that lists every connection.
proof fn lemma_same_everything(out: Seq<char>, a: App, b: App, clock: u64)
    requires
        same_but_secrets(a, b),
    ensures
        with_everything(out, a, clock) == with_everything(out, b, clock),
{
    reveal(with_everything);
    let out = with_clients(out + section_text("vpn clients"@), a.vpn.providers@);
    let head = out + section_text("tunnels"@);
    lemma_same_tunnels(head, a, b, clock, a.tunnels@);
    let out = if a.tunnels@.len() == 0 {
        head + "none configured\n"@
    } else {
        with_tunnels(head, a, clock, a.tunnels@)
    };
    let head = out + section_text("ssh hosts"@);
    lemma_same_hosts(head, a, b, a.ssh_hosts@, b.ssh_hosts@);
    let out = if a.ssh_hosts@.len() == 0 {
        head + "none configured\n"@
    } else {
        with_hosts(head, a, a.ssh_hosts@)
    };
    lemma_same_conns(out + section_text("rdp connections"@), a, b, clock, a.rdp_conns@);
}

proof fn lemma_same_first(out: Seq<char>, a: App, b: App, facts: Facts, chain: Seq<Subject>)
    requires
        same_but_secrets(a, b),
    ensures
        with_what_comes_first(out, a, facts, chain) == with_what_comes_first(out, b, facts, chain),
{
    reveal(with_what_comes_first);
    lemma_same_links(out + section_text("what has to be up first"@), a, b, facts, chain);
}

proof fn lemma_same_logs(
    out: Seq<char>,
    a: App,
    b: App,
    t: Subject,
    chain: Seq<Subject>,
    stem: Seq<char>,
    now: u64,
)
    requires
        same_but_secrets(a, b),
    ensures
        with_logs(out, a, t, chain, stem, now) == with_logs(out, b, t, chain, stem, now),
{
    reveal(with_logs);
    lemma_same_chain_log(a, b, chain);
}

/// A report never shows a stored secret: whatever it is about, it is the same for
/// any other passwords and keys of the same lengths, and so is the file beside
/// it.
pub proof fn law_report_hides_stored_secrets(
    a: App,
    b: App,
    facts: Facts,
    t: Subject,
    stem: Seq<char>,
)
    requires
        same_but_secrets(a, b),
    ensures
        report_of(a, facts, t, stem) == report_of(b, facts, t, stem),
{
    reveal(header_of);
    let chain = chain_spec(a, t);
    lemma_same_chain(a, b, t);
    let out = header_of(a, facts, t);
    lemma_same_subject(out, a, b, facts, t);
    let out = with_subject(out, a, facts, t);
    lemma_same_everything(out, a, b, facts.clock);
    lemma_same_first(out, a, b, facts, chain);
    let out = if t is Program {
        with_everything(out, a, facts.clock)
    } else {
        with_what_comes_first(out, a, facts, chain)
    };
    lemma_same_environment(out, a, b, facts, seq![t] + chain);
    let out = with_environment(out, a, facts, seq![t] + chain);
    let out = with_what_it_did(out, a.journal.held(), t, chain);
    lemma_same_logs(out, a, b, t, chain, stem, facts.now);
}

}
