//! What is kept and what is dropped: logs, finished entries, sessions on quitting,
//! and what a form accepts.

use vstd::prelude::*;
use crate::activation_laws::is_running;
use crate::app::App;
use crate::clearing::{
    cleared_everywhere, forgot_vpn_password, ovpn_going, rdp_going, refresh_all_acts,
};
use crate::effects::{Act, Store};
use crate::live::{lemma_place, one_each, place_of, LiveOvpn, LiveRdp, LiveTunnel, Named};
use crate::logs::{covers_spec, pushed, shown, Entry, LogTarget, Subject};
use crate::browser::opt_string;
use crate::plan_laws::lemma_kept_contains;
use crate::queries::{
    accounts, owner_of, picked_conns, picked_hosts, picked_tunnels, tunnel_lines, unheld, wishes,
    wishing, Wanted,
};
use crate::quitting::{left_notes, live_lines, quit_requested};
use crate::rdp_form::RdpForm;
use crate::running_laws::lemma_out_with_all;
use crate::ssh_form::SshForm;
use crate::teardown::{all_names, stop_ovpn_acts};
use crate::text::{ascii_lowered, trimmed};
use crate::tunnel::Status;
use crate::tunnel_form::TunnelForm;
use crate::tunnels_tab::failed_names;
use crate::types::{
    need_of, ForwardType, OpenvpnProfile, RdpConnection, SshHost, Tunnel,
};
use crate::vpn::ProviderId;
use crate::vpn_view::{Link, LinkKind, Process, ProviderState};

verus! {

// ---------------------------------------------------------------------------
// Logs
// ---------------------------------------------------------------------------

/// A pane shows what is about its own connection and nothing of any other. The
/// pane of a VPN client shows all of that client's profiles; the pane of a profile
/// shows what is about the client as a whole as well, and no other profile.
pub proof fn law_pane_shows_its_own(pane: Subject, e: Subject)
    ensures
        pane is Tunnel || pane is Ssh || pane is Rdp ==> (covers_spec(pane, e) <==> e == pane),
        pane matches Subject::Vpn(id, want) ==> (covers_spec(pane, e) ==> (e matches Subject::Vpn(
            other,
            got,
        ) && other == id && (want == got || want.len() == 0 || got.len() == 0))),
        forall|id: ProviderId, n: Seq<char>| #[trigger]
            covers_spec(Subject::Vpn(id, Seq::empty()), Subject::Vpn(id, n)),
        forall|id: ProviderId, n: Seq<char>| #[trigger]
            covers_spec(Subject::Vpn(id, n), Subject::Vpn(id, Seq::empty())),
{
}

/// What a pane shows of a journal are the entries that it covers, in their order:
/// of one piece and then another, what it shows of the one and then of the other.
pub proof fn law_journal_is_shown_in_order(
    a: Seq<(LogTarget, Entry)>,
    b: Seq<(LogTarget, Entry)>,
    pane: Subject,
)
    ensures
        shown(a + b, pane) == shown(a, pane) + shown(b, pane),
        b.len() == 1 && covers_spec(pane, b[0].0@) ==> shown(b, pane) == seq![b[0].1],
        b.len() == 1 && !covers_spec(pane, b[0].0@) ==> shown(b, pane).len() == 0,
    decreases b.len(),
{
    if b.len() == 0 {
        assert(a + b =~= a);
        assert(shown(a, pane) + shown(b, pane) =~= shown(a, pane));
    } else {
        law_journal_is_shown_in_order(a, b.drop_last(), pane);
        assert((a + b).drop_last() =~= a + b.drop_last());
        assert((a + b).last() == b.last());
        assert(shown(a + b, pane) =~= shown(a, pane) + shown(b, pane));
        if b.len() == 1 {
            assert(b.last() == b[0]);
            assert(b.drop_last().len() == 0);
            assert(shown(b.drop_last(), pane) =~= Seq::empty());
            if covers_spec(pane, b[0].0@) {
                assert(shown(b, pane) =~= seq![b[0].1]);
            }
        }
    }
}

/// Every line that a tunnel's ssh printed and that is still held is in the
/// tunnel's pane.
pub proof fn law_pane_shows_the_output(live: Seq<LiveTunnel>, i: int, e: Entry)
    requires
        0 <= i < live.len(),
        live[i].log.held().contains(e),
    ensures
        tunnel_lines(live, Subject::Tunnel(live[i].name@)).contains(e),
        tunnel_lines(live, Subject::Program).contains(e),
    decreases live.len(),
{
    let held = live[i].log.held();
    let k = choose|k: int| 0 <= k < held.len() && held[k] == e;
    let head = live.drop_last();
    let pane = Subject::Tunnel(live[i].name@);
    let p = tunnel_lines(head, pane);
    let q = tunnel_lines(head, Subject::Program);
    let all = tunnel_lines(live, pane);
    let every = tunnel_lines(live, Subject::Program);
    if i < head.len() {
        assert(head[i] == live[i]);
        law_pane_shows_the_output(head, i, e);
        let m = choose|m: int| 0 <= m < p.len() && p[m] == e;
        assert(all[m] == e);
        let n = choose|n: int| 0 <= n < q.len() && q[n] == e;
        assert(every[n] == e);
    } else {
        assert(all[p.len() + k] == e);
        assert(every[q.len() + k] == e);
    }
}

/// What comes in last is held last. Nothing else is lost but the oldest, and that
/// only where there is no room.
pub proof fn law_newest_is_held<T>(s: Seq<T>, x: T, cap: nat)
    requires
        cap > 0,
        s.len() <= cap,
    ensures
        pushed(s, x, cap).len() > 0,
        pushed(s, x, cap).last() == x,
        pushed(s, x, cap).len() <= cap,
        s.len() < cap ==> pushed(s, x, cap).drop_last() == s,
        s.len() == cap ==> seq![s[0]] + pushed(s, x, cap).drop_last() == s,
{
    if s.len() < cap {
        assert(pushed(s, x, cap).drop_last() =~= s);
    } else {
        assert(seq![s[0]] + pushed(s, x, cap).drop_last() =~= s);
    }
}

// ---------------------------------------------------------------------------
// What is over
// ---------------------------------------------------------------------------

/// Clearing everything drops exactly what is over: the tunnels that have failed,
/// the sessions that have exited, how sessions ended and what went wrong with the
/// clients. What is running stays.
pub proof fn law_clearing_drops_what_is_over(a: App, b: App, out: Seq<Act>, i: int)
    requires
        a.wf(),
        cleared_everywhere(a, b, out),
    ensures
        0 <= i < a.active@.len() ==> (is_running(b.active@, a.active@[i].name@)
            <==> a.active@[i].status != Status::Failed),
        forall|l: LiveRdp| #[trigger]
            b.rdp_active@.contains(l) <==> a.rdp_active@.contains(l) && !(l.status is Exited),
        forall|l: LiveOvpn| #[trigger]
            b.ovpn_active@.contains(l) <==> a.ovpn_active@.contains(l) && !(l.status is Exited),
        b.ssh_last@.len() == 0,
        forall|k: int| 0 <= k < b.vpn.providers@.len() ==> (#[trigger] b.vpn.providers@[k]).error
            is None,
        b.tunnels == a.tunnels && b.ssh_hosts == a.ssh_hosts && b.rdp_conns == a.rdp_conns,
{
    lemma_kept_contains(a.rdp_active@, rdp_going());
    lemma_kept_contains(a.ovpn_active@, ovpn_going());
    if 0 <= i < a.active@.len() {
        let failed = failed_names(a.active@);
        let name = a.active@[i].name@;
        assert(a.active@[i].name_spec() == name);
        crate::live::lemma_has_name(a.active@, name);
        crate::live::lemma_has_name(b.active@, name);
        lemma_out_with_all(a.active@, failed, name);
        if a.active@[i].status == Status::Failed {
            crate::reconnect::lemma_failed_is_listed(a.active@, i);
        } else if failed.contains(name) {
            crate::reconnect::lemma_listed_has_failed(a.active@, name);
            let k = choose|k: int|
                0 <= k < a.active@.len() && (#[trigger] a.active@[k]).name@ == name
                    && a.active@[k].status == Status::Failed;
            if k < i {
                assert(a.active@[k].name_spec() != a.active@[i].name_spec());
            } else {
                assert(a.active@[i].name_spec() != a.active@[k].name_spec());
            }
        }
    }
}

/// `p` on an openvpn profile drops the password of that profile and nothing else,
/// and writes the file where there was one to drop.
pub proof fn law_forgotten_profile_password_is_gone(a: App, b: App, out: Seq<Act>, k: int)
    requires
        forgot_vpn_password(a, b, out),
        a.vpn.here().id == ProviderId::Openvpn,
        a.vpn.here().selected < a.vpn.here().profiles@.len(),
        a.vpn.here().profiles@[a.vpn.here().selected as int].foreign is None,
        0 <= k < a.vpn_cfg.openvpn@.len(),
        a.vpn_cfg.openvpn@[k].name@ == a.vpn.here().profiles@[a.vpn.here().selected as int].name@,
        forall|i: int|
            0 <= i < k ==> (#[trigger] a.vpn_cfg.openvpn@[i]).name@ != a.vpn_cfg.openvpn@[k].name@,
    ensures
        b.vpn_cfg.openvpn@.len() == a.vpn_cfg.openvpn@.len(),
        b.vpn_cfg.openvpn@[k].password@.len() == 0,
        forall|i: int| 0 <= i < a.vpn_cfg.openvpn@.len() && i != k ==> #[trigger]
            b.vpn_cfg.openvpn@[i] == a.vpn_cfg.openvpn@[i],
        b.vpn_cfg.openvpn@[k] == (OpenvpnProfile {
            password: b.vpn_cfg.openvpn@[k].password,
            ..a.vpn_cfg.openvpn@[k]
        }),
        a.vpn_cfg.openvpn@[k].password@.len() > 0 <==> out.contains(Act::Save(Store::Vpn)),
{
    let ps = a.vpn_cfg.openvpn@;
    let name = ps[k].name@;
    lemma_place(ps, name);
    assert(ps[k].name_spec() == name);
    if place_of(ps, name) < k {
        assert(ps[place_of(ps, name)].name_spec() == name);
    }
    if ps[k].password@.len() > 0 {
        assert(out[0] == Act::Save(Store::Vpn));
    } else {
        assert(out[0] is Flash);
    }
}

/// Refreshing everything asks every client.
pub proof fn law_every_client_is_refreshed(id: ProviderId)
    ensures
        refresh_all_acts().contains(Act::Refresh(id)),
        refresh_all_acts().contains(Act::Scan),
{
    let all = refresh_all_acts();
    assert(all[0] == Act::Refresh(ProviderId::Netbird));
    assert(all[1] == Act::Refresh(ProviderId::Wireguard));
    assert(all[2] == Act::Refresh(ProviderId::Openvpn));
    assert(all[3] == Act::Refresh(ProviderId::Tailscale));
    assert(all[4] == Act::Scan);
}

// ---------------------------------------------------------------------------
// Quitting
// ---------------------------------------------------------------------------

proof fn lemma_live_lines(live: Seq<LiveOvpn>)
    ensures
        live_lines(live).len() == 0 <==> forall|i: int|
            0 <= i < live.len() ==> (#[trigger] live[i]).status is Exited,
    decreases live.len(),
{
    if live.len() > 0 {
        let head = live.drop_last();
        lemma_live_lines(head);
        assert(live[live.len() - 1] == live.last());
        if live_lines(live).len() == 0 {
            assert forall|i: int| 0 <= i < live.len() implies (#[trigger] live[i]).status
                is Exited by {
                if i < head.len() {
                    assert(head[i].status is Exited);
                }
            }
        } else if live.last().status is Exited {
            let i = choose|i: int| 0 <= i < head.len() && !((#[trigger] head[i]).status is Exited);
            assert(live[i] == head[i]);
        }
    }
}

proof fn lemma_each_is_stopped(live: Seq<LiveOvpn>, names: Seq<Seq<char>>, n: Seq<char>)
    requires
        one_each(live),
        names.contains(n),
        crate::live::has_name(live, n),
    ensures
        stop_ovpn_acts(live, names).contains(Act::StopOpenvpn(n)),
    decreases names.len(),
{
    let all = stop_ovpn_acts(live, names);
    let head = names.drop_last();
    let before = stop_ovpn_acts(live, head);
    let x = Act::StopOpenvpn(n);
    if head.contains(n) {
        lemma_each_is_stopped(live, head, n);
        let i = choose|i: int| 0 <= i < before.len() && before[i] == x;
        assert(all[i] == x);
    } else {
        let i = choose|i: int| 0 <= i < names.len() && names[i] == n;
        if i < head.len() {
            assert(head[i] == n);
        }
        assert(names.last() == n);
        lemma_out_with_all(live, head, n);
        assert(all[before.len() as int] == x);
    }
}

/// Quitting with no openvpn session left running just quits. With one that is
/// running it stops every one of them, leaves them, or asks, as it is configured:
/// it asks wherever the setting says neither, and does not quit then.
pub proof fn law_quit_follows_the_setting(a: App, b: App, out: Seq<Act>, i: int)
    requires
        a.wf(),
        quit_requested(a, b, out),
        !a.should_quit,
        0 <= i < a.ovpn_active@.len() ==> !(a.ovpn_active@[i].status is Exited),
    ensures
        (forall|k: int| 0 <= k < a.ovpn_active@.len() ==> (#[trigger] a.ovpn_active@[k]).status
            is Exited) ==> b.should_quit && out.len() == 0,
        0 <= i < a.ovpn_active@.len() ==> {
            let want = ascii_lowered(trimmed(a.app_config.vpn.on_exit@));
            &&& want == "stop"@ ==> b.should_quit && b.ovpn_active@.len() == 0 && out.contains(
                Act::StopOpenvpn(a.ovpn_active@[i].name@),
            )
            &&& want == "keep"@ ==> b.should_quit && b.ovpn_active == a.ovpn_active && forall|k: int|
                0 <= k < out.len() ==> (#[trigger] out[k]) is Note
            &&& want != "stop"@ && want != "keep"@ ==> !b.should_quit && b.quit_prompt is Some
                && b.ovpn_active == a.ovpn_active && out.len() == 0
        },
{
    lemma_live_lines(a.ovpn_active@);
    reveal_strlit("stop");
    reveal_strlit("keep");
    assert("stop"@[0] != "keep"@[0]);
    if 0 <= i < a.ovpn_active@.len() {
        let live = a.ovpn_active@;
        let n = live[i].name@;
        let names = all_names(live);
        assert(names[i] == n);
        crate::live::lemma_has_name(live, n);
        assert(live[i].name_spec() == n);
        lemma_each_is_stopped(live, names, n);
        lemma_left_notes(live);
    }
}

proof fn lemma_left_notes(live: Seq<LiveOvpn>)
    ensures
        forall|k: int| 0 <= k < left_notes(live).len() ==> (#[trigger] left_notes(live)[k]) is Note,
    decreases live.len(),
{
    if live.len() > 0 {
        let head = live.drop_last();
        lemma_left_notes(head);
        assert forall|k: int| 0 <= k < left_notes(live).len() implies (
        #[trigger] left_notes(live)[k]) is Note by {
            if k < left_notes(head).len() {
                assert(left_notes(live)[k] == left_notes(head)[k]);
            }
        }
    }
}

// ---------------------------------------------------------------------------
// Dependents
// ---------------------------------------------------------------------------

/// What depends on a tunnel is what names it: every record whose `depends_on` is
/// that name is listed.
pub proof fn law_dependents_are_listed(
    ts: Seq<Tunnel>,
    hs: Seq<SshHost>,
    cs: Seq<RdpConnection>,
    w: Wanted,
    i: int,
)
    ensures
        0 <= i < ts.len() && wishes(w, ts[i].requires_vpn@, ts[i].depends_on@) ==> wishing(
            ts,
            hs,
            cs,
            w,
        ).contains("tun "@ + ts[i].name@),
        0 <= i < hs.len() && wishes(w, hs[i].requires_vpn@, hs[i].depends_on@) ==> wishing(
            ts,
            hs,
            cs,
            w,
        ).contains("ssh "@ + hs[i].name@),
        0 <= i < cs.len() && wishes(w, cs[i].requires_vpn@, cs[i].depends_on@) ==> wishing(
            ts,
            hs,
            cs,
            w,
        ).contains("rdp "@ + cs[i].name@),
{
    let a = picked_tunnels(ts, crate::queries::tunnel_wishes(w));
    let b = picked_hosts(hs, crate::queries::host_wishes(w));
    let c = picked_conns(cs, crate::queries::conn_wishes(w));
    let all = wishing(ts, hs, cs, w);
    if 0 <= i < ts.len() && wishes(w, ts[i].requires_vpn@, ts[i].depends_on@) {
        lemma_picked_tunnels(ts, crate::queries::tunnel_wishes(w), i);
        let k = choose|k: int| 0 <= k < a.len() && a[k] == "tun "@ + ts[i].name@;
        assert(all[k] == "tun "@ + ts[i].name@);
    }
    if 0 <= i < hs.len() && wishes(w, hs[i].requires_vpn@, hs[i].depends_on@) {
        lemma_picked_hosts(hs, crate::queries::host_wishes(w), i);
        let k = choose|k: int| 0 <= k < b.len() && b[k] == "ssh "@ + hs[i].name@;
        assert(all[a.len() + k] == "ssh "@ + hs[i].name@);
    }
    if 0 <= i < cs.len() && wishes(w, cs[i].requires_vpn@, cs[i].depends_on@) {
        lemma_picked_conns(cs, crate::queries::conn_wishes(w), i);
        let k = choose|k: int| 0 <= k < c.len() && c[k] == "rdp "@ + cs[i].name@;
        assert(all[a.len() + b.len() + k] == "rdp "@ + cs[i].name@);
    }
}

/// A connection wishes for a tunnel where it is stacked on it, for a requirement
/// where its own is the same one however it is written, and for a client where any
/// of that client's profiles, or any VPN at all, is what it requires.
pub proof fn law_wishes_are_the_requirements(
    vpn: Seq<char>,
    dep: Seq<char>,
    name: Seq<char>,
    id: ProviderId,
)
    ensures
        wishes(Wanted::Tunnel(name), vpn, dep) <==> dep == name,
        need_of(vpn) is Some && need_of(vpn) == need_of(name) ==> wishes(
            Wanted::Vpn(name),
            vpn,
            dep,
        ),
        need_of(vpn) is Some && need_of(name) is Some && need_of(vpn) != need_of(name) ==> !wishes(
            Wanted::Vpn(name),
            vpn,
            dep,
        ),
        wishes(Wanted::Client(id), vpn, dep) <==> need_of(vpn) is Some && (need_of(
            vpn,
        )->0.provider is None || need_of(vpn)->0.provider == Some(id)),
{
    if need_of(vpn) is Some && need_of(name) is Some {
        crate::types::lemma_need_ok(vpn);
        crate::types::lemma_need_ok(name);
        crate::types::law_requirement_round_trip(need_of(vpn)->0);
        crate::types::law_requirement_round_trip(need_of(name)->0);
    }
}

proof fn lemma_picked_tunnels(ts: Seq<Tunnel>, p: spec_fn(Tunnel) -> bool, i: int)
    requires
        0 <= i < ts.len(),
        p(ts[i]),
    ensures
        picked_tunnels(ts, p).contains("tun "@ + ts[i].name@),
    decreases ts.len(),
{
    let all = picked_tunnels(ts, p);
    let head = ts.drop_last();
    if i < head.len() {
        assert(head[i] == ts[i]);
        lemma_picked_tunnels(head, p, i);
        let b = picked_tunnels(head, p);
        let k = choose|k: int| 0 <= k < b.len() && b[k] == "tun "@ + ts[i].name@;
        assert(all[k] == "tun "@ + ts[i].name@);
    } else {
        assert(all[all.len() - 1] == "tun "@ + ts[i].name@);
    }
}

proof fn lemma_picked_hosts(hs: Seq<SshHost>, p: spec_fn(SshHost) -> bool, i: int)
    requires
        0 <= i < hs.len(),
        p(hs[i]),
    ensures
        picked_hosts(hs, p).contains("ssh "@ + hs[i].name@),
    decreases hs.len(),
{
    let all = picked_hosts(hs, p);
    let head = hs.drop_last();
    if i < head.len() {
        assert(head[i] == hs[i]);
        lemma_picked_hosts(head, p, i);
        let b = picked_hosts(head, p);
        let k = choose|k: int| 0 <= k < b.len() && b[k] == "ssh "@ + hs[i].name@;
        assert(all[k] == "ssh "@ + hs[i].name@);
    } else {
        assert(all[all.len() - 1] == "ssh "@ + hs[i].name@);
    }
}

proof fn lemma_picked_conns(cs: Seq<RdpConnection>, p: spec_fn(RdpConnection) -> bool, i: int)
    requires
        0 <= i < cs.len(),
        p(cs[i]),
    ensures
        picked_conns(cs, p).contains("rdp "@ + cs[i].name@),
    decreases cs.len(),
{
    let all = picked_conns(cs, p);
    let head = cs.drop_last();
    if i < head.len() {
        assert(head[i] == cs[i]);
        lemma_picked_conns(head, p, i);
        let b = picked_conns(head, p);
        let k = choose|k: int| 0 <= k < b.len() && b[k] == "rdp "@ + cs[i].name@;
        assert(all[k] == "rdp "@ + cs[i].name@);
    } else {
        assert(all[all.len() - 1] == "rdp "@ + cs[i].name@);
    }
}

// ---------------------------------------------------------------------------
// What was not started here
// ---------------------------------------------------------------------------

/// An openvpn process is somebody else's exactly where no session that is still
/// running here knows its pid or writes the same pid file.
pub proof fn law_foreign_processes_are_found(
    ps: Seq<Process>,
    pid_files: Seq<Option<String>>,
    sessions: Seq<LiveOvpn>,
    os: crate::path::Os,
    k: int,
)
    requires
        0 <= k < ps.len(),
        k < pid_files.len(),
    ensures
        unheld(ps, pid_files, sessions, os).contains(k) <==> ps[k].provider == ProviderId::Openvpn
            && forall|i: int|
            0 <= i < sessions.len() ==> (#[trigger] sessions[i]).status is Exited || (
            sessions[i].root_pid != Some(ps[k].pid) && (pid_files[k] is Some ==> crate::path::route(
                os,
                (pid_files[k]->0)@,
            ) != crate::path::route(os, sessions[i].pid_file@))),
        forall|x: int| #[trigger]
            unheld(ps, pid_files, sessions, os).contains(x) ==> 0 <= x < ps.len(),
    decreases ps.len(),
{
    let all = unheld(ps, pid_files, sessions, os);
    let head = ps.drop_last();
    let before = unheld(head, pid_files, sessions, os);
    let last = ps.len() - 1;
    if head.len() > 0 {
        law_foreign_processes_are_found(
            head,
            pid_files,
            sessions,
            os,
            if k < last { k } else { 0 },
        );
    } else {
        assert(before.len() == 0);
    }
    assert forall|x: int| #[trigger] all.contains(x) implies 0 <= x < ps.len() by {
        let i = choose|i: int| 0 <= i < all.len() && all[i] == x;
        if i < before.len() {
            assert(before[i] == x);
            assert(before.contains(x));
        }
    }
    if k < last {
        assert(head[k] == ps[k]);
        if all.contains(k) {
            let i = choose|i: int| 0 <= i < all.len() && all[i] == k;
            if i < before.len() {
                assert(before[i] == k);
            }
        }
        if before.contains(k) {
            let i = choose|i: int| 0 <= i < before.len() && before[i] == k;
            assert(all[i] == k);
        }
    } else {
        let file = opt_string(pid_files[k]);
        let held = crate::queries::held_by(sessions, ps[k].pid, file, os);
        if held {
            let i = choose|i: int|
                0 <= i < sessions.len() && accounts(#[trigger] sessions[i], ps[k].pid, file, os);
            assert(!(sessions[i].status is Exited));
        } else {
            assert forall|i: int| 0 <= i < sessions.len() implies (#[trigger] sessions[i]).status
                is Exited || (sessions[i].root_pid != Some(ps[k].pid) && (pid_files[k] is Some
                ==> crate::path::route(os, (pid_files[k]->0)@) != crate::path::route(
                os,
                sessions[i].pid_file@,
            ))) by {
                assert(!accounts(sessions[i], ps[k].pid, file, os));
            }
        }
        if all.contains(k) {
            let i = choose|i: int| 0 <= i < all.len() && all[i] == k;
            if i < before.len() {
                assert(before[i] == k);
                assert(before.contains(k));
            }
        }
        if ps[k].provider == ProviderId::Openvpn && !held {
            assert(all[all.len() - 1] == k);
        }
    }
}

/// A WireGuard interface is somebody else's exactly where it belongs to no client.
pub proof fn law_foreign_interfaces_are_found(
    links: Seq<Link>,
    interfaces: Seq<Seq<char>>,
    sessions: Seq<LiveOvpn>,
    devices: Seq<Seq<char>>,
    clients: Seq<ProviderState>,
    k: int,
)
    requires
        0 <= k < links.len(),
    ensures
        App::unclaimed(links, interfaces, sessions, devices, clients).contains(k)
            <==> links[k].kind == LinkKind::Wireguard && owner_of(
            links[k],
            interfaces,
            sessions,
            devices,
            clients,
        ) is None,
        forall|x: int| #[trigger]
            App::unclaimed(links, interfaces, sessions, devices, clients).contains(x) ==> 0 <= x
                < links.len(),
    decreases links.len(),
{
    let all = App::unclaimed(links, interfaces, sessions, devices, clients);
    let head = links.drop_last();
    let before = App::unclaimed(head, interfaces, sessions, devices, clients);
    let last = links.len() - 1;
    if head.len() > 0 {
        law_foreign_interfaces_are_found(
            head,
            interfaces,
            sessions,
            devices,
            clients,
            if k < last { k } else { 0 },
        );
    } else {
        assert(before.len() == 0);
    }
    assert forall|x: int| #[trigger] all.contains(x) implies 0 <= x < links.len() by {
        let i = choose|i: int| 0 <= i < all.len() && all[i] == x;
        if i < before.len() {
            assert(before[i] == x);
            assert(before.contains(x));
        }
    }
    if k < last {
        assert(head[k] == links[k]);
        if all.contains(k) {
            let i = choose|i: int| 0 <= i < all.len() && all[i] == k;
            if i < before.len() {
                assert(before[i] == k);
            }
        }
        if before.contains(k) {
            let i = choose|i: int| 0 <= i < before.len() && before[i] == k;
            assert(all[i] == k);
        }
    } else {
        if all.contains(k) {
            let i = choose|i: int| 0 <= i < all.len() && all[i] == k;
            if i < before.len() {
                assert(before[i] == k);
                assert(before.contains(k));
            }
        }
        if links[k].kind == LinkKind::Wireguard && owner_of(
            links[k],
            interfaces,
            sessions,
            devices,
            clients,
        ) is None {
            assert(all[all.len() - 1] == k);
        }
    }
}

/// An interface that a WireGuard profile names is WireGuard's, and a device that a
/// session here or a running openvpn uses is openvpn's.
pub proof fn law_device_goes_to_its_owner(
    link: Link,
    interfaces: Seq<Seq<char>>,
    sessions: Seq<LiveOvpn>,
    devices: Seq<Seq<char>>,
    clients: Seq<ProviderState>,
)
    ensures
        interfaces.contains(link.name@) ==> owner_of(link, interfaces, sessions, devices, clients)
            == Some(ProviderId::Wireguard),
        !interfaces.contains(link.name@) && (devices.contains(link.name@) || exists|i: int|
            0 <= i < sessions.len() && opt_string((#[trigger] sessions[i]).device) == Some(
                link.name@,
            )) ==> owner_of(link, interfaces, sessions, devices, clients) == Some(
            ProviderId::Openvpn,
        ),
        !interfaces.contains(link.name@) && !devices.contains(link.name@) && sessions.len() == 0 && (
        forall|i: int| 0 <= i < clients.len() ==> !(#[trigger] clients[i]).status.connected)
            ==> owner_of(link, interfaces, sessions, devices, clients) is None,
{
    let p = crate::queries::says_it_owns(link);
    crate::list::lemma_first_where(clients, p);
}

// ---------------------------------------------------------------------------
// Forms
// ---------------------------------------------------------------------------

/// What a form accepts can be used: it has a name and a host to go to, its ports
/// are ports, and a local forward has a destination. It is refused for no other
/// reason.
pub proof fn law_accepted_tunnel_is_usable(f: TunnelForm, t: Tunnel)
    requires
        f.gives(t),
    ensures
        f.fault() is None <==> {
            &&& t.name@.len() > 0 && t.ssh_host@.len() > 0
            &&& t.forward == ForwardType::Local ==> t.remote_host@.len() > 0
        },
        t.local_port > 0,
        t.forward != ForwardType::Dynamic ==> t.remote_port > 0,
        t.forward == f.forward && t.auto_reconnect == f.auto_reconnect,
{
}

pub proof fn law_accepted_host_is_usable(f: SshForm, h: SshHost)
    requires
        f.gives(h),
    ensures
        f.fault() is None <==> h.name@.len() > 0 && h.host@.len() > 0,
        h.port > 0,
        h.password@ == f.password@ && h.skip_host_key_check == f.skip_host_key_check,
{
}

pub proof fn law_accepted_connection_is_usable(f: RdpForm, c: RdpConnection)
    requires
        f.gives(c),
    ensures
        f.fault() is None <==> c.name@.len() > 0 && c.host@.len() > 0 && c.username@.len() > 0,
        c.port > 0,
{
}

} // verus!
