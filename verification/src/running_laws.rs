//! What the program asks of the world, held against what is configured and
//! running: what is started is what was asked for, what is stopped is what was
//! running, and nothing else.

use vstd::prelude::*;
use crate::activation::law_plan_goes_in_order;
use crate::activation_laws::{is_running, runs_as};
use crate::app::App;
use crate::driving::{activated, begin_acts, cleared, clearing_acts, outset, step_asked};
use crate::effects::Act;
use crate::live::{
    has_name, law_put_in_is_there, law_taken_out_is_gone, lemma_has_name, lemma_place, one_each,
    place_of, without, LiveRdp, LiveTunnel, Named,
};
use crate::logs::Subject;
use crate::plan::Job;
use crate::running::{
    close_all_acts, spawn_acts, spawn_leaves, stop_acts, stop_all_acts, taken_down, tunnel_answered,
    without_all,
};
use crate::text::texts;
use crate::tick::{due_acts, total_rate, tunnel_after, tunnel_news, TunnelLook};
use crate::tunnel::Status;
use crate::types::{need_of, Need};
use crate::vpn::ProviderId;
use crate::vpn_view::ProviderState;

verus! {

// ---------------------------------------------------------------------------
// Taking things down
// ---------------------------------------------------------------------------

pub proof fn lemma_out_with_all<T: Named>(s: Seq<T>, names: Seq<Seq<char>>, n: Seq<char>)
    requires
        one_each(s),
    ensures
        one_each(without_all(s, names)),
        has_name(without_all(s, names), n) <==> has_name(s, n) && !names.contains(n),
    decreases names.len(),
{
    if names.len() > 0 {
        let head = names.drop_last();
        lemma_out_with_all(s, head, n);
        law_taken_out_is_gone(without_all(s, head), names.last(), n);
        assert(names[names.len() - 1] == names.last());
        if head.contains(n) {
            let i = choose|i: int| 0 <= i < head.len() && head[i] == n;
            assert(names[i] == n);
        }
        if names.contains(n) && n != names.last() {
            let i = choose|i: int| 0 <= i < names.len() && names[i] == n;
            assert(head[i] == n);
        }
    }
}

/// Stopping tunnels stops those of them that are running, and no others.
pub proof fn law_the_right_tunnels_are_stopped(
    live: Seq<LiveTunnel>,
    names: Seq<Seq<char>>,
    n: Seq<char>,
)
    requires
        one_each(live),
    ensures
        stop_all_acts(live, names).contains(Act::StopTunnel(n)) <==> names.contains(n)
            && is_running(live, n),
    decreases names.len(),
{
    lemma_has_name(live, n);
    let all = stop_all_acts(live, names);
    let x = Act::StopTunnel(n);
    if names.len() > 0 {
        let head = names.drop_last();
        law_the_right_tunnels_are_stopped(live, head, n);
        lemma_out_with_all(live, head, n);
        let last = names.last();
        let before = stop_all_acts(live, head);
        let more = stop_acts(without_all(live, head), last);
        assert(names[names.len() - 1] == last);
        if all.contains(x) {
            let i = choose|i: int| 0 <= i < all.len() && all[i] == x;
            if i < before.len() {
                assert(before[i] == x);
                let k = choose|k: int| 0 <= k < head.len() && head[k] == n;
                assert(names[k] == n);
            } else {
                assert(more[i - before.len()] == x);
                assert(last == n);
            }
        }
        if names.contains(n) && is_running(live, n) {
            if head.contains(n) {
                let i = choose|i: int| 0 <= i < before.len() && before[i] == x;
                assert(all[i] == x);
            } else {
                let i = choose|i: int| 0 <= i < names.len() && names[i] == n;
                if i < head.len() {
                    assert(head[i] == n);
                }
                assert(last == n);
                assert(more[0] == x);
                assert(all[before.len() as int] == x);
            }
        }
    }
}

/// Closing desktop sessions closes those of them that are listed, and no others.
pub proof fn law_the_right_sessions_are_closed(
    live: Seq<LiveRdp>,
    names: Seq<Seq<char>>,
    n: Seq<char>,
)
    requires
        one_each(live),
    ensures
        close_all_acts(live, names).contains(Act::StopRdp(n)) <==> names.contains(n) && is_running(
            live,
            n,
        ),
    decreases names.len(),
{
    lemma_has_name(live, n);
    let all = close_all_acts(live, names);
    let x = Act::StopRdp(n);
    if names.len() > 0 {
        let head = names.drop_last();
        law_the_right_sessions_are_closed(live, head, n);
        lemma_out_with_all(live, head, n);
        let last = names.last();
        let before = close_all_acts(live, head);
        let more = crate::running::close_acts(without_all(live, head), last);
        assert(names[names.len() - 1] == last);
        if all.contains(x) {
            let i = choose|i: int| 0 <= i < all.len() && all[i] == x;
            if i < before.len() {
                assert(before[i] == x);
                let k = choose|k: int| 0 <= k < head.len() && head[k] == n;
                assert(names[k] == n);
            } else {
                assert(more[i - before.len()] == x);
                assert(last == n);
            }
        }
        if names.contains(n) && is_running(live, n) {
            if head.contains(n) {
                let i = choose|i: int| 0 <= i < before.len() && before[i] == x;
                assert(all[i] == x);
            } else {
                let i = choose|i: int| 0 <= i < names.len() && names[i] == n;
                if i < head.len() {
                    assert(head[i] == n);
                }
                assert(last == n);
                assert(more[0] == x);
                assert(all[before.len() as int] == x);
            }
        }
    }
}

/// What was taken down is gone from the running ones, a tunnel also from those
/// that wait for a retry; everything else is as it was.
pub proof fn law_taken_down_is_gone(
    a: App,
    b: App,
    tunnels: Seq<Seq<char>>,
    sessions: Seq<Seq<char>>,
    n: Seq<char>,
)
    requires
        a.wf(),
        taken_down(a, b, tunnels, sessions),
    ensures
        is_running(b.active@, n) <==> is_running(a.active@, n) && !tunnels.contains(n),
        is_running(b.reconnect@, n) <==> is_running(a.reconnect@, n) && !tunnels.contains(n),
        is_running(b.rdp_active@, n) <==> is_running(a.rdp_active@, n) && !sessions.contains(n),
        b.tunnels == a.tunnels && b.ssh_hosts == a.ssh_hosts && b.rdp_conns == a.rdp_conns,
        b.vpn == a.vpn && b.ovpn_active == a.ovpn_active && b.ssh_windows == a.ssh_windows,
{
    lemma_has_name(a.active@, n);
    lemma_has_name(b.active@, n);
    lemma_has_name(a.reconnect@, n);
    lemma_has_name(b.reconnect@, n);
    lemma_has_name(a.rdp_active@, n);
    lemma_has_name(b.rdp_active@, n);
    lemma_out_with_all(a.active@, tunnels, n);
    lemma_out_with_all(a.reconnect@, tunnels, n);
    lemma_out_with_all(a.rdp_active@, sessions, n);
}

// ---------------------------------------------------------------------------
// Beginning a step
// ---------------------------------------------------------------------------

/// Beginning a tunnel starts the tunnel of that name, and stops what is left of
/// it first where it has failed.
pub proof fn law_tunnel_step_starts_the_tunnel(a: App, k: int)
    requires
        a.wf(),
        0 <= k < a.tunnels@.len(),
        forall|i: int| 0 <= i < k ==> (#[trigger] a.tunnels@[i]).name@ != a.tunnels@[k].name@,
    ensures
        ({
            let n = a.tunnels@[k].name@;
            let out = begin_acts(a, Job::Tunnel(n));
            &&& out.len() >= 2 && out.last() == Act::Proceed
            &&& out[out.len() - 2] == Act::StartTunnel(k)
            &&& out[0] == Act::StopTunnel(n) <==> runs_as(a.active@, n, Status::Failed)
        }),
{
    let n = a.tunnels@[k].name@;
    lemma_place(a.tunnels@, n);
    assert(a.tunnels@[k].name_spec() == n);
    if place_of(a.tunnels@, n) < k {
        assert(a.tunnels@[place_of(a.tunnels@, n)].name_spec() == n);
    }
    crate::activation_laws::law_step_begins_what_it_names(a.stage(), Job::Tunnel(n));
    lemma_has_name(a.active@, n);
    if runs_as(a.active@, n, Status::Failed) {
        let i = choose|i: int|
            0 <= i < a.active@.len() && (#[trigger] a.active@[i]).name@ == n && a.active@[i].status
                == Status::Failed;
        assert(a.active@[i].name_spec() == n);
    }
    let j = Job::Tunnel(n);
    assert(j->Tunnel_0 == n);
    assert(a.stage().tunnels[k].name@ == n);
}

/// Beginning a session opens the session of that name: with the password that was
/// asked for, and after closing what is left of an earlier one.
pub proof fn law_session_step_opens_the_session(a: App, n: Seq<char>, password: Seq<char>)
    ensures
        is_running(a.ssh_hosts@, n) ==> begin_acts(a, Job::Ssh(n)) == seq![
            Act::OpenSsh(n),
            Act::Proceed,
        ],
        ({
            let out = begin_acts(a, Job::Rdp(n, password));
            &&& out.contains(Act::StartRdp(n, password)) <==> is_running(a.rdp_conns@, n)
            &&& is_running(a.rdp_conns@, n) && is_running(a.rdp_active@, n) ==> out.len() == 3
                && out[0] == Act::StopRdp(n) && out[1] == Act::StartRdp(n, password)
            &&& is_running(a.rdp_conns@, n) && !is_running(a.rdp_active@, n) ==> out.len() == 2
                && out[0] == Act::StartRdp(n, password)
            &&& out.last() == Act::Proceed
        }),
        is_running(a.rdp_conns@, n) ==> forall|x: LiveRdp|
            one_each(a.rdp_active@) && #[trigger] spawn_leaves(a, n).contains(x) ==> x.name@ != n
                && a.rdp_active@.contains(x),
{
    lemma_has_name(a.ssh_hosts@, n);
    lemma_has_name(a.rdp_conns@, n);
    lemma_has_name(a.rdp_active@, n);
    let s = Job::Ssh(n);
    assert(s->Ssh_0 == n);
    assert(begin_acts(a, s) =~= if has_name(a.ssh_hosts@, n) {
        seq![Act::OpenSsh(n), Act::Proceed]
    } else {
        seq![Act::Proceed]
    });
    let j = Job::Rdp(n, password);
    assert(j->Rdp_0 == n && j->Rdp_1 == password);
    let out = begin_acts(a, j);
    assert(out == spawn_acts(a, n, password).push(Act::Proceed));
    if has_name(a.rdp_conns@, n) {
        if has_name(a.rdp_active@, n) {
            assert(out[1] == Act::StartRdp(n, password));
        } else {
            assert(out[0] == Act::StartRdp(n, password));
        }
    } else {
        assert(out.len() == 2);
        assert(out[0] is Flash && out[1] is Proceed);
    }
    if has_name(a.rdp_conns@, n) && one_each(a.rdp_active@) {
        law_taken_out_is_gone(a.rdp_active@, n, n);
        lemma_has_name(without(a.rdp_active@, n), n);
        lemma_place(a.rdp_active@, n);
        assert forall|x: LiveRdp| #[trigger] spawn_leaves(a, n).contains(x) implies x.name@ != n
            && a.rdp_active@.contains(x) by {
            let w = spawn_leaves(a, n);
            let i = choose|i: int| 0 <= i < w.len() && w[i] == x;
            assert(w[i].name_spec() == x.name@);
            let k = place_of(a.rdp_active@, n);
            if has_name(a.rdp_active@, n) && i >= k {
                assert(a.rdp_active@[i + 1] == x);
            } else {
                assert(a.rdp_active@[i] == x);
            }
        }
    }
}

/// Beginning a VPN has the client that is required bring up the profile that is
/// required. An openvpn profile is started exactly where it is configured and not
/// running already.
pub proof fn law_vpn_step_brings_up_what_is_required(a: App, req: Seq<char>, n: Need)
    requires
        need_of(req) == Some(n),
        n.provider is Some,
        n.profile is Some,
        a.vpn.providers@[(n.provider->0).index_spec()].installed,
        a.vpn.providers@[(n.provider->0).index_spec()].busy is None,
    ensures
        ({
            let out = begin_acts(a, Job::Vpn(req));
            &&& out.len() == 2 && out[1] == Act::Proceed
            &&& n.provider != Some(ProviderId::Openvpn) ==> (out[0] matches Act::Vpn {
                provider,
                profile,
                up,
                ..
            } && provider == n.provider->0 && profile == n.profile && up)
            &&& n.provider == Some(ProviderId::Openvpn) ==> (out[0] == Act::StartOpenvpn(
                n.profile->0,
            ) <==> is_running(a.vpn_cfg.openvpn@, n.profile->0) && !crate::running::ovpn_live(
                a.ovpn_active@,
                n.profile->0,
            ))
        }),
{
    let j = Job::Vpn(req);
    assert(j->Vpn_0 == req);
    crate::activation_laws::law_vpn_begins_where_it_can(a.stage(), req, n);
    lemma_has_name(a.vpn_cfg.openvpn@, n.profile->0);
}

// ---------------------------------------------------------------------------
// What became of it
// ---------------------------------------------------------------------------

/// A tunnel whose ssh was started is running under its name and connecting, once,
/// and no longer waits for a retry. One that could not be started changes nothing,
/// and an error is shown. The other tunnels stay.
pub proof fn law_started_tunnel_is_running(
    a: App,
    b: App,
    name: Seq<char>,
    result: Result<Vec<String>, String>,
    now: u64,
    out: Seq<Act>,
    other: Seq<char>,
)
    requires
        a.wf(),
        tunnel_answered(a, b, name, result, now, out),
        other != name,
    ensures
        result is Ok ==> runs_as(b.active@, name, Status::Connecting) && !is_running(
            b.reconnect@,
            name,
        ) && one_each(b.active@),
        result matches Ok(argv) ==> exists|i: int|
            0 <= i < b.active@.len() && (#[trigger] b.active@[i]).name@ == name && texts(
                b.active@[i].argv@,
            ) == texts(argv@) && b.active@[i].started_at == now,
        result is Err ==> b == a && exists|i: int|
            0 <= i < out.len() && (#[trigger] out[i] matches Act::Flash(_, error) && error),
        is_running(b.active@, other) <==> is_running(a.active@, other),
        is_running(b.reconnect@, other) <==> is_running(a.reconnect@, other),
{
    lemma_has_name(a.active@, other);
    lemma_has_name(b.active@, other);
    lemma_has_name(a.reconnect@, other);
    lemma_has_name(b.reconnect@, other);
    lemma_has_name(b.reconnect@, name);
    match result {
        Ok(argv) => {
            let x = b.active@.last();
            let i = b.active@.len() - 1;
            assert(b.active@[i] == x);
            law_put_in_is_there(a.active@, x);
            law_taken_out_is_gone(a.reconnect@, name, other);
            law_taken_out_is_gone(a.active@, name, other);
            let w = without(a.active@, name);
            lemma_has_name(w, other);
            assert(b.active@ == w.push(x));
            if is_running(w, other) {
                let k = choose|k: int| 0 <= k < w.len() && (#[trigger] w[k]).name_spec() == other;
                assert(b.active@[k].name_spec() == other);
            }
            if is_running(b.active@, other) {
                let k = choose|k: int|
                    0 <= k < b.active@.len() && (#[trigger] b.active@[k]).name_spec() == other;
                assert(w[k].name_spec() == other);
            }
        },
        Err(e) => {
            assert(out[1] matches Act::Flash(_, error) && error);
        },
    }
}

/// A look at a tunnel changes only what it found: the tunnel keeps its name, its
/// command line and its log. A change of its state goes into its own log, as an
/// error exactly where it has failed.
pub proof fn law_look_is_kept(x: LiveTunnel, y: LiveTunnel, look: TunnelLook)
    requires
        tunnel_after(x, y, look),
    ensures
        y.name == x.name && y.argv == x.argv && y.log == x.log && y.restarts == x.restarts
            && y.started_at == x.started_at,
        y.counters == look.counters && y.rate_tx == look.rate_tx && y.rate_rx == look.rate_rx,
        tunnel_news(x, y).len() == 0 <==> y.status == x.status,
        y.status != x.status ==> (tunnel_news(x, y)[0] matches Act::Note(to, _, error) && to
            == Subject::Tunnel(x.name@) && error == (y.status == Status::Failed)),
        x.status != Status::Failed && look.seen is Exited ==> y.status == Status::Failed,
        x.status == Status::Failed ==> y.status == Status::Failed,
{
}

// ---------------------------------------------------------------------------
// Plans and conflicts
// ---------------------------------------------------------------------------

/// A conflict that is accepted stops what stands in the way: every tunnel and
/// session it names that is running, and afterwards none of them is.
pub proof fn law_accepted_conflict_clears_the_way(
    a: App,
    c: crate::activation::Clash,
    m: App,
    n: Seq<char>,
)
    requires
        a.wf(),
        cleared(a, m, c),
    ensures
        c.stop_tunnels.contains(n) ==> !is_running(m.active@, n) && !is_running(m.reconnect@, n),
        c.stop_rdp.contains(n) ==> !is_running(m.rdp_active@, n),
        c.stop_tunnels.contains(n) && is_running(a.active@, n) ==> clearing_acts(a, c).contains(
            Act::StopTunnel(n),
        ),
        c.stop_rdp.contains(n) && is_running(a.rdp_active@, n) ==> clearing_acts(a, c).contains(
            Act::StopRdp(n),
        ),
        !c.stop_tunnels.contains(n) ==> (is_running(m.active@, n) <==> is_running(a.active@, n)),
        !c.stop_rdp.contains(n) ==> (is_running(m.rdp_active@, n) <==> is_running(
            a.rdp_active@,
            n,
        )),
        m.conflict is None && m.activation == a.activation,
{
    let base = App { conflict: None, pending: None, ..a };
    assert(base.wf());
    law_taken_down_is_gone(base, m, c.stop_tunnels, c.stop_rdp, n);
    law_the_right_tunnels_are_stopped(a.active@, c.stop_tunnels, n);
    law_the_right_sessions_are_closed(a.rdp_active@, c.stop_rdp, n);
    let s = stop_all_acts(a.active@, c.stop_tunnels);
    let t = close_all_acts(a.rdp_active@, c.stop_rdp);
    let all = clearing_acts(a, c);
    if s.contains(Act::StopTunnel(n)) {
        let i = choose|i: int| 0 <= i < s.len() && s[i] == Act::StopTunnel(n);
        assert(all[i] == Act::StopTunnel(n));
    }
    if t.contains(Act::StopRdp(n)) {
        let i = choose|i: int| 0 <= i < t.len() && t[i] == Act::StopRdp(n);
        assert(all[s.len() + i] == Act::StopRdp(n));
    }
}

/// Activating connections works off the plan for them, from its first step on and
/// in its order. While another plan is under way it changes nothing, and where
/// there is no plan it changes nothing either and shows an error.
pub proof fn law_activation_follows_the_plan(
    a: App,
    b: App,
    targets: Seq<Job>,
    now: int,
    out: Seq<Act>,
)
    requires
        activated(a, b, targets, now, out),
    ensures
        a.activation is Some ==> b == a && out.len() == 1 && (out[0] matches Act::Flash(_, error)
            && error),
        a.activation is None && a.lists().plan(targets) is Err ==> b == a && exists|i: int|
            0 <= i < out.len() && (#[trigger] out[i] matches Act::Flash(_, error) && error),
        a.activation is None && a.lists().plan(targets) is Ok && b.activation is Some ==> {
            let steps = a.lists().plan(targets)->Ok_0;
            let left = (b.activation->0)@;
            &&& left.total == steps.len()
            &&& left.steps.len() <= steps.len()
            &&& left.steps == steps.skip(steps.len() - left.steps.len())
            &&& left.done + left.steps.len() + (if left.waiting is Some { 1int } else { 0 })
                == steps.len()
        },
        b.tunnels == a.tunnels && b.ssh_hosts == a.ssh_hosts && b.rdp_conns == a.rdp_conns,
{
    if a.activation is None {
        match a.lists().plan(targets) {
            Err(e) => {
                assert(out[1] matches Act::Flash(_, error) && error);
            },
            Ok(steps) => {
                let run = outset(steps, crate::driving::plan_target(targets));
                assert(steps.skip(0) =~= steps);
                law_plan_goes_in_order(a.stage(), run, now);
            },
        }
    }
}

// ---------------------------------------------------------------------------
// What is due
// ---------------------------------------------------------------------------

/// A client is asked how it is exactly when it is installed, is not openvpn, has
/// nothing going on, and was never asked or not within the last five seconds.
pub proof fn law_clients_are_asked_in_time(ps: Seq<ProviderState>, now: u64, id: ProviderId)
    ensures
        due_acts(ps, now).contains(Act::Refresh(id)) <==> exists|i: int| {
            &&& 0 <= i < ps.len()
            &&& (#[trigger] ps[i]).id == id
            &&& ps[i].installed && id != ProviderId::Openvpn && ps[i].busy is None
            &&& ps[i].last_refresh is None || now - ps[i].last_refresh->0 >= 5_000
        },
    decreases ps.len(),
{
    let all = due_acts(ps, now);
    let x = Act::Refresh(id);
    if ps.len() > 0 {
        let head = ps.drop_last();
        let before = due_acts(head, now);
        let last = ps.len() - 1;
        law_clients_are_asked_in_time(head, now, id);
        if all.contains(x) {
            let i = choose|i: int| 0 <= i < all.len() && all[i] == x;
            if i < before.len() {
                assert(before[i] == x);
                assert(before.contains(x));
                let k = choose|k: int| {
                    &&& 0 <= k < head.len()
                    &&& (#[trigger] head[k]).id == id
                    &&& head[k].installed && id != ProviderId::Openvpn && head[k].busy is None
                    &&& head[k].last_refresh is None || now - head[k].last_refresh->0 >= 5_000
                };
                assert(ps[k] == head[k]);
            } else {
                assert(ps[last].id == id);
            }
        }
        if exists|i: int| {
            &&& 0 <= i < ps.len()
            &&& (#[trigger] ps[i]).id == id
            &&& ps[i].installed && id != ProviderId::Openvpn && ps[i].busy is None
            &&& ps[i].last_refresh is None || now - ps[i].last_refresh->0 >= 5_000
        } {
            let k = choose|i: int| {
                &&& 0 <= i < ps.len()
                &&& (#[trigger] ps[i]).id == id
                &&& ps[i].installed && id != ProviderId::Openvpn && ps[i].busy is None
                &&& ps[i].last_refresh is None || now - ps[i].last_refresh->0 >= 5_000
            };
            if k < last {
                assert(head[k] == ps[k]);
                assert(before.contains(x));
                let i = choose|i: int| 0 <= i < before.len() && before[i] == x;
                assert(all[i] == x);
            } else {
                assert(all[all.len() - 1] == x);
            }
        }
    }
}

/// The throughput is at least what any one tunnel carries both ways, and nothing
/// where none of them carries anything.
pub proof fn law_throughput_counts_every_tunnel(live: Seq<LiveTunnel>, i: int)
    requires
        0 <= i < live.len(),
    ensures
        total_rate(live) >= live[i].rate_tx,
        total_rate(live) >= live[i].rate_rx,
        live[i].rate_tx + live[i].rate_rx <= u64::MAX ==> total_rate(live) >= live[i].rate_tx
            + live[i].rate_rx,
        total_rate(live) <= u64::MAX,
        total_rate(live) == 0 <==> forall|k: int|
            0 <= k < live.len() ==> (#[trigger] live[k]).rate_tx == 0 && live[k].rate_rx == 0,
    decreases live.len(),
{
    let head = live.drop_last();
    let last = live.len() - 1;
    assert(live[last] == live.last());
    if head.len() == 0 {
        assert(total_rate(head) == 0);
    } else {
        let k: int = if i < last { i } else { 0 };
        law_throughput_counts_every_tunnel(head, k);
        assert(head[k] == live[k]);
        if total_rate(live) == 0 {
            assert forall|k: int| 0 <= k < live.len() implies (#[trigger] live[k]).rate_tx == 0
                && live[k].rate_rx == 0 by {
                if k < last {
                    assert(head[k] == live[k]);
                }
            }
        }
        if forall|k: int|
            0 <= k < live.len() ==> (#[trigger] live[k]).rate_tx == 0 && live[k].rate_rx == 0 {
            assert forall|k: int| 0 <= k < head.len() implies (#[trigger] head[k]).rate_tx == 0
                && head[k].rate_rx == 0 by {
                assert(head[k] == live[k]);
            }
        }
    }
}

/// A step that was begun is remembered as the one whose answer is awaited. A tunnel
/// that had failed is gone from the running ones, and nothing else is.
pub proof fn law_begun_step_is_pending(a: App, b: App, j: Job, in_plan: bool, n: Seq<char>)
    requires
        a.wf(),
        step_asked(a, b, j, in_plan),
    ensures
        b.pending is Some && (b.pending->0).step@ == j && (b.pending->0).in_plan == in_plan,
        j matches Job::Tunnel(m) ==> crate::activation::beginning(a.stage(), j) is Tunnel ==> {
            &&& runs_as(a.active@, m, Status::Failed) ==> !is_running(b.active@, m)
            &&& !runs_as(a.active@, m, Status::Failed) ==> b.active == a.active
            &&& n != m ==> (is_running(b.active@, n) <==> is_running(a.active@, n))
        },
        b.tunnels == a.tunnels && b.ssh_hosts == a.ssh_hosts && b.rdp_conns == a.rdp_conns,
{
    crate::activation_laws::law_step_begins_what_it_names(a.stage(), j);
    match j {
        Job::Tunnel(m) => {
            lemma_has_name(a.active@, m);
            lemma_has_name(b.active@, m);
            lemma_has_name(a.active@, n);
            lemma_has_name(b.active@, n);
            law_taken_out_is_gone(a.active@, m, m);
            law_taken_out_is_gone(a.active@, m, n);
        },
        _ => {},
    }
}

} // verus!
