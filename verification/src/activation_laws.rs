//! What carrying out a plan means for what is running: when a step is ready, what
//! stands in its way, what beginning it asks for, and when a plan is over.

use vstd::prelude::*;
use crate::activation::{
    law_plan_goes_in_order,
    any_vpn, beginning, begun, clash_of, driven, fighting, may_pass, only_choice, only_profile,
    past_first, profile_up, rdp_riders, same_machine, satisfied, state_of, target_of, tunnel_riders,
    Beginning, Doing, Running, Stage, Standing,
};
use crate::command_laws::lemma_port_behind;
use crate::list::{first_where, lemma_first_where};
use crate::live::{
    has_name, lemma_place, one_each, place_of, tunnel_status, LiveRdp, LiveTunnel, Named,
};
use crate::plan::Job;
use crate::rdp::RdpStatus;
use crate::tunnel::{after_look, Seen, Status};
use crate::types::{
    canonical_of, canonical_text, endpoint, law_conflict_is_same_endpoint,
    law_requirement_round_trip, lemma_need_ok, need_of, need_ok, ForwardType, Need, RdpConnection,
    Tunnel,
};
use crate::vpn::ProviderId;
use crate::vpn_view::{is_stored_fn, kept, up_and_stored, ProviderState, VpnProfile};

verus! {

// ---------------------------------------------------------------------------
// How a tunnel is doing
// ---------------------------------------------------------------------------

/// A connecting tunnel is up exactly when its port answers, or, where it has none
/// to ask, when its ssh has been alive for more than three seconds. An ssh that
/// is gone or cannot be looked at has failed, with the last thing it said as the
/// reason where it said something; one that is alive never fails by being looked
/// at, and what was wrong before is not changed.
pub proof fn law_look_decides_the_status(
    status: Status,
    error: Option<Seq<char>>,
    seen: Seen,
    last_line: Option<Seq<char>>,
)
    requires
        status != Status::Failed,
    ensures
        ({
            let (now, why) = after_look(status, error, seen, last_line);
            &&& seen matches Seen::Alive { answers, age } ==> {
                &&& why == error
                &&& now != Status::Failed
                &&& status == Status::Up ==> now == Status::Up
                &&& status == Status::Connecting && answers is Some ==> (now == Status::Up
                    <==> answers->0)
                &&& status == Status::Connecting && answers is None ==> (now == Status::Up <==> age
                    > 3_000)
            }
            &&& !(seen is Alive) ==> now == Status::Failed && why is Some
            &&& seen is Exited && last_line is Some ==> why == last_line
        }),
{
}

// ---------------------------------------------------------------------------
// How a step is doing
// ---------------------------------------------------------------------------

/// A tunnel of that name is among the running ones, with that status.
pub open spec fn runs_as(live: Seq<LiveTunnel>, name: Seq<char>, status: Status) -> bool {
    exists|i: int|
        0 <= i < live.len() && (#[trigger] live[i]).name@ == name && live[i].status == status
}

pub proof fn lemma_runs_as(live: Seq<LiveTunnel>, name: Seq<char>, status: Status)
    requires
        one_each(live),
    ensures
        runs_as(live, name, status) <==> tunnel_status(live, name) == Some(status),
{
    lemma_place(live, name);
    let k = place_of(live, name);
    if runs_as(live, name, status) {
        let i = choose|i: int|
            0 <= i < live.len() && (#[trigger] live[i]).name@ == name && live[i].status == status;
        assert(live[i].name_spec() == name);
        if k < i {
            assert(live[k].name_spec() != live[i].name_spec());
        }
    } else if k < live.len() {
        assert(live[k].name_spec() == live[k].name@);
    }
}

/// A tunnel step is ready exactly when the tunnel is up, has failed exactly when
/// the tunnel has, and is waited for otherwise. What is only fired is ready.
pub proof fn law_tunnel_step_follows_the_tunnel(
    ps: Seq<ProviderState>,
    active: Seq<LiveTunnel>,
    name: Seq<char>,
)
    requires
        one_each(active),
    ensures
        state_of(ps, active, Job::Tunnel(name)) is Ready <==> runs_as(active, name, Status::Up),
        state_of(ps, active, Job::Tunnel(name)) is Failed <==> runs_as(
            active,
            name,
            Status::Failed,
        ),
        state_of(ps, active, Job::Ssh(name)) is Ready,
        forall|p: Seq<char>| #[trigger] state_of(ps, active, Job::Rdp(name, p)) is Ready,
{
    lemma_runs_as(active, name, Status::Up);
    lemma_runs_as(active, name, Status::Failed);
    let s = tunnel_status(active, name);
    let j = Job::Tunnel(name);
    assert(j is Tunnel);
}

/// The clients' states are in the clients' order, one for each.
pub open spec fn in_client_order(ps: Seq<ProviderState>) -> bool {
    &&& ps.len() == 4
    &&& forall|i: int| 0 <= i < 4 ==> (#[trigger] ps[i]).id == ProviderId::all_spec()[i]
}

/// A stored profile of that name is up on the client, or the client says that it
/// is on that profile. What the client only reports as somebody else's does not
/// count.
pub open spec fn holds_profile(s: ProviderState, name: Seq<char>) -> bool {
    ||| exists|i: int|
        0 <= i < s.profiles@.len() && (#[trigger] s.profiles@[i]).name@ == name
            && s.profiles@[i].active && s.profiles@[i].stored_spec()
    ||| s.status.active_profile is Some && s.status.active_profile->0@ == name
}

/// A requirement is met exactly when the client it names is connected, with the
/// profile it names where it names one; where it names no client, when any is.
/// No requirement is always met.
pub proof fn law_requirement_is_met(ps: Seq<ProviderState>, want: Seq<char>)
    requires
        in_client_order(ps),
    ensures
        need_of(want) is None ==> satisfied(ps, want),
        need_of(want) matches Some(n) ==> {
            &&& n.provider is None ==> (satisfied(ps, want) <==> exists|i: int|
                0 <= i < ps.len() && (#[trigger] ps[i]).status.connected)
            &&& n.provider is Some ==> (satisfied(ps, want) <==> exists|i: int|
                0 <= i < ps.len() && (#[trigger] ps[i]).id == n.provider->0
                    && ps[i].status.connected && (n.profile is Some ==> holds_profile(
                    ps[i],
                    n.profile->0,
                )))
        },
{
    if need_of(want) is Some && (need_of(want)->0).provider is Some {
        let n = need_of(want)->0;
        let p = n.provider->0;
        let k = p.index_spec();
        let s = ps[k];
        assert(ps[0].id == ProviderId::all_spec()[0]);
        assert(ps[1].id == ProviderId::all_spec()[1]);
        assert(ps[2].id == ProviderId::all_spec()[2]);
        assert(ps[3].id == ProviderId::all_spec()[3]);
        assert(s.id == p);
        assert forall|i: int| 0 <= i < ps.len() && (#[trigger] ps[i]).id == p implies i == k by {}
        if n.profile is Some {
            let name = n.profile->0;
            let q = up_and_stored();
            lemma_first_where(s.profiles@, q);
            let m = first_where(s.profiles@, q);
            if s.status.active_profile is None && s.active_spec() == Some(name) {
                assert(q(s.profiles@[m]));
                assert(s.profiles@[m].name@ == name);
            }
            assert((profile_up(s.profiles@, name) || s.active_spec() == Some(name))
                <==> holds_profile(s, name));
        }
    }
}

// ---------------------------------------------------------------------------
// What stands in the way of a step
// ---------------------------------------------------------------------------

/// Both tunnels listen on one local port, or on one port of one ssh host.
pub open spec fn bind_the_same(a: Tunnel, b: Tunnel) -> bool {
    ||| a.forward != ForwardType::Remote && b.forward != ForwardType::Remote && a.local_port
        == b.local_port
    ||| a.forward == ForwardType::Remote && b.forward == ForwardType::Remote && a.remote_port
        == b.remote_port && a.ssh_host@ == b.ssh_host@
}

proof fn lemma_fighting(ts: Seq<Tunnel>, t: Tunnel, idx: int, active: Seq<LiveTunnel>)
    ensures
        forall|n: Seq<char>| #[trigger]
            fighting(ts, t, idx, active).contains(n) <==> exists|k: int|
                0 <= k < ts.len() && k != idx && (#[trigger] ts[k]).name@ == n && has_name(active, n)
                    && bind_the_same(t, ts[k]),
    decreases ts.len(),
{
    let all = fighting(ts, t, idx, active);
    if ts.len() > 0 {
        let head = ts.drop_last();
        let before = fighting(head, t, idx, active);
        let last = ts.len() - 1;
        lemma_fighting(head, t, idx, active);
        law_conflict_is_same_endpoint(t, ts.last());
        assert(bind_the_same(t, ts.last()) <==> endpoint(t) == endpoint(ts.last()));
        let more = last != idx && has_name(active, ts.last().name@) && bind_the_same(t, ts.last());
        assert(all == if more { before.push(ts.last().name@) } else { before });
        assert forall|n: Seq<char>| #[trigger] all.contains(n) <==> exists|k: int|
            0 <= k < ts.len() && k != idx && (#[trigger] ts[k]).name@ == n && has_name(active, n)
                && bind_the_same(t, ts[k]) by {
            if all.contains(n) {
                let i = choose|i: int| 0 <= i < all.len() && all[i] == n;
                if i < before.len() {
                    assert(before[i] == n);
                    assert(before.contains(n));
                    let k = choose|k: int|
                        0 <= k < head.len() && k != idx && (#[trigger] head[k]).name@ == n
                            && has_name(active, n) && bind_the_same(t, head[k]);
                    assert(ts[k] == head[k]);
                } else {
                    assert(ts[last].name@ == n);
                }
            }
            if exists|k: int|
                0 <= k < ts.len() && k != idx && (#[trigger] ts[k]).name@ == n && has_name(
                    active,
                    n,
                ) && bind_the_same(t, ts[k]) {
                let k = choose|k: int|
                    0 <= k < ts.len() && k != idx && (#[trigger] ts[k]).name@ == n && has_name(
                        active,
                        n,
                    ) && bind_the_same(t, ts[k]);
                if k < last {
                    assert(head[k] == ts[k]);
                    assert(before.contains(n));
                    let i = choose|i: int| 0 <= i < before.len() && before[i] == n;
                    assert(all[i] == n);
                } else {
                    assert(all[all.len() - 1] == n);
                }
            }
        }
    }
}

/// A running member of that name.
pub open spec fn is_running<T: Named>(live: Seq<T>, name: Seq<char>) -> bool {
    exists|i: int| 0 <= i < live.len() && (#[trigger] live[i]).name_spec() == name
}

proof fn lemma_is_running<T: Named>(live: Seq<T>, name: Seq<char>)
    ensures
        is_running(live, name) <==> has_name(live, name),
{
    lemma_place(live, name);
    if is_running(live, name) {
        let i = choose|i: int| 0 <= i < live.len() && (#[trigger] live[i]).name_spec() == name;
        if place_of(live, name) == live.len() {
            assert(live[i].name_spec() != name);
        }
    } else if has_name(live, name) {
        assert(live[place_of(live, name)].name_spec() == name);
    }
}

/// A tunnel is held up exactly by the other tunnels that are running and bind what
/// it binds, and those are the ones that would be stopped for it.
pub proof fn law_tunnel_conflicts_are_found(s: Stage, idx: int, n: Seq<char>)
    requires
        0 <= idx < s.tunnels.len(),
        forall|i: int| 0 <= i < idx ==> (#[trigger] s.tunnels[i]).name@ != s.tunnels[idx].name@,
    ensures
        ({
            let c = clash_of(s, Job::Tunnel(s.tunnels[idx].name@));
            let held_by = exists|k: int|
                0 <= k < s.tunnels.len() && k != idx && (#[trigger] s.tunnels[k]).name@ == n
                    && is_running(s.active, n) && bind_the_same(s.tunnels[idx], s.tunnels[k]);
            &&& held_by <==> c is Some && (c->0).stop_tunnels.contains(n)
            &&& c is Some ==> (c->0).step == Job::Tunnel(s.tunnels[idx].name@) && (
            c->0).stop_rdp.len() == 0 && (c->0).stop_tunnels.len() > 0
        }),
{
    let name = s.tunnels[idx].name@;
    lemma_place(s.tunnels, name);
    assert(s.tunnels[idx].name_spec() == name);
    if place_of(s.tunnels, name) < idx {
        assert(s.tunnels[place_of(s.tunnels, name)].name_spec() == name);
    }
    assert(place_of(s.tunnels, name) == idx);
    lemma_is_running(s.active, n);
    lemma_fighting(s.tunnels, s.tunnels[idx], idx, s.active);
    let f = fighting(s.tunnels, s.tunnels[idx], idx, s.active);
    if f.contains(n) {
        assert(f.len() > 0);
    }
    let j = Job::Tunnel(name);
    assert(j->Tunnel_0 == name);
}

/// A session that is running under that name.
pub open spec fn has_session(live: Seq<LiveRdp>, name: Seq<char>) -> bool {
    exists|i: int|
        0 <= i < live.len() && (#[trigger] live[i]).name@ == name && live[i].status
            == RdpStatus::Running
}

pub proof fn lemma_has_session(live: Seq<LiveRdp>, name: Seq<char>)
    requires
        one_each(live),
    ensures
        has_session(live, name) <==> crate::live::rdp_is_running(live, name),
{
    lemma_place(live, name);
    let k = place_of(live, name);
    if has_session(live, name) {
        let i = choose|i: int|
            0 <= i < live.len() && (#[trigger] live[i]).name@ == name && live[i].status
                == RdpStatus::Running;
        assert(live[i].name_spec() == name);
        if k < i {
            assert(live[k].name_spec() != live[i].name_spec());
        }
    } else if k < live.len() {
        assert(live[k].name_spec() == live[k].name@);
    }
}

proof fn lemma_same_machine(
    cs: Seq<RdpConnection>,
    c: RdpConnection,
    live: Seq<LiveRdp>,
)
    requires
        one_each(live),
    ensures
        forall|n: Seq<char>| #[trigger]
            same_machine(cs, c.name@, target_of(c), live).contains(n) <==> exists|k: int|
                0 <= k < cs.len() && (#[trigger] cs[k]).name@ == n && n != c.name@ && cs[k].host@
                    == c.host@ && cs[k].port == c.port && has_session(live, n),
    decreases cs.len(),
{
    let all = same_machine(cs, c.name@, target_of(c), live);
    if cs.len() > 0 {
        let head = cs.drop_last();
        let before = same_machine(head, c.name@, target_of(c), live);
        let d = cs.last();
        let last = cs.len() - 1;
        lemma_same_machine(head, c, live);
        lemma_port_behind(c.host@, c.port);
        lemma_port_behind(d.host@, d.port);
        assert(target_of(d) == target_of(c) <==> d.host@ == c.host@ && d.port == c.port);
        lemma_has_session(live, d.name@);
        assert forall|n: Seq<char>| #[trigger] all.contains(n) <==> exists|k: int|
            0 <= k < cs.len() && (#[trigger] cs[k]).name@ == n && n != c.name@ && cs[k].host@
                == c.host@ && cs[k].port == c.port && has_session(live, n) by {
            if all.contains(n) {
                let i = choose|i: int| 0 <= i < all.len() && all[i] == n;
                if i < before.len() {
                    assert(before[i] == n);
                    assert(before.contains(n));
                    let k = choose|k: int|
                        0 <= k < head.len() && (#[trigger] head[k]).name@ == n && n != c.name@
                            && head[k].host@ == c.host@ && head[k].port == c.port && has_session(
                            live,
                            n,
                        );
                    assert(cs[k] == head[k]);
                } else {
                    assert(cs[last].name@ == n);
                }
            }
            if exists|k: int|
                0 <= k < cs.len() && (#[trigger] cs[k]).name@ == n && n != c.name@ && cs[k].host@
                    == c.host@ && cs[k].port == c.port && has_session(live, n) {
                let k = choose|k: int|
                    0 <= k < cs.len() && (#[trigger] cs[k]).name@ == n && n != c.name@
                        && cs[k].host@ == c.host@ && cs[k].port == c.port && has_session(live, n);
                if k < last {
                    assert(head[k] == cs[k]);
                    assert(before.contains(n));
                    let i = choose|i: int| 0 <= i < before.len() && before[i] == n;
                    assert(all[i] == n);
                } else {
                    assert(all[all.len() - 1] == n);
                }
            }
        }
    }
}

/// A desktop session is held up exactly by the running sessions of other
/// connections to the same host and port, and those are the ones that would be
/// closed for it.
pub proof fn law_desktop_conflicts_are_found(s: Stage, idx: int, password: Seq<char>, n: Seq<char>)
    requires
        one_each(s.rdp_active),
        0 <= idx < s.rdp_conns.len(),
        forall|i: int| 0 <= i < idx ==> (#[trigger] s.rdp_conns[i]).name@ != s.rdp_conns[idx].name@,
    ensures
        ({
            let me = s.rdp_conns[idx];
            let c = clash_of(s, Job::Rdp(me.name@, password));
            let held_by = exists|k: int|
                0 <= k < s.rdp_conns.len() && (#[trigger] s.rdp_conns[k]).name@ == n && n
                    != me.name@ && s.rdp_conns[k].host@ == me.host@ && s.rdp_conns[k].port
                    == me.port && has_session(s.rdp_active, n);
            &&& held_by <==> c is Some && (c->0).stop_rdp.contains(n)
            &&& c is Some ==> (c->0).step == Job::Rdp(me.name@, password) && (
            c->0).stop_tunnels.len() == 0 && (c->0).stop_rdp.len() > 0
        }),
{
    let me = s.rdp_conns[idx];
    lemma_place(s.rdp_conns, me.name@);
    assert(me.name_spec() == me.name@);
    if place_of(s.rdp_conns, me.name@) < idx {
        assert(s.rdp_conns[place_of(s.rdp_conns, me.name@)].name_spec() == me.name@);
    }
    assert(place_of(s.rdp_conns, me.name@) == idx);
    lemma_same_machine(s.rdp_conns, me, s.rdp_active);
    let f = same_machine(s.rdp_conns, me.name@, target_of(me), s.rdp_active);
    if f.contains(n) {
        assert(f.len() > 0);
    }
    let j = Job::Rdp(me.name@, password);
    assert(j->Rdp_0 == me.name@);
}

pub proof fn lemma_same_need(req: Seq<char>, n: Need)
    requires
        need_ok(n),
    ensures
        canonical_text(req) == canonical_of(n) <==> need_of(req) == Some(n),
{
    lemma_need_ok(req);
    law_requirement_round_trip(n);
    if need_of(req) is Some {
        law_requirement_round_trip(need_of(req)->0);
    } else if canonical_text(req) == canonical_of(n) {
        crate::text::lemma_trimmed(Seq::<char>::empty());
    }
}

proof fn lemma_tunnel_riders(ts: Seq<Tunnel>, n: Need, active: Seq<LiveTunnel>)
    requires
        need_ok(n),
    ensures
        forall|x: Seq<char>| #[trigger]
            tunnel_riders(ts, canonical_of(n), active).contains(x) <==> exists|k: int|
                0 <= k < ts.len() && (#[trigger] ts[k]).name@ == x && need_of(ts[k].requires_vpn@)
                    == Some(n) && is_running(active, x),
    decreases ts.len(),
{
    let want = canonical_of(n);
    let all = tunnel_riders(ts, want, active);
    if ts.len() > 0 {
        let head = ts.drop_last();
        let before = tunnel_riders(head, want, active);
        let last = ts.len() - 1;
        lemma_tunnel_riders(head, n, active);
        lemma_same_need(ts.last().requires_vpn@, n);
        lemma_is_running(active, ts.last().name@);
        assert forall|x: Seq<char>| #[trigger] all.contains(x) <==> exists|k: int|
            0 <= k < ts.len() && (#[trigger] ts[k]).name@ == x && need_of(ts[k].requires_vpn@)
                == Some(n) && is_running(active, x) by {
            if all.contains(x) {
                let i = choose|i: int| 0 <= i < all.len() && all[i] == x;
                if i < before.len() {
                    assert(before[i] == x);
                    assert(before.contains(x));
                    let k = choose|k: int|
                        0 <= k < head.len() && (#[trigger] head[k]).name@ == x && need_of(
                            head[k].requires_vpn@,
                        ) == Some(n) && is_running(active, x);
                    assert(ts[k] == head[k]);
                } else {
                    assert(ts[last].name@ == x);
                }
            }
            if exists|k: int|
                0 <= k < ts.len() && (#[trigger] ts[k]).name@ == x && need_of(ts[k].requires_vpn@)
                    == Some(n) && is_running(active, x) {
                let k = choose|k: int|
                    0 <= k < ts.len() && (#[trigger] ts[k]).name@ == x && need_of(
                        ts[k].requires_vpn@,
                    ) == Some(n) && is_running(active, x);
                if k < last {
                    assert(head[k] == ts[k]);
                    assert(before.contains(x));
                    let i = choose|i: int| 0 <= i < before.len() && before[i] == x;
                    assert(all[i] == x);
                } else {
                    assert(all[all.len() - 1] == x);
                }
            }
        }
    }
}

proof fn lemma_rdp_riders(cs: Seq<RdpConnection>, n: Need, live: Seq<LiveRdp>)
    requires
        need_ok(n),
        one_each(live),
    ensures
        forall|x: Seq<char>| #[trigger]
            rdp_riders(cs, canonical_of(n), live).contains(x) <==> exists|k: int|
                0 <= k < cs.len() && (#[trigger] cs[k]).name@ == x && need_of(cs[k].requires_vpn@)
                    == Some(n) && has_session(live, x),
    decreases cs.len(),
{
    let want = canonical_of(n);
    let all = rdp_riders(cs, want, live);
    if cs.len() > 0 {
        let head = cs.drop_last();
        let before = rdp_riders(head, want, live);
        let last = cs.len() - 1;
        lemma_rdp_riders(head, n, live);
        lemma_same_need(cs.last().requires_vpn@, n);
        lemma_has_session(live, cs.last().name@);
        assert forall|x: Seq<char>| #[trigger] all.contains(x) <==> exists|k: int|
            0 <= k < cs.len() && (#[trigger] cs[k]).name@ == x && need_of(cs[k].requires_vpn@)
                == Some(n) && has_session(live, x) by {
            if all.contains(x) {
                let i = choose|i: int| 0 <= i < all.len() && all[i] == x;
                if i < before.len() {
                    assert(before[i] == x);
                    assert(before.contains(x));
                    let k = choose|k: int|
                        0 <= k < head.len() && (#[trigger] head[k]).name@ == x && need_of(
                            head[k].requires_vpn@,
                        ) == Some(n) && has_session(live, x);
                    assert(cs[k] == head[k]);
                } else {
                    assert(cs[last].name@ == x);
                }
            }
            if exists|k: int|
                0 <= k < cs.len() && (#[trigger] cs[k]).name@ == x && need_of(cs[k].requires_vpn@)
                    == Some(n) && has_session(live, x) {
                let k = choose|k: int|
                    0 <= k < cs.len() && (#[trigger] cs[k]).name@ == x && need_of(
                        cs[k].requires_vpn@,
                    ) == Some(n) && has_session(live, x);
                if k < last {
                    assert(head[k] == cs[k]);
                    assert(before.contains(x));
                    let i = choose|i: int| 0 <= i < before.len() && before[i] == x;
                    assert(all[i] == x);
                } else {
                    assert(all[all.len() - 1] == x);
                }
            }
        }
    }
}

/// Bringing up another profile of a client that holds one at a time cuts off what
/// runs over the one that is up: exactly the running tunnels and sessions whose
/// records require that profile. They are asked about first; where there are none
/// the switch is made without asking.
pub proof fn law_switch_asks_for_its_riders(
    s: Stage,
    req: Seq<char>,
    id: ProviderId,
    wanted: Seq<char>,
    n: Seq<char>,
)
    requires
        one_each(s.rdp_active),
        need_of(req) == Some(Need { provider: Some(id), profile: Some(wanted) }),
        id.exclusive_spec(),
        s.vpn[id.index_spec()].active_spec() is Some,
        s.vpn[id.index_spec()].active_spec() != Some(wanted),
        need_ok(Need { provider: Some(id), profile: s.vpn[id.index_spec()].active_spec() }),
    ensures
        ({
            let up = Need { provider: Some(id), profile: s.vpn[id.index_spec()].active_spec() };
            let c = clash_of(s, Job::Vpn(req));
            &&& (c is Some && (c->0).stop_tunnels.contains(n)) <==> exists|k: int|
                0 <= k < s.tunnels.len() && (#[trigger] s.tunnels[k]).name@ == n && need_of(
                    s.tunnels[k].requires_vpn@,
                ) == Some(up) && is_running(s.active, n)
            &&& (c is Some && (c->0).stop_rdp.contains(n)) <==> exists|k: int|
                0 <= k < s.rdp_conns.len() && (#[trigger] s.rdp_conns[k]).name@ == n && need_of(
                    s.rdp_conns[k].requires_vpn@,
                ) == Some(up) && has_session(s.rdp_active, n)
            &&& c is Some ==> (c->0).step == Job::Vpn(req) && (c->0).stop_tunnels.len() + (
            c->0).stop_rdp.len() > 0
        }),
{
    let current = s.vpn[id.index_spec()].active_spec();
    let up = Need { provider: Some(id), profile: current };
    law_requirement_round_trip(up);
    let old_req = canonical_text(id.slug_spec() + ":"@ + current->0);
    assert(old_req == canonical_of(up));
    lemma_tunnel_riders(s.tunnels, up, s.active);
    lemma_rdp_riders(s.rdp_conns, up, s.rdp_active);
    let a = tunnel_riders(s.tunnels, old_req, s.active);
    let b = rdp_riders(s.rdp_conns, old_req, s.rdp_active);
    assert(a.contains(n) ==> a.len() > 0);
    assert(b.contains(n) ==> b.len() > 0);
    let j = Job::Vpn(req);
    assert(j->Vpn_0 == req);
}

/// Nothing stands in the way of an ssh session, nor of a VPN that is up already
/// on the wanted profile, is not up at all, or can hold several.
pub proof fn law_no_idle_question(s: Stage, req: Seq<char>, name: Seq<char>)
    ensures
        clash_of(s, Job::Ssh(name)) is None,
        need_of(req) is None ==> clash_of(s, Job::Vpn(req)) is None,
        need_of(req) matches Some(n) ==> (n.profile is None || n.provider is None
            || !(n.provider->0).exclusive_spec() || s.vpn[(
        n.provider->0).index_spec()].active_spec() is None || s.vpn[(
        n.provider->0).index_spec()].active_spec() == n.profile) ==> clash_of(s, Job::Vpn(req))
            is None,
{
    let j = Job::Vpn(req);
    assert(j->Vpn_0 == req);
    let k = Job::Ssh(name);
    assert(k is Ssh);
}

// ---------------------------------------------------------------------------
// Beginning a step
// ---------------------------------------------------------------------------

/// Beginning a step begins what it names: the tunnel, the host or the desktop
/// session of that name, and for a VPN the client and the profile that its
/// requirement names.
pub proof fn law_step_begins_what_it_names(s: Stage, j: Job)
    ensures
        beginning(s, j) matches Beginning::Tunnel { idx, dead } ==> j is Tunnel && 0 <= idx
            < s.tunnels.len() && s.tunnels[idx].name@ == j->Tunnel_0 && (forall|i: int|
            0 <= i < idx ==> (#[trigger] s.tunnels[i]).name@ != j->Tunnel_0) && (one_each(s.active)
            ==> dead == runs_as(s.active, j->Tunnel_0, Status::Failed)),
        beginning(s, j) matches Beginning::Ssh(n) ==> j == Job::Ssh(n),
        beginning(s, j) matches Beginning::Rdp(n, p) ==> j == Job::Rdp(n, p),
        beginning(s, j) matches Beginning::Openvpn(n) ==> j is Vpn && need_of(j->Vpn_0) is Some
            && s.vpn[ProviderId::Openvpn.index_spec()].installed && (need_of(
            j->Vpn_0,
        )->0.provider is Some ==> need_of(j->Vpn_0)->0 == (Need {
            provider: Some(ProviderId::Openvpn),
            profile: Some(n),
        })),
        beginning(s, j) matches Beginning::Client { provider, profile, .. } ==> j is Vpn && need_of(
            j->Vpn_0,
        ) is Some && s.vpn[provider.index_spec()].installed && s.vpn[provider.index_spec()].busy
            is None && (need_of(j->Vpn_0)->0.provider is Some ==> need_of(j->Vpn_0)->0.provider
            == Some(provider)) && (need_of(j->Vpn_0)->0.profile is Some ==> need_of(
            j->Vpn_0,
        )->0.profile == profile),
        j is Rdp ==> beginning(s, j) is Rdp,
        j matches Job::Tunnel(n) ==> (beginning(s, j) is Tunnel <==> exists|i: int|
            0 <= i < s.tunnels.len() && (#[trigger] s.tunnels[i]).name@ == n),
        j matches Job::Ssh(n) ==> (beginning(s, j) is Ssh <==> exists|i: int|
            0 <= i < s.ssh_hosts.len() && (#[trigger] s.ssh_hosts[i]).name@ == n),
{
    match j {
        Job::Vpn(req) => {
            lemma_need_ok(req);
        },
        Job::Tunnel(n) => {
            lemma_place(s.tunnels, n);
            lemma_is_running(s.tunnels, n);
            if one_each(s.active) {
                lemma_runs_as(s.active, n, Status::Failed);
            }
            let k = place_of(s.tunnels, n);
            assert forall|i: int| 0 <= i < k implies (#[trigger] s.tunnels[i]).name@ != n by {
                assert(s.tunnels[i].name_spec() != n);
            }
            if exists|i: int| 0 <= i < s.tunnels.len() && (#[trigger] s.tunnels[i]).name@ == n {
                let i = choose|i: int|
                    0 <= i < s.tunnels.len() && (#[trigger] s.tunnels[i]).name@ == n;
                assert(s.tunnels[i].name_spec() == n);
            }
            if k < s.tunnels.len() {
                assert(s.tunnels[k].name_spec() == n);
                assert(s.tunnels[k].name@ == n);
            }
        },
        Job::Ssh(n) => {
            lemma_place(s.ssh_hosts, n);
            let k = place_of(s.ssh_hosts, n);
            if exists|i: int| 0 <= i < s.ssh_hosts.len() && (#[trigger] s.ssh_hosts[i]).name@ == n {
                let i = choose|i: int|
                    0 <= i < s.ssh_hosts.len() && (#[trigger] s.ssh_hosts[i]).name@ == n;
                assert(s.ssh_hosts[i].name_spec() == n);
            }
            if k < s.ssh_hosts.len() {
                assert(s.ssh_hosts[k].name_spec() == n);
                assert(s.ssh_hosts[k].name@ == n);
            }
        },
        Job::Rdp(_, _) => {},
    }
}

/// A VPN step begins wherever it can: an installed client that is not busy is
/// brought up with the profile that is named, netbird also with none.
pub proof fn law_vpn_begins_where_it_can(s: Stage, req: Seq<char>, n: Need)
    requires
        need_of(req) == Some(n),
        n.provider is Some,
        s.vpn[(n.provider->0).index_spec()].installed,
        s.vpn[(n.provider->0).index_spec()].busy is None,
        n.profile is Some || n.provider == Some(ProviderId::Netbird),
    ensures
        n.provider == Some(ProviderId::Openvpn) ==> beginning(s, Job::Vpn(req))
            == Beginning::Openvpn(n.profile->0),
        n.provider != Some(ProviderId::Openvpn) ==> (beginning(s, Job::Vpn(req))
            matches Beginning::Client { provider, profile, .. } && provider == n.provider->0
            && profile == n.profile),
{
    let j = Job::Vpn(req);
    assert(j->Vpn_0 == req);
}

/// A bare "any VPN" brings up netbird where that is installed. Otherwise it brings
/// up an installed client with the one profile stored for it, and only where no
/// other client could have been meant.
pub proof fn law_any_vpn_is_unambiguous(ps: Seq<ProviderState>, i: int, k: int)
    requires
        in_client_order(ps),
        0 <= i < ps.len(),
        0 <= k < ps.len(),
    ensures
        ps[0].installed ==> any_vpn(ps) == Ok::<(ProviderId, Option<Seq<char>>), Seq<char>>(
            (ProviderId::Netbird, None),
        ),
        !ps[0].installed && any_vpn(ps) is Ok ==> exists|m: int|
            0 <= m < ps.len() && (#[trigger] ps[m]).installed && ps[m].id == (any_vpn(ps)->Ok_0).0
                && only_profile(ps[m]) is Some && only_profile(ps[m]) == (any_vpn(ps)->Ok_0).1,
        !ps[0].installed && i < k && ps[i].installed && ps[k].installed && only_profile(ps[i])
            is Some && only_profile(ps[k]) is Some ==> any_vpn(ps) is Err,
        !ps[0].installed && ps[i].installed && only_profile(ps[i]) is Some && (forall|m: int|
            0 <= m < ps.len() && m != i ==> !(#[trigger] ps[m]).installed) ==> any_vpn(ps) is Ok,
{
    let p = only_choice();
    let a = ps.drop_last();
    let b = a.drop_last();
    let c = b.drop_last();
    let d = c.drop_last();
    assert(d.len() == 0);
    assert(ps.last() == ps[3] && a.last() == ps[2] && b.last() == ps[1] && c.last() == ps[0]);
    reveal_with_fuel(kept, 6);
    let choices = kept(ps, p);
    assert(p(ps[0]) == (ps[0].installed && only_profile(ps[0]) is Some));
    assert(p(ps[1]) == (ps[1].installed && only_profile(ps[1]) is Some));
    assert(p(ps[2]) == (ps[2].installed && only_profile(ps[2]) is Some));
    assert(p(ps[3]) == (ps[3].installed && only_profile(ps[3]) is Some));
    if choices.len() == 1 && !ps[0].installed {
        assert(choices[0] == ps[1] || choices[0] == ps[2] || choices[0] == ps[3]);
    }
}

// ---------------------------------------------------------------------------
// Where a plan ends
// ---------------------------------------------------------------------------

/// A plan is over only for one of two reasons: the step it waited for has failed
/// or run out of time, or there is nothing left of it that has to begin. A VPN
/// has two minutes to come up and anything else half a minute.
pub proof fn law_plan_ends_for_a_reason(s: Stage, a: Running, now: int)
    ensures
        driven(s, a, now).0 is Over ==> {
            ||| a.waiting matches Some((j, since)) && (state_of(s.vpn, s.active, j) is Failed || (
            state_of(s.vpn, s.active, j) is Waiting && now - since >= if j is Vpn {
                120_000int
            } else {
                30_000int
            }))
            ||| (a.waiting matches Some((j, _)) ==> state_of(s.vpn, s.active, j) is Ready) && forall|
                i: int,
            |
                0 <= i < a.steps.len() ==> may_pass(s, #[trigger] a.steps[i], a.started)
        },
        a.waiting matches Some((j, since)) ==> state_of(s.vpn, s.active, j) is Waiting && now
            - since < (if j is Vpn {
            120_000int
        } else {
            30_000int
        }) ==> driven(s, a, now).0 == Standing::Waits(a),
    decreases a.steps.len(), (if a.waiting is Some { 1nat } else { 0 }),
{
    match a.waiting {
        Some((j, since)) => match state_of(s.vpn, s.active, j) {
            Doing::Ready => {
                law_plan_ends_for_a_reason(s, Running { waiting: None, done: a.done + 1, ..a }, now);
            },
            _ => {},
        },
        None => if a.steps.len() > 0 {
            let rest = past_first(a);
            law_plan_ends_for_a_reason(s, rest, now);
            if driven(s, a, now).0 is Over {
                assert forall|i: int| 0 <= i < a.steps.len() implies may_pass(
                    s,
                    #[trigger] a.steps[i],
                    a.started,
                ) by {
                    if i > 0 {
                        assert(rest.steps[i - 1] == a.steps[i]);
                    }
                }
            }
        },
    }
}

/// A step that has begun leaves the plan. What can be waited for is waited for
/// from then on; a session is only fired, and counts as done. A tunnel is
/// remembered as the plan's own.
pub proof fn law_begun_step_is_waited_for(a: Running, now: int)
    requires
        a.steps.len() > 0,
        a.waiting is None,
    ensures
        ({
            let b = begun(a, now);
            let j = a.steps[0];
            &&& seq![j] + b.steps == a.steps
            &&& (j is Vpn || j is Tunnel) ==> b.waiting == Some((j, now)) && b.done == a.done
            &&& (j is Ssh || j is Rdp) ==> b.waiting is None && b.done == a.done + 1
            &&& j matches Job::Tunnel(n) ==> b.started == a.started.push(n)
            &&& !(j is Tunnel) ==> b.started == a.started
            &&& b.target == a.target && b.total == a.total && b.approved is None
        }),
{
    assert(seq![a.steps[0]] + a.steps.drop_first() =~= a.steps);
}

/// A plan never asks to undo its own work: where all that stands in the way of a
/// step are tunnels that the plan itself has started, the step is passed over.
pub proof fn law_plan_never_asks_against_itself(s: Stage, a: Running, now: int)
    ensures
        driven(s, a, now).0 matches Standing::Asks(b, c) ==> {
            &&& clash_of(s, b.steps[0]) == Some(c)
            &&& c.stop_rdp.len() > 0 || c.stop_tunnels.len() == 0 || exists|i: int|
                0 <= i < c.stop_tunnels.len() && !a.started.contains(#[trigger] c.stop_tunnels[i])
        },
{
    law_plan_goes_in_order(s, a, now);
}

/// The next step of a plan begins, where it is not up yet, as soon as nothing
/// stands in its way or the user has accepted what does; and it is asked about
/// where something else than the plan's own tunnels does.
pub proof fn law_next_step_is_taken_up(s: Stage, a: Running, now: int)
    requires
        a.waiting is None,
        a.steps.len() > 0,
        (a.steps[0] is Ssh || a.steps[0] is Rdp) || !(state_of(s.vpn, s.active, a.steps[0])
            is Ready),
    ensures
        clash_of(s, a.steps[0]) is None || a.approved == Some(a.steps[0]) ==> driven(s, a, now).0
            == Standing::Begins(a),
        clash_of(s, a.steps[0]) matches Some(c) ==> a.approved != Some(a.steps[0]) && (
        c.stop_rdp.len() > 0 || exists|i: int|
            0 <= i < c.stop_tunnels.len() && !a.started.contains(#[trigger] c.stop_tunnels[i]))
            ==> driven(s, a, now).0 == Standing::Asks(a, c),
{
}

/// A client that needs to be told which profile is brought up with the only one
/// stored for it where none is named, and not at all where that is ambiguous.
pub proof fn law_only_profile_is_taken(s: Stage, req: Seq<char>, id: ProviderId)
    requires
        need_of(req) == Some(Need { provider: Some(id), profile: None }),
        id == ProviderId::Wireguard || id == ProviderId::Tailscale,
        s.vpn[id.index_spec()].installed,
        s.vpn[id.index_spec()].busy is None,
    ensures
        only_profile(s.vpn[id.index_spec()]) is Some ==> (beginning(s, Job::Vpn(req))
            matches Beginning::Client { provider, profile, .. } && provider == id && profile
            == only_profile(s.vpn[id.index_spec()])),
        only_profile(s.vpn[id.index_spec()]) is None ==> beginning(s, Job::Vpn(req)) is Fail,
{
    let j = Job::Vpn(req);
    assert(j->Vpn_0 == req);
}

/// The only profile of a client is the one stored profile it has, where it has
/// exactly one.
pub proof fn law_only_profile_is_the_one_stored(s: ProviderState, i: int)
    requires
        0 <= i < s.profiles@.len(),
        s.profiles@[i].foreign is None,
        forall|k: int| 0 <= k < s.profiles@.len() && k != i ==> (#[trigger] s.profiles@[k]).foreign
            is Some,
    ensures
        only_profile(s) == Some(s.profiles@[i].name@),
{
    lemma_one_stored(s.profiles@, i);
}

proof fn lemma_one_stored(ps: Seq<VpnProfile>, i: int)
    requires
        0 <= i < ps.len(),
        ps[i].foreign is None,
        forall|k: int| 0 <= k < ps.len() && k != i ==> (#[trigger] ps[k]).foreign is Some,
    ensures
        kept(ps, is_stored_fn()) == seq![ps[i]],
    decreases ps.len(),
{
    let p = is_stored_fn();
    let head = ps.drop_last();
    assert(ps.last() == ps[ps.len() - 1]);
    if i == head.len() {
        lemma_none_stored(head);
        assert(p(ps.last()));
        assert(kept(ps, p) =~= seq![ps[i]]);
    } else {
        assert forall|k: int| 0 <= k < head.len() && k != i implies (#[trigger] head[k]).foreign
            is Some by {
            assert(head[k] == ps[k]);
        }
        lemma_one_stored(head, i);
        assert(!p(ps.last()));
    }
}

proof fn lemma_none_stored(ps: Seq<VpnProfile>)
    requires
        forall|k: int| 0 <= k < ps.len() ==> (#[trigger] ps[k]).foreign is Some,
    ensures
        kept(ps, is_stored_fn()).len() == 0,
    decreases ps.len(),
{
    if ps.len() > 0 {
        let head = ps.drop_last();
        assert forall|k: int| 0 <= k < head.len() implies (#[trigger] head[k]).foreign is Some by {
            assert(head[k] == ps[k]);
        }
        lemma_none_stored(head);
        assert(ps[ps.len() - 1].foreign is Some);
    }
}

} // verus!
