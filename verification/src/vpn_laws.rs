//! What the VPN tab shows and keeps, held against what the clients, the sessions
//! and the sweep of the machine say.

use vstd::prelude::*;
use crate::activation_laws::{is_running, lemma_same_need};
use crate::app::{App, Scan};
use crate::browser::opt_string;
use crate::effects::Act;
use crate::list::{first_where, lemma_first_where};
use crate::live::{
    has_name, law_put_in_is_there, law_taken_out_is_gone, lemma_has_name, lemma_place, one_each,
    place_of, LiveOvpn, Named, OvpnStatus,
};
use crate::plan_laws::lemma_kept_contains;
use crate::tunnels_tab::name_in_use;
use crate::types::{
    canonical_of, law_requirement_round_trip, need_of, need_ok, Need, OpenvpnProfile,
    TailscaleProfile, WireguardProfile,
};
use crate::vpn::ProviderId;
use crate::vpn_profiles::{
    follows, session_renamed, stored_tailscale, stored_wireguard, storing_openvpn,
};
use crate::vpn_sync::{
    action_ended, client_heard, client_said, foreign_of, known_as_stored,
    law_merging_keeps_profiles, merged_foreign, pid_lives, profile_is_up, refreshed_client,
    reseeded, scan_asked, scan_landed, session_up, synced, was_up, Found,
    VpnFacts,
};
use crate::vpn_tab::vpn_answered;
use crate::vpn_view::{is_stored_fn, kept, Foreign, VpnProfile, VpnStatus};

verus! {

// ---------------------------------------------------------------------------
// Clients
// ---------------------------------------------------------------------------

/// Once a client has said how it is, that is what is shown of it: its status, and
/// the profiles it listed. Where it could not list them the old list stays, and
/// the reason is shown. The other clients are left alone.
pub proof fn law_client_is_shown_as_it_said(
    a: App,
    b: App,
    f: VpnFacts,
    id: ProviderId,
    profiles: Result<Vec<VpnProfile>, String>,
    status: VpnStatus,
    now: u64,
    out: Seq<Act>,
    k: int,
)
    requires
        a.vpn.wf(),
        client_heard(a, b, f, id, profiles, status, now, out),
        0 <= k < 4,
    ensures
        ({
            let t = b.vpn.providers@[id.index_spec()];
            let s = a.vpn.providers@[id.index_spec()];
            &&& t.status == status
            &&& t.last_refresh == Some(now)
            &&& t.installed == s.installed && t.busy == s.busy && t.id == s.id
            &&& profiles matches Ok(p) ==> kept(t.profiles@, is_stored_fn()) == kept(
                p@,
                is_stored_fn(),
            ) && t.error is None && out.len() == 0
            &&& profiles matches Err(e) ==> kept(t.profiles@, is_stored_fn()) == kept(
                s.profiles@,
                is_stored_fn(),
            ) && opt_string(t.error) == Some(e@) && out.len() == 1
            &&& k != id.index_spec() ==> b.vpn.providers@[k] == a.vpn.providers@[k]
        }),
        b == (App { vpn: b.vpn, ..a }),
{
    let m = choose|m: App|
        #[trigger] client_said(a, m, id, profiles, status, now) && merged_foreign(m, b, f, id);
    let i = id.index_spec();
    law_merging_keeps_profiles(
        m.vpn.providers@[i],
        b.vpn.providers@[i],
        foreign_of(m, f, id),
        m.scan,
        f,
    );
}

/// Once a client is done with what it was told to do it is no longer busy, an
/// error is shown exactly where there was one, and the other clients are left
/// alone.
pub proof fn law_finished_action_frees_the_client(
    a: App,
    b: App,
    id: ProviderId,
    desc: Seq<char>,
    error: Option<String>,
    now: u64,
    out: Seq<Act>,
    k: int,
)
    requires
        a.vpn.wf(),
        action_ended(a, b, id, desc, error, now, out),
        0 <= k < 4,
    ensures
        b.vpn.providers@[id.index_spec()].busy is None,
        error matches Some(e) ==> opt_string(b.vpn.providers@[id.index_spec()].error) == Some(e@),
        exists|i: int|
            0 <= i < out.len() && (#[trigger] out[i] matches Act::Flash(_, wrong) && wrong == (error
                is Some)),
        k != id.index_spec() ==> b.vpn.providers@[k] == a.vpn.providers@[k],
{
    assert(out[1] matches Act::Flash(_, wrong) && wrong == (error is Some));
}

/// A client that was told to connect or disconnect is busy with it, and what went
/// wrong before is forgotten. One that could not be told says why.
pub proof fn law_told_client_is_busy(
    a: App,
    b: App,
    id: ProviderId,
    profile: Option<Seq<char>>,
    desc: Seq<char>,
    result: Result<Vec<String>, String>,
    out: Seq<Act>,
    k: int,
)
    requires
        a.vpn.wf(),
        vpn_answered(a, b, id, profile, desc, result, out),
        0 <= k < 4,
    ensures
        result is Ok ==> opt_string(b.vpn.providers@[id.index_spec()].busy) == Some(desc)
            && b.vpn.providers@[id.index_spec()].error is None,
        a.pending is None && result is Err ==> opt_string(
            b.vpn.providers@[id.index_spec()].error,
        ) == Some((result->Err_0)@) && exists|i: int|
            0 <= i < out.len() && (#[trigger] out[i] matches Act::Flash(_, wrong) && wrong),
        k != id.index_spec() ==> b.vpn.providers@[k] == a.vpn.providers@[k],
{
    if a.pending is None && result is Err {
        assert(out[1] matches Act::Flash(_, wrong) && wrong);
    }
}

// ---------------------------------------------------------------------------
// OpenVPN
// ---------------------------------------------------------------------------

/// The session of that name is up.
pub open spec fn has_up_session(live: Seq<LiveOvpn>, name: Seq<char>) -> bool {
    exists|i: int|
        0 <= i < live.len() && (#[trigger] live[i]).name@ == name && live[i].status
            == OvpnStatus::Up
}

proof fn lemma_has_up_session(live: Seq<LiveOvpn>, name: Seq<char>)
    requires
        one_each(live),
    ensures
        has_up_session(live, name) <==> session_up(live, name),
{
    lemma_place(live, name);
    let k = place_of(live, name);
    if has_up_session(live, name) {
        let i = choose|i: int|
            0 <= i < live.len() && (#[trigger] live[i]).name@ == name && live[i].status
                == OvpnStatus::Up;
        assert(live[i].name_spec() == name);
        if k < i {
            assert(live[k].name_spec() != live[i].name_spec());
        }
    } else if k < live.len() {
        assert(live[k].name_spec() == live[k].name@);
    }
}

/// Every configured openvpn profile is listed, in the order of the config, as up
/// exactly where its session is. The client counts as connected exactly where one
/// of them is up, and then one of those is what it is on.
pub proof fn law_openvpn_follows_its_sessions(a: App, b: App, f: VpnFacts, now: u64, i: int)
    requires
        a.wf(),
        synced(a, b, f, now),
        0 <= i < a.vpn_cfg.openvpn@.len(),
    ensures
        ({
            let t = b.vpn.providers@[ProviderId::Openvpn.index_spec()];
            let own = a.vpn_cfg.openvpn@;
            &&& t.profiles@.len() >= own.len()
            &&& t.profiles@[i].name@ == own[i].name@
            &&& t.profiles@[i].foreign is None
            &&& t.profiles@[i].active == has_up_session(a.ovpn_active@, own[i].name@)
            &&& has_up_session(a.ovpn_active@, own[i].name@) ==> t.status.connected
            &&& t.status.connected ==> exists|k: int|
                0 <= k < own.len() && has_up_session(
                    a.ovpn_active@,
                    (#[trigger] own[k]).name@,
                ) && opt_string(t.status.active_profile) == Some(own[k].name@)
            &&& !t.status.connected ==> t.status.active_profile is None
        }),
{
    let t = b.vpn.providers@[ProviderId::Openvpn.index_spec()];
    let own = a.vpn_cfg.openvpn@;
    let live = a.ovpn_active@;
    let rows = t.profiles@.take(own.len() as int);
    assert(rows[i] == t.profiles@[i]);
    lemma_has_up_session(live, own[i].name@);
    let p = profile_is_up(live);
    lemma_first_where(own, p);
    let k = first_where(own, p);
    if k < own.len() {
        assert(p(own[k]));
        lemma_has_up_session(live, own[k].name@);
    } else if has_up_session(live, own[i].name@) {
        assert(p(own[i]));
    }
}

/// A session that is renamed runs on under its new name only, with nothing else of
/// it changed.
pub proof fn law_renamed_session_runs_on(
    a: Seq<LiveOvpn>,
    b: Seq<LiveOvpn>,
    from: Seq<char>,
    to: Seq<char>,
    i: int,
)
    requires
        one_each(a),
        session_renamed(a, b, from, to),
        from != to,
        0 <= i < a.len(),
        a[i].name@ == from,
    ensures
        one_each(b),
        !is_running(b, from),
        exists|k: int|
            0 <= k < b.len() && (#[trigger] b[k]).name@ == to && b[k] == (LiveOvpn {
                name: b[k].name,
                ..a[i]
            }),
{
    lemma_place(a, from);
    lemma_has_name(a, from);
    assert(a[i].name_spec() == from);
    let p = place_of(a, from);
    if p < i {
        assert(a[p].name_spec() != a[i].name_spec());
    }
    assert(p == i);
    let w = crate::live::without(a, from);
    law_taken_out_is_gone(a, from, from);
    law_put_in_is_there(w, b.last());
    assert(b[b.len() - 1] == b.last());
    lemma_has_name(b, from);
    let v = crate::live::without(w, to);
    law_taken_out_is_gone(w, to, from);
    lemma_has_name(v, from);
    assert(b == v.push(b.last()));
    if is_running(b, from) {
        let k = choose|k: int| 0 <= k < b.len() && (#[trigger] b[k]).name_spec() == from;
        if k < v.len() {
            assert(v[k].name_spec() == from);
        }
    }
}

// ---------------------------------------------------------------------------
// What was found on the machine
// ---------------------------------------------------------------------------

/// Everything that was found is listed: behind the stored profiles there is one row
/// for each connection that is not held here, it is up, and it stands for that very
/// process or interface.
pub proof fn law_everything_found_is_listed(a: App, b: App, f: VpnFacts, id: ProviderId, k: int)
    requires
        merged_foreign(a, b, f, id),
        0 <= k < foreign_of(a, f, id).len(),
    ensures
        ({
            let rows = b.vpn.providers@[id.index_spec()].profiles@;
            exists|i: int| {
                &&& 0 <= i < rows.len()
                &&& (#[trigger] rows[i]).active && rows[i].foreign is Some
                &&& foreign_of(a, f, id)[k] matches Found::Process(p) ==> (
                rows[i].foreign->0 matches Foreign::Process(q) && q.pid == a.scan.processes@[p].pid)
                &&& foreign_of(a, f, id)[k] matches Found::Interface(p) ==> (
                rows[i].foreign->0 matches Foreign::Interface(q) && q.name@
                    == a.scan.links@[p].name@)
            }
        }),
{
    let rows = b.vpn.providers@[id.index_spec()].profiles@;
    let own = kept(a.vpn.providers@[id.index_spec()].profiles@, is_stored_fn());
    let n = own.len() as int;
    assert(rows.skip(n)[k] == rows[n + k]);
}

/// The WireGuard and the Tailscale profiles are listed as they are configured, in
/// their order, and each stays marked as up that was before.
pub proof fn law_own_profiles_are_listed(a: App, b: App, f: VpnFacts, now: u64, i: int)
    ensures
        reseeded(a, b, f, ProviderId::Wireguard, now) && 0 <= i < a.vpn_cfg.wireguard@.len() ==> {
            let rows = b.vpn.providers@[ProviderId::Wireguard.index_spec()].profiles@;
            &&& rows.len() >= a.vpn_cfg.wireguard@.len()
            &&& rows[i].name@ == a.vpn_cfg.wireguard@[i].name@ && rows[i].foreign is None
            &&& rows[i].active <==> was_listed_up(
                a.vpn.providers@[ProviderId::Wireguard.index_spec()].profiles@,
                a.vpn_cfg.wireguard@[i].name@,
            )
        },
        reseeded(a, b, f, ProviderId::Tailscale, now) && 0 <= i < a.vpn_cfg.tailscale@.len() ==> {
            let rows = b.vpn.providers@[ProviderId::Tailscale.index_spec()].profiles@;
            &&& rows.len() >= a.vpn_cfg.tailscale@.len()
            &&& rows[i].name@ == a.vpn_cfg.tailscale@[i].name@ && rows[i].foreign is None
            &&& rows[i].active <==> was_listed_up(
                a.vpn.providers@[ProviderId::Tailscale.index_spec()].profiles@,
                a.vpn_cfg.tailscale@[i].name@,
            )
        },
{
    if reseeded(a, b, f, ProviderId::Wireguard, now) && 0 <= i < a.vpn_cfg.wireguard@.len() {
        let s = a.vpn.providers@[ProviderId::Wireguard.index_spec()];
        let rows = b.vpn.providers@[ProviderId::Wireguard.index_spec()].profiles@;
        let own = a.vpn_cfg.wireguard@;
        assert(rows.take(own.len() as int)[i] == rows[i]);
        lemma_was_listed_up(s.profiles@, own[i].name@);
        assert(own[i].name_spec() == own[i].name@);
    }
    if reseeded(a, b, f, ProviderId::Tailscale, now) && 0 <= i < a.vpn_cfg.tailscale@.len() {
        let s = a.vpn.providers@[ProviderId::Tailscale.index_spec()];
        let rows = b.vpn.providers@[ProviderId::Tailscale.index_spec()].profiles@;
        let own = a.vpn_cfg.tailscale@;
        assert(rows.take(own.len() as int)[i] == rows[i]);
        lemma_was_listed_up(s.profiles@, own[i].name@);
        assert(own[i].name_spec() == own[i].name@);
    }
}

/// The first stored profile of that name in a list is up.
pub open spec fn was_listed_up(ps: Seq<VpnProfile>, name: Seq<char>) -> bool {
    exists|k: int| {
        &&& 0 <= k < ps.len()
        &&& (#[trigger] ps[k]).name@ == name && ps[k].foreign is None && ps[k].active
        &&& forall|j: int|
            0 <= j < k ==> (#[trigger] ps[j]).name@ != name || ps[j].foreign is Some
    }
}

proof fn lemma_was_listed_up(ps: Seq<VpnProfile>, name: Seq<char>)
    ensures
        was_up(ps, name) <==> was_listed_up(ps, name),
{
    let p = known_as_stored(name);
    lemma_first_where(ps, p);
    let i = first_where(ps, p);
    if i < ps.len() {
        assert(p(ps[i]));
        assert forall|j: int| 0 <= j < i implies (#[trigger] ps[j]).name@ != name || ps[j].foreign
            is Some by {
            assert(!p(ps[j]));
        }
    }
    if was_listed_up(ps, name) {
        let k = choose|k: int| {
            &&& 0 <= k < ps.len()
            &&& (#[trigger] ps[k]).name@ == name && ps[k].foreign is None && ps[k].active
            &&& forall|j: int|
                0 <= j < k ==> (#[trigger] ps[j]).name@ != name || ps[j].foreign is Some
        };
        assert(p(ps[k]));
        if i < k {
            assert(ps[i].name@ != name || ps[i].foreign is Some);
        }
    }
}

/// Bringing an installed client up to date has it asked how it is; openvpn has
/// nobody to ask.
pub proof fn law_installed_client_is_asked(
    a: App,
    b: App,
    f: VpnFacts,
    id: ProviderId,
    now: u64,
    out: Seq<Act>,
)
    requires
        a.vpn.wf(),
        refreshed_client(a, b, f, id, now, out),
    ensures
        a.vpn.providers@[id.index_spec()].installed && id != ProviderId::Openvpn ==> out
            == seq![Act::Ask(id)] && b.vpn.providers@[id.index_spec()].last_refresh == Some(now),
        !a.vpn.providers@[id.index_spec()].installed || id == ProviderId::Openvpn ==> out.len()
            == 0,
{
}

/// A sweep is asked for unless one is under way, and one that never came back does
/// not hold up the next for ever.
pub proof fn law_sweep_is_asked_for(a: App, b: App, now: u64, out: Seq<Act>)
    requires
        scan_asked(a, b, now, out),
    ensures
        !a.scan_pending ==> out == seq![Act::Sweep] && b.scan_pending && b.scan_at == Some(now),
        a.scan_pending && a.scan_at is None ==> out == seq![Act::Sweep],
        a.scan_pending && a.scan_at is Some && now - a.scan_at->0 < 30_000 ==> b == a && out.len()
            == 0,
        a.scan_pending && a.scan_at is Some && now - a.scan_at->0 >= 30_000 ==> out
            == seq![Act::Sweep],
{
}

/// What a sweep found takes the place of what was found before. Of the processes
/// that have been asked to end exactly those are remembered that are still there.
pub proof fn law_sweep_is_taken_in(a: App, b: App, found: Scan, out: Seq<Act>, pid: u32)
    requires
        scan_landed(a, b, found, out),
    ensures
        b.scan == found && !b.scan_pending,
        out.contains(Act::Merge),
        b.termed@.contains(pid) <==> a.termed@.contains(pid) && exists|i: int|
            0 <= i < found.processes@.len() && (#[trigger] found.processes@[i]).pid == pid,
{
    lemma_kept_contains(a.termed@, pid_lives(found.processes@));
    assert(out[out.len() - 1] == Act::Merge);
}

// ---------------------------------------------------------------------------
// Storing profiles
// ---------------------------------------------------------------------------

/// Whatever required a profile requires it under its new name once it is renamed,
/// and what required anything else is left as it is: tunnels, hosts and desktop
/// connections alike.
pub proof fn law_requirements_follow_a_rename(
    a: App,
    b: App,
    id: ProviderId,
    from: Seq<char>,
    to: Seq<char>,
    i: int,
)
    requires
        follows(a, b, id, from, to),
        need_ok(Need { provider: Some(id), profile: Some(from) }),
        need_ok(Need { provider: Some(id), profile: Some(to) }),
    ensures
        ({
            let was = Some(Need { provider: Some(id), profile: Some(from) });
            let now = Some(Need { provider: Some(id), profile: Some(to) });
            &&& 0 <= i < a.tunnels@.len() && need_of(a.tunnels@[i].requires_vpn@) == was
                ==> need_of(b.tunnels@[i].requires_vpn@) == now && b.tunnels@[i].name
                == a.tunnels@[i].name && b.tunnels@[i].depends_on == a.tunnels@[i].depends_on
            &&& 0 <= i < a.tunnels@.len() && need_of(a.tunnels@[i].requires_vpn@) != was
                ==> b.tunnels@[i] == a.tunnels@[i]
            &&& 0 <= i < a.ssh_hosts@.len() && need_of(a.ssh_hosts@[i].requires_vpn@) == was
                ==> need_of(b.ssh_hosts@[i].requires_vpn@) == now && b.ssh_hosts@[i].name
                == a.ssh_hosts@[i].name && b.ssh_hosts@[i].depends_on == a.ssh_hosts@[i].depends_on
            &&& 0 <= i < a.ssh_hosts@.len() && need_of(a.ssh_hosts@[i].requires_vpn@) != was
                ==> b.ssh_hosts@[i] == a.ssh_hosts@[i]
            &&& 0 <= i < a.rdp_conns@.len() && need_of(a.rdp_conns@[i].requires_vpn@) == was
                ==> need_of(b.rdp_conns@[i].requires_vpn@) == now && b.rdp_conns@[i].name
                == a.rdp_conns@[i].name && b.rdp_conns@[i].depends_on == a.rdp_conns@[i].depends_on
            &&& 0 <= i < a.rdp_conns@.len() && need_of(a.rdp_conns@[i].requires_vpn@) != was
                ==> b.rdp_conns@[i] == a.rdp_conns@[i]
        }),
{
    let n = Need { provider: Some(id), profile: Some(from) };
    let m = Need { provider: Some(id), profile: Some(to) };
    law_requirement_round_trip(m);
    law_requirement_round_trip(n);
    assert(canonical_of(n) == id.slug_spec() + ":"@ + from);
    assert(canonical_of(m) == id.slug_spec() + ":"@ + to);
    if 0 <= i < a.tunnels@.len() {
        lemma_same_need(a.tunnels@[i].requires_vpn@, n);
        assert(from != to ==> (b.tunnels@[i] == a.tunnels@[i] || b.tunnels@[i].requires_vpn@
            == canonical_of(m)));
    }
    if 0 <= i < a.ssh_hosts@.len() {
        lemma_same_need(a.ssh_hosts@[i].requires_vpn@, n);
        assert(from != to ==> (b.ssh_hosts@[i] == a.ssh_hosts@[i] || b.ssh_hosts@[i].requires_vpn@
            == canonical_of(m)));
    }
    if 0 <= i < a.rdp_conns@.len() {
        lemma_same_need(a.rdp_conns@[i].requires_vpn@, n);
        assert(from != to ==> (b.rdp_conns@[i] == a.rdp_conns@[i] || b.rdp_conns@[i].requires_vpn@
            == canonical_of(m)));
    }
}

/// A new WireGuard profile goes to the end of its list and an edited one into its
/// own place; one whose name is taken is refused.
pub proof fn law_wireguard_profile_is_stored(
    a: App,
    b: App,
    w: WireguardProfile,
    edit: Option<int>,
    out: Seq<Act>,
)
    requires
        stored_wireguard(a, b, w, edit, out),
        edit matches Some(i) ==> 0 <= i < a.vpn_cfg.wireguard@.len(),
    ensures
        ({
            let all = a.vpn_cfg.wireguard@;
            let taken = exists|k: int|
                0 <= k < all.len() && (#[trigger] all[k]).name@ == w.name@ && edit != Some(k);
            &&& taken ==> b.vpn_cfg == a.vpn_cfg && out.len() == 0 && b.vpn_form.error is Some
            &&& !taken && edit is None ==> b.vpn_cfg.wireguard@ == all.push(w)
            &&& !taken && edit is Some ==> b.vpn_cfg.wireguard@ == all.update(edit->0, w)
            &&& !taken ==> b.vpn_cfg.openvpn == a.vpn_cfg.openvpn && b.vpn_cfg.tailscale
                == a.vpn_cfg.tailscale && out.len() > 0
        }),
{
    let all = a.vpn_cfg.wireguard@;
    if name_in_use(all, w.name@, edit) {
        let k = choose|k: int|
            0 <= k < all.len() && (#[trigger] all[k]).name_spec() == w.name@ && edit != Some(k);
        assert(all[k].name@ == w.name@);
    } else {
        assert forall|k: int|
            0 <= k < all.len() && (#[trigger] all[k]).name@ == w.name@ implies edit == Some(k) by {
            assert(all[k].name_spec() == w.name@);
        }
    }
}

/// A new Tailscale profile goes to the end of its list and an edited one into its
/// own place; one whose name is taken is refused.
pub proof fn law_tailscale_profile_is_stored(
    a: App,
    b: App,
    t: TailscaleProfile,
    edit: Option<int>,
    out: Seq<Act>,
)
    requires
        stored_tailscale(a, b, t, edit, out),
        edit matches Some(i) ==> 0 <= i < a.vpn_cfg.tailscale@.len(),
    ensures
        ({
            let all = a.vpn_cfg.tailscale@;
            let taken = exists|k: int|
                0 <= k < all.len() && (#[trigger] all[k]).name@ == t.name@ && edit != Some(k);
            &&& taken ==> b.vpn_cfg == a.vpn_cfg && out.len() == 0 && b.vpn_form.error is Some
            &&& !taken && edit is None ==> b.vpn_cfg.tailscale@ == all.push(t)
            &&& !taken && edit is Some ==> b.vpn_cfg.tailscale@ == all.update(edit->0, t)
            &&& !taken ==> b.vpn_cfg.openvpn == a.vpn_cfg.openvpn && b.vpn_cfg.wireguard
                == a.vpn_cfg.wireguard && out.len() > 0
        }),
{
    let all = a.vpn_cfg.tailscale@;
    if name_in_use(all, t.name@, edit) {
        let k = choose|k: int|
            0 <= k < all.len() && (#[trigger] all[k]).name_spec() == t.name@ && edit != Some(k);
        assert(all[k].name@ == t.name@);
    } else {
        assert forall|k: int|
            0 <= k < all.len() && (#[trigger] all[k]).name@ == t.name@ implies edit == Some(k) by {
            assert(all[k].name_spec() == t.name@);
        }
    }
}

/// Before an openvpn profile is stored what it is made of is copied. One whose name
/// is taken is refused; a session of a renamed one is told its new name.
pub proof fn law_openvpn_profile_is_imported(
    a: App,
    b: App,
    o: OpenvpnProfile,
    edit: Option<int>,
    out: Seq<Act>,
)
    requires
        storing_openvpn(a, b, o, edit, out),
        edit matches Some(i) ==> 0 <= i < a.vpn_cfg.openvpn@.len(),
    ensures
        ({
            let all = a.vpn_cfg.openvpn@;
            let taken = exists|k: int|
                0 <= k < all.len() && (#[trigger] all[k]).name@ == o.name@ && edit != Some(k);
            &&& taken ==> b.vpn_cfg == a.vpn_cfg && out.len() == 0 && b.vpn_form.error is Some
            &&& !taken ==> out.len() > 0 && out.last() == Act::ImportProfile
            &&& !taken ==> (edit matches Some(i) ==> all[i].name@ != o.name@ && is_running(
                a.ovpn_active@,
                all[i].name@,
            ) ==> out.contains(Act::RenameOpenvpn(all[i].name@, o.name@)))
        }),
{
    let all = a.vpn_cfg.openvpn@;
    if name_in_use(all, o.name@, edit) {
        let k = choose|k: int|
            0 <= k < all.len() && (#[trigger] all[k]).name_spec() == o.name@ && edit != Some(k);
        assert(all[k].name@ == o.name@);
    } else {
        assert forall|k: int|
            0 <= k < all.len() && (#[trigger] all[k]).name@ == o.name@ implies edit == Some(k) by {
            assert(all[k].name_spec() == o.name@);
        }
        assert(out[out.len() - 1] == Act::ImportProfile);
        if edit is Some {
            let was = all[edit->0].name@;
            lemma_has_name(a.ovpn_active@, was);
            if was != o.name@ && has_name(a.ovpn_active@, was) {
                let front = crate::vpn_profiles::follow_acts(a, ProviderId::Openvpn, was, o.name@);
                assert(out[front.len() as int] == Act::RenameOpenvpn(was, o.name@));
            }
        }
    }
}

} // verus!
