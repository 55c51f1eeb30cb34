//! Adding, editing and deleting VPN profiles.

use vstd::prelude::*;
use crate::app::App;
use crate::browser::opt_string;
use crate::effects::{self, acts, Act, Effect, Store};
use crate::live::{
    has_name, law_put_in_is_there, law_taken_out_is_gone, place_of, take_out, without, LiveOvpn,
    Named,
};
use crate::number::{self, decimal};
use crate::rows::groups_of;
use crate::text::{self, cat, cat3, cat4, cat5, joined, texts, trimmed};
use crate::tunnels_tab::{name_in_use, name_taken, placed};
use crate::types::{
    canonical_text, canonical_vpn_requirement, OpenvpnProfile, RdpConnection, SshHost,
    TailscaleProfile, Tunnel, VpnConfig, WireguardProfile,
};
use crate::vpn::ProviderId;
use crate::vpn_form::{VpnForm, VpnKey, VpnMode};

verus! {

// ---------------------------------------------------------------------------
// Renaming a profile
// ---------------------------------------------------------------------------

/// The tunnels, with those that asked for the requirement `from` now asking for
/// `to`.
pub open spec fn tunnels_follow(a: Seq<Tunnel>, b: Seq<Tunnel>, from: Seq<char>, to: Seq<char>) -> bool {
    &&& b.len() == a.len()
    &&& forall|i: int|
        0 <= i < a.len() ==> if canonical_text(a[i].requires_vpn@) == from {
            (#[trigger] b[i]).requires_vpn@ == to && b[i] == (Tunnel {
                requires_vpn: b[i].requires_vpn,
                ..a[i]
            })
        } else {
            b[i] == a[i]
        }
}

pub open spec fn tunnels_ask(s: Seq<Tunnel>, req: Seq<char>) -> bool {
    exists|i: int| 0 <= i < s.len() && canonical_text((#[trigger] s[i]).requires_vpn@) == req
}

fn tunnels_rename(v: &mut Vec<Tunnel>, from: &str, to: &str) -> (r: bool)
    ensures
        tunnels_follow(old(v)@, final(v)@, from@, to@),
        r == tunnels_ask(old(v)@, from@),
        groups_of(final(v)@) == groups_of(old(v)@),
{
    let ghost a = v@;
    let mut touched = false;
    let mut i: usize = 0;
    while i < v.len()
        invariant
            i <= v@.len(),
            tunnels_follow(a.take(i as int), v@.take(i as int), from@, to@),
            v@.len() == a.len(),
            forall|k: int| i <= k < a.len() ==> #[trigger] v@[k] == a[k],
            touched == tunnels_ask(a.take(i as int), from@),
        decreases v@.len() - i,
    {
        let ghost before = v@;
        assert(a.take(i + 1)[i as int] == a[i as int]);
        assert(forall|k: int| 0 <= k < i ==> a.take(i + 1)[k] == a.take(i as int)[k]);
        let hit = text::same(
            canonical_vpn_requirement(v[i].requires_vpn.as_str()).as_str(),
            from,
        );
        assert(tunnels_ask(a.take(i + 1), from@) == (touched || hit)) by {
            if touched {
                let k = choose|k: int|
                    0 <= k < i && canonical_text((#[trigger] a.take(i as int)[k]).requires_vpn@)
                        == from@;
                assert(canonical_text(a.take(i + 1)[k].requires_vpn@) == from@);
            }
            if tunnels_ask(a.take(i + 1), from@) && !hit {
                let k = choose|k: int|
                    0 <= k < i + 1 && canonical_text((#[trigger] a.take(i + 1)[k]).requires_vpn@)
                        == from@;
                assert(canonical_text(a.take(i as int)[k].requires_vpn@) == from@);
            }
        }
        if hit {
            v[i].requires_vpn = to.to_owned();
            touched = true;
        }
        assert forall|k: int| 0 <= k < i + 1 implies if canonical_text(
            a.take(i + 1)[k].requires_vpn@,
        ) == from@ {
            (#[trigger] v@.take(i + 1)[k]).requires_vpn@ == to@ && v@.take(i + 1)[k] == (Tunnel {
                requires_vpn: v@.take(i + 1)[k].requires_vpn,
                ..a.take(i + 1)[k]
            })
        } else {
            v@.take(i + 1)[k] == a.take(i + 1)[k]
        } by {
            if k < i {
                assert(v@.take(i + 1)[k] == before.take(i as int)[k]);
                assert(a.take(i + 1)[k] == a.take(i as int)[k]);
            }
        }
        i = i + 1;
    }
    assert(a.take(i as int) =~= a);
    assert(v@.take(i as int) =~= v@);
    assert forall|k: int| 0 <= k < a.len() implies #[trigger] groups_of(v@)[k] == groups_of(
        a,
    )[k] by {
        assert(v@[k].group == a[k].group);
    }
    assert(groups_of(v@) =~= groups_of(a));
    touched
}

/// The ssh hosts, with those that asked for the requirement `from` now asking for
/// `to`.
pub open spec fn hosts_follow(a: Seq<SshHost>, b: Seq<SshHost>, from: Seq<char>, to: Seq<char>) -> bool {
    &&& b.len() == a.len()
    &&& forall|i: int|
        0 <= i < a.len() ==> if canonical_text(a[i].requires_vpn@) == from {
            (#[trigger] b[i]).requires_vpn@ == to && b[i] == (SshHost {
                requires_vpn: b[i].requires_vpn,
                ..a[i]
            })
        } else {
            b[i] == a[i]
        }
}

pub open spec fn hosts_ask(s: Seq<SshHost>, req: Seq<char>) -> bool {
    exists|i: int| 0 <= i < s.len() && canonical_text((#[trigger] s[i]).requires_vpn@) == req
}

fn hosts_rename(v: &mut Vec<SshHost>, from: &str, to: &str) -> (r: bool)
    ensures
        hosts_follow(old(v)@, final(v)@, from@, to@),
        r == hosts_ask(old(v)@, from@),
        groups_of(final(v)@) == groups_of(old(v)@),
{
    let ghost a = v@;
    let mut touched = false;
    let mut i: usize = 0;
    while i < v.len()
        invariant
            i <= v@.len(),
            hosts_follow(a.take(i as int), v@.take(i as int), from@, to@),
            v@.len() == a.len(),
            forall|k: int| i <= k < a.len() ==> #[trigger] v@[k] == a[k],
            touched == hosts_ask(a.take(i as int), from@),
        decreases v@.len() - i,
    {
        let ghost before = v@;
        assert(a.take(i + 1)[i as int] == a[i as int]);
        assert(forall|k: int| 0 <= k < i ==> a.take(i + 1)[k] == a.take(i as int)[k]);
        let hit = text::same(
            canonical_vpn_requirement(v[i].requires_vpn.as_str()).as_str(),
            from,
        );
        assert(hosts_ask(a.take(i + 1), from@) == (touched || hit)) by {
            if touched {
                let k = choose|k: int|
                    0 <= k < i && canonical_text((#[trigger] a.take(i as int)[k]).requires_vpn@)
                        == from@;
                assert(canonical_text(a.take(i + 1)[k].requires_vpn@) == from@);
            }
            if hosts_ask(a.take(i + 1), from@) && !hit {
                let k = choose|k: int|
                    0 <= k < i + 1 && canonical_text((#[trigger] a.take(i + 1)[k]).requires_vpn@)
                        == from@;
                assert(canonical_text(a.take(i as int)[k].requires_vpn@) == from@);
            }
        }
        if hit {
            v[i].requires_vpn = to.to_owned();
            touched = true;
        }
        assert forall|k: int| 0 <= k < i + 1 implies if canonical_text(
            a.take(i + 1)[k].requires_vpn@,
        ) == from@ {
            (#[trigger] v@.take(i + 1)[k]).requires_vpn@ == to@ && v@.take(i + 1)[k] == (SshHost {
                requires_vpn: v@.take(i + 1)[k].requires_vpn,
                ..a.take(i + 1)[k]
            })
        } else {
            v@.take(i + 1)[k] == a.take(i + 1)[k]
        } by {
            if k < i {
                assert(v@.take(i + 1)[k] == before.take(i as int)[k]);
                assert(a.take(i + 1)[k] == a.take(i as int)[k]);
            }
        }
        i = i + 1;
    }
    assert(a.take(i as int) =~= a);
    assert(v@.take(i as int) =~= v@);
    assert forall|k: int| 0 <= k < a.len() implies #[trigger] groups_of(v@)[k] == groups_of(
        a,
    )[k] by {
        assert(v@[k].group == a[k].group);
    }
    assert(groups_of(v@) =~= groups_of(a));
    touched
}

/// The rdp connections, with those that asked for the requirement `from` now asking for
/// `to`.
pub open spec fn conns_follow(a: Seq<RdpConnection>, b: Seq<RdpConnection>, from: Seq<char>, to: Seq<char>) -> bool {
    &&& b.len() == a.len()
    &&& forall|i: int|
        0 <= i < a.len() ==> if canonical_text(a[i].requires_vpn@) == from {
            (#[trigger] b[i]).requires_vpn@ == to && b[i] == (RdpConnection {
                requires_vpn: b[i].requires_vpn,
                ..a[i]
            })
        } else {
            b[i] == a[i]
        }
}

pub open spec fn conns_ask(s: Seq<RdpConnection>, req: Seq<char>) -> bool {
    exists|i: int| 0 <= i < s.len() && canonical_text((#[trigger] s[i]).requires_vpn@) == req
}

fn conns_rename(v: &mut Vec<RdpConnection>, from: &str, to: &str) -> (r: bool)
    ensures
        conns_follow(old(v)@, final(v)@, from@, to@),
        r == conns_ask(old(v)@, from@),
        groups_of(final(v)@) == groups_of(old(v)@),
{
    let ghost a = v@;
    let mut touched = false;
    let mut i: usize = 0;
    while i < v.len()
        invariant
            i <= v@.len(),
            conns_follow(a.take(i as int), v@.take(i as int), from@, to@),
            v@.len() == a.len(),
            forall|k: int| i <= k < a.len() ==> #[trigger] v@[k] == a[k],
            touched == conns_ask(a.take(i as int), from@),
        decreases v@.len() - i,
    {
        let ghost before = v@;
        assert(a.take(i + 1)[i as int] == a[i as int]);
        assert(forall|k: int| 0 <= k < i ==> a.take(i + 1)[k] == a.take(i as int)[k]);
        let hit = text::same(
            canonical_vpn_requirement(v[i].requires_vpn.as_str()).as_str(),
            from,
        );
        assert(conns_ask(a.take(i + 1), from@) == (touched || hit)) by {
            if touched {
                let k = choose|k: int|
                    0 <= k < i && canonical_text((#[trigger] a.take(i as int)[k]).requires_vpn@)
                        == from@;
                assert(canonical_text(a.take(i + 1)[k].requires_vpn@) == from@);
            }
            if conns_ask(a.take(i + 1), from@) && !hit {
                let k = choose|k: int|
                    0 <= k < i + 1 && canonical_text((#[trigger] a.take(i + 1)[k]).requires_vpn@)
                        == from@;
                assert(canonical_text(a.take(i as int)[k].requires_vpn@) == from@);
            }
        }
        if hit {
            v[i].requires_vpn = to.to_owned();
            touched = true;
        }
        assert forall|k: int| 0 <= k < i + 1 implies if canonical_text(
            a.take(i + 1)[k].requires_vpn@,
        ) == from@ {
            (#[trigger] v@.take(i + 1)[k]).requires_vpn@ == to@ && v@.take(i + 1)[k] == (RdpConnection {
                requires_vpn: v@.take(i + 1)[k].requires_vpn,
                ..a.take(i + 1)[k]
            })
        } else {
            v@.take(i + 1)[k] == a.take(i + 1)[k]
        } by {
            if k < i {
                assert(v@.take(i + 1)[k] == before.take(i as int)[k]);
                assert(a.take(i + 1)[k] == a.take(i as int)[k]);
            }
        }
        i = i + 1;
    }
    assert(a.take(i as int) =~= a);
    assert(v@.take(i as int) =~= v@);
    assert forall|k: int| 0 <= k < a.len() implies #[trigger] groups_of(v@)[k] == groups_of(
        a,
    )[k] by {
        assert(v@[k].group == a[k].group);
    }
    assert(groups_of(v@) =~= groups_of(a));
    touched
}

/// Everything that required a profile follows it to its new name.
pub open spec fn requirement_renamed(
    a: App,
    b: App,
    id: ProviderId,
    from: Seq<char>,
    to: Seq<char>,
) -> bool {
    let old_req = id.slug_spec() + ":"@ + from;
    let new_req = id.slug_spec() + ":"@ + to;
    &&& b == (App { tunnels: b.tunnels, ssh_hosts: b.ssh_hosts, rdp_conns: b.rdp_conns, ..a })
    &&& tunnels_follow(a.tunnels@, b.tunnels@, old_req, new_req)
    &&& hosts_follow(a.ssh_hosts@, b.ssh_hosts@, old_req, new_req)
    &&& conns_follow(a.rdp_conns@, b.rdp_conns@, old_req, new_req)
}

/// The files a renamed profile has to be written to: all of them, if any.
pub open spec fn requirement_saves(a: App, id: ProviderId, from: Seq<char>) -> Seq<Act> {
    let req = id.slug_spec() + ":"@ + from;
    if tunnels_ask(a.tunnels@, req) || hosts_ask(a.ssh_hosts@, req) || conns_ask(
        a.rdp_conns@,
        req,
    ) {
        seq![Act::Save(Store::Tunnels), Act::Save(Store::Ssh), Act::Save(Store::Rdp)]
    } else {
        Seq::empty()
    }
}

impl App {
    /// Follow a renamed profile through everything that requires it, the way
    /// renaming a tunnel updates what depends on it.
    pub fn rename_vpn_requirement(
        &mut self,
        id: ProviderId,
        from: &str,
        to: &str,
        out: &mut Vec<Effect>,
    )
        requires
            old(self).wf(),
        ensures
            final(self).wf(),
            requirement_renamed(*old(self), *final(self), id, from@, to@),
            acts(final(out)@) == acts(old(out)@) + requirement_saves(*old(self), id, from@),
    {
        let ghost a = *self;
        let ghost was = acts(out@);
        let old_req = cat3(id.slug(), ":", from);
        let new_req = cat3(id.slug(), ":", to);
        let t = tunnels_rename(&mut self.tunnels, old_req.as_str(), new_req.as_str());
        let h = hosts_rename(&mut self.ssh_hosts, old_req.as_str(), new_req.as_str());
        let c = conns_rename(&mut self.rdp_conns, old_req.as_str(), new_req.as_str());
        if t || h || c {
            effects::ask(out, Effect::Save(Store::Tunnels));
            effects::ask(out, Effect::Save(Store::Ssh));
            effects::ask(out, Effect::Save(Store::Rdp));
        }
        assert(acts(out@) =~= was + requirement_saves(a, id, from@));
    }
}

/// After a rename nothing asks for the old name any more.
pub proof fn law_renamed_profile_leaves_nothing_behind(
    a: Seq<Tunnel>,
    b: Seq<Tunnel>,
    from: Seq<char>,
    to: Seq<char>,
)
    requires
        tunnels_follow(a, b, from, to),
        canonical_text(to) == to,
        from != to,
    ensures
        !tunnels_ask(b, from),
        forall|i: int| 0 <= i < a.len() ==> (#[trigger] b[i]).name@ == a[i].name@,
{
    assert forall|i: int| 0 <= i < b.len() implies canonical_text(
        (#[trigger] b[i]).requires_vpn@,
    ) != from by {
        if canonical_text(a[i].requires_vpn@) == from {
        } else {
        }
    }
}

// ---------------------------------------------------------------------------
// The form
// ---------------------------------------------------------------------------

/// An error of a form.
pub open spec fn vpn_form_says(a: App, b: App, why: Seq<char>) -> bool {
    &&& b == (App { vpn_form: b.vpn_form, ..a })
    &&& b.vpn_form == (VpnForm { error: b.vpn_form.error, ..a.vpn_form })
    &&& opt_string(b.vpn_form.error) == Some(why)
}

/// A place in a list, as a number.
pub open spec fn place(edit: Option<usize>) -> Option<int> {
    match edit {
        Some(i) => Some(i as int),
        None => None,
    }
}

/// The form as it opens on the stored profile at `i` of a client.
pub open spec fn form_shows(f: VpnForm, cfg: VpnConfig, id: ProviderId, i: int) -> bool {
    &&& f.field_idx == 0 && f.error is None
    &&& match id {
        ProviderId::Wireguard => f.shows_wireguard(cfg.wireguard@[i]) && f.secret_ack == (
        cfg.wireguard@[i].private_key@.len() > 0),
        ProviderId::Openvpn => f.shows_openvpn(cfg.openvpn@[i]) && f.secret_ack == (
        cfg.openvpn@[i].password@.len() > 0),
        ProviderId::Tailscale => f.shows_tailscale(cfg.tailscale@[i]) && !f.secret_ack,
        ProviderId::Netbird => false,
    }
}

/// An empty form.
pub open spec fn form_empty(f: VpnForm, id: ProviderId) -> bool {
    &&& f.provider == id && f.field_idx == 0 && f.error is None && !f.secret_ack
    &&& forall|k: VpnKey| #[trigger] f.word(k) == VpnForm::empty_word(id, k)
    &&& forall|k: VpnKey| #[trigger] f.up(k) == VpnForm::empty_flag(id, k)
}

/// `a` or `e` on the VPN tab: the form opens, on the profile at `edit` or empty.
pub open spec fn opened_vpn_form(a: App, b: App, edit: Option<usize>, out: Seq<Act>) -> bool {
    let id = a.vpn.here().id;
    if !id.manages_profiles_spec() {
        &&& b == a
        &&& out == seq![Act::Flash("netbird profiles are managed by netbird itself"@, true)]
    } else {
        &&& out.len() == 0
        &&& match edit {
            Some(i) => if i < crate::app::profiles_kept(a.vpn_cfg, id) {
                &&& b == (App {
                    vpn_form: b.vpn_form,
                    vpn_mode: VpnMode::Form { provider: id, edit },
                    ..a
                })
                &&& form_shows(b.vpn_form, a.vpn_cfg, id, i as int)
            } else {
                b == a
            },
            None => {
                &&& b == (App {
                    vpn_form: b.vpn_form,
                    vpn_mode: VpnMode::Form { provider: id, edit },
                    ..a
                })
                &&& form_empty(b.vpn_form, id)
            },
        }
    }
}

/// What is asked for once a profile has been stored.
pub open spec fn saved_acts(id: ProviderId, name: Seq<char>) -> Seq<Act> {
    seq![
        Act::Save(Store::Vpn),
        Act::Refresh(id),
        Act::Flash(id.slug_spec() + ": saved '"@ + name + "'"@, false),
    ]
}

fn saved(id: ProviderId, name: &str) -> (r: Vec<Effect>)
    ensures
        acts(r@) == saved_acts(id, name@),
{
    let mut out = effects::nothing();
    effects::ask(&mut out, Effect::Save(Store::Vpn));
    effects::ask(&mut out, Effect::Refresh(id));
    effects::ask(&mut out, Effect::Flash(cat4(id.slug(), ": saved '", name, "'"), false));
    assert(acts(out@) =~= saved_acts(id, name@));
    out
}

/// What a profile was called before it was edited.
pub open spec fn called_before<T: Named>(s: Seq<T>, edit: Option<int>, name: Seq<char>) -> Seq<
    char,
> {
    match edit {
        Some(i) => s[i].name_spec(),
        None => name,
    }
}

/// Everything that required a profile follows it, where it was renamed.
pub open spec fn follows(a: App, b: App, id: ProviderId, from: Seq<char>, to: Seq<char>) -> bool {
    let old_req = id.slug_spec() + ":"@ + from;
    let new_req = id.slug_spec() + ":"@ + to;
    if from != to {
        &&& tunnels_follow(a.tunnels@, b.tunnels@, old_req, new_req)
        &&& hosts_follow(a.ssh_hosts@, b.ssh_hosts@, old_req, new_req)
        &&& conns_follow(a.rdp_conns@, b.rdp_conns@, old_req, new_req)
    } else {
        b.tunnels == a.tunnels && b.ssh_hosts == a.ssh_hosts && b.rdp_conns == a.rdp_conns
    }
}

/// What following a renamed profile asks for.
pub open spec fn follow_acts(a: App, id: ProviderId, from: Seq<char>, to: Seq<char>) -> Seq<Act> {
    if from != to {
        requirement_saves(a, id, from)
    } else {
        Seq::empty()
    }
}

/// A WireGuard profile has been stored. One that does not run from a file kept
/// elsewhere is written out before it counts as saved, and a rename leaves a
/// stale file behind under the old name.
pub open spec fn stored_wireguard(
    a: App,
    b: App,
    w: WireguardProfile,
    edit: Option<int>,
    out: Seq<Act>,
) -> bool {
    let id = ProviderId::Wireguard;
    let all = a.vpn_cfg.wireguard@;
    let was = called_before(all, edit, w.name@);
    if name_in_use(all, w.name@, edit) {
        &&& vpn_form_says(a, b, "a wireguard profile named '"@ + w.name@ + "' already exists"@)
        &&& out.len() == 0
    } else {
        &&& b == (App {
            tunnels: b.tunnels,
            ssh_hosts: b.ssh_hosts,
            rdp_conns: b.rdp_conns,
            vpn_cfg: b.vpn_cfg,
            vpn_mode: if w.config_path@.len() > 0 {
                VpnMode::Closed
            } else {
                a.vpn_mode
            },
            ..a
        })
        &&& b.vpn_cfg == (VpnConfig { wireguard: b.vpn_cfg.wireguard, ..a.vpn_cfg })
        &&& b.vpn_cfg.wireguard@ == placed(all, w, edit)
        &&& follows(a, b, id, was, w.name@)
        &&& out == (if was != w.name@ {
            seq![Act::DropProfileFiles(id, was)]
        } else {
            Seq::empty()
        }) + follow_acts(a, id, was, w.name@) + (if w.config_path@.len() > 0 {
            saved_acts(id, w.name@)
        } else {
            seq![Act::WriteProfileFiles(w.name@)]
        })
    }
}

/// A Tailscale profile has been stored.
pub open spec fn stored_tailscale(
    a: App,
    b: App,
    t: TailscaleProfile,
    edit: Option<int>,
    out: Seq<Act>,
) -> bool {
    let id = ProviderId::Tailscale;
    let all = a.vpn_cfg.tailscale@;
    let was = called_before(all, edit, t.name@);
    if name_in_use(all, t.name@, edit) {
        &&& vpn_form_says(a, b, "a tailscale profile named '"@ + t.name@ + "' already exists"@)
        &&& out.len() == 0
    } else {
        &&& b == (App {
            tunnels: b.tunnels,
            ssh_hosts: b.ssh_hosts,
            rdp_conns: b.rdp_conns,
            vpn_cfg: b.vpn_cfg,
            vpn_mode: VpnMode::Closed,
            ..a
        })
        &&& b.vpn_cfg == (VpnConfig { tailscale: b.vpn_cfg.tailscale, ..a.vpn_cfg })
        &&& b.vpn_cfg.tailscale@ == placed(all, t, edit)
        &&& follows(a, b, id, was, t.name@)
        &&& out == follow_acts(a, id, was, t.name@) + saved_acts(id, t.name@)
    }
}

/// The openvpn sessions once one of them goes by another name.
pub open spec fn session_renamed(
    a: Seq<LiveOvpn>,
    b: Seq<LiveOvpn>,
    from: Seq<char>,
    to: Seq<char>,
) -> bool {
    if has_name(a, from) {
        let old = a[place_of(a, from)];
        &&& b.len() > 0
        &&& b.last().name@ == to
        &&& b.last() == (LiveOvpn { name: b.last().name, ..old })
        &&& b == crate::live::with_one(without(a, from), b.last())
    } else {
        b == a
    }
}

/// An OpenVPN profile is about to be stored: what it is made of is copied first.
/// A rename or a switch to running the file in place leaves the old copy behind,
/// so it is dropped rather than orphaning certificates.
pub open spec fn storing_openvpn(
    a: App,
    b: App,
    o: OpenvpnProfile,
    edit: Option<int>,
    out: Seq<Act>,
) -> bool {
    let id = ProviderId::Openvpn;
    let all = a.vpn_cfg.openvpn@;
    let was = called_before(all, edit, o.name@);
    let renamed = was != o.name@;
    let drops = edit is Some && (renamed || all[edit->0].import && !o.import);
    if name_in_use(all, o.name@, edit) {
        &&& vpn_form_says(a, b, "an openvpn profile named '"@ + o.name@ + "' already exists"@)
        &&& out.len() == 0
    } else {
        &&& b == (App {
            tunnels: b.tunnels,
            ssh_hosts: b.ssh_hosts,
            rdp_conns: b.rdp_conns,
            ovpn_active: b.ovpn_active,
            ..a
        })
        &&& follows(a, b, id, was, o.name@)
        &&& if renamed {
            session_renamed(a.ovpn_active@, b.ovpn_active@, was, o.name@)
        } else {
            b.ovpn_active == a.ovpn_active
        }
        &&& out == follow_acts(a, id, was, o.name@) + (if renamed && has_name(
            a.ovpn_active@,
            was,
        ) {
            seq![Act::RenameOpenvpn(was, o.name@)]
        } else {
            Seq::empty()
        }) + (if drops {
            seq![Act::DropProfileFiles(id, was)]
        } else {
            Seq::empty()
        }) + seq![Act::ImportProfile]
    }
}

/// The VPN form has been submitted. Saving a key or a password in the clear is
/// asked about once per edit.
pub open spec fn submitted_vpn(a: App, b: App, out: Seq<Act>) -> bool {
    let f = a.vpn_form;
    let home = a.machine.home_spec();
    match a.vpn_mode {
        VpnMode::Form { provider, edit } => if f.stores_secret_spec() && !f.secret_ack {
            &&& b == (App { vpn_mode: VpnMode::SecretWarning { provider, edit }, ..a })
            &&& out.len() == 0
        } else {
            match provider {
                ProviderId::Wireguard => match f.wireguard_fault() {
                    Some(why) => vpn_form_says(a, b, why) && out.len() == 0,
                    None => b == a && out == seq![Act::CheckProfile],
                },
                ProviderId::Openvpn => match f.openvpn_fault(a.machine.os, home) {
                    Some(why) => vpn_form_says(a, b, why) && out.len() == 0,
                    None => exists|o: OpenvpnProfile|
                        f.gives_openvpn(o, a.machine.os, home) && #[trigger] storing_openvpn(
                            a,
                            b,
                            o,
                            place(edit),
                            out,
                        ),
                },
                ProviderId::Tailscale => if trimmed(f.word(VpnKey::Name)).len() == 0 {
                    vpn_form_says(a, b, "name is required"@) && out.len() == 0
                } else {
                    exists|t: TailscaleProfile|
                        f.gives_tailscale(t) && #[trigger] stored_tailscale(
                            a,
                            b,
                            t,
                            place(edit),
                            out,
                        )
                },
                ProviderId::Netbird => {
                    &&& vpn_form_says(a, b, "netbird profiles are managed by netbird"@)
                    &&& out.len() == 0
                },
            }
        },
        _ => b == a && out.len() == 0,
    }
}

/// The client's own rules have been applied to the WireGuard profile in the
/// form.
pub open spec fn checked_wireguard(
    a: App,
    b: App,
    result: Result<(), String>,
    out: Seq<Act>,
) -> bool {
    let f = a.vpn_form;
    let home = a.machine.home_spec();
    match a.vpn_mode {
        VpnMode::Form { provider: ProviderId::Wireguard, edit } => match result {
            Err(e) => vpn_form_says(a, b, e@) && out.len() == 0,
            Ok(()) => match f.wireguard_fault() {
                Some(why) => vpn_form_says(a, b, why) && out.len() == 0,
                None => exists|w: WireguardProfile|
                    f.gives_wireguard(w, a.machine.os, home) && #[trigger] stored_wireguard(
                        a,
                        b,
                        w,
                        place(edit),
                        out,
                    ),
            },
        },
        _ => b == a && out.len() == 0,
    }
}

/// The file of the WireGuard profile in the form has been written, or not.
pub open spec fn wrote_wireguard(
    a: App,
    b: App,
    result: Result<(), String>,
    out: Seq<Act>,
) -> bool {
    match a.vpn_mode {
        VpnMode::Form { provider: ProviderId::Wireguard, .. } => match result {
            Err(e) => vpn_form_says(a, b, e@) && out.len() == 0,
            Ok(()) => {
                &&& b == (App { vpn_mode: VpnMode::Closed, ..a })
                &&& out == saved_acts(
                    ProviderId::Wireguard,
                    trimmed(a.vpn_form.word(VpnKey::Name)),
                )
            },
        },
        _ => b == a && out.len() == 0,
    }
}

/// What the OpenVPN profile in the form is made of has been copied, or not.
pub open spec fn imported_openvpn(
    a: App,
    b: App,
    result: Result<Option<String>, String>,
    out: Seq<Act>,
) -> bool {
    let f = a.vpn_form;
    let home = a.machine.home_spec();
    match a.vpn_mode {
        VpnMode::Form { provider: ProviderId::Openvpn, edit } => match result {
            Err(e) => vpn_form_says(a, b, e@) && out.len() == 0,
            Ok(note) => match f.openvpn_fault(a.machine.os, home) {
                Some(why) => vpn_form_says(a, b, why) && out.len() == 0,
                None => {
                    let at = match edit {
                        Some(i) => i as int,
                        None => a.vpn_cfg.openvpn@.len() as int,
                    };
                    let o = b.vpn_cfg.openvpn@[at];
                    &&& b == (App { vpn_cfg: b.vpn_cfg, vpn_mode: VpnMode::Closed, ..a })
                    &&& b.vpn_cfg == (VpnConfig { openvpn: b.vpn_cfg.openvpn, ..a.vpn_cfg })
                    &&& f.gives_openvpn(o, a.machine.os, home)
                    &&& b.vpn_cfg.openvpn@ == placed(a.vpn_cfg.openvpn@, o, place(edit))
                    &&& out == (match note {
                        Some(n) => seq![Act::Flash(n@, false)],
                        None => Seq::empty(),
                    }) + saved_acts(ProviderId::Openvpn, o.name@)
                },
            },
        },
        _ => b == a && out.len() == 0,
    }
}

impl App {
    /// `a` or `e` on the VPN tab.
    pub fn open_vpn_form(&mut self, edit: Option<usize>) -> (r: Vec<Effect>)
        requires
            old(self).wf(),
        ensures
            final(self).wf(),
            opened_vpn_form(*old(self), *final(self), edit, acts(r@)),
    {
        let provider = self.vpn.current_id();
        if !provider.manages_profiles() {
            return effects::just(
                Effect::Flash("netbird profiles are managed by netbird itself".to_owned(), true),
            );
        }
        let form = match edit {
            None => VpnForm::empty(provider),
            Some(i) => match provider {
                ProviderId::Wireguard => if i < self.vpn_cfg.wireguard.len() {
                    VpnForm::from_wireguard(&self.vpn_cfg.wireguard[i])
                } else {
                    return effects::nothing();
                },
                ProviderId::Openvpn => if i < self.vpn_cfg.openvpn.len() {
                    VpnForm::from_openvpn(&self.vpn_cfg.openvpn[i])
                } else {
                    return effects::nothing();
                },
                ProviderId::Tailscale => if i < self.vpn_cfg.tailscale.len() {
                    VpnForm::from_tailscale(&self.vpn_cfg.tailscale[i])
                } else {
                    return effects::nothing();
                },
                ProviderId::Netbird => {
                    return effects::nothing();
                },
            },
        };
        self.vpn_form = form;
        self.vpn_mode = VpnMode::Form { provider, edit };
        effects::nothing()
    }

    fn vpn_form_error(&mut self, why: String) -> (r: Vec<Effect>)
        requires
            old(self).wf(),
        ensures
            final(self).wf(),
            vpn_form_says(*old(self), *final(self), why@),
            acts(r@).len() == 0,
    {
        self.vpn_form.error = Some(why);
        effects::nothing()
    }

    /// Enter in the VPN form.
    pub fn submit_vpn_form(&mut self) -> (r: Vec<Effect>)
        requires
            old(self).wf(),
        ensures
            final(self).wf(),
            submitted_vpn(*old(self), *final(self), acts(r@)),
    {
        let ghost a = *self;
        let (provider, edit) = match self.vpn_mode {
            VpnMode::Form { provider, edit } => (provider, edit),
            _ => {
                return effects::nothing();
            },
        };
        if self.vpn_form.stores_secret() && !self.vpn_form.secret_ack {
            self.vpn_mode = VpnMode::SecretWarning { provider, edit };
            return effects::nothing();
        }
        match provider {
            ProviderId::Wireguard => match self.vpn_form.to_wireguard(self.machine.os, self.machine.home()) {
                Err(e) => self.vpn_form_error(e),
                Ok(_) => effects::just(Effect::CheckProfile),
            },
            ProviderId::Openvpn => match self.vpn_form.to_openvpn(self.machine.os, self.machine.home()) {
                Err(e) => self.vpn_form_error(e),
                Ok(o) => {
                    let r = self.store_openvpn(&o, edit);
                    assert(storing_openvpn(a, *self, o, place(edit), acts(r@)));
                    r
                },
            },
            ProviderId::Tailscale => match self.vpn_form.to_tailscale() {
                Err(e) => self.vpn_form_error(e),
                Ok(t) => {
                    let r = self.store_tailscale(t, edit);
                    assert(stored_tailscale(a, *self, t, place(edit), acts(r@)));
                    r
                },
            },
            ProviderId::Netbird => self.vpn_form_error(
                "netbird profiles are managed by netbird".to_owned(),
            ),
        }
    }

    fn store_wireguard(&mut self, w: WireguardProfile, edit: Option<usize>) -> (r: Vec<Effect>)
        requires
            old(self).wf(),
            edit matches Some(i) ==> i < old(self).vpn_cfg.wireguard@.len(),
        ensures
            final(self).wf(),
            stored_wireguard(*old(self), *final(self), w, place(edit), acts(r@)),
    {
        let ghost a = *self;
        if name_taken(self.vpn_cfg.wireguard.as_slice(), w.name.as_str(), edit) {
            let msg = cat3("a wireguard profile named '", w.name.as_str(), "' already exists");
            return self.vpn_form_error(msg);
        }
        let id = ProviderId::Wireguard;
        let name = w.name.clone();
        let old_name = match edit {
            Some(i) => self.vpn_cfg.wireguard[i].name.clone(),
            None => w.name.clone(),
        };
        let mut out = effects::nothing();
        if !text::same(old_name.as_str(), name.as_str()) {
            effects::ask(&mut out, Effect::DropProfileFiles(id, old_name.clone()));
            self.rename_vpn_requirement(id, old_name.as_str(), name.as_str(), &mut out);
        }
        let external = w.external();
        match edit {
            Some(i) => {
                self.vpn_cfg.wireguard[i] = w;
            },
            None => {
                self.vpn_cfg.wireguard.push(w);
            },
        }
        if external {
            self.vpn_mode = VpnMode::Closed;
            effects::ask_all(&mut out, saved(id, name.as_str()));
        } else {
            effects::ask(&mut out, Effect::WriteProfileFiles(name));
        }
        assert(acts(out@) =~= (if old_name@ != w.name@ {
            seq![Act::DropProfileFiles(id, old_name@)]
        } else {
            Seq::empty()
        }) + follow_acts(a, id, old_name@, w.name@) + (if w.config_path@.len() > 0 {
            saved_acts(id, w.name@)
        } else {
            seq![Act::WriteProfileFiles(w.name@)]
        }));
        out
    }

    fn store_tailscale(&mut self, t: TailscaleProfile, edit: Option<usize>) -> (r: Vec<Effect>)
        requires
            old(self).wf(),
            edit matches Some(i) ==> i < old(self).vpn_cfg.tailscale@.len(),
        ensures
            final(self).wf(),
            stored_tailscale(*old(self), *final(self), t, place(edit), acts(r@)),
    {
        let ghost a = *self;
        if name_taken(self.vpn_cfg.tailscale.as_slice(), t.name.as_str(), edit) {
            let msg = cat3("a tailscale profile named '", t.name.as_str(), "' already exists");
            return self.vpn_form_error(msg);
        }
        let id = ProviderId::Tailscale;
        let name = t.name.clone();
        let old_name = match edit {
            Some(i) => self.vpn_cfg.tailscale[i].name.clone(),
            None => t.name.clone(),
        };
        let mut out = effects::nothing();
        if !text::same(old_name.as_str(), name.as_str()) {
            self.rename_vpn_requirement(id, old_name.as_str(), name.as_str(), &mut out);
        }
        match edit {
            Some(i) => {
                self.vpn_cfg.tailscale[i] = t;
            },
            None => {
                self.vpn_cfg.tailscale.push(t);
            },
        }
        self.vpn_mode = VpnMode::Closed;
        effects::ask_all(&mut out, saved(id, name.as_str()));
        assert(acts(out@) =~= follow_acts(a, id, old_name@, t.name@) + saved_acts(id, t.name@));
        out
    }

    fn store_openvpn(&mut self, o: &OpenvpnProfile, edit: Option<usize>) -> (r: Vec<Effect>)
        requires
            old(self).wf(),
            edit matches Some(i) ==> i < old(self).vpn_cfg.openvpn@.len(),
        ensures
            final(self).wf(),
            storing_openvpn(*old(self), *final(self), *o, place(edit), acts(r@)),
    {
        let ghost a = *self;
        if name_taken(self.vpn_cfg.openvpn.as_slice(), o.name.as_str(), edit) {
            let msg = cat3("an openvpn profile named '", o.name.as_str(), "' already exists");
            return self.vpn_form_error(msg);
        }
        let id = ProviderId::Openvpn;
        let old_name = match edit {
            Some(i) => self.vpn_cfg.openvpn[i].name.clone(),
            None => o.name.clone(),
        };
        let renamed = !text::same(old_name.as_str(), o.name.as_str());
        let drops = match edit {
            Some(i) => renamed || (self.vpn_cfg.openvpn[i].import && !o.import),
            None => false,
        };
        let mut out = effects::nothing();
        if renamed {
            self.rename_vpn_requirement(id, old_name.as_str(), o.name.as_str(), &mut out);
            self.rename_session(old_name.as_str(), o.name.as_str(), &mut out);
        }
        if drops {
            effects::ask(&mut out, Effect::DropProfileFiles(id, old_name.clone()));
        }
        effects::ask(&mut out, Effect::ImportProfile);
        assert(acts(out@) =~= follow_acts(a, id, old_name@, o.name@) + (if renamed && has_name(
            a.ovpn_active@,
            old_name@,
        ) {
            seq![Act::RenameOpenvpn(old_name@, o.name@)]
        } else {
            Seq::empty()
        }) + (if drops {
            seq![Act::DropProfileFiles(id, old_name@)]
        } else {
            Seq::empty()
        }) + seq![Act::ImportProfile]);
        out
    }

    /// The openvpn session of a profile goes by its new name.
    fn rename_session(&mut self, from: &str, to: &str, out: &mut Vec<Effect>)
        requires
            old(self).wf(),
        ensures
            final(self).wf(),
            session_renamed(old(self).ovpn_active@, final(self).ovpn_active@, from@, to@),
            *final(self) == (App { ovpn_active: final(self).ovpn_active, ..*old(self) }),
            acts(final(out)@) == acts(old(out)@) + (if has_name(old(self).ovpn_active@, from@) {
                seq![Act::RenameOpenvpn(from@, to@)]
            } else {
                Seq::empty()
            }),
    {
        let ghost was = acts(out@);
        let ghost live = self.ovpn_active@;
        proof {
            law_taken_out_is_gone(live, from@, from@);
        }
        match take_out(&mut self.ovpn_active, from) {
            Some(session) => {
                let mut session = session;
                session.name = to.to_owned();
                proof {
                    law_put_in_is_there(self.ovpn_active@, session);
                }
                crate::live::put(&mut self.ovpn_active, session);
                effects::ask(out, Effect::RenameOpenvpn(from.to_owned(), to.to_owned()));
            },
            None => {},
        }
        assert(acts(out@) =~= was + (if has_name(live, from@) {
            seq![Act::RenameOpenvpn(from@, to@)]
        } else {
            Seq::empty()
        }));
    }

    /// What became of holding the WireGuard profile in the form to the client's
    /// own rules.
    pub fn profile_checked(&mut self, result: Result<(), String>) -> (r: Vec<Effect>)
        requires
            old(self).wf(),
        ensures
            final(self).wf(),
            checked_wireguard(*old(self), *final(self), result, acts(r@)),
    {
        let ghost a = *self;
        let edit = match self.vpn_mode {
            VpnMode::Form { provider, edit } => if provider == ProviderId::Wireguard {
                edit
            } else {
                return effects::nothing();
            },
            _ => {
                return effects::nothing();
            },
        };
        match result {
            Err(e) => self.vpn_form_error(e),
            Ok(()) => match self.vpn_form.to_wireguard(self.machine.os, self.machine.home()) {
                Err(e) => self.vpn_form_error(e),
                Ok(w) => {
                    let r = self.store_wireguard(w, edit);
                    assert(stored_wireguard(a, *self, w, place(edit), acts(r@)));
                    r
                },
            },
        }
    }

    /// What became of writing the file of the WireGuard profile in the form.
    pub fn profile_written(&mut self, result: Result<(), String>) -> (r: Vec<Effect>)
        requires
            old(self).wf(),
        ensures
            final(self).wf(),
            wrote_wireguard(*old(self), *final(self), result, acts(r@)),
    {
        match self.vpn_mode {
            VpnMode::Form { provider, .. } => if provider == ProviderId::Wireguard {
            } else {
                return effects::nothing();
            },
            _ => {
                return effects::nothing();
            },
        }
        match result {
            Err(e) => self.vpn_form_error(e),
            Ok(()) => {
                let name = text::trim(self.vpn_form.typed(VpnKey::Name));
                self.vpn_mode = VpnMode::Closed;
                saved(ProviderId::Wireguard, name.as_str())
            },
        }
    }

    /// What became of copying what the OpenVPN profile in the form is made of.
    pub fn profile_imported(&mut self, result: Result<Option<String>, String>) -> (r: Vec<Effect>)
        requires
            old(self).wf(),
        ensures
            final(self).wf(),
            imported_openvpn(*old(self), *final(self), result, acts(r@)),
    {
        let ghost a = *self;
        let edit = match self.vpn_mode {
            VpnMode::Form { provider, edit } => if provider == ProviderId::Openvpn {
                edit
            } else {
                return effects::nothing();
            },
            _ => {
                return effects::nothing();
            },
        };
        let note = match result {
            Err(e) => {
                return self.vpn_form_error(e);
            },
            Ok(n) => n,
        };
        let o = match self.vpn_form.to_openvpn(self.machine.os, self.machine.home()) {
            Err(e) => {
                return self.vpn_form_error(e);
            },
            Ok(o) => o,
        };
        let mut out = effects::nothing();
        match &note {
            Some(n) => {
                effects::flash(&mut out, n.as_str(), false);
            },
            None => {},
        }
        effects::ask_all(&mut out, saved(ProviderId::Openvpn, o.name.as_str()));
        assert(acts(out@) =~= (match note {
            Some(n) => seq![Act::Flash(n@, false)],
            None => Seq::empty(),
        }) + saved_acts(ProviderId::Openvpn, o.name@));
        match edit {
            Some(i) => {
                self.vpn_cfg.openvpn[i] = o;
            },
            None => {
                self.vpn_cfg.openvpn.push(o);
            },
        }
        self.vpn_mode = VpnMode::Closed;
        out
    }
}

// ---------------------------------------------------------------------------
// Keys and imports
// ---------------------------------------------------------------------------

/// What became of making a key pair for the form: the private and the public
/// half.
pub open spec fn key_made(
    a: App,
    b: App,
    result: Result<(String, String), String>,
    out: Seq<Act>,
) -> bool {
    match result {
        Ok((private, public)) => {
            &&& b == (App { vpn_form: b.vpn_form, ..a })
            &&& b.vpn_form == (VpnForm {
                words: b.vpn_form.words,
                secret_ack: false,
                ..a.vpn_form
            })
            &&& b.vpn_form.word(VpnKey::PrivateKey) == private@
            &&& forall|k: VpnKey|
                k != VpnKey::PrivateKey ==> #[trigger] b.vpn_form.word(k) == a.vpn_form.word(k)
            &&& out == seq![
                Act::Flash("generated a key — its public half is "@ + public@, false),
            ]
        },
        Err(e) => vpn_form_says(a, b, e@) && out.len() == 0,
    }
}

/// What was found when an OpenVPN profile was to be copied.
pub struct ImportFound {
    /// Its `.ovpn` file is there.
    pub source: bool,
    /// A copy from an earlier time is there.
    pub copy: bool,
    /// What became of copying it: the files it names that were not there, and
    /// how many were.
    pub copied: Result<(Vec<String>, usize), String>,
}

/// What is said of importing a profile, or why it cannot be used. A source that
/// has since been moved or deleted is not an error as long as the profile was
/// imported once already — that is the whole point of having imported it.
pub open spec fn import_outcome(o: OpenvpnProfile, f: ImportFound) -> Result<
    Option<Seq<char>>,
    Seq<char>,
> {
    if !o.import {
        if f.source {
            Ok(None)
        } else {
            Err(o.config_path@ + " does not exist"@)
        }
    } else if !f.source {
        if f.copy {
            Ok(
                Some(
                    "'"@ + o.name@ + "' kept its imported copy — "@ + o.config_path@ + " is gone"@,
                ),
            )
        } else {
            Err(o.config_path@ + " does not exist"@)
        }
    } else {
        match f.copied {
            Err(e) => Err(e@),
            Ok((missing, found)) => if missing@.len() > 0 {
                Err(
                    "the config needs "@ + joined(texts(missing@), ", "@) + " which "@ + (
                    if missing@.len() == 1 {
                        "is"@
                    } else {
                        "are"@
                    }) + " not next to it"@,
                )
            } else if found == 0 {
                Ok(Some("imported '"@ + o.name@ + "' (everything is inline)"@))
            } else {
                Ok(
                    Some(
                        "imported '"@ + o.name@ + "' with "@ + decimal(found as nat)
                            + " file(s)"@,
                    ),
                )
            },
        }
    }
}

/// What is said of importing a profile, or why it cannot be used.
pub fn import_openvpn(o: &OpenvpnProfile, f: &ImportFound) -> (r: Result<Option<String>, String>)
    ensures
        match import_outcome(*o, *f) {
            Ok(note) => r is Ok && opt_string(r->Ok_0) == note,
            Err(e) => r is Err && r->Err_0@ == e,
        },
{
    if !o.import {
        return if f.source {
            Ok(None)
        } else {
            Err(cat(o.config_path.as_str(), " does not exist"))
        };
    }
    if !f.source {
        return if f.copy {
            Ok(
                Some(
                    cat5(
                        "'",
                        o.name.as_str(),
                        "' kept its imported copy — ",
                        o.config_path.as_str(),
                        " is gone",
                    ),
                ),
            )
        } else {
            Err(cat(o.config_path.as_str(), " does not exist"))
        };
    }
    match &f.copied {
        Err(e) => Err(e.clone()),
        Ok((missing, found)) => {
            if missing.len() > 0 {
                let names = text::join(missing, ", ");
                let verb = if missing.len() == 1 {
                    "is"
                } else {
                    "are"
                };
                Err(cat5("the config needs ", names.as_str(), " which ", verb, " not next to it"))
            } else if *found == 0 {
                Ok(Some(cat3("imported '", o.name.as_str(), "' (everything is inline)")))
            } else {
                let n = number::write(*found as u64);
                Ok(
                    Some(
                        cat5("imported '", o.name.as_str(), "' with ", n.as_str(), " file(s)"),
                    ),
                )
            }
        },
    }
}

// ---------------------------------------------------------------------------
// Deleting
// ---------------------------------------------------------------------------

/// What is asked for once a profile has been deleted. A dangling requirement is
/// left visible and marked missing, the same way a deleted tunnel is.
pub open spec fn deleted_acts(id: ProviderId, name: Seq<char>) -> Seq<Act> {
    seq![
        Act::Save(Store::Vpn),
        Act::Refresh(id),
        Act::Flash(id.slug_spec() + ": deleted '"@ + name + "'"@, false),
    ]
}

/// A profile has been deleted.
pub open spec fn deleted_profile(a: App, b: App, id: ProviderId, idx: int, out: Seq<Act>) -> bool {
    if idx >= crate::app::profiles_kept(a.vpn_cfg, id) {
        b == (App { vpn_mode: VpnMode::Closed, ..a }) && out.len() == 0
    } else {
        match id {
            ProviderId::Wireguard => {
                let name = a.vpn_cfg.wireguard@[idx].name@;
                &&& b == (App { vpn_cfg: b.vpn_cfg, vpn_mode: VpnMode::Closed, ..a })
                &&& b.vpn_cfg == (VpnConfig { wireguard: b.vpn_cfg.wireguard, ..a.vpn_cfg })
                &&& b.vpn_cfg.wireguard@ == a.vpn_cfg.wireguard@.remove(idx)
                &&& out == seq![Act::DropProfileFiles(id, name)] + deleted_acts(id, name)
            },
            ProviderId::Openvpn => {
                let name = a.vpn_cfg.openvpn@[idx].name@;
                &&& b == (App {
                    vpn_cfg: b.vpn_cfg,
                    vpn_mode: VpnMode::Closed,
                    ovpn_active: b.ovpn_active,
                    ..a
                })
                &&& b.vpn_cfg == (VpnConfig { openvpn: b.vpn_cfg.openvpn, ..a.vpn_cfg })
                &&& b.vpn_cfg.openvpn@ == a.vpn_cfg.openvpn@.remove(idx)
                &&& b.ovpn_active@ == without(a.ovpn_active@, name)
                &&& out == (if has_name(a.ovpn_active@, name) {
                    seq![Act::DropOpenvpn(name)]
                } else {
                    Seq::empty()
                }) + seq![Act::DropProfileFiles(id, name)] + deleted_acts(id, name)
            },
            ProviderId::Tailscale => {
                let name = a.vpn_cfg.tailscale@[idx].name@;
                &&& b == (App { vpn_cfg: b.vpn_cfg, vpn_mode: VpnMode::Closed, ..a })
                &&& b.vpn_cfg == (VpnConfig { tailscale: b.vpn_cfg.tailscale, ..a.vpn_cfg })
                &&& b.vpn_cfg.tailscale@ == a.vpn_cfg.tailscale@.remove(idx)
                &&& out == deleted_acts(id, name)
            },
            ProviderId::Netbird => true,
        }
    }
}

/// `d` on the VPN tab.
pub open spec fn asked_to_delete_profile(a: App, b: App, out: Seq<Act>) -> bool {
    let s = a.vpn.here();
    if s.foreign_here() {
        b == a && out == seq![crate::vpn_tab::foreign_note(a, "delete"@)]
    } else if !s.id.manages_profiles_spec() {
        &&& b == a
        &&& out == seq![Act::Flash("netbird profiles are managed by netbird itself"@, true)]
    } else if s.profiles@.len() > 0 {
        &&& b == (App {
            vpn_mode: VpnMode::DeleteConfirm { provider: s.id, idx: s.selected },
            ..a
        })
        &&& out.len() == 0
    } else {
        b == a && out.len() == 0
    }
}

/// `e` on the VPN tab.
pub open spec fn edited_profile(a: App, b: App, out: Seq<Act>) -> bool {
    let s = a.vpn.here();
    if s.foreign_here() {
        b == a && out == seq![crate::vpn_tab::foreign_note(a, "edit"@)]
    } else if s.profiles@.len() > 0 {
        opened_vpn_form(a, b, Some(s.selected), out)
    } else {
        b == a && out.len() == 0
    }
}

impl App {
    /// What became of making a key pair for the form.
    pub fn key_generated(&mut self, result: Result<(String, String), String>) -> (r: Vec<Effect>)
        requires
            old(self).wf(),
        ensures
            final(self).wf(),
            key_made(*old(self), *final(self), result, acts(r@)),
    {
        match result {
            Ok((private, public)) => {
                let ghost a = *self;
                self.vpn_form.secret_ack = false;
                assert forall|k: VpnKey| #[trigger] self.vpn_form.word(k) == a.vpn_form.word(k) by {}
                self.vpn_form.set(VpnKey::PrivateKey, private);
                effects::just(
                    Effect::Flash(
                        cat("generated a key — its public half is ", public.as_str()),
                        false,
                    ),
                )
            },
            Err(e) => self.vpn_form_error(e),
        }
    }

    /// `e` on the VPN tab.
    pub fn edit_profile(&mut self) -> (r: Vec<Effect>)
        requires
            old(self).wf(),
        ensures
            final(self).wf(),
            edited_profile(*old(self), *final(self), acts(r@)),
    {
        if self.vpn.current().on_foreign() {
            self.foreign_row_note("edit")
        } else if self.vpn.current().profiles.len() > 0 {
            let at: usize = self.vpn.current().selected;
            self.open_vpn_form(Some(at))
        } else {
            effects::nothing()
        }
    }

    /// `d` on the VPN tab: ask whether to delete the profile under the cursor.
    pub fn ask_delete_profile(&mut self) -> (r: Vec<Effect>)
        requires
            old(self).wf(),
        ensures
            final(self).wf(),
            asked_to_delete_profile(*old(self), *final(self), acts(r@)),
    {
        let provider = self.vpn.current_id();
        if self.vpn.current().on_foreign() {
            self.foreign_row_note("delete")
        } else if !provider.manages_profiles() {
            effects::just(
                Effect::Flash("netbird profiles are managed by netbird itself".to_owned(), true),
            )
        } else {
            if self.vpn.current().profiles.len() > 0 {
                let idx: usize = self.vpn.current().selected;
                self.vpn_mode = VpnMode::DeleteConfirm { provider, idx };
            }
            effects::nothing()
        }
    }

    /// Delete a profile.
    pub fn delete_vpn_profile(&mut self, provider: ProviderId, idx: usize) -> (r: Vec<Effect>)
        requires
            old(self).wf(),
        ensures
            final(self).wf(),
            deleted_profile(*old(self), *final(self), provider, idx as int, acts(r@)),
    {
        let ghost a = *self;
        self.vpn_mode = VpnMode::Closed;
        let mut out = effects::nothing();
        let name = match provider {
            ProviderId::Wireguard => {
                if idx >= self.vpn_cfg.wireguard.len() {
                    return out;
                }
                let w = self.vpn_cfg.wireguard.remove(idx);
                effects::ask(&mut out, Effect::DropProfileFiles(provider, w.name.clone()));
                assert(acts(out@) =~= seq![Act::DropProfileFiles(provider, w.name@)]);
                w.name
            },
            ProviderId::Openvpn => {
                if idx >= self.vpn_cfg.openvpn.len() {
                    return out;
                }
                let o = self.vpn_cfg.openvpn.remove(idx);
                proof {
                    law_taken_out_is_gone(self.ovpn_active@, o.name@, o.name@);
                }
                if take_out(&mut self.ovpn_active, o.name.as_str()).is_some() {
                    effects::ask(&mut out, Effect::DropOpenvpn(o.name.clone()));
                }
                effects::ask(&mut out, Effect::DropProfileFiles(provider, o.name.clone()));
                assert(acts(out@) =~= (if has_name(a.ovpn_active@, o.name@) {
                    seq![Act::DropOpenvpn(o.name@)]
                } else {
                    Seq::empty()
                }) + seq![Act::DropProfileFiles(provider, o.name@)]);
                o.name
            },
            ProviderId::Tailscale => {
                if idx >= self.vpn_cfg.tailscale.len() {
                    return out;
                }
                let t = self.vpn_cfg.tailscale.remove(idx);
                t.name
            },
            ProviderId::Netbird => {
                return out;
            },
        };
        let ghost before = acts(out@);
        effects::ask(&mut out, Effect::Save(Store::Vpn));
        effects::ask(&mut out, Effect::Refresh(provider));
        effects::ask(
            &mut out,
            Effect::Flash(cat4(provider.slug(), ": deleted '", name.as_str(), "'"), false),
        );
        assert(acts(out@) =~= before + deleted_acts(provider, name@));
        out
    }
}

/// A key or a password is never stored before the warning was accepted.
pub proof fn law_no_secret_stored_unasked(a: App, b: App, out: Seq<Act>)
    requires
        submitted_vpn(a, b, out),
        a.vpn_form.stores_secret_spec(),
        !a.vpn_form.secret_ack,
    ensures
        b.vpn_cfg == a.vpn_cfg,
        out.len() == 0,
{
}

}
