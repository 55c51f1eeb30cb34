//! Clearing what is over, and refreshing what is known.

use vstd::prelude::*;
use crate::app::App;
use crate::effects::{self, acts, Act, Effect, Store};
use crate::live::{has_name, one_each, place_of, position, LiveOvpn, LiveRdp, Named};
use crate::number::{self, decimal};
use crate::rdp::RdpStatus;
use crate::running::{stop_all_acts, without_all};
use crate::text::{cat, cat3, texts};
use crate::tunnels_tab::failed_names;
use crate::types::OpenvpnProfile;
use crate::vpn::ProviderId;
use crate::vpn_tab::foreign_note;
use crate::vpn_view::{kept, ProviderState, VpnView};

verus! {

// ---------------------------------------------------------------------------
// Clearing what is over
// ---------------------------------------------------------------------------

pub open spec fn rdp_going() -> spec_fn(LiveRdp) -> bool {
    |l: LiveRdp| !(l.status is Exited)
}

pub open spec fn ovpn_going() -> spec_fn(LiveOvpn) -> bool {
    |l: LiveOvpn| !l.ended()
}

/// What is kept of a list is in it, in the same order.
pub proof fn lemma_kept_apart<T: Named>(s: Seq<T>, p: spec_fn(T) -> bool)
    requires
        one_each(s),
    ensures
        one_each(kept(s, p)),
        kept(s, p).len() <= s.len(),
        forall|i: int| 0 <= i < kept(s, p).len() ==> s.contains(#[trigger] kept(s, p)[i]),
    decreases s.len(),
{
    let k = kept(s, p);
    if s.len() > 0 {
        let head = s.drop_last();
        let h = kept(head, p);
        assert(one_each(head));
        lemma_kept_apart(head, p);
        assert forall|i: int| 0 <= i < k.len() implies s.contains(#[trigger] k[i]) by {
            if i < h.len() {
                assert(k[i] == h[i]);
                let j = choose|j: int| 0 <= j < head.len() && head[j] == h[i];
                assert(s[j] == k[i]);
            } else {
                assert(s[s.len() - 1] == k[i]);
            }
        }
        assert forall|i: int, j: int| 0 <= i < j < k.len() implies (#[trigger] k[i]).name_spec()
            != (#[trigger] k[j]).name_spec() by {
            assert(k[i] == h[i]);
            let m = choose|m: int| 0 <= m < head.len() && head[m] == h[i];
            if j < h.len() {
                assert(k[j] == h[j]);
            } else {
                assert(s[m].name_spec() != s[s.len() - 1].name_spec());
            }
        }
    }
}

fn drop_ended_rdp(v: &mut Vec<LiveRdp>)
    ensures
        final(v)@ == kept(old(v)@, rdp_going()),
{
    let ghost s = v@;
    let ghost p = rdp_going();
    let ghost mut k: int = 0;
    let mut i: usize = 0;
    assert(s.take(0) =~= Seq::<LiveRdp>::empty());
    assert(v@ =~= kept(s.take(0), p) + s.skip(0));
    while i < v.len()
        invariant
            0 <= k <= s.len(),
            p == rdp_going(),
            i == kept(s.take(k), p).len(),
            v@ == kept(s.take(k), p) + s.skip(k),
        decreases v@.len() - i,
    {
        assert(s.take(k + 1).drop_last() =~= s.take(k));
        assert(v@[i as int] == s[k]);
        if matches!(v[i].status, RdpStatus::Exited(_)) {
            let _ = v.remove(i);
            assert(v@ =~= kept(s.take(k + 1), p) + s.skip(k + 1));
        } else {
            i = i + 1;
            assert(v@ =~= kept(s.take(k + 1), p) + s.skip(k + 1));
        }
        proof {
            k = k + 1;
        }
    }
    assert(s.skip(k).len() == 0);
    assert(s.take(k) =~= s);
    assert(v@ =~= kept(s, p));
}

fn drop_ended_ovpn(v: &mut Vec<LiveOvpn>)
    ensures
        final(v)@ == kept(old(v)@, ovpn_going()),
{
    let ghost s = v@;
    let ghost p = ovpn_going();
    let ghost mut k: int = 0;
    let mut i: usize = 0;
    assert(s.take(0) =~= Seq::<LiveOvpn>::empty());
    assert(v@ =~= kept(s.take(0), p) + s.skip(0));
    while i < v.len()
        invariant
            0 <= k <= s.len(),
            p == ovpn_going(),
            i == kept(s.take(k), p).len(),
            v@ == kept(s.take(k), p) + s.skip(k),
        decreases v@.len() - i,
    {
        assert(s.take(k + 1).drop_last() =~= s.take(k));
        assert(v@[i as int] == s[k]);
        if v[i].has_ended() {
            let _ = v.remove(i);
            assert(v@ =~= kept(s.take(k + 1), p) + s.skip(k + 1));
        } else {
            i = i + 1;
            assert(v@ =~= kept(s.take(k + 1), p) + s.skip(k + 1));
        }
        proof {
            k = k + 1;
        }
    }
    assert(s.skip(k).len() == 0);
    assert(s.take(k) =~= s);
    assert(v@ =~= kept(s, p));
}

/// Two counts together, as far as they can be counted.
pub open spec fn plus(a: int, b: int) -> int {
    if a + b <= u64::MAX {
        a + b
    } else {
        u64::MAX as int
    }
}

fn count_up(a: u64, b: usize) -> (r: u64)
    ensures
        r == plus(a as int, b as int),
{
    if b as u64 <= u64::MAX - a {
        a + b as u64
    } else {
        u64::MAX
    }
}

/// How many entries are over.
pub open spec fn over_count(a: App) -> int {
    plus(
        plus(
            plus(
                failed_names(a.active@).len() as int,
                a.rdp_active@.len() - kept(a.rdp_active@, rdp_going()).len(),
            ),
            a.ovpn_active@.len() - kept(a.ovpn_active@, ovpn_going()).len(),
        ),
        a.ssh_last@.len() as int,
    )
}

/// The clients, without what last went wrong with them.
pub open spec fn no_errors(a: VpnView, b: VpnView) -> bool {
    &&& b == (VpnView { providers: b.providers, ..a })
    &&& b.providers@.len() == a.providers@.len()
    &&& forall|i: int|
        0 <= i < a.providers@.len() ==> #[trigger] b.providers@[i] == (ProviderState {
            error: None,
            ..a.providers@[i]
        })
}

/// `c` on the dashboard: every entry that has already finished is dropped, on
/// every tab at once.
pub open spec fn cleared_everywhere(a: App, b: App, out: Seq<Act>) -> bool {
    let failed = failed_names(a.active@);
    let n = over_count(a);
    &&& b == (App {
        active: b.active,
        reconnect: b.reconnect,
        rdp_active: b.rdp_active,
        ovpn_active: b.ovpn_active,
        ssh_last: b.ssh_last,
        vpn: b.vpn,
        ..a
    })
    &&& b.active@ == without_all(a.active@, failed)
    &&& b.reconnect@ == without_all(a.reconnect@, failed)
    &&& b.rdp_active@ == kept(a.rdp_active@, rdp_going())
    &&& b.ovpn_active@ == kept(a.ovpn_active@, ovpn_going())
    &&& b.ssh_last@.len() == 0
    &&& no_errors(a.vpn, b.vpn)
    &&& out == stop_all_acts(a.active@, failed).push(
        if n == 0 {
            Act::Flash("nothing finished to clear"@, false)
        } else {
            Act::Flash("cleared "@ + decimal(n as nat) + " finished entries"@, false)
        },
    )
}

/// `c` on the VPN tab: the client's last error is dropped, and so are the
/// entries of openvpn sessions that have already exited.
pub open spec fn cleared_vpn(a: App, b: App, out: Seq<Act>) -> bool {
    let s = a.vpn.here();
    let gone = s.id == ProviderId::Openvpn && kept(a.ovpn_active@, ovpn_going()).len()
        < a.ovpn_active@.len();
    &&& b == (App { vpn: b.vpn, ovpn_active: b.ovpn_active, ..a })
    &&& b.vpn.with_error(a.vpn, s.id, None)
    &&& b.ovpn_active@ == if s.id == ProviderId::Openvpn {
        kept(a.ovpn_active@, ovpn_going())
    } else {
        a.ovpn_active@
    }
    &&& out == seq![
        Act::Flash(
            if s.error is Some || gone {
                "cleared"@
            } else {
                "nothing to clear"@
            },
            false,
        ),
    ]
}

/// `p` on the VPN tab: the password stored for the profile under the cursor is
/// forgotten. Only OpenVPN keeps one — WireGuard's secret is a key, and neither
/// NetBird nor Tailscale holds credentials here.
pub open spec fn forgot_vpn_password(a: App, b: App, out: Seq<Act>) -> bool {
    let s = a.vpn.here();
    let ps = a.vpn_cfg.openvpn@;
    if s.foreign_here() {
        b == a && out == seq![foreign_note(a, "forget a password for"@)]
    } else if s.id != ProviderId::Openvpn {
        b == a && out == seq![Act::Flash(s.id.slug_spec() + " profiles store no password"@, false)]
    } else {
        match s.name_here() {
            None => b == a && out.len() == 0,
            Some(name) => {
                let i = place_of(ps, name);
                if !has_name(ps, name) {
                    b == a && out.len() == 0
                } else if ps[i].password@.len() == 0 {
                    &&& b == a
                    &&& out == seq![Act::Flash("no password stored for '"@ + name + "'"@, false)]
                } else {
                    let p = b.vpn_cfg.openvpn@[i];
                    &&& b == (App { vpn_cfg: b.vpn_cfg, ..a })
                    &&& b.vpn_cfg == (crate::types::VpnConfig {
                        openvpn: b.vpn_cfg.openvpn,
                        ..a.vpn_cfg
                    })
                    &&& b.vpn_cfg.openvpn@ == ps.update(i, p)
                    &&& p == (OpenvpnProfile { password: p.password, ..ps[i] })
                    &&& p.password@.len() == 0
                    &&& out == seq![
                        Act::Save(Store::Vpn),
                        Act::Flash("cleared stored password for '"@ + name + "'"@, false),
                    ]
                }
            },
        }
    }
}

/// `r` on the VPN tab, and on the dashboard for every client.
pub open spec fn refresh_acts(id: ProviderId) -> Seq<Act> {
    seq![
        Act::Refresh(id),
        Act::Scan,
        Act::Flash("refreshing "@ + id.slug_spec(), false),
    ]
}

pub open spec fn refresh_all_acts() -> Seq<Act> {
    seq![
        Act::Refresh(ProviderId::Netbird),
        Act::Refresh(ProviderId::Wireguard),
        Act::Refresh(ProviderId::Openvpn),
        Act::Refresh(ProviderId::Tailscale),
        Act::Scan,
        Act::Flash("refreshing every VPN client"@, false),
    ]
}

impl App {
    /// Forget what last went wrong with every client.
    fn forget_errors(&mut self)
        requires
            old(self).wf(),
        ensures
            final(self).wf(),
            *final(self) == (App { vpn: final(self).vpn, ..*old(self) }),
            no_errors(old(self).vpn, final(self).vpn),
    {
        self.vpn.set_error(ProviderId::Netbird, None);
        self.vpn.set_error(ProviderId::Wireguard, None);
        self.vpn.set_error(ProviderId::Openvpn, None);
        self.vpn.set_error(ProviderId::Tailscale, None);
        assert forall|i: int| 0 <= i < 4 implies #[trigger] self.vpn.providers@[i] == (
        ProviderState { error: None, ..old(self).vpn.providers@[i] }) by {
            assert(i == 0 || i == 1 || i == 2 || i == 3);
        }
    }

    /// `c` on the dashboard.
    pub fn clear_finished_everywhere(&mut self) -> (r: Vec<Effect>)
        requires
            old(self).wf(),
        ensures
            final(self).wf(),
            cleared_everywhere(*old(self), *final(self), acts(r@)),
    {
        let ghost a = *self;
        let failed = self.failed_tunnels();
        assert(texts(failed@).len() == failed@.len());
        let mut out = effects::nothing();
        self.stop_tunnels(&failed, &mut out);
        let ghost stops = stop_all_acts(a.active@, texts(failed@));
        assert(acts(out@) =~= stops);
        proof {
            lemma_kept_apart(a.rdp_active@, rdp_going());
            lemma_kept_apart(a.ovpn_active@, ovpn_going());
        }
        let rdp_was: usize = self.rdp_active.len();
        drop_ended_rdp(&mut self.rdp_active);
        let rdp_now: usize = self.rdp_active.len();
        let ovpn_was: usize = self.ovpn_active.len();
        drop_ended_ovpn(&mut self.ovpn_active);
        let ovpn_now: usize = self.ovpn_active.len();
        let last: usize = self.ssh_last.len();
        self.ssh_last = Vec::new();
        self.forget_errors();
        let n: u64 = count_up(
            count_up(count_up(failed.len() as u64, rdp_was - rdp_now), ovpn_was - ovpn_now),
            last,
        );
        if n == 0 {
            effects::flash(&mut out, "nothing finished to clear", false);
        } else {
            let msg = cat3("cleared ", number::write(n).as_str(), " finished entries");
            effects::flash(&mut out, msg.as_str(), false);
        }
        out
    }

    /// `c` on the VPN tab.
    pub fn clear_vpn_finished(&mut self) -> (r: Vec<Effect>)
        requires
            old(self).wf(),
        ensures
            final(self).wf(),
            cleared_vpn(*old(self), *final(self), acts(r@)),
    {
        let id = self.vpn.current_id();
        assert(id.index_spec() == self.vpn.current_spec());
        let mut cleared = self.vpn.current().error.is_some();
        self.vpn.set_error(id, None);
        if id == ProviderId::Openvpn {
            proof {
                lemma_kept_apart(self.ovpn_active@, ovpn_going());
            }
            let was: usize = self.ovpn_active.len();
            drop_ended_ovpn(&mut self.ovpn_active);
            cleared = cleared || self.ovpn_active.len() < was;
        }
        effects::just(
            Effect::Flash(
                if cleared {
                    "cleared".to_owned()
                } else {
                    "nothing to clear".to_owned()
                },
                false,
            ),
        )
    }

    /// `p` on the VPN tab.
    pub fn clear_vpn_password(&mut self) -> (r: Vec<Effect>)
        requires
            old(self).wf(),
        ensures
            final(self).wf(),
            forgot_vpn_password(*old(self), *final(self), acts(r@)),
    {
        let id = self.vpn.current_id();
        assert(id.index_spec() == self.vpn.current_spec());
        if self.vpn.current().on_foreign() {
            return self.foreign_row_note("forget a password for");
        }
        if id != ProviderId::Openvpn {
            return effects::just(
                Effect::Flash(cat(id.slug(), " profiles store no password"), false),
            );
        }
        let name = match self.vpn.current().selected_name() {
            None => {
                return effects::nothing();
            },
            Some(n) => n,
        };
        let i: usize = match position(self.vpn_cfg.openvpn.as_slice(), name.as_str()) {
            None => {
                return effects::nothing();
            },
            Some(i) => i,
        };
        if self.vpn_cfg.openvpn[i].password.as_str().is_empty() {
            return effects::just(
                Effect::Flash(cat3("no password stored for '", name.as_str(), "'"), false),
            );
        }
        self.vpn_cfg.openvpn[i].password = String::new();
        let mut out = effects::nothing();
        effects::ask(&mut out, Effect::Save(Store::Vpn));
        effects::ask(
            &mut out,
            Effect::Flash(cat3("cleared stored password for '", name.as_str(), "'"), false),
        );
        assert(acts(out@) =~= seq![
            Act::Save(Store::Vpn),
            Act::Flash("cleared stored password for '"@ + name@ + "'"@, false),
        ]);
        out
    }

    /// `r` on the VPN tab.
    pub fn refresh_here(&mut self) -> (r: Vec<Effect>)
        requires
            old(self).wf(),
        ensures
            final(self).wf(),
            *final(self) == (App { vpn: final(self).vpn, ..*old(self) }),
            final(self).vpn.with_error(old(self).vpn, old(self).vpn.here().id, None),
            acts(r@) == refresh_acts(old(self).vpn.here().id),
    {
        let id = self.vpn.current_id();
        assert(id.index_spec() == self.vpn.current_spec());
        self.vpn.set_error(id, None);
        let mut out = effects::nothing();
        effects::ask(&mut out, Effect::Refresh(id));
        effects::ask(&mut out, Effect::Scan);
        effects::ask(&mut out, Effect::Flash(cat("refreshing ", id.slug()), false));
        assert(acts(out@) =~= refresh_acts(id));
        out
    }

    /// `r` on the dashboard.
    pub fn refresh_everything(&mut self) -> (r: Vec<Effect>)
        requires
            old(self).wf(),
        ensures
            final(self).wf(),
            *final(self) == (App { vpn: final(self).vpn, ..*old(self) }),
            no_errors(old(self).vpn, final(self).vpn),
            acts(r@) == refresh_all_acts(),
    {
        self.forget_errors();
        let mut out = effects::nothing();
        effects::ask(&mut out, Effect::Refresh(ProviderId::Netbird));
        effects::ask(&mut out, Effect::Refresh(ProviderId::Wireguard));
        effects::ask(&mut out, Effect::Refresh(ProviderId::Openvpn));
        effects::ask(&mut out, Effect::Refresh(ProviderId::Tailscale));
        effects::ask(&mut out, Effect::Scan);
        effects::flash(&mut out, "refreshing every VPN client", false);
        assert(acts(out@) =~= refresh_all_acts());
        out
    }
}

}
