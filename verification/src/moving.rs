//! Moving what is selected up or down, and writing the new order down.

use vstd::prelude::*;
use crate::app::{profiles_kept, App};
use crate::arranging::{exchange, exchanged, shift, shifted, target_row, Shift};
use crate::effects::{self, acts, Act, Effect, Store};
use crate::types::VpnConfig;
use crate::vpn::ProviderId;
use crate::vpn_tab::foreign_note;
use crate::vpn_view::ProviderState;

verus! {

/// What is said about it, and what is written.
pub open spec fn shift_acts(what: Shift, downward: bool, store: Store) -> Seq<Act> {
    match what {
        Shift::NoRow => Seq::empty(),
        Shift::EntryAtEnd => seq![
            Act::Flash(
                if downward {
                    "already the last of its group"@
                } else {
                    "already the first of its group"@
                },
                false,
            ),
        ],
        Shift::GroupAtEnd => seq![
            Act::Flash(
                if downward {
                    "already the last group"@
                } else {
                    "already the first group"@
                },
                false,
            ),
        ],
        Shift::Moved => seq![Act::Save(store)],
    }
}

fn shift_effects(what: Shift, downward: bool, store: Store) -> (r: Vec<Effect>)
    ensures
        acts(r@) == shift_acts(what, downward, store),
{
    match what {
        Shift::NoRow => effects::nothing(),
        Shift::EntryAtEnd => {
            let said = if downward {
                "already the last of its group"
            } else {
                "already the first of its group"
            };
            effects::just(Effect::Flash(said.to_owned(), false))
        },
        Shift::GroupAtEnd => {
            let said = if downward {
                "already the last group"
            } else {
                "already the first group"
            };
            effects::just(Effect::Flash(said.to_owned(), false))
        },
        Shift::Moved => effects::just(Effect::Save(store)),
    }
}

/// The tunnel or the group under the cursor is moved.
pub open spec fn moved_tunnel(a: App, b: App, downward: bool, out: Seq<Act>) -> bool {
    &&& b == (App { tunnels: b.tunnels, rows: b.rows, selected: b.selected, ..a })
    &&& exists|what: Shift| #[trigger]
        shifted(
            a.tunnels@,
            a.rows@,
            a.selected as int,
            downward,
            b.tunnels@,
            b.rows@,
            b.selected as int,
            what,
        ) && out == shift_acts(what, downward, Store::Tunnels)
}

/// The host or the group under the cursor is moved.
pub open spec fn moved_host(a: App, b: App, downward: bool, out: Seq<Act>) -> bool {
    &&& b == (App { ssh_hosts: b.ssh_hosts, ssh_rows: b.ssh_rows, ssh_selected: b.ssh_selected, ..a
    })
    &&& exists|what: Shift| #[trigger]
        shifted(
            a.ssh_hosts@,
            a.ssh_rows@,
            a.ssh_selected as int,
            downward,
            b.ssh_hosts@,
            b.ssh_rows@,
            b.ssh_selected as int,
            what,
        ) && out == shift_acts(what, downward, Store::Ssh)
}

/// The connection or the group under the cursor is moved.
pub open spec fn moved_conn(a: App, b: App, downward: bool, out: Seq<Act>) -> bool {
    &&& b == (App { rdp_conns: b.rdp_conns, rdp_rows: b.rdp_rows, rdp_selected: b.rdp_selected, ..a
    })
    &&& exists|what: Shift| #[trigger]
        shifted(
            a.rdp_conns@,
            a.rdp_rows@,
            a.rdp_selected as int,
            downward,
            b.rdp_conns@,
            b.rdp_rows@,
            b.rdp_selected as int,
            what,
        ) && out == shift_acts(what, downward, Store::Rdp)
}

/// Two profiles of a client in each other's place.
pub open spec fn profiles_exchanged(a: VpnConfig, b: VpnConfig, id: ProviderId, i: int, j: int) -> bool {
    match id {
        ProviderId::Netbird => b == a,
        ProviderId::Wireguard => {
            &&& b == (VpnConfig { wireguard: b.wireguard, ..a })
            &&& b.wireguard@ == exchanged(a.wireguard@, i, j)
        },
        ProviderId::Openvpn => {
            &&& b == (VpnConfig { openvpn: b.openvpn, ..a })
            &&& b.openvpn@ == exchanged(a.openvpn@, i, j)
        },
        ProviderId::Tailscale => {
            &&& b == (VpnConfig { tailscale: b.tailscale, ..a })
            &&& b.tailscale@ == exchanged(a.tailscale@, i, j)
        },
    }
}

fn exchange_profiles(cfg: &mut VpnConfig, id: ProviderId, i: usize, j: usize)
    requires
        i < profiles_kept(*old(cfg), id),
        j < profiles_kept(*old(cfg), id),
        i != j,
    ensures
        profiles_exchanged(*old(cfg), *final(cfg), id, i as int, j as int),
        forall|p: ProviderId| profiles_kept(*final(cfg), p) == profiles_kept(*old(cfg), p),
{
    match id {
        ProviderId::Netbird => {},
        ProviderId::Wireguard => exchange(&mut cfg.wireguard, i, j),
        ProviderId::Openvpn => exchange(&mut cfg.openvpn, i, j),
        ProviderId::Tailscale => exchange(&mut cfg.tailscale, i, j),
    }
}

/// A profile has gone from `i` to `j`, and the cursor with it.
pub open spec fn profile_put(a: App, b: App, id: ProviderId, i: int, j: int) -> bool {
    let s = a.vpn.providers@[id.index_spec()];
    let t = b.vpn.providers@[id.index_spec()];
    &&& b == (App { vpn: b.vpn, vpn_cfg: b.vpn_cfg, ..a })
    &&& b.vpn.but_for(a.vpn, id)
    &&& t == (ProviderState { selected: t.selected, ..s })
    &&& t.selected == j
    &&& profiles_exchanged(a.vpn_cfg, b.vpn_cfg, id, i, j)
}

/// The profile under the cursor is moved among those kept here.
pub open spec fn moved_profile(a: App, b: App, downward: bool, out: Seq<Act>) -> bool {
    let s = a.vpn.here();
    let i = s.selected as int;
    let j = target_row(i, downward);
    let n = profiles_kept(a.vpn_cfg, s.id);
    if s.foreign_here() {
        b == a && out == seq![foreign_note(a, "move"@)]
    } else if !s.id.manages_profiles_spec() {
        &&& b == a
        &&& out == seq![Act::Flash("netbird profiles are managed by netbird itself"@, true)]
    } else if i >= s.profiles@.len() || i >= n {
        b == a && out.len() == 0
    } else if j < 0 {
        b == a && out == seq![Act::Flash("already the first profile"@, false)]
    } else if j >= n || j >= s.profiles@.len() {
        b == a && out == seq![Act::Flash("already the last profile"@, false)]
    } else {
        &&& profile_put(a, b, s.id, i, j)
        &&& out == seq![Act::Save(Store::Vpn), Act::Refresh(s.id)]
    }
}

impl App {
    /// Ctrl and an arrow on the Tunnels tab.
    pub fn move_tunnel(&mut self, downward: bool) -> (r: Vec<Effect>)
        requires
            old(self).wf(),
        ensures
            final(self).wf(),
            moved_tunnel(*old(self), *final(self), downward, acts(r@)),
    {
        let what = shift(&mut self.tunnels, &mut self.rows, &mut self.selected, downward);
        shift_effects(what, downward, Store::Tunnels)
    }

    /// Ctrl and an arrow on the SSH tab.
    pub fn move_host(&mut self, downward: bool) -> (r: Vec<Effect>)
        requires
            old(self).wf(),
        ensures
            final(self).wf(),
            moved_host(*old(self), *final(self), downward, acts(r@)),
    {
        let what = shift(
            &mut self.ssh_hosts,
            &mut self.ssh_rows,
            &mut self.ssh_selected,
            downward,
        );
        shift_effects(what, downward, Store::Ssh)
    }

    /// Ctrl and an arrow on the RDP tab.
    pub fn move_conn(&mut self, downward: bool) -> (r: Vec<Effect>)
        requires
            old(self).wf(),
        ensures
            final(self).wf(),
            moved_conn(*old(self), *final(self), downward, acts(r@)),
    {
        let what = shift(
            &mut self.rdp_conns,
            &mut self.rdp_rows,
            &mut self.rdp_selected,
            downward,
        );
        shift_effects(what, downward, Store::Rdp)
    }

    /// How many profiles of a client are kept here.
    pub fn kept_profiles(&self, id: ProviderId) -> (r: usize)
        ensures
            r == profiles_kept(self.vpn_cfg, id),
    {
        match id {
            ProviderId::Netbird => 0,
            ProviderId::Wireguard => self.vpn_cfg.wireguard.len(),
            ProviderId::Openvpn => self.vpn_cfg.openvpn.len(),
            ProviderId::Tailscale => self.vpn_cfg.tailscale.len(),
        }
    }

    fn put_profile(&mut self, id: ProviderId, i: usize, j: usize)
        requires
            old(self).wf(),
            i < profiles_kept(old(self).vpn_cfg, id),
            j < profiles_kept(old(self).vpn_cfg, id),
            j < old(self).vpn.providers@[id.index_spec()].profiles@.len(),
            i != j,
        ensures
            final(self).wf(),
            profile_put(*old(self), *final(self), id, i as int, j as int),
    {
        exchange_profiles(&mut self.vpn_cfg, id, i, j);
        self.vpn.get_mut(id).selected = j;
    }

    /// Ctrl and an arrow on the VPN tab.
    pub fn move_profile(&mut self, downward: bool) -> (r: Vec<Effect>)
        requires
            old(self).wf(),
        ensures
            final(self).wf(),
            moved_profile(*old(self), *final(self), downward, acts(r@)),
    {
        let ghost a = *self;
        let id = self.vpn.current_id();
        if self.vpn.current().on_foreign() {
            return self.foreign_row_note("move");
        }
        if !id.manages_profiles() {
            return effects::just(
                Effect::Flash("netbird profiles are managed by netbird itself".to_owned(), true),
            );
        }
        let i: usize = self.vpn.current().selected;
        let shown: usize = self.vpn.current().profiles.len();
        let n: usize = self.kept_profiles(id);
        if i >= shown || i >= n {
            return effects::nothing();
        }
        if !downward && i == 0 {
            return effects::just(Effect::Flash("already the first profile".to_owned(), false));
        }
        if downward && (i + 1 >= n || i + 1 >= shown) {
            return effects::just(Effect::Flash("already the last profile".to_owned(), false));
        }
        let j: usize = if downward {
            i + 1
        } else {
            i - 1
        };
        self.put_profile(id, i, j);
        let mut out = effects::just(Effect::Save(Store::Vpn));
        effects::ask(&mut out, Effect::Refresh(id));
        assert(acts(out@) =~= seq![Act::Save(Store::Vpn), Act::Refresh(id)]);
        out
    }
}

}
