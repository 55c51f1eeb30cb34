//! Taking everything down at once.

use vstd::prelude::*;
use crate::app::App;
use crate::browser::opt_string;
use crate::effects::{self, acts, reported, Act, Effect};
use crate::live::{
    has_name, law_taken_out_is_gone, lemma_has_name, lemma_place, one_each, place_of, LiveOvpn,
    LiveRdp, LiveTunnel, Named,
};
use crate::logs::{LogTarget, Subject};
use crate::queries::{all_up_names, running_count, window_count};
use crate::running::{close_all_acts, law_all_taken_out, stop_all_acts, stop_ovpn_act, without_all};
use crate::text::{self, cat, joined, texts};
use crate::vpn::ProviderId;
use crate::vpn_tab::{asked_to_end, foreign_stop_acts, is_forced, stopping};
use crate::vpn_view::{ProviderState, VpnProfile, VpnView};

verus! {

// ---------------------------------------------------------------------------
// Names
// ---------------------------------------------------------------------------

/// The names of a list.
pub open spec fn all_names<T: Named>(s: Seq<T>) -> Seq<Seq<char>> {
    s.map_values(|x: T| x.name_spec())
}

pub fn name_list<T: Named>(v: &Vec<T>) -> (r: Vec<String>)
    ensures
        texts(r@) == all_names(v@),
{
    let ghost all = all_names(v@);
    let mut out = text::no_texts();
    let mut i: usize = 0;
    assert(texts(out@) =~= all.take(0));
    while i < v.len()
        invariant
            i <= v@.len(),
            all == all_names(v@),
            texts(out@) == all.take(i as int),
        decreases v@.len() - i,
    {
        text::add_str(&mut out, v[i].known_as());
        i = i + 1;
        assert(all.take(i as int) =~= all.take(i - 1).push(all[i - 1]));
    }
    assert(all.take(i as int) =~= all);
    out
}

/// What is left of a list came from it.
proof fn lemma_left_from<T: Named>(s: Seq<T>, names: Seq<Seq<char>>, i: int)
    requires
        0 <= i < without_all(s, names).len(),
    ensures
        s.contains(without_all(s, names)[i]),
    decreases names.len(),
{
    let w = without_all(s, names);
    if names.len() == 0 {
        assert(s[i] == w[i]);
    } else {
        let head = names.drop_last();
        let v = without_all(s, head);
        lemma_place(v, names.last());
        if has_name(v, names.last()) {
            let k = place_of(v, names.last());
            let j = if i < k { i } else { i + 1 };
            assert(w[i] == v[j]);
            lemma_left_from(s, head, j);
        } else {
            lemma_left_from(s, head, i);
        }
    }
}

/// Taking every name of a list out of it leaves nothing.
pub proof fn law_nothing_left<T: Named>(s: Seq<T>)
    requires
        one_each(s),
    ensures
        without_all(s, all_names(s)).len() == 0,
{
    let names = all_names(s);
    let w = without_all(s, names);
    law_all_taken_out(s, names);
    if w.len() > 0 {
        lemma_left_from(s, names, 0);
        let k = choose|k: int| 0 <= k < s.len() && s[k] == w[0];
        assert(names[k] == w[0].name_spec());
        lemma_has_name(w, names[k]);
    }
}

// ---------------------------------------------------------------------------
// One client
// ---------------------------------------------------------------------------

/// The stored profiles that are up.
pub open spec fn up_profiles(ps: Seq<VpnProfile>) -> Seq<Seq<char>>
    decreases ps.len(),
{
    if ps.len() == 0 {
        Seq::empty()
    } else if ps.last().active && ps.last().stored_spec() {
        up_profiles(ps.drop_last()).push(ps.last().name@)
    } else {
        up_profiles(ps.drop_last())
    }
}

fn profiles_up(s: &ProviderState) -> (r: Vec<String>)
    ensures
        texts(r@) == up_profiles(s.profiles@),
{
    let ghost ps = s.profiles@;
    let mut out = text::no_texts();
    let mut i: usize = 0;
    assert(ps.take(0) =~= Seq::<VpnProfile>::empty());
    while i < s.profiles.len()
        invariant
            i <= ps.len(),
            ps == s.profiles@,
            texts(out@) == up_profiles(ps.take(i as int)),
        decreases ps.len() - i,
    {
        assert(ps.take(i + 1).drop_last() =~= ps.take(i as int));
        if s.profiles[i].active && s.profiles[i].is_stored() {
            text::add_text(&mut out, s.profiles[i].name.clone());
        }
        i = i + 1;
    }
    assert(ps.take(i as int) =~= ps);
    out
}

/// The processes that have been asked to end, with those of these rows.
pub open spec fn all_asked_to_end(rows: Seq<VpnProfile>, termed: Seq<u32>) -> Seq<u32>
    decreases rows.len(),
{
    if rows.len() == 0 {
        termed
    } else if rows.last().stored_spec() {
        all_asked_to_end(rows.drop_last(), termed)
    } else {
        asked_to_end(rows.last(), all_asked_to_end(rows.drop_last(), termed))
    }
}

/// What stopping the connections in these rows that were not started here takes.
pub open spec fn all_foreign_acts(id: ProviderId, rows: Seq<VpnProfile>, termed: Seq<u32>) -> Seq<Act>
    decreases rows.len(),
{
    if rows.len() == 0 {
        Seq::empty()
    } else if rows.last().stored_spec() {
        all_foreign_acts(id, rows.drop_last(), termed)
    } else {
        all_foreign_acts(id, rows.drop_last(), termed) + foreign_stop_acts(
            id,
            rows.len() - 1,
            rows.last(),
            all_asked_to_end(rows.drop_last(), termed),
        )
    }
}

/// What a client is doing once these rows have been dealt with.
pub open spec fn busy_after(
    rows: Seq<VpnProfile>,
    termed: Seq<u32>,
    was: Option<Seq<char>>,
) -> Option<Seq<char>>
    decreases rows.len(),
{
    if rows.len() == 0 {
        was
    } else if rows.last().stored_spec() {
        busy_after(rows.drop_last(), termed, was)
    } else {
        Some(
            stopping(
                rows.last().name@,
                is_forced(rows.last(), all_asked_to_end(rows.drop_last(), termed)),
            ),
        )
    }
}

/// What stopping these openvpn sessions takes.
pub open spec fn stop_ovpn_acts(live: Seq<LiveOvpn>, names: Seq<Seq<char>>) -> Seq<Act>
    decreases names.len(),
{
    if names.len() == 0 {
        Seq::empty()
    } else {
        stop_ovpn_acts(live, names.drop_last()).push(
            stop_ovpn_act(without_all(live, names.drop_last()), names.last()),
        )
    }
}

/// Having a client disconnect a profile.
pub open spec fn down_act(id: ProviderId, name: Seq<char>) -> Act {
    Act::Vpn { provider: id, profile: Some(name), desc: "disconnecting"@, up: false }
}

/// What having a client disconnect these profiles takes: a call for each, for it
/// can hold several at once. That it is doing something already is no reason to
/// leave one up.
pub open spec fn want_down(id: ProviderId, names: Seq<Seq<char>>) -> Seq<Act> {
    names.map_values(|n: Seq<char>| down_act(id, n))
}

/// What taking down whatever of a client is up takes. Connections that were not
/// started here go too: "nothing is left up" is what the panic button means, and
/// an orphan is the thing most likely to still be there afterwards.
pub open spec fn client_down_acts(s: ProviderState, live: Seq<LiveOvpn>, termed: Seq<u32>) -> Seq<
    Act,
> {
    all_foreign_acts(s.id, s.profiles@, termed) + (if !s.installed {
        Seq::empty()
    } else if s.id == ProviderId::Openvpn {
        stop_ovpn_acts(live, up_profiles(s.profiles@))
    } else {
        want_down(s.id, up_profiles(s.profiles@))
    })
}

/// The openvpn sessions once a client is down.
pub open spec fn ovpn_left(s: ProviderState, live: Seq<LiveOvpn>) -> Seq<LiveOvpn> {
    if s.installed && s.id == ProviderId::Openvpn {
        without_all(live, up_profiles(s.profiles@))
    } else {
        live
    }
}

/// The program once whatever of a client is up has been told to go down.
pub open spec fn client_down(a: App, b: App, id: ProviderId) -> bool {
    let s = a.vpn.providers@[id.index_spec()];
    &&& b == (App { vpn: b.vpn, termed: b.termed, ovpn_active: b.ovpn_active, ..a })
    &&& b.termed@ == all_asked_to_end(s.profiles@, a.termed@)
    &&& b.vpn.with_busy(
        a.vpn,
        id,
        busy_after(s.profiles@, a.termed@, opt_string(s.busy)),
        opt_string(s.error),
    )
    &&& b.ovpn_active@ == ovpn_left(s, a.ovpn_active@)
}

impl App {
    fn stop_all_foreign(&mut self, id: ProviderId, out: &mut Vec<Effect>)
        requires
            old(self).wf(),
        ensures
            final(self).wf(),
            ({
                let s = old(self).vpn.providers@[id.index_spec()];
                &&& *final(self) == (App {
                    vpn: final(self).vpn,
                    termed: final(self).termed,
                    ..*old(self)
                })
                &&& final(self).termed@ == all_asked_to_end(s.profiles@, old(self).termed@)
                &&& final(self).vpn.with_busy(
                    old(self).vpn,
                    id,
                    busy_after(s.profiles@, old(self).termed@, opt_string(s.busy)),
                    opt_string(s.error),
                )
                &&& acts(final(out)@) == acts(old(out)@) + all_foreign_acts(
                    id,
                    s.profiles@,
                    old(self).termed@,
                )
            }),
    {
        let ghost a = *self;
        let ghost was = acts(out@);
        let ghost s = self.vpn.providers@[id.index_spec()];
        let ghost rows = s.profiles@;
        let n: usize = self.vpn.get(id).profiles.len();
        let mut i: usize = 0;
        assert(rows.take(0) =~= Seq::<VpnProfile>::empty());
        assert(was + all_foreign_acts(id, rows.take(0), a.termed@) =~= was);
        assert(self.vpn.providers@ =~= a.vpn.providers@.update(id.index_spec(), s));
        while i < n
            invariant
                i <= n == rows.len(),
                self.wf(),
                s == a.vpn.providers@[id.index_spec()],
                rows == s.profiles@,
                a.vpn.wf(),
                *self == (App { vpn: self.vpn, termed: self.termed, ..a }),
                self.termed@ == all_asked_to_end(rows.take(i as int), a.termed@),
                self.vpn.with_busy(
                    a.vpn,
                    id,
                    busy_after(rows.take(i as int), a.termed@, opt_string(s.busy)),
                    opt_string(s.error),
                ),
                acts(out@) == was + all_foreign_acts(id, rows.take(i as int), a.termed@),
            decreases n - i,
        {
            assert(rows.take(i + 1).drop_last() =~= rows.take(i as int));
            assert(rows.take(i + 1).last() == rows[i as int]);
            let ghost m = *self;
            assert(m.vpn.providers@[id.index_spec()].profiles@[i as int] == rows[i as int]);
            if !self.vpn.get(id).profiles[i].is_stored() {
                self.spawn_foreign_stop(id, i, out);
                assert(acts(out@) =~= was + all_foreign_acts(id, rows.take(i + 1), a.termed@));
                assert(self.vpn.providers@ =~= a.vpn.providers@.update(
                    id.index_spec(),
                    self.vpn.providers@[id.index_spec()],
                ));
            }
            i = i + 1;
        }
        assert(rows.take(i as int) =~= rows);
    }

    /// Stop openvpn sessions, one after another.
    pub fn stop_openvpns(&mut self, names: &Vec<String>, out: &mut Vec<Effect>)
        requires
            old(self).wf(),
        ensures
            final(self).wf(),
            final(self).ovpn_active@ == without_all(old(self).ovpn_active@, texts(names@)),
            *final(self) == (App { ovpn_active: final(self).ovpn_active, ..*old(self) }),
            acts(final(out)@) == acts(old(out)@) + stop_ovpn_acts(
                old(self).ovpn_active@,
                texts(names@),
            ),
    {
        let ghost a = *self;
        let ghost was = acts(out@);
        let ghost all = texts(names@);
        let mut i: usize = 0;
        assert(all.take(0) =~= Seq::<Seq<char>>::empty());
        assert(was + stop_ovpn_acts(a.ovpn_active@, all.take(0)) =~= was);
        while i < names.len()
            invariant
                i <= names@.len(),
                all == texts(names@),
                self.wf(),
                self.ovpn_active@ == without_all(a.ovpn_active@, all.take(i as int)),
                *self == (App { ovpn_active: self.ovpn_active, ..a }),
                acts(out@) == was + stop_ovpn_acts(a.ovpn_active@, all.take(i as int)),
            decreases names@.len() - i,
        {
            assert(all.take(i + 1).drop_last() =~= all.take(i as int));
            assert(all.take(i + 1).last() == names@[i as int]@);
            self.stop_openvpn(names[i].as_str(), out);
            assert(acts(out@) =~= was + stop_ovpn_acts(a.ovpn_active@, all.take(i + 1)));
            i = i + 1;
        }
        assert(all.take(i as int) =~= all);
    }

    /// Take down whatever of this client is up. WireGuard and OpenVPN can hold
    /// several profiles at once, so each one gets its own call.
    pub fn vpn_disconnect_all(&mut self, id: ProviderId, out: &mut Vec<Effect>)
        requires
            old(self).wf(),
        ensures
            final(self).wf(),
            client_down(*old(self), *final(self), id),
            acts(final(out)@) == acts(old(out)@) + client_down_acts(
                old(self).vpn.providers@[id.index_spec()],
                old(self).ovpn_active@,
                old(self).termed@,
            ),
    {
        let ghost a = *self;
        let ghost s = self.vpn.providers@[id.index_spec()];
        let ghost was = acts(out@);
        assert(s.id == id);
        self.stop_all_foreign(id, out);
        if !self.vpn.get(id).installed {
            assert(acts(out@) =~= was + client_down_acts(s, a.ovpn_active@, a.termed@));
            return ;
        }
        let up = profiles_up(self.vpn.get(id));
        if id == ProviderId::Openvpn {
            self.stop_openvpns(&up, out);
        } else {
            ask_down(id, &up, out);
        }
        assert(acts(out@) =~= was + client_down_acts(s, a.ovpn_active@, a.termed@));
    }
}

fn ask_down(id: ProviderId, names: &Vec<String>, out: &mut Vec<Effect>)
    ensures
        acts(final(out)@) == acts(old(out)@) + want_down(id, texts(names@)),
{
    let ghost was = acts(out@);
    let ghost all = want_down(id, texts(names@));
    let mut i: usize = 0;
    assert(acts(out@) =~= was + all.take(0));
    while i < names.len()
        invariant
            i <= names@.len(),
            all == want_down(id, texts(names@)),
            acts(out@) == was + all.take(i as int),
        decreases names@.len() - i,
    {
        effects::ask(
            out,
            Effect::Vpn {
                provider: id,
                profile: Some(names[i].clone()),
                desc: "disconnecting".to_owned(),
                up: false,
            },
        );
        i = i + 1;
        assert(was + all.take(i as int) =~= (was + all.take(i - 1)).push(all[i - 1]));
    }
    assert(all.take(i as int) =~= all);
}

// ---------------------------------------------------------------------------
// Everything
// ---------------------------------------------------------------------------

/// The processes that have been asked to end, once these clients are down.
pub open spec fn termed_through(ps: Seq<ProviderState>, termed: Seq<u32>) -> Seq<u32>
    decreases ps.len(),
{
    if ps.len() == 0 {
        termed
    } else {
        all_asked_to_end(ps.last().profiles@, termed_through(ps.drop_last(), termed))
    }
}

/// What taking these clients down takes.
pub open spec fn all_down_acts(ps: Seq<ProviderState>, live: Seq<LiveOvpn>, termed: Seq<u32>) -> Seq<
    Act,
>
    decreases ps.len(),
{
    if ps.len() == 0 {
        Seq::empty()
    } else {
        all_down_acts(ps.drop_last(), live, termed) + client_down_acts(
            ps.last(),
            live,
            termed_through(ps.drop_last(), termed),
        )
    }
}

/// A client once it has been told to go down: only what it is doing changes.
pub open spec fn client_told(s: ProviderState, t: ProviderState, termed: Seq<u32>) -> bool {
    &&& t == (ProviderState { busy: t.busy, error: t.error, ..s })
    &&& opt_string(t.error) == opt_string(s.error)
    &&& opt_string(t.busy) == busy_after(s.profiles@, termed, opt_string(s.busy))
}

/// Every client has been told to go down.
pub open spec fn clients_told(a: VpnView, b: VpnView, termed: Seq<u32>) -> bool {
    &&& b == (VpnView { providers: b.providers, ..a })
    &&& b.providers@.len() == a.providers@.len()
    &&& forall|i: int|
        0 <= i < a.providers@.len() ==> client_told(
            a.providers@[i],
            #[trigger] b.providers@[i],
            termed_through(a.providers@.take(i), termed),
        )
}

/// Everything has been taken down, in the order that leaves nothing reaching for
/// a link that has already gone: the connections that ride on a VPN first, the
/// VPNs last. A plan half-way through would carry on bringing things back up
/// behind the teardown, and so would the reconnects, so they go before all else.
pub open spec fn everything_down(a: App, b: App, out: Seq<Act>) -> bool {
    match a.panic {
        None => b == a && out.len() == 0,
        Some(p) => {
            let what = joined(p.lines_spec(), ", "@);
            &&& b == (App {
                panic: None,
                activation: None,
                conflict: None,
                pending: None,
                reconnect: b.reconnect,
                active: b.active,
                rdp_active: b.rdp_active,
                ssh_windows: b.ssh_windows,
                vpn: b.vpn,
                termed: b.termed,
                ovpn_active: b.ovpn_active,
                ..a
            })
            &&& b.active@.len() == 0 && b.rdp_active@.len() == 0
            &&& b.ssh_windows@.len() == 0 && b.reconnect@.len() == 0
            &&& b.termed@ == termed_through(a.vpn.providers@, a.termed@)
            &&& b.ovpn_active@ == ovpn_left(
                a.vpn.providers@[ProviderId::Openvpn.index_spec()],
                a.ovpn_active@,
            )
            &&& clients_told(a.vpn, b.vpn, a.termed@)
            &&& out == seq![Act::Note(Subject::Program, "panic: taking down "@ + what, false)]
                + stop_all_acts(a.active@, all_names(a.active@)) + close_all_acts(
                a.rdp_active@,
                all_names(a.rdp_active@),
            ) + seq![Act::CloseWindows] + all_down_acts(
                a.vpn.providers@,
                a.ovpn_active@,
                a.termed@,
            ) + reported(Subject::Program, "disconnected everything: "@ + what, false)
        },
    }
}

/// `x` on any tab: what is up is worked out, and asked about before the plug is
/// pulled.
pub open spec fn panic_armed(a: App, b: App, out: Seq<Act>) -> bool {
    let vpn = all_up_names(a.vpn.providers@);
    if a.active@.len() == 0 && running_count(a.rdp_active@) == 0 && window_count(a.ssh_windows@)
        == 0 && vpn.len() == 0 {
        b == a && out == seq![Act::Flash("nothing is connected"@, false)]
    } else {
        &&& b == (App { panic: b.panic, ..a })
        &&& b.panic is Some
        &&& (b.panic->0).tunnels == a.active@.len()
        &&& (b.panic->0).rdp == running_count(a.rdp_active@)
        &&& (b.panic->0).ssh == window_count(a.ssh_windows@)
        &&& texts((b.panic->0).vpn@) == vpn
        &&& out.len() == 0
    }
}

impl App {
    /// `x` on any tab.
    pub fn arm_panic(&mut self) -> (r: Vec<Effect>)
        requires
            old(self).wf(),
        ensures
            final(self).wf(),
            panic_armed(*old(self), *final(self), acts(r@)),
    {
        let summary = self.panic_summary();
        assert(texts(summary.vpn@).len() == summary.vpn@.len());
        if summary.is_empty() {
            return effects::just(Effect::Flash("nothing is connected".to_owned(), false));
        }
        self.panic = Some(summary);
        effects::nothing()
    }

    /// Take every client down.
    #[verifier::rlimit(30)]
    fn all_clients_down(&mut self, out: &mut Vec<Effect>)
        requires
            old(self).wf(),
        ensures
            final(self).wf(),
            *final(self) == (App {
                vpn: final(self).vpn,
                termed: final(self).termed,
                ovpn_active: final(self).ovpn_active,
                ..*old(self)
            }),
            final(self).termed@ == termed_through(old(self).vpn.providers@, old(self).termed@),
            final(self).ovpn_active@ == ovpn_left(
                old(self).vpn.providers@[ProviderId::Openvpn.index_spec()],
                old(self).ovpn_active@,
            ),
            clients_told(old(self).vpn, final(self).vpn, old(self).termed@),
            acts(final(out)@) == acts(old(out)@) + all_down_acts(
                old(self).vpn.providers@,
                old(self).ovpn_active@,
                old(self).termed@,
            ),
    {
        let ghost a = *self;
        let ghost ps = a.vpn.providers@;
        let ghost was = acts(out@);
        let ids = ProviderId::all();
        let mut i: usize = 0;
        assert(ps.take(0) =~= Seq::<ProviderState>::empty());
        assert(was + all_down_acts(ps.take(0), a.ovpn_active@, a.termed@) =~= was);
        while i < ids.len()
            invariant
                i <= 4,
                ids@ == ProviderId::all_spec(),
                a.wf(),
                ps == a.vpn.providers@,
                self.wf(),
                *self == (App {
                    vpn: self.vpn,
                    termed: self.termed,
                    ovpn_active: self.ovpn_active,
                    ..a
                }),
                self.termed@ == termed_through(ps.take(i as int), a.termed@),
                self.ovpn_active@ == if i > 2 {
                    ovpn_left(ps[2], a.ovpn_active@)
                } else {
                    a.ovpn_active@
                },
                self.vpn.client_idx == a.vpn.client_idx && self.vpn.focus == a.vpn.focus,
                forall|k: int|
                    0 <= k < i ==> client_told(
                        ps[k],
                        #[trigger] self.vpn.providers@[k],
                        termed_through(ps.take(k), a.termed@),
                    ),
                forall|k: int| i <= k < 4 ==> #[trigger] self.vpn.providers@[k] == ps[k],
                acts(out@) == was + all_down_acts(ps.take(i as int), a.ovpn_active@, a.termed@),
            decreases 4 - i,
        {
            assert(ps.take(i + 1).drop_last() =~= ps.take(i as int));
            let ghost m = *self;
            let id = ids[i];
            assert(id.index_spec() == i);
            assert(m.vpn.providers@[i as int] == ps[i as int]);
            assert(ps[i as int].id == id);
            self.vpn_disconnect_all(id, out);
            assert(client_down_acts(ps[i as int], m.ovpn_active@, m.termed@) == client_down_acts(
                ps[i as int],
                a.ovpn_active@,
                m.termed@,
            ));
            assert(acts(out@) =~= was + all_down_acts(ps.take(i + 1), a.ovpn_active@, a.termed@));
            assert forall|k: int| i + 1 <= k < 4 implies #[trigger] self.vpn.providers@[k]
                == ps[k] by {
                assert(m.vpn.providers@[k] == ps[k]);
            }
            assert forall|k: int| 0 <= k < i + 1 implies client_told(
                ps[k],
                #[trigger] self.vpn.providers@[k],
                termed_through(ps.take(k), a.termed@),
            ) by {
                if k < i {
                    assert(self.vpn.providers@[k] == m.vpn.providers@[k]);
                }
            }
            i = i + 1;
        }
        assert(ps.take(4) =~= ps);
    }

    /// Take down everything.
    pub fn disconnect_everything(&mut self) -> (r: Vec<Effect>)
        requires
            old(self).wf(),
        ensures
            final(self).wf(),
            everything_down(*old(self), *final(self), acts(r@)),
    {
        let ghost a = *self;
        let summary = match self.panic.take() {
            None => {
                return effects::nothing();
            },
            Some(s) => s,
        };
        self.activation = None;
        self.conflict = None;
        self.pending = None;
        self.reconnect = Vec::new();
        let what = text::join(&summary.lines(), ", ");
        let mut out = effects::just(
            Effect::Note(
                LogTarget::Program,
                cat("panic: taking down ", what.as_str()),
                false,
            ),
        );
        let ghost first = acts(out@);
        let ghost b = *self;
        proof {
            law_nothing_left(self.active@);
            law_nothing_left(self.rdp_active@);
        }
        let tunnels = name_list(&self.active);
        self.stop_tunnels(&tunnels, &mut out);
        proof {
            lemma_empty_stays(b.reconnect@, texts(tunnels@));
        }
        let sessions = name_list(&self.rdp_active);
        self.drop_rdps(&sessions, &mut out);
        effects::ask(&mut out, Effect::CloseWindows);
        self.ssh_windows = Vec::new();
        let ghost before = acts(out@);
        self.all_clients_down(&mut out);
        let msg = cat("disconnected everything: ", what.as_str());
        effects::report(&mut out, LogTarget::Program, msg.as_str(), false);
        assert(acts(out@) =~= first + stop_all_acts(a.active@, all_names(a.active@))
            + close_all_acts(a.rdp_active@, all_names(a.rdp_active@)) + seq![Act::CloseWindows]
            + all_down_acts(a.vpn.providers@, a.ovpn_active@, a.termed@) + reported(
            Subject::Program,
            msg@,
            false,
        ));
        out
    }
}

proof fn lemma_empty_stays<T: Named>(s: Seq<T>, names: Seq<Seq<char>>)
    requires
        s.len() == 0,
    ensures
        without_all(s, names).len() == 0,
    decreases names.len(),
{
    if names.len() > 0 {
        lemma_empty_stays(s, names.drop_last());
    }
}

/// Once the panic button has been accepted, no tunnel, no rdp session and no ssh
/// window is left, nothing is under way that would bring one back, and each
/// tunnel and session that was up was told to stop.
pub proof fn law_panic_takes_everything_down(a: App, b: App, out: Seq<Act>)
    requires
        a.wf(),
        a.panic is Some,
        everything_down(a, b, out),
    ensures
        b.active@.len() == 0 && b.rdp_active@.len() == 0 && b.ssh_windows@.len() == 0,
        b.reconnect@.len() == 0 && b.activation is None && b.conflict is None,
        forall|i: int|
            0 <= i < a.active@.len() ==> out.contains(
                Act::StopTunnel((#[trigger] a.active@[i]).name@),
            ),
        forall|i: int|
            0 <= i < a.rdp_active@.len() ==> out.contains(
                Act::StopRdp((#[trigger] a.rdp_active@[i]).name@),
            ),
{
    let p = a.panic->0;
    let what = joined(p.lines_spec(), ", "@);
    let first = seq![Act::Note(Subject::Program, "panic: taking down "@ + what, false)];
    let ts = stop_all_acts(a.active@, all_names(a.active@));
    let rs = close_all_acts(a.rdp_active@, all_names(a.rdp_active@));
    let rest = seq![Act::CloseWindows] + all_down_acts(
        a.vpn.providers@,
        a.ovpn_active@,
        a.termed@,
    ) + reported(Subject::Program, "disconnected everything: "@ + what, false);
    assert(out =~= first + ts + rs + rest);
    assert forall|i: int| 0 <= i < a.active@.len() implies out.contains(
        Act::StopTunnel((#[trigger] a.active@[i]).name@),
    ) by {
        lemma_stop_asked(a.active@, all_names(a.active@), i);
        let k = choose|k: int| 0 <= k < ts.len() && ts[k] == Act::StopTunnel(a.active@[i].name@);
        assert(out[1 + k] == ts[k]);
    }
    assert forall|i: int| 0 <= i < a.rdp_active@.len() implies out.contains(
        Act::StopRdp((#[trigger] a.rdp_active@[i]).name@),
    ) by {
        lemma_close_asked(a.rdp_active@, all_names(a.rdp_active@), i);
        let k = choose|k: int| 0 <= k < rs.len() && rs[k] == Act::StopRdp(a.rdp_active@[i].name@);
        assert(out[1 + ts.len() + k] == rs[k]);
    }
}

proof fn lemma_up_named(ps: Seq<VpnProfile>, i: int)
    requires
        0 <= i < ps.len(),
        ps[i].active && ps[i].stored_spec(),
    ensures
        up_profiles(ps).contains(ps[i].name@),
    decreases ps.len(),
{
    let head = ps.drop_last();
    let all = up_profiles(ps);
    let before = up_profiles(head);
    if i < head.len() {
        lemma_up_named(head, i);
        let k = choose|k: int| 0 <= k < before.len() && before[k] == ps[i].name@;
        assert(all[k] == ps[i].name@);
    } else {
        assert(all[before.len() as int] == ps[i].name@);
    }
}

proof fn lemma_foreign_asked(id: ProviderId, rows: Seq<VpnProfile>, termed: Seq<u32>, i: int)
    requires
        0 <= i < rows.len(),
        !rows[i].stored_spec(),
    ensures
        exists|force: bool, desc: Seq<char>|
            #[trigger] all_foreign_acts(id, rows, termed).contains(
                Act::StopForeign { provider: id, row: i, force, desc },
            ),
    decreases rows.len(),
{
    let head = rows.drop_last();
    let before = all_foreign_acts(id, head, termed);
    let all = all_foreign_acts(id, rows, termed);
    if i < head.len() {
        lemma_foreign_asked(id, head, termed, i);
        let (force, desc) = choose|force: bool, desc: Seq<char>|
            before.contains(Act::StopForeign { provider: id, row: i, force, desc });
        let x = Act::StopForeign { provider: id, row: i, force, desc };
        let k = choose|k: int| 0 <= k < before.len() && before[k] == x;
        assert(all[k] == x);
        assert(all.contains(x));
    } else {
        let now = all_asked_to_end(head, termed);
        let force = is_forced(rows.last(), now);
        let desc = stopping(rows.last().name@, force);
        let x = Act::StopForeign { provider: id, row: i, force, desc };
        assert(all[before.len() as int] == x);
        assert(all.contains(x));
    }
}

proof fn lemma_openvpn_asked(live: Seq<LiveOvpn>, names: Seq<Seq<char>>, name: Seq<char>)
    requires
        one_each(live),
        has_name(live, name),
        names.contains(name),
    ensures
        stop_ovpn_acts(live, names).contains(Act::StopOpenvpn(name)),
    decreases names.len(),
{
    let head = names.drop_last();
    let before = stop_ovpn_acts(live, head);
    let all = stop_ovpn_acts(live, names);
    let x = Act::StopOpenvpn(name);
    if head.contains(name) {
        lemma_openvpn_asked(live, head, name);
        let k = choose|k: int| 0 <= k < before.len() && before[k] == x;
        assert(all[k] == x);
    } else {
        let k = choose|k: int| 0 <= k < names.len() && names[k] == name;
        if k < head.len() {
            assert(head[k] == name);
        }
        assert(names.last() == name);
        lemma_still_there(live, head, name);
        assert(all[before.len() as int] == x);
    }
}

/// What one client is told is among what all are told.
proof fn lemma_client_asked(
    ps: Seq<ProviderState>,
    live: Seq<LiveOvpn>,
    termed: Seq<u32>,
    k: int,
    x: Act,
)
    requires
        0 <= k < ps.len(),
        client_down_acts(ps[k], live, termed_through(ps.take(k), termed)).contains(x),
    ensures
        all_down_acts(ps, live, termed).contains(x),
    decreases ps.len(),
{
    let head = ps.drop_last();
    let before = all_down_acts(head, live, termed);
    let all = all_down_acts(ps, live, termed);
    if k < head.len() {
        assert(head.take(k) =~= ps.take(k));
        lemma_client_asked(head, live, termed, k, x);
        let j = choose|j: int| 0 <= j < before.len() && before[j] == x;
        assert(all[j] == x);
    } else {
        assert(ps.take(k) =~= head);
        let own = client_down_acts(ps[k], live, termed_through(head, termed));
        let j = choose|j: int| 0 <= j < own.len() && own[j] == x;
        assert(all[before.len() + j] == x);
    }
}

/// Once the panic button has been accepted, every VPN connection has been told to
/// go: each profile that is up, whatever its client is doing, and each connection
/// that was not started here.
pub proof fn law_panic_takes_every_vpn_down(a: App, b: App, out: Seq<Act>, k: int, i: int)
    requires
        a.wf(),
        a.panic is Some,
        everything_down(a, b, out),
        0 <= k < a.vpn.providers@.len(),
        0 <= i < a.vpn.providers@[k].profiles@.len(),
    ensures
        ({
            let s = a.vpn.providers@[k];
            let p = s.profiles@[i];
            let up = p.stored_spec() && p.active && s.installed;
            &&& !p.stored_spec() ==> exists|force: bool, desc: Seq<char>|
                #[trigger] out.contains(
                    Act::StopForeign { provider: s.id, row: i, force, desc },
                )
            &&& up && s.id != ProviderId::Openvpn ==> out.contains(down_act(s.id, p.name@))
            &&& up && s.id == ProviderId::Openvpn && has_name(a.ovpn_active@, p.name@)
                ==> out.contains(Act::StopOpenvpn(p.name@))
        }),
{
    let s = a.vpn.providers@[k];
    let p = s.profiles@[i];
    let now = termed_through(a.vpn.providers@.take(k), a.termed@);
    let foreign = all_foreign_acts(s.id, s.profiles@, now);
    let own = client_down_acts(s, a.ovpn_active@, now);
    if !p.stored_spec() {
        lemma_foreign_asked(s.id, s.profiles@, now, i);
        let (force, desc) = choose|force: bool, desc: Seq<char>|
            foreign.contains(Act::StopForeign { provider: s.id, row: i, force, desc });
        let x = Act::StopForeign { provider: s.id, row: i, force, desc };
        let j = choose|j: int| 0 <= j < foreign.len() && foreign[j] == x;
        assert(own[j] == x);
        lemma_asked(a, b, out, k, x);
    } else if p.active && s.installed {
        lemma_up_named(s.profiles@, i);
        let names = up_profiles(s.profiles@);
        if s.id == ProviderId::Openvpn {
            if has_name(a.ovpn_active@, p.name@) {
                let x = Act::StopOpenvpn(p.name@);
                lemma_openvpn_asked(a.ovpn_active@, names, p.name@);
                let rest = stop_ovpn_acts(a.ovpn_active@, names);
                let j = choose|j: int| 0 <= j < rest.len() && rest[j] == x;
                assert(own[foreign.len() + j] == x);
                lemma_asked(a, b, out, k, x);
            }
        } else {
            let x = down_act(s.id, p.name@);
            let j = choose|j: int| 0 <= j < names.len() && names[j] == p.name@;
            assert(want_down(s.id, names)[j] == x);
            assert(own[foreign.len() + j] == x);
            lemma_asked(a, b, out, k, x);
        }
    }
}

/// What one client is told is among what the panic button asks for.
proof fn lemma_asked(a: App, b: App, out: Seq<Act>, k: int, x: Act)
    requires
        a.panic is Some,
        everything_down(a, b, out),
        0 <= k < a.vpn.providers@.len(),
        client_down_acts(
            a.vpn.providers@[k],
            a.ovpn_active@,
            termed_through(a.vpn.providers@.take(k), a.termed@),
        ).contains(x),
    ensures
        out.contains(x),
{
    let what = joined((a.panic->0).lines_spec(), ", "@);
    let first = seq![Act::Note(Subject::Program, "panic: taking down "@ + what, false)]
        + stop_all_acts(a.active@, all_names(a.active@)) + close_all_acts(
        a.rdp_active@,
        all_names(a.rdp_active@),
    ) + seq![Act::CloseWindows];
    let all = all_down_acts(a.vpn.providers@, a.ovpn_active@, a.termed@);
    let last = reported(Subject::Program, "disconnected everything: "@ + what, false);
    assert(out =~= first + all + last);
    lemma_client_asked(a.vpn.providers@, a.ovpn_active@, a.termed@, k, x);
    let j = choose|j: int| 0 <= j < all.len() && all[j] == x;
    assert(out[first.len() + j] == x);
}

/// A name that is in a list is still there once other names have been taken out.
proof fn lemma_still_there<T: Named>(s: Seq<T>, names: Seq<Seq<char>>, name: Seq<char>)
    requires
        one_each(s),
        has_name(s, name),
        !names.contains(name),
    ensures
        has_name(without_all(s, names), name),
    decreases names.len(),
{
    if names.len() > 0 {
        let head = names.drop_last();
        assert(!head.contains(name)) by {
            if head.contains(name) {
                let k = choose|k: int| 0 <= k < head.len() && head[k] == name;
                assert(names[k] == name);
            }
        }
        lemma_still_there(s, head, name);
        law_all_taken_out(s, head);
        assert(names[names.len() - 1] == names.last());
        law_taken_out_is_gone(without_all(s, head), names.last(), name);
    }
}

proof fn lemma_stop_asked(live: Seq<LiveTunnel>, names: Seq<Seq<char>>, i: int)
    requires
        one_each(live),
        0 <= i < names.len() <= live.len(),
        forall|k: int| 0 <= k < names.len() ==> #[trigger] names[k] == live[k].name@,
    ensures
        stop_all_acts(live, names).contains(Act::StopTunnel(names[i])),
    decreases names.len(),
{
    let head = names.drop_last();
    let x = Act::StopTunnel(names[i]);
    let before = stop_all_acts(live, head);
    let all = stop_all_acts(live, names);
    if i < head.len() {
        lemma_stop_asked(live, head, i);
        let k = choose|k: int| 0 <= k < before.len() && before[k] == x;
        assert(all[k] == x);
    } else {
        assert(!head.contains(names[i])) by {
            if head.contains(names[i]) {
                let k = choose|k: int| 0 <= k < head.len() && head[k] == names[i];
                assert(names[k] == live[k].name@);
                assert(live[k].name_spec() != live[i].name_spec());
            }
        }
        lemma_has_name(live, names[i]);
        assert(live[i].name_spec() == names[i]);
        lemma_still_there(live, head, names[i]);
        assert(all[before.len() as int] == x);
    }
}

proof fn lemma_close_asked(live: Seq<LiveRdp>, names: Seq<Seq<char>>, i: int)
    requires
        one_each(live),
        0 <= i < names.len() <= live.len(),
        forall|k: int| 0 <= k < names.len() ==> #[trigger] names[k] == live[k].name@,
    ensures
        close_all_acts(live, names).contains(Act::StopRdp(names[i])),
    decreases names.len(),
{
    let head = names.drop_last();
    let x = Act::StopRdp(names[i]);
    let before = close_all_acts(live, head);
    let all = close_all_acts(live, names);
    if i < head.len() {
        lemma_close_asked(live, head, i);
        let k = choose|k: int| 0 <= k < before.len() && before[k] == x;
        assert(all[k] == x);
    } else {
        assert(!head.contains(names[i])) by {
            if head.contains(names[i]) {
                let k = choose|k: int| 0 <= k < head.len() && head[k] == names[i];
                assert(names[k] == live[k].name@);
                assert(live[k].name_spec() != live[i].name_spec());
            }
        }
        lemma_has_name(live, names[i]);
        assert(live[i].name_spec() == names[i]);
        lemma_still_there(live, head, names[i]);
        assert(all[before.len() as int] == x);
    }
}

}
