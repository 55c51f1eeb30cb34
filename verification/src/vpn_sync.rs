//! Keeping the lists of the VPN clients in step with what is configured, what
//! the clients say of themselves and what is found on the machine.

use vstd::prelude::*;
use crate::app::{App, Scan};
use crate::browser::opt_string;
use crate::cursor::ints;
use crate::effects::{self, acts, reported, Act, Effect};
use crate::list::{first_where, lemma_first_where, lemma_first_where_is};
use crate::live::{has_name, place_of, position, LiveOvpn, Named, OvpnStatus};
use crate::logs::{LogTarget, Subject};
use crate::queries::unheld;
use crate::text::{self, cat, cat4, cat5, texts};
use crate::types::OpenvpnProfile;
use crate::ui::{self, duration_text, truncated};
use crate::vpn::ProviderId;
use crate::vpn_view::{
    clamped, is_stored_fn, kept, Foreign, Link, Process, ProviderState, VpnProfile, VpnStatus,
};

verus! {

/// How often the machine is swept, in milliseconds.
pub const SCAN_EVERY: u64 = 5_000;

/// How long a sweep that never reported back holds up the next, in milliseconds.
pub const SCAN_LOST: u64 = 30_000;

/// What is known of profiles and of what was found besides what they hold
/// themselves.
pub struct VpnFacts {
    /// The interface of each WireGuard profile.
    pub interfaces: Vec<String>,
    /// A line on each WireGuard profile.
    pub wireguard: Vec<String>,
    /// A line on each OpenVPN profile.
    pub openvpn: Vec<String>,
    /// The file each process of the last sweep writes its pid to.
    pub pid_files: Vec<Option<String>>,
    /// The devices that running openvpn processes were told to use.
    pub devices: Vec<String>,
    /// The devices of openvpn sessions that are gone, by their place in the
    /// last sweep: what a search found that was told what
    /// [`App::device_question`] says.
    pub leaked: Vec<usize>,
    /// How each process of the last sweep is called, and a line on it.
    pub processes: Vec<(String, String)>,
    /// How each device of the last sweep is called, and a line on it.
    pub links: Vec<(String, String)>,
}

impl VpnFacts {
    /// There are facts for everything that is configured and was found.
    pub open spec fn wf(&self, a: App) -> bool {
        &&& self.interfaces@.len() == a.vpn_cfg.wireguard@.len()
        &&& self.wireguard@.len() == a.vpn_cfg.wireguard@.len()
        &&& self.openvpn@.len() == a.vpn_cfg.openvpn@.len()
        &&& self.pid_files@.len() == a.scan.processes@.len()
        &&& self.processes@.len() == a.scan.processes@.len()
        &&& self.links@.len() == a.scan.links@.len()
        &&& forall|k: int|
            0 <= k < self.leaked@.len() ==> #[trigger] self.leaked@[k] < a.scan.links@.len()
    }
}

// ---------------------------------------------------------------------------
// Connections that are not held here
//
// A session can outlive the program that started it — a crash, a kill, an exit
// while openvpn was up — and an orphan holding the server's slot is exactly what
// a profile that connects and drops every few minutes looks like from the
// inside. So the tab shows what is on the machine, not only what is held here.
// ---------------------------------------------------------------------------

/// Something the last sweep found, by its place in it.
pub enum Found {
    Process(int),
    Interface(int),
}

pub open spec fn found_processes(v: Seq<int>) -> Seq<Found> {
    v.map_values(|k: int| Found::Process(k))
}

pub open spec fn found_links(v: Seq<int>) -> Seq<Found> {
    v.map_values(|k: int| Found::Interface(k))
}

/// The connections a client has on the machine that no session held here
/// accounts for. NetBird and Tailscale are daemons: their own status already
/// reports the machine, so there is nothing they could be holding without
/// knowing it.
pub open spec fn foreign_of(a: App, f: VpnFacts, id: ProviderId) -> Seq<Found> {
    match id {
        ProviderId::Openvpn => found_processes(
            unheld(a.scan.processes@, f.pid_files@, a.ovpn_active@, a.machine.os),
        ) + found_links(ints(f.leaked@)),
        ProviderId::Wireguard => found_links(
            App::unclaimed(
                a.scan.links@,
                texts(f.interfaces@),
                a.ovpn_active@,
                texts(f.devices@),
                a.vpn.providers@,
            ),
        ),
        _ => Seq::empty(),
    }
}

/// A row for something that was found. It is up: that is the entire point of
/// reporting it.
pub open spec fn row_shows(row: VpnProfile, what: Found, s: Scan, f: VpnFacts) -> bool {
    &&& row.active
    &&& match what {
        Found::Process(k) => {
            &&& row.name@ == f.processes@[k].0@
            &&& row.detail@ == f.processes@[k].1@
            &&& row.foreign matches Some(Foreign::Process(p)) && p.same(s.processes@[k])
        },
        Found::Interface(k) => {
            &&& row.name@ == f.links@[k].0@
            &&& row.detail@ == f.links@[k].1@
            &&& row.foreign matches Some(Foreign::Interface(l)) && l.same(s.links@[k])
        },
    }
}

/// These rows show what was found.
pub open spec fn rows_show(rows: Seq<VpnProfile>, what: Seq<Found>, s: Scan, f: VpnFacts) -> bool {
    &&& rows.len() == what.len()
    &&& forall|k: int| 0 <= k < rows.len() ==> row_shows(#[trigger] rows[k], what[k], s, f)
}

/// A client's list with what was found at its end, in place of what was found
/// before.
pub open spec fn merged(
    s: ProviderState,
    t: ProviderState,
    what: Seq<Found>,
    scan: Scan,
    f: VpnFacts,
) -> bool {
    let own = kept(s.profiles@, is_stored_fn());
    &&& t == (ProviderState { profiles: t.profiles, selected: t.selected, ..s })
    &&& t.profiles@.len() == own.len() + what.len()
    &&& t.profiles@.take(own.len() as int) == own
    &&& rows_show(t.profiles@.skip(own.len() as int), what, scan, f)
    &&& t.selected == clamped(s.selected as int, t.profiles@.len() as int)
}

/// What was found has been put at the end of a client's list.
pub open spec fn merged_foreign(a: App, b: App, f: VpnFacts, id: ProviderId) -> bool {
    let i = id.index_spec();
    &&& b == (App { vpn: b.vpn, ..a })
    &&& b.vpn.but_for(a.vpn, id)
    &&& merged(a.vpn.providers@[i], b.vpn.providers@[i], foreign_of(a, f, id), a.scan, f)
}

fn keep_stored(v: &mut Vec<VpnProfile>)
    ensures
        final(v)@ == kept(old(v)@, is_stored_fn()),
{
    let ghost s = v@;
    let ghost p = is_stored_fn();
    let ghost mut k: int = 0;
    let mut i: usize = 0;
    assert(s.take(0) =~= Seq::<VpnProfile>::empty());
    assert(v@ =~= kept(s.take(0), p) + s.skip(0));
    while i < v.len()
        invariant
            0 <= k <= s.len(),
            p == is_stored_fn(),
            i == kept(s.take(k), p).len(),
            v@ == kept(s.take(k), p) + s.skip(k),
        decreases v@.len() - i,
    {
        assert(s.take(k + 1).drop_last() =~= s.take(k));
        assert(v@[i as int] == s[k]);
        if v[i].is_stored() {
            i = i + 1;
        } else {
            let _ = v.remove(i);
        }
        assert(v@ =~= kept(s.take(k + 1), p) + s.skip(k + 1));
        proof {
            k = k + 1;
        }
    }
    assert(s.skip(k).len() == 0);
    assert(s.take(k) =~= s);
    assert(v@ =~= kept(s, p));
}

impl App {
    fn process_rows(&self, f: &VpnFacts, which: &Vec<usize>) -> (r: Vec<VpnProfile>)
        requires
            f.wf(*self),
            forall|k: int| 0 <= k < which@.len() ==> #[trigger] which@[k] < self.scan.processes@.len(),
        ensures
            rows_show(r@, found_processes(ints(which@)), self.scan, *f),
    {
        let mut rows: Vec<VpnProfile> = Vec::new();
        let mut i: usize = 0;
        while i < which.len()
            invariant
                i <= which@.len(),
                f.wf(*self),
                forall|k: int|
                    0 <= k < which@.len() ==> #[trigger] which@[k] < self.scan.processes@.len(),
                rows@.len() == i,
                forall|k: int|
                    0 <= k < i ==> row_shows(
                        #[trigger] rows@[k],
                        Found::Process(which@[k] as int),
                        self.scan,
                        *f,
                    ),
            decreases which@.len() - i,
        {
            let at: usize = which[i];
            rows.push(
                VpnProfile {
                    name: f.processes[at].0.clone(),
                    active: true,
                    detail: f.processes[at].1.clone(),
                    foreign: Some(Foreign::Process(self.scan.processes[at].clone())),
                },
            );
            i = i + 1;
        }
        rows
    }

    fn link_rows(&self, f: &VpnFacts, which: &Vec<usize>) -> (r: Vec<VpnProfile>)
        requires
            f.wf(*self),
            forall|k: int| 0 <= k < which@.len() ==> #[trigger] which@[k] < self.scan.links@.len(),
        ensures
            rows_show(r@, found_links(ints(which@)), self.scan, *f),
    {
        let mut rows: Vec<VpnProfile> = Vec::new();
        let mut i: usize = 0;
        while i < which.len()
            invariant
                i <= which@.len(),
                f.wf(*self),
                forall|k: int|
                    0 <= k < which@.len() ==> #[trigger] which@[k] < self.scan.links@.len(),
                rows@.len() == i,
                forall|k: int|
                    0 <= k < i ==> row_shows(
                        #[trigger] rows@[k],
                        Found::Interface(which@[k] as int),
                        self.scan,
                        *f,
                    ),
            decreases which@.len() - i,
        {
            let at: usize = which[i];
            rows.push(
                VpnProfile {
                    name: f.links[at].0.clone(),
                    active: true,
                    detail: f.links[at].1.clone(),
                    foreign: Some(Foreign::Interface(self.scan.links[at].clone())),
                },
            );
            i = i + 1;
        }
        rows
    }

    /// Rows for the connections a client has on the machine that no session held
    /// here accounts for.
    pub fn foreign_for(&self, f: &VpnFacts, id: ProviderId) -> (r: Vec<VpnProfile>)
        requires
            f.wf(*self),
        ensures
            rows_show(r@, foreign_of(*self, *f, id), self.scan, *f),
    {
        match id {
            ProviderId::Openvpn => {
                let loose = self.foreign_processes(&f.pid_files);
                let mut rows = self.process_rows(f, &loose);
                let ghost first = rows@;
                let mut more = self.link_rows(f, &f.leaked);
                let ghost second = more@;
                rows.append(&mut more);
                assert(rows@ =~= first + second);
                let ghost what = foreign_of(*self, *f, id);
                assert forall|k: int| 0 <= k < rows@.len() implies row_shows(
                    #[trigger] rows@[k],
                    what[k],
                    self.scan,
                    *f,
                ) by {
                    if k < first.len() {
                        assert(rows@[k] == first[k]);
                    } else {
                        assert(rows@[k] == second[k - first.len()]);
                    }
                }
                rows
            },
            ProviderId::Wireguard => {
                let which = self.foreign_interfaces(&f.interfaces, &f.devices);
                self.link_rows(f, &which)
            },
            ProviderId::Netbird | ProviderId::Tailscale => Vec::new(),
        }
    }

    /// Put what was found at the end of a client's list. This is done wherever
    /// that list is rebuilt, and doing it twice changes nothing.
    pub fn merge_foreign(&mut self, f: &VpnFacts, id: ProviderId)
        requires
            old(self).wf(),
            f.wf(*old(self)),
        ensures
            final(self).wf(),
            merged_foreign(*old(self), *final(self), *f, id),
    {
        let ghost a = *self;
        let rows = self.foreign_for(f, id);
        let ghost new = rows@;
        let mut rows = rows;
        let state = self.vpn.get_mut(id);
        let ghost s = *state;
        let ghost own = kept(s.profiles@, is_stored_fn());
        keep_stored(&mut state.profiles);
        state.profiles.append(&mut rows);
        assert(state.profiles@ =~= own + new);
        assert(state.profiles@.take(own.len() as int) =~= own);
        assert(state.profiles@.skip(own.len() as int) =~= new);
        state.clamp_selection();
    }
}

/// What is kept of a list that is all kept is the list.
proof fn lemma_kept_all<T>(s: Seq<T>, p: spec_fn(T) -> bool)
    requires
        forall|i: int| 0 <= i < s.len() ==> p(#[trigger] s[i]),
    ensures
        kept(s, p) == s,
    decreases s.len(),
{
    if s.len() > 0 {
        lemma_kept_all(s.drop_last(), p);
        assert(p(s[s.len() - 1]));
        assert(kept(s, p) =~= s);
    }
}

/// What is kept of a list and some more is what is kept of each.
proof fn lemma_kept_more<T>(s: Seq<T>, t: Seq<T>, p: spec_fn(T) -> bool)
    ensures
        kept(s + t, p) == kept(s, p) + kept(t, p),
    decreases t.len(),
{
    if t.len() == 0 {
        assert(s + t =~= s);
        assert(kept(s, p) + kept(t, p) =~= kept(s, p));
    } else {
        lemma_kept_more(s, t.drop_last(), p);
        assert((s + t).drop_last() =~= s + t.drop_last());
        assert((s + t).last() == t.last());
        assert(kept(s + t, p) =~= kept(s, p) + kept(t, p));
    }
}

proof fn lemma_kept_none<T>(s: Seq<T>, p: spec_fn(T) -> bool)
    requires
        forall|i: int| 0 <= i < s.len() ==> !p(#[trigger] s[i]),
    ensures
        kept(s, p).len() == 0,
    decreases s.len(),
{
    if s.len() > 0 {
        lemma_kept_none(s.drop_last(), p);
        assert(!p(s[s.len() - 1]));
    }
}

/// Whatever was found is shown beside the stored profiles and never in place of
/// one: the stored rows of a list are the same after it as before.
pub proof fn law_merging_keeps_profiles(
    s: ProviderState,
    t: ProviderState,
    what: Seq<Found>,
    scan: Scan,
    f: VpnFacts,
)
    requires
        merged(s, t, what, scan, f),
    ensures
        kept(t.profiles@, is_stored_fn()) == kept(s.profiles@, is_stored_fn()),
        t.status == s.status && t.busy == s.busy && t.error == s.error,
{
    let own = kept(s.profiles@, is_stored_fn());
    let n = own.len() as int;
    let rest = t.profiles@.skip(n);
    crate::vpn_view::law_rows_are_stored_or_foreign(s.profiles@);
    lemma_kept_are(s.profiles@, is_stored_fn());
    lemma_kept_all(own, is_stored_fn());
    assert forall|i: int| 0 <= i < rest.len() implies !is_stored_fn()(#[trigger] rest[i]) by {
        assert(row_shows(rest[i], what[i], scan, f));
    }
    lemma_kept_none(rest, is_stored_fn());
    lemma_kept_more(own, rest, is_stored_fn());
    assert(t.profiles@ =~= own + rest);
    assert(kept(rest, is_stored_fn()) =~= Seq::<VpnProfile>::empty());
    assert(own + kept(rest, is_stored_fn()) =~= own);
}

proof fn lemma_kept_are<T>(s: Seq<T>, p: spec_fn(T) -> bool)
    ensures
        forall|i: int| 0 <= i < kept(s, p).len() ==> p(#[trigger] kept(s, p)[i]),
    decreases s.len(),
{
    if s.len() > 0 {
        lemma_kept_are(s.drop_last(), p);
        let k = kept(s, p);
        let h = kept(s.drop_last(), p);
        assert forall|i: int| 0 <= i < k.len() implies p(#[trigger] k[i]) by {
            if i < h.len() {
                assert(k[i] == h[i]);
            }
        }
    }
}

// ---------------------------------------------------------------------------
// Listing the profiles kept here
// ---------------------------------------------------------------------------

pub open spec fn known_as_stored(name: Seq<char>) -> spec_fn(VpnProfile) -> bool {
    |p: VpnProfile| p.name@ == name && p.stored_spec()
}

/// A list said that this profile was up.
pub open spec fn was_up(ps: Seq<VpnProfile>, name: Seq<char>) -> bool {
    let i = first_where(ps, known_as_stored(name));
    i < ps.len() && ps[i].active
}

fn known_up(ps: &Vec<VpnProfile>, name: &str) -> (r: bool)
    ensures
        r == was_up(ps@, name@),
{
    let ghost p = known_as_stored(name@);
    let mut i: usize = 0;
    while i < ps.len()
        invariant
            i <= ps@.len(),
            p == known_as_stored(name@),
            forall|k: int| 0 <= k < i ==> !p(#[trigger] ps@[k]),
        decreases ps@.len() - i,
    {
        if ps[i].is_stored() && text::same(ps[i].name.as_str(), name) {
            proof {
                lemma_first_where_is(ps@, p, i as int);
            }
            return ps[i].active;
        }
        i = i + 1;
    }
    proof {
        lemma_first_where_is(ps@, p, i as int);
    }
    false
}

/// A list of the profiles that are kept here. What was known to be up stays up
/// until the client says otherwise, so that the list does not blink.
pub open spec fn lists_own<T: Named>(
    rows: Seq<VpnProfile>,
    own: Seq<T>,
    details: Seq<Seq<char>>,
    before: Seq<VpnProfile>,
) -> bool {
    &&& rows.len() == own.len()
    &&& forall|i: int|
        0 <= i < rows.len() ==> {
            let r = #[trigger] rows[i];
            &&& r.name@ == own[i].name_spec()
            &&& r.active == was_up(before, own[i].name_spec())
            &&& r.detail@ == details[i]
            &&& r.foreign is None
        }
}

/// No details for `n` rows.
pub open spec fn no_details(n: nat) -> Seq<Seq<char>> {
    Seq::new(n, |i: int| Seq::<char>::empty())
}

fn own_rows<T: Named>(
    own: &Vec<T>,
    details: Option<&Vec<String>>,
    before: &Vec<VpnProfile>,
) -> (r: Vec<VpnProfile>)
    requires
        details matches Some(d) ==> d@.len() == own@.len(),
    ensures
        lists_own(
            r@,
            own@,
            match details {
                Some(d) => texts(d@),
                None => no_details(own@.len()),
            },
            before@,
        ),
{
    let mut rows: Vec<VpnProfile> = Vec::new();
    let ghost ds = match details {
        Some(d) => texts(d@),
        None => no_details(own@.len()),
    };
    let mut i: usize = 0;
    while i < own.len()
        invariant
            i <= own@.len(),
            details matches Some(d) ==> d@.len() == own@.len(),
            ds == match details {
                Some(d) => texts(d@),
                None => no_details(own@.len()),
            },
            rows@.len() == i,
            forall|k: int|
                0 <= k < i ==> {
                    let r = #[trigger] rows@[k];
                    &&& r.name@ == own@[k].name_spec()
                    &&& r.active == was_up(before@, own@[k].name_spec())
                    &&& r.detail@ == ds[k]
                    &&& r.foreign is None
                },
        decreases own@.len() - i,
    {
        let name = own[i].known_as();
        let active = known_up(before, name);
        let detail = match details {
            Some(d) => d[i].clone(),
            None => {
                let none = String::new();
                assert(none@ =~= Seq::<char>::empty());
                none
            },
        };
        rows.push(VpnProfile { name: name.to_owned(), active, detail, foreign: None });
        i = i + 1;
    }
    rows
}

/// A client's list made anew from the profiles kept here, with what was found
/// after them. These profiles are listed whether or not the client is installed:
/// the config can be written before the package is.
pub open spec fn seeded<T: Named>(
    s: ProviderState,
    t: ProviderState,
    own: Seq<T>,
    details: Seq<Seq<char>>,
    what: Seq<Found>,
    scan: Scan,
    f: VpnFacts,
) -> bool {
    let n = own.len() as int;
    &&& t == (ProviderState { profiles: t.profiles, selected: t.selected, ..s })
    &&& t.profiles@.len() == n + what.len()
    &&& lists_own(t.profiles@.take(n), own, details, s.profiles@)
    &&& rows_show(t.profiles@.skip(n), what, scan, f)
    &&& t.selected == clamped(clamped(s.selected as int, n), t.profiles@.len() as int)
}

// ---------------------------------------------------------------------------
// OpenVPN
//
// OpenVPN has no daemon to poll: its state is the sessions being held, so it is
// filled in from them.
// ---------------------------------------------------------------------------

/// The openvpn session of that name is up.
pub open spec fn session_up(live: Seq<LiveOvpn>, name: Seq<char>) -> bool {
    has_name(live, name) && live[place_of(live, name)].status == OvpnStatus::Up
}

pub open spec fn profile_is_up(live: Seq<LiveOvpn>) -> spec_fn(OpenvpnProfile) -> bool {
    |o: OpenvpnProfile| session_up(live, o.name@)
}

pub open spec fn is_connecting() -> spec_fn(LiveOvpn) -> bool {
    |l: LiveOvpn| l.status == OvpnStatus::Connecting
}

pub open spec fn is_faulty() -> spec_fn(LiveOvpn) -> bool {
    |l: LiveOvpn| l.fault is Some
}

/// The OpenVPN profiles, as their sessions stand.
pub open spec fn lists_sessions(
    rows: Seq<VpnProfile>,
    own: Seq<OpenvpnProfile>,
    details: Seq<Seq<char>>,
    live: Seq<LiveOvpn>,
) -> bool {
    &&& rows.len() == own.len()
    &&& forall|i: int|
        0 <= i < rows.len() ==> {
            let r = #[trigger] rows[i];
            let name = own[i].name@;
            &&& r.name@ == name
            &&& r.active == session_up(live, name)
            &&& r.detail@ == if has_name(live, name) {
                live[place_of(live, name)].label@
            } else {
                details[i]
            }
            &&& r.foreign is None
        }
}

/// What a status pane lists, as text.
pub open spec fn fields_text(v: Seq<(String, String)>) -> Seq<(Seq<char>, Seq<char>)> {
    v.map_values(|f: (String, String)| (f.0@, f.1@))
}

/// The last thing a session said, for a status pane.
pub open spec fn last_field(l: LiveOvpn) -> Seq<(Seq<char>, Seq<char>)> {
    if l.log.held().len() == 0 {
        Seq::empty()
    } else {
        seq![("Last"@, truncated(l.log.held().last().text@, 60))]
    }
}

/// What OpenVPN's status pane says: the first profile that is up, or the first
/// session that is on its way.
pub open spec fn ovpn_status(
    st: VpnStatus,
    own: Seq<OpenvpnProfile>,
    live: Seq<LiveOvpn>,
    now: u64,
) -> bool {
    let i = first_where(own, profile_is_up(live));
    let k = first_where(live, is_connecting());
    &&& st.error is None
    &&& if i < own.len() {
        let o = own[i];
        let l = live[place_of(live, o.name@)];
        let secs = if now > l.started_at {
            (now - l.started_at) / 1000
        } else {
            0
        };
        &&& st.connected
        &&& opt_string(st.active_profile) == Some(o.name@)
        &&& fields_text(st.fields@) == seq![
            ("Profile"@, o.name@),
            ("Config"@, o.config_path@),
            ("Up for"@, duration_text(secs as nat)),
        ] + last_field(l)
    } else if k < live.len() {
        &&& !st.connected
        &&& st.active_profile is None
        &&& fields_text(st.fields@) == seq![
            ("Profile"@, live[k].name@),
            ("State"@, live[k].label@),
        ] + last_field(live[k])
    } else {
        &&& !st.connected
        &&& st.active_profile is None
        &&& st.fields@.len() == 0
    }
}

/// What openvpn itself said will not work; an error from a failed start stays
/// visible until something else happens.
pub open spec fn ovpn_error(live: Seq<LiveOvpn>, was: Option<Seq<char>>) -> Option<Seq<char>> {
    let k = first_where(live, is_faulty());
    if k < live.len() {
        opt_string(live[k].fault)
    } else {
        was
    }
}

/// OpenVPN's state has been filled in from its sessions.
pub open spec fn synced(a: App, b: App, f: VpnFacts, now: u64) -> bool {
    let i = ProviderId::Openvpn.index_spec();
    let s = a.vpn.providers@[i];
    let t = b.vpn.providers@[i];
    let own = a.vpn_cfg.openvpn@;
    let n = own.len() as int;
    let what = foreign_of(a, f, ProviderId::Openvpn);
    &&& b == (App { vpn: b.vpn, ..a })
    &&& b.vpn.but_for(a.vpn, ProviderId::Openvpn)
    &&& t == (ProviderState {
        profiles: t.profiles,
        selected: t.selected,
        status: t.status,
        error: t.error,
        last_refresh: Some(now),
        ..s
    })
    &&& t.profiles@.len() == n + what.len()
    &&& lists_sessions(t.profiles@.take(n), own, texts(f.openvpn@), a.ovpn_active@)
    &&& rows_show(t.profiles@.skip(n), what, a.scan, f)
    &&& t.selected == clamped(clamped(s.selected as int, n), t.profiles@.len() as int)
    &&& ovpn_status(t.status, own, a.ovpn_active@, now)
    &&& opt_string(t.error) == ovpn_error(a.ovpn_active@, opt_string(s.error))
}

fn add_field(v: &mut Vec<(String, String)>, key: &str, value: String)
    ensures
        fields_text(final(v)@) == fields_text(old(v)@).push((key@, value@)),
{
    let x = (key.to_owned(), value);
    assert(fields_text(v@.push(x)) =~= fields_text(v@).push((key@, value@)));
    v.push(x);
}

fn add_last(v: &mut Vec<(String, String)>, l: &LiveOvpn)
    ensures
        fields_text(final(v)@) == fields_text(old(v)@) + last_field(*l),
{
    let ghost was = fields_text(v@);
    match l.log.last_text() {
        Some(line) => {
            add_field(v, "Last", ui::truncate_pub(line.as_str(), 60));
        },
        None => {},
    }
    assert(fields_text(v@) =~= was + last_field(*l));
}

impl App {
    fn session_rows(&self, details: &Vec<String>) -> (r: Vec<VpnProfile>)
        requires
            details@.len() == self.vpn_cfg.openvpn@.len(),
        ensures
            lists_sessions(r@, self.vpn_cfg.openvpn@, texts(details@), self.ovpn_active@),
    {
        let mut rows: Vec<VpnProfile> = Vec::new();
        let mut i: usize = 0;
        while i < self.vpn_cfg.openvpn.len()
            invariant
                i <= self.vpn_cfg.openvpn@.len(),
                details@.len() == self.vpn_cfg.openvpn@.len(),
                rows@.len() == i,
                forall|k: int|
                    0 <= k < i ==> {
                        let r = #[trigger] rows@[k];
                        let name = self.vpn_cfg.openvpn@[k].name@;
                        &&& r.name@ == name
                        &&& r.active == session_up(self.ovpn_active@, name)
                        &&& r.detail@ == if has_name(self.ovpn_active@, name) {
                            self.ovpn_active@[place_of(self.ovpn_active@, name)].label@
                        } else {
                            texts(details@)[k]
                        }
                        &&& r.foreign is None
                    },
            decreases self.vpn_cfg.openvpn@.len() - i,
        {
            let name = self.vpn_cfg.openvpn[i].name.clone();
            let row = match position(self.ovpn_active.as_slice(), name.as_str()) {
                Some(k) => VpnProfile {
                    active: self.ovpn_active[k].is_up(),
                    name,
                    detail: self.ovpn_active[k].label.clone(),
                    foreign: None,
                },
                None => VpnProfile {
                    active: false,
                    name,
                    detail: details[i].clone(),
                    foreign: None,
                },
            };
            rows.push(row);
            i = i + 1;
        }
        rows
    }

    fn first_up(&self) -> (r: Option<(usize, usize)>)
        ensures
            ({
                let i = first_where(self.vpn_cfg.openvpn@, profile_is_up(self.ovpn_active@));
                &&& r is Some <==> i < self.vpn_cfg.openvpn@.len()
                &&& r is Some ==> (r->0).0 == i && (r->0).1 == place_of(
                    self.ovpn_active@,
                    self.vpn_cfg.openvpn@[i].name@,
                ) && (r->0).1 < self.ovpn_active@.len()
            }),
    {
        let ghost p = profile_is_up(self.ovpn_active@);
        let mut i: usize = 0;
        while i < self.vpn_cfg.openvpn.len()
            invariant
                i <= self.vpn_cfg.openvpn@.len(),
                p == profile_is_up(self.ovpn_active@),
                forall|k: int| 0 <= k < i ==> !p(#[trigger] self.vpn_cfg.openvpn@[k]),
            decreases self.vpn_cfg.openvpn@.len() - i,
        {
            match position(self.ovpn_active.as_slice(), self.vpn_cfg.openvpn[i].name.as_str()) {
                Some(k) => {
                    if self.ovpn_active[k].is_up() {
                        proof {
                            lemma_first_where_is(self.vpn_cfg.openvpn@, p, i as int);
                        }
                        return Some((i, k));
                    }
                },
                None => {},
            }
            i = i + 1;
        }
        proof {
            lemma_first_where_is(self.vpn_cfg.openvpn@, p, i as int);
        }
        None
    }

    fn first_connecting(&self) -> (r: Option<usize>)
        ensures
            ({
                let k = first_where(self.ovpn_active@, is_connecting());
                &&& r is Some <==> k < self.ovpn_active@.len()
                &&& r is Some ==> r->0 == k
            }),
    {
        let ghost p = is_connecting();
        let mut i: usize = 0;
        while i < self.ovpn_active.len()
            invariant
                i <= self.ovpn_active@.len(),
                p == is_connecting(),
                forall|k: int| 0 <= k < i ==> !p(#[trigger] self.ovpn_active@[k]),
            decreases self.ovpn_active@.len() - i,
        {
            if self.ovpn_active[i].status == OvpnStatus::Connecting {
                proof {
                    lemma_first_where_is(self.ovpn_active@, p, i as int);
                }
                return Some(i);
            }
            i = i + 1;
        }
        proof {
            lemma_first_where_is(self.ovpn_active@, p, i as int);
        }
        None
    }

    fn first_fault(&self) -> (r: Option<String>)
        ensures
            ({
                let k = first_where(self.ovpn_active@, is_faulty());
                opt_string(r) == if k < self.ovpn_active@.len() {
                    opt_string(self.ovpn_active@[k].fault)
                } else {
                    None
                }
            }),
            r is Some <==> first_where(self.ovpn_active@, is_faulty()) < self.ovpn_active@.len(),
    {
        let ghost p = is_faulty();
        let mut i: usize = 0;
        while i < self.ovpn_active.len()
            invariant
                i <= self.ovpn_active@.len(),
                p == is_faulty(),
                forall|k: int| 0 <= k < i ==> !p(#[trigger] self.ovpn_active@[k]),
            decreases self.ovpn_active@.len() - i,
        {
            match &self.ovpn_active[i].fault {
                Some(e) => {
                    proof {
                        lemma_first_where_is(self.ovpn_active@, p, i as int);
                    }
                    return Some(e.clone());
                },
                None => {},
            }
            i = i + 1;
        }
        proof {
            lemma_first_where_is(self.ovpn_active@, p, i as int);
        }
        None
    }

    fn openvpn_status(&self, now: u64) -> (r: VpnStatus)
        ensures
            ovpn_status(r, self.vpn_cfg.openvpn@, self.ovpn_active@, now),
    {
        let mut status = VpnStatus::default();
        assert(fields_text(status.fields@) =~= Seq::<(Seq<char>, Seq<char>)>::empty());
        match self.first_up() {
            Some((i, k)) => {
                let o = &self.vpn_cfg.openvpn[i];
                let l = &self.ovpn_active[k];
                let secs: u64 = if now > l.started_at {
                    (now - l.started_at) / 1000
                } else {
                    0
                };
                status.connected = true;
                status.active_profile = Some(o.name.clone());
                add_field(&mut status.fields, "Profile", o.name.clone());
                add_field(&mut status.fields, "Config", o.config_path.clone());
                add_field(&mut status.fields, "Up for", ui::fmt_duration(secs));
                assert(fields_text(status.fields@) =~= seq![
                    ("Profile"@, o.name@),
                    ("Config"@, o.config_path@),
                    ("Up for"@, duration_text(secs as nat)),
                ]);
                add_last(&mut status.fields, l);
            },
            None => match self.first_connecting() {
                Some(k) => {
                    let l = &self.ovpn_active[k];
                    add_field(&mut status.fields, "Profile", l.name.clone());
                    add_field(&mut status.fields, "State", l.label.clone());
                    assert(fields_text(status.fields@) =~= seq![
                        ("Profile"@, l.name@),
                        ("State"@, l.label@),
                    ]);
                    add_last(&mut status.fields, l);
                },
                None => {},
            },
        }
        status
    }

    /// Fill OpenVPN's state in from its sessions.
    pub fn sync_openvpn(&mut self, f: &VpnFacts, now: u64)
        requires
            old(self).wf(),
            f.wf(*old(self)),
        ensures
            final(self).wf(),
            synced(*old(self), *final(self), *f, now),
    {
        let ghost a = *self;
        let profiles = self.session_rows(&f.openvpn);
        let status = self.openvpn_status(now);
        let fault = self.first_fault();
        let ghost own = profiles@;
        let ghost i = ProviderId::Openvpn.index_spec();
        let state = self.vpn.get_mut(ProviderId::Openvpn);
        state.profiles = profiles;
        state.clamp_selection();
        state.status = status;
        if fault.is_some() {
            state.error = fault;
        }
        state.last_refresh = Some(now);
        let ghost m = *self;
        proof {
            assert forall|k: int| 0 <= k < own.len() implies is_stored_fn()(#[trigger] own[k]) by {
                assert(own[k].foreign is None);
            }
            lemma_kept_all(own, is_stored_fn());
            lemma_foreign_steady(a, m, *f, ProviderId::Openvpn);
        }
        self.merge_foreign(f, ProviderId::Openvpn);
        assert(self.vpn.providers@ =~= a.vpn.providers@.update(i, self.vpn.providers@[i]));
    }
}

/// What is found of OpenVPN does not depend on what the lists say.
proof fn lemma_foreign_steady(a: App, b: App, f: VpnFacts, id: ProviderId)
    requires
        b == (App { vpn: b.vpn, ..a }),
        id != ProviderId::Wireguard,
    ensures
        foreign_of(b, f, id) == foreign_of(a, f, id),
{
}

// ---------------------------------------------------------------------------
// Bringing a list up to date
// ---------------------------------------------------------------------------

/// Clients that say the same of themselves own the same devices.
proof fn lemma_unclaimed_steady(
    links: Seq<Link>,
    interfaces: Seq<Seq<char>>,
    sessions: Seq<LiveOvpn>,
    devices: Seq<Seq<char>>,
    cs: Seq<ProviderState>,
    ds: Seq<ProviderState>,
)
    requires
        cs.len() == ds.len(),
        forall|i: int|
            0 <= i < cs.len() ==> (#[trigger] cs[i]).status == ds[i].status && cs[i].id == ds[i].id,
    ensures
        App::unclaimed(links, interfaces, sessions, devices, cs) == App::unclaimed(
            links,
            interfaces,
            sessions,
            devices,
            ds,
        ),
    decreases links.len(),
{
    if links.len() > 0 {
        lemma_unclaimed_steady(links.drop_last(), interfaces, sessions, devices, cs, ds);
        let p = crate::queries::says_it_owns(links.last());
        assert forall|i: int| 0 <= i < cs.len() implies p(#[trigger] cs[i]) == p(ds[i]) by {
            assert(cs[i].status == ds[i].status);
        }
        crate::list::lemma_first_where_same(cs, ds, p);
        lemma_first_where(cs, p);
        let k = first_where(cs, p);
        if k < cs.len() {
            assert(cs[k].id == ds[k].id);
        }
    }
}

/// A client's list has been made anew.
pub open spec fn reseeded(a: App, b: App, f: VpnFacts, id: ProviderId, now: u64) -> bool {
    let i = id.index_spec();
    let s = a.vpn.providers@[i];
    let t = b.vpn.providers@[i];
    let what = foreign_of(a, f, id);
    match id {
        ProviderId::Openvpn => synced(a, b, f, now),
        ProviderId::Netbird => merged_foreign(a, b, f, id),
        ProviderId::Wireguard => {
            &&& b == (App { vpn: b.vpn, ..a })
            &&& b.vpn.but_for(a.vpn, id)
            &&& seeded(s, t, a.vpn_cfg.wireguard@, texts(f.wireguard@), what, a.scan, f)
        },
        ProviderId::Tailscale => {
            &&& b == (App { vpn: b.vpn, ..a })
            &&& b.vpn.but_for(a.vpn, id)
            &&& seeded(
                s,
                t,
                a.vpn_cfg.tailscale@,
                no_details(a.vpn_cfg.tailscale@.len()),
                what,
                a.scan,
                f,
            )
        },
    }
}

impl App {
    /// Put a list of the profiles kept here in place of a client's list.
    fn relist(&mut self, f: &VpnFacts, id: ProviderId, rows: Vec<VpnProfile>)
        requires
            old(self).wf(),
            f.wf(*old(self)),
            forall|k: int| 0 <= k < rows@.len() ==> (#[trigger] rows@[k]).foreign is None,
        ensures
            final(self).wf(),
            *final(self) == (App { vpn: final(self).vpn, ..*old(self) }),
            final(self).vpn.but_for(old(self).vpn, id),
            ({
                let s = old(self).vpn.providers@[id.index_spec()];
                let t = final(self).vpn.providers@[id.index_spec()];
                let n = rows@.len() as int;
                let what = foreign_of(*old(self), *f, id);
                &&& t == (ProviderState { profiles: t.profiles, selected: t.selected, ..s })
                &&& t.profiles@.len() == n + what.len()
                &&& t.profiles@.take(n) == rows@
                &&& rows_show(t.profiles@.skip(n), what, old(self).scan, *f)
                &&& t.selected == clamped(clamped(s.selected as int, n), t.profiles@.len() as int)
            }),
    {
        let ghost a = *self;
        let ghost own = rows@;
        let ghost i = id.index_spec();
        let state = self.vpn.get_mut(id);
        state.profiles = rows;
        state.clamp_selection();
        let ghost m = *self;
        proof {
            assert forall|k: int| 0 <= k < own.len() implies is_stored_fn()(#[trigger] own[k]) by {
                assert(own[k].foreign is None);
            }
            lemma_kept_all(own, is_stored_fn());
            assert forall|k: int| 0 <= k < 4 implies (#[trigger] a.vpn.providers@[k]).status
                == m.vpn.providers@[k].status && a.vpn.providers@[k].id
                == m.vpn.providers@[k].id by {}
            lemma_unclaimed_steady(
                a.scan.links@,
                texts(f.interfaces@),
                a.ovpn_active@,
                texts(f.devices@),
                a.vpn.providers@,
                m.vpn.providers@,
            );
            assert(foreign_of(m, *f, id) == foreign_of(a, *f, id));
        }
        self.merge_foreign(f, id);
        assert(self.vpn.providers@ =~= a.vpn.providers@.update(i, self.vpn.providers@[i]));
    }

    /// Fill a client's list from the profiles kept here. A live refresh then
    /// overwrites it with the same names and their real state.
    pub fn seed_profiles(&mut self, f: &VpnFacts, id: ProviderId, now: u64)
        requires
            old(self).wf(),
            f.wf(*old(self)),
        ensures
            final(self).wf(),
            reseeded(*old(self), *final(self), *f, id, now),
    {
        match id {
            ProviderId::Openvpn => self.sync_openvpn(f, now),
            ProviderId::Netbird => self.merge_foreign(f, id),
            ProviderId::Wireguard => {
                let rows = own_rows(
                    &self.vpn_cfg.wireguard,
                    Some(&f.wireguard),
                    &self.vpn.get(id).profiles,
                );
                self.relist(f, id, rows);
            },
            ProviderId::Tailscale => {
                let rows = own_rows(&self.vpn_cfg.tailscale, None, &self.vpn.get(id).profiles);
                self.relist(f, id, rows);
            },
        }
    }

    /// Bring the list of a client up to date, and have it asked how it is.
    pub fn refresh_provider(&mut self, f: &VpnFacts, id: ProviderId, now: u64) -> (r: Vec<Effect>)
        requires
            old(self).wf(),
            f.wf(*old(self)),
        ensures
            final(self).wf(),
            refreshed_client(*old(self), *final(self), *f, id, now, acts(r@)),
    {
        let ghost a = *self;
        self.seed_profiles(f, id, now);
        let ghost m = *self;
        assert(reseeded(a, m, *f, id, now));
        let mut out = effects::nothing();
        if self.vpn.get(id).installed {
            let state = self.vpn.get_mut(id);
            state.last_refresh = Some(now);
            if id != ProviderId::Openvpn {
                effects::ask(&mut out, Effect::Ask(id));
            }
        }
        assert(acts(out@) =~= if m.vpn.providers@[id.index_spec()].installed && id
            != ProviderId::Openvpn {
            seq![Act::Ask(id)]
        } else {
            Seq::empty()
        });
        out
    }

    /// Put what the last sweep found into the list of every client.
    pub fn merge_everywhere(&mut self, f: &VpnFacts)
        requires
            old(self).wf(),
            f.wf(*old(self)),
        ensures
            final(self).wf(),
            *final(self) == (App { vpn: final(self).vpn, ..*old(self) }),
            final(self).vpn.client_idx == old(self).vpn.client_idx,
            final(self).vpn.focus == old(self).vpn.focus,
            forall|i: int|
                0 <= i < 4 ==> merged(
                    old(self).vpn.providers@[i],
                    #[trigger] final(self).vpn.providers@[i],
                    foreign_of(*old(self), *f, ProviderId::all_spec()[i]),
                    old(self).scan,
                    *f,
                ),
    {
        let ghost a = *self;
        let ids = ProviderId::all();
        let mut i: usize = 0;
        while i < ids.len()
            invariant
                i <= 4,
                ids@ == ProviderId::all_spec(),
                a.wf(),
                f.wf(a),
                self.wf(),
                *self == (App { vpn: self.vpn, ..a }),
                self.vpn.client_idx == a.vpn.client_idx,
                self.vpn.focus == a.vpn.focus,
                forall|k: int|
                    0 <= k < i ==> merged(
                        a.vpn.providers@[k],
                        #[trigger] self.vpn.providers@[k],
                        foreign_of(a, *f, ids@[k]),
                        a.scan,
                        *f,
                    ),
                forall|k: int| i <= k < 4 ==> #[trigger] self.vpn.providers@[k] == a.vpn.providers@[k],
            decreases 4 - i,
        {
            let ghost m = *self;
            let id = ids[i];
            assert(id.index_spec() == i);
            proof {
                assert forall|k: int| 0 <= k < 4 implies (#[trigger] a.vpn.providers@[k]).status
                    == m.vpn.providers@[k].status && a.vpn.providers@[k].id
                    == m.vpn.providers@[k].id by {
                    if k < i {
                        assert(merged(
                            a.vpn.providers@[k],
                            m.vpn.providers@[k],
                            foreign_of(a, *f, ids@[k]),
                            a.scan,
                            *f,
                        ));
                    } else {
                        assert(m.vpn.providers@[k] == a.vpn.providers@[k]);
                    }
                }
                lemma_unclaimed_steady(
                    a.scan.links@,
                    texts(f.interfaces@),
                    a.ovpn_active@,
                    texts(f.devices@),
                    a.vpn.providers@,
                    m.vpn.providers@,
                );
                assert(foreign_of(m, *f, id) == foreign_of(a, *f, id));
                assert(m.vpn.providers@[i as int] == a.vpn.providers@[i as int]);
            }
            self.merge_foreign(f, id);
            assert forall|k: int| i + 1 <= k < 4 implies #[trigger] self.vpn.providers@[k]
                == a.vpn.providers@[k] by {
                assert(m.vpn.providers@[k] == a.vpn.providers@[k]);
            }
            assert forall|k: int| 0 <= k < i + 1 implies merged(
                a.vpn.providers@[k],
                #[trigger] self.vpn.providers@[k],
                foreign_of(a, *f, ids@[k]),
                a.scan,
                *f,
            ) by {
                if k < i {
                    assert(self.vpn.providers@[k] == m.vpn.providers@[k]);
                }
            }
            i = i + 1;
        }
    }
}

/// A client's list has been brought up to date.
pub open spec fn refreshed_client(
    a: App,
    b: App,
    f: VpnFacts,
    id: ProviderId,
    now: u64,
    out: Seq<Act>,
) -> bool {
    let i = id.index_spec();
    exists|m: App|
        {
            let t = m.vpn.providers@[i];
            &&& #[trigger] reseeded(a, m, f, id, now)
            &&& if !t.installed {
                b == m && out.len() == 0
            } else {
                &&& b == (App { vpn: b.vpn, ..m })
                &&& b.vpn.but_for(m.vpn, id)
                &&& b.vpn.providers@[i] == (ProviderState { last_refresh: Some(now), ..t })
                &&& out == if id == ProviderId::Openvpn {
                    Seq::empty()
                } else {
                    seq![Act::Ask(id)]
                }
            }
        }
}

// ---------------------------------------------------------------------------
// Sweeping the machine
// ---------------------------------------------------------------------------

/// Since `since` so much time has passed; forever where it never was.
pub open spec fn passed(now: u64, since: Option<u64>, time: int) -> bool {
    match since {
        Some(t) => now - t >= time,
        None => true,
    }
}

pub fn has_passed(now: u64, since: Option<u64>, time: u64) -> (r: bool)
    ensures
        r == passed(now, since, time as int),
{
    match since {
        Some(t) => if now >= t {
            now - t >= time
        } else {
            time == 0 && now >= t
        },
        None => true,
    }
}

/// A sweep is asked for, unless one is under way. One that never reported back
/// does not stop every later one: a flag that can only be cleared by a message is
/// a flag worth a deadline.
pub open spec fn scan_asked(a: App, b: App, now: u64, out: Seq<Act>) -> bool {
    if a.scan_pending && !passed(now, a.scan_at, SCAN_LOST as int) {
        b == a && out.len() == 0
    } else {
        &&& b == (App { scan_pending: true, scan_at: Some(now), ..a })
        &&& out == seq![Act::Sweep]
    }
}

/// When the machine counts as swept, so that the next tick sweeps it again.
pub open spec fn soon(now: u64) -> Option<u64> {
    Some(
        if now >= SCAN_EVERY {
            (now - SCAN_EVERY) as u64
        } else {
            0
        },
    )
}

/// The pids that are still among the processes.
pub open spec fn pid_lives(ps: Seq<Process>) -> spec_fn(u32) -> bool {
    |pid: u32| exists|i: int| 0 <= i < ps.len() && (#[trigger] ps[i]).pid == pid
}

/// A sweep has reported back. A process that has gone can never need a signal,
/// and its pid will eventually belong to something else.
pub open spec fn scan_landed(a: App, b: App, found: Scan, out: Seq<Act>) -> bool {
    &&& b == (App { scan: found, scan_pending: false, termed: b.termed, ..a })
    &&& b.termed@ == kept(a.termed@, pid_lives(found.processes@))
    &&& out == (match found.error {
        Some(e) => seq![
            Act::Note(Subject::Program, "scanning for VPN connections: "@ + e@, false),
            Act::Merge,
        ],
        None => seq![Act::Merge],
    })
}

/// A client has said how it is.
pub open spec fn client_said(
    a: App,
    m: App,
    id: ProviderId,
    profiles: Result<Vec<VpnProfile>, String>,
    status: VpnStatus,
    now: u64,
) -> bool {
    let i = id.index_spec();
    let s = a.vpn.providers@[i];
    let t = m.vpn.providers@[i];
    &&& m == (App { vpn: m.vpn, ..a })
    &&& m.vpn.but_for(a.vpn, id)
    &&& t == (ProviderState {
        profiles: t.profiles,
        selected: t.selected,
        error: t.error,
        status,
        last_refresh: Some(now),
        ..s
    })
    &&& match profiles {
        Ok(p) => {
            &&& t.profiles == p
            &&& t.selected == clamped(s.selected as int, p@.len() as int)
            &&& t.error is None
        },
        Err(e) => {
            &&& t.profiles == s.profiles && t.selected == s.selected
            &&& opt_string(t.error) == Some(e@)
        },
    }
}

/// What a client said has been put into its list. A poll that failed is worth
/// keeping: it is usually the reason a step later times out waiting for this
/// client.
pub open spec fn client_heard(
    a: App,
    b: App,
    f: VpnFacts,
    id: ProviderId,
    profiles: Result<Vec<VpnProfile>, String>,
    status: VpnStatus,
    now: u64,
    out: Seq<Act>,
) -> bool {
    &&& exists|m: App|
        #[trigger] client_said(a, m, id, profiles, status, now) && merged_foreign(m, b, f, id)
    &&& out == match profiles {
        Ok(_) => Seq::empty(),
        Err(e) => seq![Act::Note(Subject::Vpn(id, Seq::empty()), "status: "@ + e@, true)],
    }
}

/// Something a client was told to do is over. Whatever it was, the machine is
/// not what it was, so it is swept again soon.
pub open spec fn action_ended(
    a: App,
    b: App,
    id: ProviderId,
    desc: Seq<char>,
    error: Option<String>,
    now: u64,
    out: Seq<Act>,
) -> bool {
    let s = a.vpn.providers@[id.index_spec()];
    &&& b == (App { vpn: b.vpn, scan_at: soon(now), ..a })
    &&& match error {
        Some(e) => {
            &&& b.vpn.with_busy(a.vpn, id, None, Some(e@))
            &&& out == reported(
                Subject::Vpn(id, Seq::empty()),
                id.slug_spec() + " "@ + desc + " failed: "@ + e@,
                true,
            )
        },
        None => {
            &&& b.vpn.with_busy(a.vpn, id, None, opt_string(s.error))
            &&& out == reported(
                Subject::Vpn(id, Seq::empty()),
                id.slug_spec() + ": "@ + desc + " done"@,
                false,
            )
        },
    }
}

fn keep_living(v: &Vec<u32>, ps: &Vec<Process>) -> (r: Vec<u32>)
    ensures
        r@ == kept(v@, pid_lives(ps@)),
{
    let ghost s = v@;
    let ghost p = pid_lives(ps@);
    let mut out: Vec<u32> = Vec::new();
    let mut i: usize = 0;
    assert(s.take(0) =~= Seq::<u32>::empty());
    while i < v.len()
        invariant
            i <= s.len(),
            s == v@,
            p == pid_lives(ps@),
            out@ == kept(s.take(i as int), p),
        decreases s.len() - i,
    {
        assert(s.take(i + 1).drop_last() =~= s.take(i as int));
        if runs(ps, v[i]) {
            out.push(v[i]);
        }
        i = i + 1;
    }
    assert(s.take(i as int) =~= s);
    out
}

fn runs(ps: &Vec<Process>, pid: u32) -> (r: bool)
    ensures
        r == pid_lives(ps@)(pid),
{
    let mut i: usize = 0;
    while i < ps.len()
        invariant
            i <= ps@.len(),
            forall|k: int| 0 <= k < i ==> (#[trigger] ps@[k]).pid != pid,
        decreases ps@.len() - i,
    {
        if ps[i].pid == pid {
            return true;
        }
        i = i + 1;
    }
    false
}

impl App {
    /// Have the machine swept, unless that is under way.
    pub fn refresh_scan(&mut self, now: u64) -> (r: Vec<Effect>)
        requires
            old(self).wf(),
        ensures
            final(self).wf(),
            scan_asked(*old(self), *final(self), now, acts(r@)),
    {
        if self.scan_pending && !has_passed(now, self.scan_at, SCAN_LOST) {
            return effects::nothing();
        }
        self.scan_pending = true;
        self.scan_at = Some(now);
        effects::just(Effect::Sweep)
    }

    /// A sweep has reported back.
    pub fn scan_found(&mut self, found: Scan) -> (r: Vec<Effect>)
        requires
            old(self).wf(),
        ensures
            final(self).wf(),
            scan_landed(*old(self), *final(self), found, acts(r@)),
    {
        let mut out = effects::nothing();
        match &found.error {
            Some(e) => {
                effects::ask(
                    &mut out,
                    Effect::Note(
                        LogTarget::Program,
                        cat("scanning for VPN connections: ", e.as_str()),
                        false,
                    ),
                );
            },
            None => {},
        }
        effects::ask(&mut out, Effect::Merge);
        assert(acts(out@) =~= (match found.error {
            Some(e) => seq![
                Act::Note(Subject::Program, "scanning for VPN connections: "@ + e@, false),
                Act::Merge,
            ],
            None => seq![Act::Merge],
        }));
        self.scan_pending = false;
        self.termed = keep_living(&self.termed, &found.processes);
        self.scan = found;
        out
    }

    /// A client has said how it is.
    pub fn client_refreshed(
        &mut self,
        f: &VpnFacts,
        id: ProviderId,
        profiles: Result<Vec<VpnProfile>, String>,
        status: VpnStatus,
        now: u64,
    ) -> (r: Vec<Effect>)
        requires
            old(self).wf(),
            f.wf(*old(self)),
        ensures
            final(self).wf(),
            client_heard(
                *old(self),
                *final(self),
                *f,
                id,
                profiles,
                status,
                now,
                acts(r@),
            ),
    {
        let ghost a = *self;
        let mut out = effects::nothing();
        match &profiles {
            Ok(_) => {},
            Err(e) => {
                effects::ask(
                    &mut out,
                    Effect::Note(LogTarget::vpn(id), cat("status: ", e.as_str()), true),
                );
            },
        }
        assert(acts(out@) =~= match profiles {
            Ok(_) => Seq::empty(),
            Err(e) => seq![Act::Note(Subject::Vpn(id, Seq::empty()), "status: "@ + e@, true)],
        });
        let state = self.vpn.get_mut(id);
        match profiles {
            Ok(p) => {
                state.profiles = p;
                state.clamp_selection();
                state.error = None;
            },
            Err(e) => {
                state.error = Some(e);
            },
        }
        state.status = status;
        state.last_refresh = Some(now);
        let ghost m = *self;
        assert(client_said(a, m, id, profiles, status, now));
        self.merge_foreign(f, id);
        out
    }

    /// Something a client was told to do is over.
    pub fn action_done(
        &mut self,
        id: ProviderId,
        desc: &str,
        error: Option<String>,
        now: u64,
    ) -> (r: Vec<Effect>)
        requires
            old(self).wf(),
        ensures
            final(self).wf(),
            action_ended(*old(self), *final(self), id, desc@, error, now, acts(r@)),
    {
        self.scan_at = Some(
            if now >= SCAN_EVERY {
                now - SCAN_EVERY
            } else {
                0
            },
        );
        let mut out = effects::nothing();
        match error {
            Some(e) => {
                let msg = cat5(id.slug(), " ", desc, " failed: ", e.as_str());
                effects::report(&mut out, LogTarget::vpn(id), msg.as_str(), true);
                assert(acts(out@) =~= reported(Subject::Vpn(id, Seq::empty()), msg@, true));
                let state = self.vpn.get_mut(id);
                state.busy = None;
                state.error = Some(e);
            },
            None => {
                let msg = cat4(id.slug(), ": ", desc, " done");
                effects::report(&mut out, LogTarget::vpn(id), msg.as_str(), false);
                assert(acts(out@) =~= reported(Subject::Vpn(id, Seq::empty()), msg@, false));
                self.vpn.set_busy(id, None);
            },
        }
        out
    }
}

}
