//! The VPN clients as the VPN tab sees them, and what a sweep of the machine
//! finds.

use vstd::prelude::*;
use crate::browser::opt_string;
use crate::list::{first_where, lemma_first_where, lemma_first_where_is};
use crate::text::{self, texts};
use crate::vpn::ProviderId;

verus! {

// ---------------------------------------------------------------------------
// What a sweep of the machine finds
// ---------------------------------------------------------------------------

/// A running VPN process, whoever started it.
#[derive(Debug)]
pub struct Process {
    pub pid: u32,
    pub provider: ProviderId,
    pub argv: Vec<String>,
    pub uid: u32,
    pub age_secs: Option<u64>,
}

pub open spec fn is_text(t: Seq<char>) -> spec_fn(Seq<char>) -> bool {
    |x: Seq<char>| x == t
}

/// What stands on a command line behind a flag, at its first place.
pub open spec fn behind(args: Seq<Seq<char>>, flag: Seq<char>) -> Option<Seq<char>> {
    let i = first_where(args, is_text(flag));
    if i + 1 < args.len() {
        Some(args[i + 1])
    } else {
        None
    }
}

impl Process {
    /// What the process was given with a flag: `--config`, `--writepid`, `--dev`.
    pub fn given(&self, flag: &str) -> (r: Option<String>)
        ensures
            opt_string(r) == behind(texts(self.argv@), flag@),
    {
        let ghost all = texts(self.argv@);
        let ghost p = is_text(flag@);
        assert(all.len() == self.argv@.len());
        let mut i: usize = 0;
        while i < self.argv.len()
            invariant
                i <= all.len(),
                all == texts(self.argv@),
                all.len() == self.argv@.len(),
                p == is_text(flag@),
                forall|j: int| 0 <= j < i ==> !p(#[trigger] all[j]),
            decreases all.len() - i,
        {
            assert(all[i as int] == self.argv@[i as int]@);
            if text::same(self.argv[i].as_str(), flag) {
                proof {
                    lemma_first_where_is(all, p, i as int);
                }
                if i + 1 < self.argv.len() {
                    return Some(self.argv[i + 1].clone());
                }
                return None;
            }
            i = i + 1;
        }
        proof {
            lemma_first_where_is(all, p, i as int);
        }
        None
    }
}

impl Clone for Process {
    fn clone(&self) -> (r: Self)
        ensures
            r.same(*self),
    {
        Process {
            pid: self.pid,
            provider: self.provider,
            argv: text::copy_texts(&self.argv),
            uid: self.uid,
            age_secs: self.age_secs,
        }
    }
}

impl Process {
    /// The same process, field by field.
    pub open spec fn same(self, o: Process) -> bool {
        &&& self.pid == o.pid
        &&& self.provider == o.provider
        &&& self.argv@ == o.argv@
        &&& self.uid == o.uid
        &&& self.age_secs == o.age_secs
    }
}

#[derive(Debug, Clone, Copy, PartialEq, Eq, Structural)]
pub enum LinkKind {
    Tun,
    Wireguard,
}

/// A tunnel device on this machine.
#[derive(Debug)]
pub struct Link {
    pub name: String,
    pub kind: LinkKind,
    /// Addresses with their prefix length, e.g. `10.8.0.2/24`.
    pub addrs: Vec<String>,
}

impl Link {
    /// The same device, field by field.
    pub open spec fn same(self, o: Link) -> bool {
        &&& self.name@ == o.name@
        &&& self.kind == o.kind
        &&& self.addrs@ == o.addrs@
    }
}

impl Clone for Link {
    fn clone(&self) -> (r: Self)
        ensures
            r.same(*self),
    {
        Link { name: self.name.clone(), kind: self.kind, addrs: text::copy_texts(&self.addrs) }
    }
}

/// A connection found on the machine that is not held here.
#[derive(Debug)]
pub enum Foreign {
    Process(Process),
    Interface(Link),
}

impl Foreign {
    pub open spec fn same(self, o: Foreign) -> bool {
        match (self, o) {
            (Foreign::Process(a), Foreign::Process(b)) => a.same(b),
            (Foreign::Interface(a), Foreign::Interface(b)) => a.same(b),
            _ => false,
        }
    }
}

impl Clone for Foreign {
    fn clone(&self) -> (r: Self)
        ensures
            r.same(*self),
    {
        match self {
            Foreign::Process(p) => Foreign::Process(p.clone()),
            Foreign::Interface(l) => Foreign::Interface(l.clone()),
        }
    }
}

// ---------------------------------------------------------------------------
// Profiles and status
// ---------------------------------------------------------------------------

/// One row of a client's list: a stored profile, or a connection found on the
/// machine.
#[derive(Debug)]
pub struct VpnProfile {
    pub name: String,
    pub active: bool,
    pub detail: String,
    /// What was found, on a row that is not a stored profile.
    pub foreign: Option<Foreign>,
}

impl VpnProfile {
    pub open spec fn stored_spec(self) -> bool {
        self.foreign is None
    }

    pub fn is_stored(&self) -> (r: bool)
        ensures
            r == self.stored_spec(),
    {
        self.foreign.is_none()
    }
}

/// What a client says of itself.
#[derive(Debug)]
pub struct VpnStatus {
    pub connected: bool,
    pub active_profile: Option<String>,
    /// What the status pane lists, in order.
    pub fields: Vec<(String, String)>,
    pub error: Option<String>,
}

impl Default for VpnStatus {
    fn default() -> (r: Self)
        ensures
            !r.connected,
            r.active_profile is None,
            r.fields@.len() == 0,
            r.error is None,
    {
        VpnStatus { connected: false, active_profile: None, fields: Vec::new(), error: None }
    }
}

pub open spec fn key_is(key: Seq<char>) -> spec_fn((String, String)) -> bool {
    |f: (String, String)| f.0@ == key
}

impl VpnStatus {
    /// The value a client gave for `key`, the first where there are several.
    pub fn field(&self, key: &str) -> (r: Option<&str>)
        ensures
            r is None <==> first_where(self.fields@, key_is(key@)) == self.fields@.len(),
            r is Some ==> r->0@ == self.fields@[first_where(self.fields@, key_is(key@))].1@,
    {
        let ghost p = key_is(key@);
        let mut i: usize = 0;
        while i < self.fields.len()
            invariant
                i <= self.fields@.len(),
                p == key_is(key@),
                forall|j: int| 0 <= j < i ==> !p(#[trigger] self.fields@[j]),
            decreases self.fields@.len() - i,
        {
            if text::same(self.fields[i].0.as_str(), key) {
                proof {
                    lemma_first_where_is(self.fields@, p, i as int);
                }
                return Some(self.fields[i].1.as_str());
            }
            i = i + 1;
        }
        proof {
            lemma_first_where_is(self.fields@, p, i as int);
        }
        None
    }
}

/// One VPN client as the tab sees it.
#[derive(Debug)]
pub struct ProviderState {
    pub id: ProviderId,
    pub installed: bool,
    pub profiles: Vec<VpnProfile>,
    pub status: VpnStatus,
    pub selected: usize,
    /// Description of the action currently running in the background.
    pub busy: Option<String>,
    pub error: Option<String>,
    /// When it was last asked, in milliseconds; `None` before the first time.
    pub last_refresh: Option<u64>,
}

pub open spec fn up_and_stored() -> spec_fn(VpnProfile) -> bool {
    |p: VpnProfile| p.active && p.stored_spec()
}

/// The members of a list for which `p` holds, in order.
pub open spec fn kept<T>(s: Seq<T>, p: spec_fn(T) -> bool) -> Seq<T>
    decreases s.len(),
{
    if s.len() == 0 {
        s
    } else if p(s.last()) {
        kept(s.drop_last(), p).push(s.last())
    } else {
        kept(s.drop_last(), p)
    }
}

pub open spec fn is_stored_fn() -> spec_fn(VpnProfile) -> bool {
    |p: VpnProfile| p.stored_spec()
}

pub open spec fn is_foreign_fn() -> spec_fn(VpnProfile) -> bool {
    |p: VpnProfile| !p.stored_spec()
}

impl ProviderState {
    /// Nothing has been heard of the client yet, and nothing has been asked of it.
    pub open spec fn untouched(&self) -> bool {
        &&& self.profiles@.len() == 0
        &&& !self.status.connected && self.status.active_profile is None
        &&& self.status.fields@.len() == 0 && self.status.error is None
        &&& self.selected == 0
        &&& self.busy is None && self.error is None && self.last_refresh is None
    }

    pub fn new(id: ProviderId, installed: bool) -> (r: Self)
        ensures
            r.id == id,
            r.installed == installed,
            r.untouched(),
    {
        ProviderState {
            id,
            installed,
            profiles: Vec::new(),
            status: VpnStatus::default(),
            selected: 0,
            busy: None,
            error: None,
            last_refresh: None,
        }
    }

    /// The cursor is on a row that is there, or there are none.
    pub open spec fn cursor_on_row(&self) -> bool {
        self.selected < self.profiles@.len() || self.selected == 0
    }

    pub fn selected_profile(&self) -> (r: Option<&VpnProfile>)
        ensures
            r is Some <==> self.selected < self.profiles@.len(),
            r is Some ==> *r->0 == self.profiles@[self.selected as int],
    {
        if self.selected < self.profiles.len() {
            Some(&self.profiles[self.selected])
        } else {
            None
        }
    }

    /// The profile that is up, as the provider reports it. A connection
    /// controlcenter is not holding never speaks for the client: it is
    /// reported so it can be dealt with, not counted as this client being up.
    pub open spec fn active_spec(&self) -> Option<Seq<char>> {
        match self.status.active_profile {
            Some(s) => Some(s@),
            None => {
                let i = first_where(self.profiles@, up_and_stored());
                if i < self.profiles@.len() {
                    Some(self.profiles@[i].name@)
                } else {
                    None
                }
            },
        }
    }

    pub fn active_profile(&self) -> (r: Option<&str>)
        ensures
            r is Some <==> self.active_spec() is Some,
            r is Some ==> r->0@ == self.active_spec()->0,
    {
        match &self.status.active_profile {
            Some(s) => Some(s.as_str()),
            None => {
                let ghost p = up_and_stored();
                let mut i: usize = 0;
                while i < self.profiles.len()
                    invariant
                        i <= self.profiles@.len(),
                        self.status.active_profile is None,
                        p == up_and_stored(),
                        forall|j: int| 0 <= j < i ==> !p(#[trigger] self.profiles@[j]),
                    decreases self.profiles@.len() - i,
                {
                    if self.profiles[i].active && self.profiles[i].is_stored() {
                        proof {
                            lemma_first_where_is(self.profiles@, p, i as int);
                        }
                        return Some(self.profiles[i].name.as_str());
                    }
                    i = i + 1;
                }
                proof {
                    lemma_first_where_is(self.profiles@, p, i as int);
                }
                None
            },
        }
    }

    /// The rows that are stored profiles, i.e. the ones `a`, `e`, `d` and `p`
    /// mean anything on.
    pub fn stored(&self) -> (r: Vec<&VpnProfile>)
        ensures
            r@.map_values(|p: &VpnProfile| *p) == kept(self.profiles@, is_stored_fn()),
    {
        let mut out: Vec<&VpnProfile> = Vec::new();
        let mut i: usize = 0;
        let ghost all = self.profiles@;
        assert(all.take(0) =~= Seq::<VpnProfile>::empty());
        assert(out@.map_values(|p: &VpnProfile| *p) =~= Seq::<VpnProfile>::empty());
        while i < self.profiles.len()
            invariant
                i <= all.len(),
                all == self.profiles@,
                out@.map_values(|p: &VpnProfile| *p) == kept(all.take(i as int), is_stored_fn()),
            decreases all.len() - i,
        {
            assert(all.take(i + 1).drop_last() =~= all.take(i as int));
            if self.profiles[i].is_stored() {
                let p = &self.profiles[i];
                assert(out@.push(p).map_values(|p: &VpnProfile| *p) =~= out@.map_values(
                    |p: &VpnProfile| *p,
                ).push(*p));
                out.push(p);
            }
            i = i + 1;
        }
        assert(all.take(i as int) =~= all);
        out
    }

    /// The connections found on the machine that this client is not holding.
    pub fn foreign(&self) -> (r: Vec<&VpnProfile>)
        ensures
            r@.map_values(|p: &VpnProfile| *p) == kept(self.profiles@, is_foreign_fn()),
    {
        let mut out: Vec<&VpnProfile> = Vec::new();
        let mut i: usize = 0;
        let ghost all = self.profiles@;
        assert(all.take(0) =~= Seq::<VpnProfile>::empty());
        assert(out@.map_values(|p: &VpnProfile| *p) =~= Seq::<VpnProfile>::empty());
        while i < self.profiles.len()
            invariant
                i <= all.len(),
                all == self.profiles@,
                out@.map_values(|p: &VpnProfile| *p) == kept(all.take(i as int), is_foreign_fn()),
            decreases all.len() - i,
        {
            assert(all.take(i + 1).drop_last() =~= all.take(i as int));
            if !self.profiles[i].is_stored() {
                let p = &self.profiles[i];
                assert(out@.push(p).map_values(|p: &VpnProfile| *p) =~= out@.map_values(
                    |p: &VpnProfile| *p,
                ).push(*p));
                out.push(p);
            }
            i = i + 1;
        }
        assert(all.take(i as int) =~= all);
        out
    }

    /// Keep the cursor on a row that is there.
    pub fn clamp_selection(&mut self)
        ensures
            final(self).selected == clamped(old(self).selected as int, old(self).profiles@.len() as int),
            *final(self) == (ProviderState { selected: final(self).selected, ..*old(self) }),
    {
        if self.selected >= self.profiles.len() {
            self.selected = if self.profiles.len() == 0 {
                0
            } else {
                self.profiles.len() - 1
            };
        }
    }
}

/// A cursor position on a list of `n` rows: where it was, or the last row.
pub open spec fn clamped(at: int, n: int) -> int {
    if at < n {
        at
    } else if n == 0 {
        0
    } else {
        n - 1
    }
}

pub fn clamp(at: usize, n: usize) -> (r: usize)
    ensures
        r == clamped(at as int, n as int),
{
    if at < n {
        at
    } else if n == 0 {
        0
    } else {
        n - 1
    }
}

/// Which of the VPN tab's two lists has the keyboard.
#[derive(Debug, Clone, Copy, PartialEq, Eq, Structural)]
pub enum VpnPane {
    Clients,
    Profiles,
}

#[derive(Debug)]
pub struct VpnView {
    /// One per [`ProviderId`], in the order of `ProviderId::all`.
    pub providers: Vec<ProviderState>,
    pub client_idx: usize,
    pub focus: VpnPane,
}

pub open spec fn is_connected_fn() -> spec_fn(ProviderState) -> bool {
    |p: ProviderState| p.status.connected
}

impl VpnView {
    /// One state for each client, in their order.
    pub open spec fn wf(&self) -> bool {
        &&& self.providers@.len() == 4
        &&& forall|i: int|
            0 <= i < 4 ==> (#[trigger] self.providers@[i]).id == ProviderId::all_spec()[i]
    }

    /// The cursors are on rows that are there, or the list is empty.
    pub open spec fn cursors_ok(&self) -> bool {
        &&& self.client_idx < 4
        &&& forall|i: int| 0 <= i < 4 ==> (#[trigger] self.providers@[i]).cursor_on_row()
    }

    /// `installed` are the clients that are on this machine.
    pub fn new(installed: &Vec<ProviderId>) -> (r: Self)
        ensures
            r.wf(),
            r.client_idx == 0,
            r.focus == VpnPane::Clients,
            forall|i: int|
                0 <= i < 4 ==> {
                    let s = #[trigger] r.providers@[i];
                    s.installed == installed@.contains(s.id) && s.untouched()
                },
    {
        let ids = ProviderId::all();
        let mut providers: Vec<ProviderState> = Vec::new();
        let mut i: usize = 0;
        while i < ids.len()
            invariant
                i <= 4,
                ids@ == ProviderId::all_spec(),
                providers@.len() == i,
                forall|k: int|
                    0 <= k < i ==> {
                        let s = #[trigger] providers@[k];
                        &&& s.id == ids@[k]
                        &&& s.installed == installed@.contains(s.id)
                        &&& s.untouched()
                    },
            decreases 4 - i,
        {
            let here = has_id(installed, ids[i]);
            providers.push(ProviderState::new(ids[i], here));
            i = i + 1;
        }
        VpnView { providers, client_idx: 0, focus: VpnPane::Clients }
    }

    pub fn get(&self, id: ProviderId) -> (r: &ProviderState)
        requires
            self.wf(),
        ensures
            *r == self.providers@[id.index_spec()],
            r.id == id,
    {
        let i: usize = id.index();
        assert(self.providers@[i as int].id == ProviderId::all_spec()[i as int]);
        &self.providers[i]
    }

    pub fn get_mut(&mut self, id: ProviderId) -> (r: &mut ProviderState)
        requires
            old(self).wf(),
        ensures
            *r == old(self).providers@[id.index_spec()],
            r.id == id,
            final(self).providers@ == old(self).providers@.update(id.index_spec(), *final(r)),
            final(self).client_idx == old(self).client_idx,
            final(self).focus == old(self).focus,
    {
        let i: usize = id.index();
        assert(self.providers@[i as int].id == ProviderId::all_spec()[i as int]);
        &mut self.providers[i]
    }

    /// These clients are `was`, but for what the one of `id` says.
    pub open spec fn but_for(&self, was: VpnView, id: ProviderId) -> bool {
        &&& self.providers@ == was.providers@.update(
            id.index_spec(),
            self.providers@[id.index_spec()],
        )
        &&& self.client_idx == was.client_idx
        &&& self.focus == was.focus
    }

    /// These clients are `was`, but for the error of one.
    pub open spec fn with_error(&self, was: VpnView, id: ProviderId, error: Option<Seq<char>>) -> bool {
        let b = self.providers@[id.index_spec()];
        &&& self.but_for(was, id)
        &&& opt_string(b.error) == error
        &&& b == (ProviderState { error: b.error, ..was.providers@[id.index_spec()] })
    }

    /// These clients are `was`, but for what one is doing and its error.
    pub open spec fn with_busy(
        &self,
        was: VpnView,
        id: ProviderId,
        busy: Option<Seq<char>>,
        error: Option<Seq<char>>,
    ) -> bool {
        let b = self.providers@[id.index_spec()];
        &&& self.but_for(was, id)
        &&& opt_string(b.busy) == busy
        &&& opt_string(b.error) == error
        &&& b == (ProviderState { busy: b.busy, error: b.error, ..was.providers@[id.index_spec()] })
    }

    pub fn set_error(&mut self, id: ProviderId, error: Option<String>)
        requires
            old(self).wf(),
        ensures
            final(self).wf(),
            final(self).with_error(*old(self), id, opt_string(error)),
    {
        let s = self.get_mut(id);
        s.error = error;
    }

    pub fn set_busy(&mut self, id: ProviderId, busy: Option<String>)
        requires
            old(self).wf(),
        ensures
            final(self).wf(),
            final(self).with_busy(
                *old(self),
                id,
                opt_string(busy),
                opt_string(old(self).providers@[id.index_spec()].error),
            ),
    {
        let s = self.get_mut(id);
        s.busy = busy;
    }

    /// A client begins to do something, whatever went wrong before.
    pub fn begin(&mut self, id: ProviderId, desc: String)
        requires
            old(self).wf(),
        ensures
            final(self).wf(),
            final(self).with_busy(*old(self), id, Some(desc@), None),
    {
        let s = self.get_mut(id);
        s.error = None;
        s.busy = Some(desc);
    }

    /// The place of the client under the cursor.
    pub open spec fn current_spec(&self) -> int {
        if self.client_idx < 3 {
            self.client_idx as int
        } else {
            3
        }
    }

    pub fn current(&self) -> (r: &ProviderState)
        requires
            self.wf(),
        ensures
            *r == self.providers@[self.current_spec()],
    {
        let i: usize = if self.client_idx < 3 {
            self.client_idx
        } else {
            3
        };
        &self.providers[i]
    }

    pub fn current_id(&self) -> (r: ProviderId)
        requires
            self.wf(),
        ensures
            r == ProviderId::all_spec()[self.current_spec()],
            r == self.providers@[self.current_spec()].id,
    {
        self.current().id
    }

    /// The clients that are connected, for the header and the dashboard.
    pub fn connected(&self) -> (r: Vec<&ProviderState>)
        ensures
            r@.map_values(|p: &ProviderState| *p) == kept(self.providers@, is_connected_fn()),
    {
        let mut out: Vec<&ProviderState> = Vec::new();
        let mut i: usize = 0;
        let ghost all = self.providers@;
        assert(all.take(0) =~= Seq::<ProviderState>::empty());
        assert(out@.map_values(|p: &ProviderState| *p) =~= Seq::<ProviderState>::empty());
        while i < self.providers.len()
            invariant
                i <= all.len(),
                all == self.providers@,
                out@.map_values(|p: &ProviderState| *p) == kept(
                    all.take(i as int),
                    is_connected_fn(),
                ),
            decreases all.len() - i,
        {
            assert(all.take(i + 1).drop_last() =~= all.take(i as int));
            if self.providers[i].status.connected {
                let p = &self.providers[i];
                assert(out@.push(p).map_values(|p: &ProviderState| *p) =~= out@.map_values(
                    |p: &ProviderState| *p,
                ).push(*p));
                out.push(p);
            }
            i = i + 1;
        }
        assert(all.take(i as int) =~= all);
        out
    }

    pub fn any_installed(&self) -> (r: bool)
        ensures
            r == exists|i: int|
                0 <= i < self.providers@.len() && (#[trigger] self.providers@[i]).installed,
    {
        let mut i: usize = 0;
        while i < self.providers.len()
            invariant
                i <= self.providers@.len(),
                forall|k: int| 0 <= k < i ==> !(#[trigger] self.providers@[k]).installed,
            decreases self.providers@.len() - i,
        {
            if self.providers[i].installed {
                return true;
            }
            i = i + 1;
        }
        false
    }

    pub fn any_busy(&self) -> (r: bool)
        ensures
            r == exists|i: int|
                0 <= i < self.providers@.len() && (#[trigger] self.providers@[i]).busy is Some,
    {
        let mut i: usize = 0;
        while i < self.providers.len()
            invariant
                i <= self.providers@.len(),
                forall|k: int| 0 <= k < i ==> (#[trigger] self.providers@[k]).busy is None,
            decreases self.providers@.len() - i,
        {
            if self.providers[i].busy.is_some() {
                return true;
            }
            i = i + 1;
        }
        false
    }

    /// How many connections are found on the machine and not held here, across
    /// every client.
    pub fn foreign_count(&self) -> (r: usize)
        requires
            self.wf(),
            foreign_total(self.providers@) <= usize::MAX,
        ensures
            r == foreign_total(self.providers@),
    {
        let mut n: usize = 0;
        let mut i: usize = 0;
        let ghost all = self.providers@;
        assert(all.take(0) =~= Seq::<ProviderState>::empty());
        while i < self.providers.len()
            invariant
                i <= all.len(),
                all == self.providers@,
                n == foreign_total(all.take(i as int)),
                foreign_total(all) <= usize::MAX,
            decreases all.len() - i,
        {
            assert(all.take(i + 1).drop_last() =~= all.take(i as int));
            proof {
                lemma_foreign_total_grows(all, i + 1);
            }
            let f = self.providers[i].foreign();
            let ghost fs = f@.map_values(|p: &VpnProfile| *p);
            assert(f@.len() == fs.len());
            n = n + f.len();
            i = i + 1;
        }
        assert(all.take(i as int) =~= all);
        n
    }
}

pub open spec fn foreign_total(ps: Seq<ProviderState>) -> nat
    decreases ps.len(),
{
    if ps.len() == 0 {
        0
    } else {
        foreign_total(ps.drop_last()) + kept(ps.last().profiles@, is_foreign_fn()).len()
    }
}

proof fn lemma_foreign_total_grows(ps: Seq<ProviderState>, i: int)
    requires
        0 <= i <= ps.len(),
    ensures
        foreign_total(ps.take(i)) <= foreign_total(ps),
    decreases ps.len() - i,
{
    if i == ps.len() {
        assert(ps.take(i) =~= ps);
    } else {
        lemma_foreign_total_grows(ps, i + 1);
        assert(ps.take(i + 1).drop_last() =~= ps.take(i));
    }
}

pub fn has_id(ids: &Vec<ProviderId>, id: ProviderId) -> (r: bool)
    ensures
        r == ids@.contains(id),
{
    let mut i: usize = 0;
    while i < ids.len()
        invariant
            i <= ids@.len(),
            forall|k: int| 0 <= k < i ==> ids@[k] != id,
        decreases ids@.len() - i,
    {
        if ids[i] == id {
            assert(ids@[i as int] == id);
            return true;
        }
        i = i + 1;
    }
    false
}

/// Every row of a client is a stored profile or a connection found on the
/// machine, and never both.
pub proof fn law_rows_are_stored_or_foreign(ps: Seq<VpnProfile>)
    ensures
        kept(ps, is_stored_fn()).len() + kept(ps, is_foreign_fn()).len() == ps.len(),
    decreases ps.len(),
{
    if ps.len() > 0 {
        law_rows_are_stored_or_foreign(ps.drop_last());
    }
}

/// A connection that is not held here never speaks for its client: with no
/// stored profile up and nothing reported, no profile is active.
pub proof fn law_foreign_never_speaks(s: ProviderState)
    requires
        s.status.active_profile is None,
        forall|i: int|
            0 <= i < s.profiles@.len() && (#[trigger] s.profiles@[i]).active
                ==> !s.profiles@[i].stored_spec(),
    ensures
        s.active_spec() is None,
{
    lemma_first_where(s.profiles@, up_and_stored());
    let i = first_where(s.profiles@, up_and_stored());
    if i < s.profiles@.len() {
        assert(s.profiles@[i].active);
    }
}

}
