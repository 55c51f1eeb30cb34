//! Questions asked of the program's state.

use vstd::prelude::*;
use crate::activation::{self, fighting, satisfied, Scene, Stage};
use crate::app::{rows_ok, lemma_row_in_range, App};
use crate::browser::opt_string;
use crate::live::{
    has_name, holds_name, place_of, position, rdp_is_running, rdp_runs, LiveOvpn, LiveRdp,
    LiveTunnel,
};
use crate::list::{first_where, lemma_first_where_is};
use crate::logs::{covers_spec, shown, Entry, LogTarget, Subject};
use crate::path::{route, same_path, Os};
use crate::plan::{jobs, short_of, Catalog, Job, Lists, Step};
use crate::rows::{groups_of, members_of, places, RowItem};
use crate::screen::{PanicSummary, Tab};
use crate::sort::{self, sorted, Ranked};
use crate::split::{self, ends, first_of, occurs};
use crate::text::{self, ascii_lowered, cat, cat3, texts};
use crate::types::{
    canonical_text, canonical_vpn_requirement, need_of, parse_vpn_requirement, RdpConnection,
    SshHost, Tunnel,
};
use crate::vpn::ProviderId;
use crate::vpn_view::{Link, LinkKind, Process, ProviderState, VpnProfile};

verus! {

/// Log lines are in the order of their time.
impl Ranked for Entry {
    open spec fn not_after(&self, other: &Self) -> bool {
        self.at <= other.at
    }

    fn may_precede(&self, other: &Self) -> (r: bool) {
        self.at <= other.at
    }

    proof fn order_holds(a: &Self, b: &Self, c: &Self) {
    }
}

/// The output of the running tunnels that a pane shows.
pub open spec fn tunnel_lines(live: Seq<LiveTunnel>, pane: Subject) -> Seq<Entry>
    decreases live.len(),
{
    if live.len() == 0 {
        Seq::empty()
    } else {
        let before = tunnel_lines(live.drop_last(), pane);
        if covers_spec(pane, Subject::Tunnel(live.last().name@)) {
            before + live.last().log.held()
        } else {
            before
        }
    }
}

/// The output of the rdp sessions that a pane shows.
pub open spec fn rdp_lines(live: Seq<LiveRdp>, pane: Subject) -> Seq<Entry>
    decreases live.len(),
{
    if live.len() == 0 {
        Seq::empty()
    } else {
        let before = rdp_lines(live.drop_last(), pane);
        if covers_spec(pane, Subject::Rdp(live.last().name@)) {
            before + live.last().log.held()
        } else {
            before
        }
    }
}

/// The output of the openvpn sessions that a pane shows.
pub open spec fn ovpn_lines(live: Seq<LiveOvpn>, pane: Subject) -> Seq<Entry>
    decreases live.len(),
{
    if live.len() == 0 {
        Seq::empty()
    } else {
        let before = ovpn_lines(live.drop_last(), pane);
        if covers_spec(pane, Subject::Vpn(ProviderId::Openvpn, live.last().name@)) {
            before + live.last().log.held()
        } else {
            before
        }
    }
}

/// The names of what depends on a tunnel or asks for a VPN, in order, for the
/// details panels.
pub open spec fn picked_tunnels(ts: Seq<Tunnel>, p: spec_fn(Tunnel) -> bool) -> Seq<Seq<char>>
    decreases ts.len(),
{
    if ts.len() == 0 {
        Seq::empty()
    } else if p(ts.last()) {
        picked_tunnels(ts.drop_last(), p).push("tun "@ + ts.last().name@)
    } else {
        picked_tunnels(ts.drop_last(), p)
    }
}

pub open spec fn picked_hosts(hs: Seq<SshHost>, p: spec_fn(SshHost) -> bool) -> Seq<Seq<char>>
    decreases hs.len(),
{
    if hs.len() == 0 {
        Seq::empty()
    } else if p(hs.last()) {
        picked_hosts(hs.drop_last(), p).push("ssh "@ + hs.last().name@)
    } else {
        picked_hosts(hs.drop_last(), p)
    }
}

pub open spec fn picked_conns(
    cs: Seq<RdpConnection>,
    p: spec_fn(RdpConnection) -> bool,
) -> Seq<Seq<char>>
    decreases cs.len(),
{
    if cs.len() == 0 {
        Seq::empty()
    } else if p(cs.last()) {
        picked_conns(cs.drop_last(), p).push("rdp "@ + cs.last().name@)
    } else {
        picked_conns(cs.drop_last(), p)
    }
}

/// What a connection can ask for, that a list of dependents is made by.
#[derive(Debug)]
pub enum Wish {
    /// This tunnel.
    Tunnel(String),
    /// Exactly this VPN requirement, however it is written.
    Vpn(String),
    /// Any profile of this client, or any VPN at all.
    Client(ProviderId),
}

/// A wish, as text.
pub enum Wanted {
    Tunnel(Seq<char>),
    Vpn(Seq<char>),
    Client(ProviderId),
}

impl View for Wish {
    type V = Wanted;

    open spec fn view(&self) -> Wanted {
        match self {
            Wish::Tunnel(n) => Wanted::Tunnel(n@),
            Wish::Vpn(n) => Wanted::Vpn(n@),
            Wish::Client(id) => Wanted::Client(*id),
        }
    }
}

/// Whether a connection with these needs has the wish.
pub open spec fn wishes(w: Wanted, vpn: Seq<char>, tunnel: Seq<char>) -> bool {
    match w {
        Wanted::Tunnel(name) => tunnel == name,
        Wanted::Vpn(want) => canonical_text(vpn) == canonical_text(want),
        Wanted::Client(id) => match need_of(vpn) {
            Some(n) => n.provider is None || n.provider == Some(id),
            None => false,
        },
    }
}

fn has_wish(w: &Wish, vpn: &str, tunnel: &str) -> (r: bool)
    ensures
        r == wishes(w@, vpn@, tunnel@),
{
    match w {
        Wish::Tunnel(name) => text::same(tunnel, name.as_str()),
        Wish::Vpn(want) => text::same(
            canonical_vpn_requirement(vpn).as_str(),
            canonical_vpn_requirement(want.as_str()).as_str(),
        ),
        Wish::Client(id) => match parse_vpn_requirement(vpn) {
            Some(n) => match n.provider {
                Some(p) => p == *id,
                None => true,
            },
            None => false,
        },
    }
}

pub open spec fn tunnel_wishes(w: Wanted) -> spec_fn(Tunnel) -> bool {
    |t: Tunnel| wishes(w, t.requires_vpn@, t.depends_on@)
}

pub open spec fn host_wishes(w: Wanted) -> spec_fn(SshHost) -> bool {
    |h: SshHost| wishes(w, h.requires_vpn@, h.depends_on@)
}

pub open spec fn conn_wishes(w: Wanted) -> spec_fn(RdpConnection) -> bool {
    |c: RdpConnection| wishes(w, c.requires_vpn@, c.depends_on@)
}

/// Everything that has a wish: the tunnels, then the ssh hosts, then the rdp
/// connections.
pub open spec fn wishing(
    ts: Seq<Tunnel>,
    hs: Seq<SshHost>,
    cs: Seq<RdpConnection>,
    w: Wanted,
) -> Seq<Seq<char>> {
    picked_tunnels(ts, tunnel_wishes(w)) + picked_hosts(hs, host_wishes(w)) + picked_conns(
        cs,
        conn_wishes(w),
    )
}

/// A status field whose name says that it is about an address.
pub open spec fn addressy(key: Seq<char>) -> bool {
    let k = ascii_lowered(key);
    k == "ip"@ || ends(k, " ip"@) || occurs(k, "address"@) || occurs(k, "interface"@)
}

fn is_addressy(key: &str) -> (r: bool)
    ensures
        r == addressy(key@),
{
    let k = text::to_ascii_lower(key);
    let k = k.as_str();
    text::same(k, "ip") || split::ends_with(k, " ip") || split::contains(k, "address")
        || split::contains(k, "interface")
}

/// An address without its prefix length.
pub open spec fn bare_addr(a: Seq<char>) -> Seq<char> {
    a.take(first_of(a, '/'))
}

fn without_prefix(a: &str) -> (r: String)
    ensures
        r@ == bare_addr(a@),
{
    let v = text::chars_of(a);
    proof {
        split::lemma_first_of(v@, '/');
    }
    let n: usize = match split::find_char(&v, '/') {
        Some(i) => i,
        None => v.len(),
    };
    assert(v@.take(n as int) =~= v@.subrange(0, n as int));
    text::text_between(&v, 0, n)
}

/// A value names the device, or one of its addresses.
pub open spec fn names_link(value: Seq<char>, link: Link) -> bool {
    value == link.name@ || exists|i: int|
        0 <= i < link.addrs@.len() && occurs(value, bare_addr(#[trigger] link.addrs@[i]@))
}

fn value_names_link(value: &str, link: &Link) -> (r: bool)
    ensures
        r == names_link(value@, *link),
{
    if text::same(value, link.name.as_str()) {
        return true;
    }
    let mut i: usize = 0;
    while i < link.addrs.len()
        invariant
            i <= link.addrs@.len(),
            value@ != link.name@,
            forall|k: int|
                0 <= k < i ==> !occurs(value@, bare_addr(#[trigger] link.addrs@[k]@)),
        decreases link.addrs@.len() - i,
    {
        if split::contains(value, without_prefix(link.addrs[i].as_str()).as_str()) {
            assert(occurs(value@, bare_addr(link.addrs@[i as int]@)));
            return true;
        }
        i = i + 1;
    }
    false
}

/// A client that is connected says that the device is its own.
pub open spec fn says_it_owns(link: Link) -> spec_fn(ProviderState) -> bool {
    |s: ProviderState|
        s.status.connected && exists|i: int|
            0 <= i < s.status.fields@.len() && addressy((#[trigger] s.status.fields@[i]).0@)
                && names_link(s.status.fields@[i].1@, link)
}

fn client_owns(s: &ProviderState, link: &Link) -> (r: bool)
    ensures
        r == says_it_owns(*link)(*s),
{
    if !s.status.connected {
        return false;
    }
    let mut i: usize = 0;
    while i < s.status.fields.len()
        invariant
            i <= s.status.fields@.len(),
            s.status.connected,
            forall|k: int|
                0 <= k < i ==> !(addressy((#[trigger] s.status.fields@[k]).0@) && names_link(
                    s.status.fields@[k].1@,
                    *link,
                )),
        decreases s.status.fields@.len() - i,
    {
        if is_addressy(s.status.fields[i].0.as_str()) && value_names_link(
            s.status.fields[i].1.as_str(),
            link,
        ) {
            assert(addressy(s.status.fields@[i as int].0@));
            return true;
        }
        i = i + 1;
    }
    false
}

/// A session held here says that the device is its own.
pub open spec fn session_has(sessions: Seq<LiveOvpn>, device: Seq<char>) -> bool {
    exists|i: int|
        0 <= i < sessions.len() && opt_string((#[trigger] sessions[i]).device) == Some(device)
}

/// The client a tunnel device belongs to, where that can be told.
///
/// A device is not labelled with its owner, so the only honest way to attribute
/// one is by what the clients themselves say: a WireGuard profile names the
/// interface it creates, an openvpn session its device, and NetBird and
/// Tailscale report the address they were given. Only the fields that are
/// *about* an address are compared. A device that matches none of those is left
/// unattributed rather than guessed at.
pub open spec fn owner_of(
    link: Link,
    interfaces: Seq<Seq<char>>,
    sessions: Seq<LiveOvpn>,
    devices: Seq<Seq<char>>,
    clients: Seq<ProviderState>,
) -> Option<ProviderId> {
    if interfaces.contains(link.name@) {
        Some(ProviderId::Wireguard)
    } else if session_has(sessions, link.name@) || devices.contains(link.name@) {
        Some(ProviderId::Openvpn)
    } else {
        let i = first_where(clients, says_it_owns(link));
        if i < clients.len() {
            Some(clients[i].id)
        } else {
            None
        }
    }
}

/// The running openvpn processes that no session held here accounts for: it is
/// neither the one a session knows to be its own nor writes the same file.
/// `pid_files` are the files the processes write, in their order.
pub open spec fn unheld(
    ps: Seq<Process>,
    pid_files: Seq<Option<String>>,
    sessions: Seq<LiveOvpn>,
    os: Os,
) -> Seq<int>
    decreases ps.len(),
{
    if ps.len() == 0 {
        Seq::empty()
    } else {
        let before = unheld(ps.drop_last(), pid_files, sessions, os);
        let k = ps.len() - 1;
        let p = ps.last();
        let file = if k < pid_files.len() {
            opt_string(pid_files[k])
        } else {
            None
        };
        if p.provider == ProviderId::Openvpn && !held_by(sessions, p.pid, file, os) {
            before.push(k)
        } else {
            before
        }
    }
}

/// A session accounts for a process: it has not ended, and the process is its own
/// or writes its pid to the same file, however that is written.
pub open spec fn accounts(s: LiveOvpn, pid: u32, file: Option<Seq<char>>, os: Os) -> bool {
    !s.ended() && (s.root_pid == Some(pid) || (file matches Some(f) && route(os, f) == route(
        os,
        s.pid_file@,
    )))
}

/// A session that has not ended accounts for a process.
pub open spec fn held_by(
    sessions: Seq<LiveOvpn>,
    pid: u32,
    file: Option<Seq<char>>,
    os: Os,
) -> bool {
    exists|i: int| 0 <= i < sessions.len() && accounts(#[trigger] sessions[i], pid, file, os)
}

fn session_holds(sessions: &Vec<LiveOvpn>, pid: u32, file: &Option<String>, os: Os) -> (r: bool)
    ensures
        r == held_by(sessions@, pid, opt_string(*file), os),
{
    let mut i: usize = 0;
    while i < sessions.len()
        invariant
            i <= sessions@.len(),
            forall|k: int|
                0 <= k < i ==> !accounts(#[trigger] sessions@[k], pid, opt_string(*file), os),
        decreases sessions@.len() - i,
    {
        let s = &sessions[i];
        let same_pid = match s.root_pid {
            Some(p) => p == pid,
            None => false,
        };
        let same_file = match file {
            Some(f) => same_path(os, f.as_str(), s.pid_file.as_str()),
            None => false,
        };
        if !s.has_ended() && (same_pid || same_file) {
            assert(accounts(sessions@[i as int], pid, opt_string(*file), os));
            return true;
        }
        i = i + 1;
    }
    false
}

/// The devices of the sessions that have not ended.
pub open spec fn live_devices(sessions: Seq<LiveOvpn>) -> Seq<Seq<char>>
    decreases sessions.len(),
{
    if sessions.len() == 0 {
        Seq::empty()
    } else {
        let before = live_devices(sessions.drop_last());
        match sessions.last().device {
            Some(d) => if sessions.last().ended() {
                before
            } else {
                before.push(d@)
            },
            None => before,
        }
    }
}

/// The profiles of a client that are up, as the panic button lists them.
pub open spec fn up_names(id: ProviderId, ps: Seq<VpnProfile>) -> Seq<Seq<char>>
    decreases ps.len(),
{
    if ps.len() == 0 {
        Seq::empty()
    } else {
        let before = up_names(id, ps.drop_last());
        let p = ps.last();
        if !p.active {
            before
        } else if p.stored_spec() {
            before.push(id.slug_spec() + ":"@ + p.name@)
        } else {
            before.push(id.slug_spec() + ":"@ + p.name@ + " (not started here)"@)
        }
    }
}

pub open spec fn all_up_names(clients: Seq<ProviderState>) -> Seq<Seq<char>>
    decreases clients.len(),
{
    if clients.len() == 0 {
        Seq::empty()
    } else {
        all_up_names(clients.drop_last()) + up_names(clients.last().id, clients.last().profiles@)
    }
}

pub open spec fn running_count(live: Seq<LiveRdp>) -> nat
    decreases live.len(),
{
    if live.len() == 0 {
        0
    } else {
        running_count(live.drop_last()) + (if live.last().status is Running { 1nat } else { 0 })
    }
}

pub open spec fn window_count(ws: Seq<crate::live::Windows>) -> nat
    decreases ws.len(),
{
    if ws.len() == 0 {
        0
    } else {
        window_count(ws.drop_last()) + ws.last().open as nat
    }
}

/// Names in alphabetical order.
pub open spec fn in_alphabet(names: Seq<String>) -> Seq<String> {
    sorted(names)
}

impl App {
    pub open spec fn stage(&self) -> Stage {
        Stage {
            tunnels: self.tunnels@,
            ssh_hosts: self.ssh_hosts@,
            rdp_conns: self.rdp_conns@,
            vpn: self.vpn.providers@,
            active: self.active@,
            rdp_active: self.rdp_active@,
        }
    }

    /// A read-only view of everything a running plan needs.
    pub fn scene(&self) -> (r: Scene<'_>)
        ensures
            r.stage() == self.stage(),
            *r.vpn == self.vpn,
    {
        Scene {
            tunnels: self.tunnels.as_slice(),
            ssh_hosts: self.ssh_hosts.as_slice(),
            rdp_conns: self.rdp_conns.as_slice(),
            vpn: &self.vpn,
            active: &self.active,
            rdp_active: &self.rdp_active,
        }
    }

    /// What is configured.
    pub open spec fn lists(&self) -> Lists {
        Lists {
            tunnels: self.tunnels@,
            ssh_hosts: self.ssh_hosts@,
            rdp_conns: self.rdp_conns@,
        }
    }

    /// A read-only view of everything the plan builder needs.
    pub fn catalog(&self) -> (r: Catalog<'_>)
        ensures
            r.lists() == self.lists(),
    {
        Catalog {
            tunnels: self.tunnels.as_slice(),
            ssh_hosts: self.ssh_hosts.as_slice(),
            rdp_conns: self.rdp_conns.as_slice(),
        }
    }

    /// Sorted names of active tunnels, as listed on the Dashboard.
    pub fn active_tunnel_names(&self) -> (r: Vec<String>)
        ensures
            r@ == in_alphabet(self.active@.map_values(|a: LiveTunnel| a.name)),
    {
        let mut names: Vec<String> = Vec::new();
        let ghost all = self.active@.map_values(|a: LiveTunnel| a.name);
        let mut i: usize = 0;
        assert(names@ =~= all.take(0));
        while i < self.active.len()
            invariant
                i <= self.active@.len(),
                all == self.active@.map_values(|a: LiveTunnel| a.name),
                names@ == all.take(i as int),
            decreases self.active@.len() - i,
        {
            names.push(self.active[i].name.clone());
            i = i + 1;
            assert(all.take(i as int) =~= all.take(i - 1).push(all[i - 1]));
        }
        assert(all.take(i as int) =~= all);
        sort::sort(names)
    }

    /// Sorted names of RDP sessions (running or recently exited).
    pub fn rdp_session_names(&self) -> (r: Vec<String>)
        ensures
            r@ == in_alphabet(self.rdp_active@.map_values(|a: LiveRdp| a.name)),
    {
        let mut names: Vec<String> = Vec::new();
        let ghost all = self.rdp_active@.map_values(|a: LiveRdp| a.name);
        let mut i: usize = 0;
        assert(names@ =~= all.take(0));
        while i < self.rdp_active.len()
            invariant
                i <= self.rdp_active@.len(),
                all == self.rdp_active@.map_values(|a: LiveRdp| a.name),
                names@ == all.take(i as int),
            decreases self.rdp_active@.len() - i,
        {
            names.push(self.rdp_active[i].name.clone());
            i = i + 1;
            assert(all.take(i as int) =~= all.take(i - 1).push(all[i - 1]));
        }
        assert(all.take(i as int) =~= all);
        sort::sort(names)
    }

    pub fn group_members(&self, group: &str) -> (r: Vec<usize>)
        ensures
            r@.map_values(|i: usize| i as int) == places(groups_of(self.tunnels@), group@),
            forall|k: int| 0 <= k < r@.len() ==> #[trigger] r@[k] < self.tunnels@.len(),
    {
        members_of(self.tunnels.as_slice(), group)
    }

    pub fn ssh_group_members(&self, group: &str) -> (r: Vec<usize>)
        ensures
            r@.map_values(|i: usize| i as int) == places(groups_of(self.ssh_hosts@), group@),
            forall|k: int| 0 <= k < r@.len() ==> #[trigger] r@[k] < self.ssh_hosts@.len(),
    {
        members_of(self.ssh_hosts.as_slice(), group)
    }

    pub fn rdp_group_members(&self, group: &str) -> (r: Vec<usize>)
        ensures
            r@.map_values(|i: usize| i as int) == places(groups_of(self.rdp_conns@), group@),
            forall|k: int| 0 <= k < r@.len() ==> #[trigger] r@[k] < self.rdp_conns@.len(),
    {
        members_of(self.rdp_conns.as_slice(), group)
    }

    /// The entry under a cursor, or `None` on a group header.
    pub open spec fn entry_at(rows: Seq<RowItem>, at: int) -> Option<int> {
        if 0 <= at < rows.len() {
            match rows[at] {
                RowItem::Item(i) => Some(i as int),
                RowItem::Group(_) => None,
            }
        } else {
            None
        }
    }

    /// The tunnel under the cursor, or `None` on a group header.
    pub fn selected_tunnel(&self) -> (r: Option<usize>)
        requires
            rows_ok(self.rows@, self.tunnels@),
        ensures
            r is Some <==> Self::entry_at(self.rows@, self.selected as int) is Some,
            r is Some ==> r->0 == Self::entry_at(self.rows@, self.selected as int)->0 && r->0
                < self.tunnels@.len(),
    {
        if self.selected < self.rows.len() {
            proof {
                lemma_row_in_range(self.rows@, self.tunnels@, self.selected as int);
            }
            match &self.rows[self.selected] {
                RowItem::Item(i) => Some(*i),
                RowItem::Group(_) => None,
            }
        } else {
            None
        }
    }

    /// The ssh host under the cursor, or `None` on a group header.
    pub fn selected_ssh_host(&self) -> (r: Option<usize>)
        requires
            rows_ok(self.ssh_rows@, self.ssh_hosts@),
        ensures
            r is Some <==> Self::entry_at(self.ssh_rows@, self.ssh_selected as int) is Some,
            r is Some ==> r->0 == Self::entry_at(self.ssh_rows@, self.ssh_selected as int)->0
                && r->0 < self.ssh_hosts@.len(),
    {
        if self.ssh_selected < self.ssh_rows.len() {
            proof {
                lemma_row_in_range(self.ssh_rows@, self.ssh_hosts@, self.ssh_selected as int);
            }
            match &self.ssh_rows[self.ssh_selected] {
                RowItem::Item(i) => Some(*i),
                RowItem::Group(_) => None,
            }
        } else {
            None
        }
    }

    /// The rdp connection under the cursor, or `None` on a group header.
    pub fn selected_rdp_conn(&self) -> (r: Option<usize>)
        requires
            rows_ok(self.rdp_rows@, self.rdp_conns@),
        ensures
            r is Some <==> Self::entry_at(self.rdp_rows@, self.rdp_selected as int) is Some,
            r is Some ==> r->0 == Self::entry_at(self.rdp_rows@, self.rdp_selected as int)->0
                && r->0 < self.rdp_conns@.len(),
    {
        if self.rdp_selected < self.rdp_rows.len() {
            proof {
                lemma_row_in_range(self.rdp_rows@, self.rdp_conns@, self.rdp_selected as int);
            }
            match &self.rdp_rows[self.rdp_selected] {
                RowItem::Item(i) => Some(*i),
                RowItem::Group(_) => None,
            }
        } else {
            None
        }
    }

    /// What a pane shows before it is put in order: what controlcenter did, and
    /// what the processes it started printed.
    pub open spec fn lines_for(&self, pane: Subject) -> Seq<Entry> {
        shown(self.journal.held(), pane) + tunnel_lines(self.active@, pane) + rdp_lines(
            self.rdp_active@,
            pane,
        ) + ovpn_lines(self.ovpn_active@, pane)
    }

    /// What a pane shows, oldest first. An SSH host has no output here: its
    /// session runs in a terminal window of its own.
    pub fn log_lines(&self, target: &LogTarget) -> (r: Vec<Entry>)
        ensures
            r@ == sorted(self.lines_for(target@)),
    {
        let mut lines = self.journal.entries_for(target);
        let ghost base = lines@;
        let mut i: usize = 0;
        assert(self.active@.take(0) =~= Seq::<LiveTunnel>::empty());
        assert(base + tunnel_lines(self.active@.take(0), target@) =~= base);
        while i < self.active.len()
            invariant
                i <= self.active@.len(),
                lines@ == base + tunnel_lines(self.active@.take(i as int), target@),
            decreases self.active@.len() - i,
        {
            assert(self.active@.take(i + 1).drop_last() =~= self.active@.take(i as int));
            let a = &self.active[i];
            let who = LogTarget::Tunnel(a.name.clone());
            if target.covers(&who) {
                let mut more = a.log.all();
                lines.append(&mut more);
                assert(lines@ =~= base + tunnel_lines(self.active@.take(i + 1), target@));
            }
            i = i + 1;
        }
        assert(self.active@.take(i as int) =~= self.active@);
        let ghost base = lines@;
        let mut k: usize = 0;
        assert(self.rdp_active@.take(0) =~= Seq::<LiveRdp>::empty());
        assert(base + rdp_lines(self.rdp_active@.take(0), target@) =~= base);
        while k < self.rdp_active.len()
            invariant
                k <= self.rdp_active@.len(),
                lines@ == base + rdp_lines(self.rdp_active@.take(k as int), target@),
            decreases self.rdp_active@.len() - k,
        {
            assert(self.rdp_active@.take(k + 1).drop_last() =~= self.rdp_active@.take(k as int));
            let a = &self.rdp_active[k];
            let who = LogTarget::Rdp(a.name.clone());
            if target.covers(&who) {
                let mut more = a.log.all();
                lines.append(&mut more);
                assert(lines@ =~= base + rdp_lines(self.rdp_active@.take(k + 1), target@));
            }
            k = k + 1;
        }
        assert(self.rdp_active@.take(k as int) =~= self.rdp_active@);
        let ghost base = lines@;
        let mut m: usize = 0;
        assert(self.ovpn_active@.take(0) =~= Seq::<LiveOvpn>::empty());
        assert(base + ovpn_lines(self.ovpn_active@.take(0), target@) =~= base);
        while m < self.ovpn_active.len()
            invariant
                m <= self.ovpn_active@.len(),
                lines@ == base + ovpn_lines(self.ovpn_active@.take(m as int), target@),
            decreases self.ovpn_active@.len() - m,
        {
            assert(self.ovpn_active@.take(m + 1).drop_last() =~= self.ovpn_active@.take(m as int));
            let a = &self.ovpn_active[m];
            let who = LogTarget::Vpn(ProviderId::Openvpn, a.name.clone());
            if target.covers(&who) {
                let mut more = a.log.all();
                lines.append(&mut more);
                assert(lines@ =~= base + ovpn_lines(self.ovpn_active@.take(m + 1), target@));
            }
            m = m + 1;
        }
        assert(self.ovpn_active@.take(m as int) =~= self.ovpn_active@);
        sort::sort(lines)
    }

    /// What `l` and `s` act on with a tab in front: the connection under the
    /// cursor, or the whole program on the Dashboard, which watches everything
    /// and owns nothing.
    pub open spec fn target_spec(&self) -> Result<Subject, Seq<char>> {
        match self.tab {
            Tab::Dashboard => Ok(Subject::Program),
            Tab::Vpn => {
                let s = self.vpn.providers@[self.vpn.current_spec()];
                Ok(
                    Subject::Vpn(
                        s.id,
                        if s.selected < s.profiles@.len() {
                            s.profiles@[s.selected as int].name@
                        } else {
                            Seq::empty()
                        },
                    ),
                )
            },
            Tab::Tunnels => match Self::entry_at(self.rows@, self.selected as int) {
                Some(i) => Ok(Subject::Tunnel(self.tunnels@[i].name@)),
                None => if self.rows@.len() == 0 {
                    Err("no tunnel is configured yet"@)
                } else {
                    Err("a group has no log of its own — pick "@ + "a tunnel"@)
                },
            },
            Tab::Ssh => match Self::entry_at(self.ssh_rows@, self.ssh_selected as int) {
                Some(i) => Ok(Subject::Ssh(self.ssh_hosts@[i].name@)),
                None => if self.ssh_rows@.len() == 0 {
                    Err("no ssh host is configured yet"@)
                } else {
                    Err("a group has no log of its own — pick "@ + "a host"@)
                },
            },
            Tab::Rdp => match Self::entry_at(self.rdp_rows@, self.rdp_selected as int) {
                Some(i) => Ok(Subject::Rdp(self.rdp_conns@[i].name@)),
                None => if self.rdp_rows@.len() == 0 {
                    Err("no rdp connection is configured yet"@)
                } else {
                    Err("a group has no log of its own — pick "@ + "a connection"@)
                },
            },
        }
    }

    pub fn selection_target(&self) -> (r: Result<LogTarget, String>)
        requires
            self.wf(),
        ensures
            match self.target_spec() {
                Ok(t) => r is Ok && r->Ok_0@ == t,
                Err(e) => r is Err && r->Err_0@ == e,
            },
    {
        match self.tab {
            Tab::Dashboard => Ok(LogTarget::Program),
            Tab::Vpn => {
                let s = self.vpn.current();
                let id = s.id;
                Ok(
                    match s.selected_profile() {
                        Some(p) => LogTarget::Vpn(id, p.name.clone()),
                        None => LogTarget::vpn(id),
                    },
                )
            },
            Tab::Tunnels => match self.selected_tunnel() {
                Some(i) => Ok(LogTarget::Tunnel(self.tunnels[i].name.clone())),
                None => if self.rows.len() == 0 {
                    Err("no tunnel is configured yet".to_owned())
                } else {
                    Err(cat("a group has no log of its own — pick ", "a tunnel"))
                },
            },
            Tab::Ssh => match self.selected_ssh_host() {
                Some(i) => Ok(LogTarget::Ssh(self.ssh_hosts[i].name.clone())),
                None => if self.ssh_rows.len() == 0 {
                    Err("no ssh host is configured yet".to_owned())
                } else {
                    Err(cat("a group has no log of its own — pick ", "a host"))
                },
            },
            Tab::Rdp => match self.selected_rdp_conn() {
                Some(i) => Ok(LogTarget::Rdp(self.rdp_conns[i].name.clone())),
                None => if self.rdp_rows.len() == 0 {
                    Err("no rdp connection is configured yet".to_owned())
                } else {
                    Err(cat("a group has no log of its own — pick ", "a connection"))
                },
            },
        }
    }

    /// The steps a connection would be brought up through, itself last. What
    /// the details panels show as a chain, and what a report scopes itself to.
    pub fn plan_for(&self, step: Step) -> (r: Result<Vec<Step>, String>)
        ensures
            match self.lists().plan(seq![step@]) {
                Ok(p) => r is Ok && jobs(r->Ok_0@) == p,
                Err(e) => r is Err && r->Err_0@ == e,
            },
    {
        let mut targets: Vec<Step> = Vec::new();
        targets.push(step);
        let ghost one = jobs(targets@);
        assert(one =~= seq![step@]);
        let cat = self.catalog();
        cat.build_plan(targets)
    }

    /// The chain a connection would run through, for the details panels.
    pub fn chain_of(&self, step: Step) -> (r: Result<Vec<String>, String>)
        ensures
            match self.lists().plan(seq![step@]) {
                Ok(p) => r is Ok && texts(r->Ok_0@) == p.map_values(|j: Job| short_of(j)),
                Err(e) => r is Err && r->Err_0@ == e,
            },
    {
        match self.plan_for(step) {
            Err(e) => Err(e),
            Ok(steps) => Ok(short_steps(&steps)),
        }
    }

    /// The profile a provider currently has up.
    pub fn active_vpn_profile(&self, provider: ProviderId) -> (r: Option<String>)
        requires
            self.vpn.wf(),
        ensures
            opt_string(r) == self.vpn.providers@[provider.index_spec()].active_spec(),
    {
        match self.vpn.get(provider).active_profile() {
            Some(p) => Some(p.to_owned()),
            None => None,
        }
    }

    /// Whether a VPN already satisfies the requirement.
    pub fn vpn_satisfied(&self, want: &str) -> (r: bool)
        requires
            self.vpn.wf(),
        ensures
            r == satisfied(self.vpn.providers@, want@),
    {
        activation::vpn_satisfied(&self.vpn, want)
    }

    pub fn rdp_running(&self, name: &str) -> (r: bool)
        ensures
            r == rdp_is_running(self.rdp_active@, name@),
    {
        rdp_runs(&self.rdp_active, name)
    }

    /// Active tunnels that bind the same endpoint as tunnel `idx`.
    pub fn conflicting_active(&self, idx: usize) -> (r: (Vec<String>, String))
        ensures
            idx >= self.tunnels@.len() ==> r.0@.len() == 0 && r.1@.len() == 0,
            idx < self.tunnels@.len() ==> {
                let t = self.tunnels@[idx as int];
                let names = fighting(self.tunnels@, t, idx as int, self.active@);
                &&& texts(r.0@) == names
                &&& r.1@ == if names.len() > 0 {
                    t.binding_spec()
                } else {
                    Seq::empty()
                }
            },
    {
        activation::conflicting_active(self.tunnels.as_slice(), &self.active, idx)
    }

    fn dependents(&self, w: &Wish) -> (r: Vec<String>)
        ensures
            texts(r@) == wishing(self.tunnels@, self.ssh_hosts@, self.rdp_conns@, w@),
    {
        let mut names = text::no_texts();
        let mut i: usize = 0;
        assert(self.tunnels@.take(0) =~= Seq::<Tunnel>::empty());
        while i < self.tunnels.len()
            invariant
                i <= self.tunnels@.len(),
                texts(names@) == picked_tunnels(self.tunnels@.take(i as int), tunnel_wishes(w@)),
            decreases self.tunnels@.len() - i,
        {
            assert(self.tunnels@.take(i + 1).drop_last() =~= self.tunnels@.take(i as int));
            let t = &self.tunnels[i];
            if has_wish(w, t.requires_vpn.as_str(), t.depends_on.as_str()) {
                text::add_text(&mut names, cat("tun ", t.name.as_str()));
            }
            i = i + 1;
        }
        assert(self.tunnels@.take(i as int) =~= self.tunnels@);
        let ghost base = texts(names@);
        let mut k: usize = 0;
        assert(self.ssh_hosts@.take(0) =~= Seq::<SshHost>::empty());
        assert(base + picked_hosts(self.ssh_hosts@.take(0), host_wishes(w@)) =~= base);
        while k < self.ssh_hosts.len()
            invariant
                k <= self.ssh_hosts@.len(),
                texts(names@) == base + picked_hosts(
                    self.ssh_hosts@.take(k as int),
                    host_wishes(w@),
                ),
            decreases self.ssh_hosts@.len() - k,
        {
            assert(self.ssh_hosts@.take(k + 1).drop_last() =~= self.ssh_hosts@.take(k as int));
            let h = &self.ssh_hosts[k];
            if has_wish(w, h.requires_vpn.as_str(), h.depends_on.as_str()) {
                text::add_text(&mut names, cat("ssh ", h.name.as_str()));
                assert(texts(names@) =~= base + picked_hosts(
                    self.ssh_hosts@.take(k + 1),
                    host_wishes(w@),
                ));
            }
            k = k + 1;
        }
        assert(self.ssh_hosts@.take(k as int) =~= self.ssh_hosts@);
        let ghost base = texts(names@);
        let mut m: usize = 0;
        assert(self.rdp_conns@.take(0) =~= Seq::<RdpConnection>::empty());
        assert(base + picked_conns(self.rdp_conns@.take(0), conn_wishes(w@)) =~= base);
        while m < self.rdp_conns.len()
            invariant
                m <= self.rdp_conns@.len(),
                texts(names@) == base + picked_conns(
                    self.rdp_conns@.take(m as int),
                    conn_wishes(w@),
                ),
            decreases self.rdp_conns@.len() - m,
        {
            assert(self.rdp_conns@.take(m + 1).drop_last() =~= self.rdp_conns@.take(m as int));
            let c = &self.rdp_conns[m];
            if has_wish(w, c.requires_vpn.as_str(), c.depends_on.as_str()) {
                text::add_text(&mut names, cat("rdp ", c.name.as_str()));
                assert(texts(names@) =~= base + picked_conns(
                    self.rdp_conns@.take(m + 1),
                    conn_wishes(w@),
                ));
            }
            m = m + 1;
        }
        assert(self.rdp_conns@.take(m as int) =~= self.rdp_conns@);
        names
    }

    /// Everything that depends on a tunnel, for the Tunnels details panel.
    pub fn dependents_of(&self, tunnel_name: &str) -> (r: Vec<String>)
        ensures
            texts(r@) == wishing(
                self.tunnels@,
                self.ssh_hosts@,
                self.rdp_conns@,
                Wanted::Tunnel(tunnel_name@),
            ),
    {
        let w = Wish::Tunnel(tunnel_name.to_owned());
        self.dependents(&w)
    }

    /// Everything that asks for exactly this VPN requirement, for the VPN tab.
    /// `want` is compared in canonical form, so a legacy bare profile name and
    /// `netbird:<name>` count as the same requirement.
    pub fn vpn_dependents_of(&self, want: &str) -> (r: Vec<String>)
        ensures
            texts(r@) == wishing(
                self.tunnels@,
                self.ssh_hosts@,
                self.rdp_conns@,
                Wanted::Vpn(want@),
            ),
    {
        let w = Wish::Vpn(want.to_owned());
        self.dependents(&w)
    }

    /// Everything that asks for any profile of `provider`, or for any VPN at all.
    pub fn vpn_dependents_of_provider(&self, provider: ProviderId) -> (r: Vec<String>)
        ensures
            texts(r@) == wishing(
                self.tunnels@,
                self.ssh_hosts@,
                self.rdp_conns@,
                Wanted::Client(provider),
            ),
    {
        let w = Wish::Client(provider);
        self.dependents(&w)
    }

    /// Whether a dependency names a tunnel that no longer exists.
    pub fn dependency_missing(&self, dep: &str) -> (r: bool)
        ensures
            r == (dep@.len() > 0 && !has_name(self.tunnels@, dep@)),
    {
        !dep.is_empty() && !holds_name(self.tunnels.as_slice(), dep)
    }

    /// The client a tunnel device belongs to, where that can be told.
    /// `interfaces` are the interfaces of the WireGuard profiles, and `devices`
    /// those that running openvpn processes were told to use.
    pub fn claimant(
        &self,
        link: &Link,
        interfaces: &Vec<String>,
        devices: &Vec<String>,
    ) -> (r: Option<ProviderId>)
        ensures
            r == owner_of(
                *link,
                texts(interfaces@),
                self.ovpn_active@,
                texts(devices@),
                self.vpn.providers@,
            ),
    {
        if text::holds(interfaces, link.name.as_str()) {
            return Some(ProviderId::Wireguard);
        }
        if self.session_device(link.name.as_str()) || text::holds(devices, link.name.as_str()) {
            return Some(ProviderId::Openvpn);
        }
        self.owning_client(link)
    }

    fn owning_client(&self, link: &Link) -> (r: Option<ProviderId>)
        ensures
            r == {
                let i = first_where(self.vpn.providers@, says_it_owns(*link));
                if i < self.vpn.providers@.len() {
                    Some(self.vpn.providers@[i].id)
                } else {
                    None
                }
            },
    {
        let ghost p = says_it_owns(*link);
        let ghost cs = self.vpn.providers@;
        let mut i: usize = 0;
        while i < self.vpn.providers.len()
            invariant
                i <= cs.len(),
                cs == self.vpn.providers@,
                p == says_it_owns(*link),
                forall|j: int| 0 <= j < i ==> !p(#[trigger] cs[j]),
            decreases cs.len() - i,
        {
            if client_owns(&self.vpn.providers[i], link) {
                proof {
                    lemma_first_where_is(cs, p, i as int);
                }
                return Some(self.vpn.providers[i].id);
            }
            i = i + 1;
        }
        proof {
            lemma_first_where_is(cs, p, i as int);
        }
        None
    }

    fn session_device(&self, device: &str) -> (r: bool)
        ensures
            r == session_has(self.ovpn_active@, device@),
    {
        let mut i: usize = 0;
        while i < self.ovpn_active.len()
            invariant
                i <= self.ovpn_active@.len(),
                forall|k: int|
                    0 <= k < i ==> opt_string((#[trigger] self.ovpn_active@[k]).device) != Some(
                        device@,
                    ),
            decreases self.ovpn_active@.len() - i,
        {
            let here = match &self.ovpn_active[i].device {
                Some(d) => text::same(d.as_str(), device),
                None => false,
            };
            if here {
                assert(opt_string(self.ovpn_active@[i as int].device) == Some(device@));
                return true;
            }
            i = i + 1;
        }
        false
    }

    /// Every tunnel device the sweep found, with whatever client accounts for
    /// it, in the order of the sweep.
    pub fn tunnel_devices(&self, interfaces: &Vec<String>, devices: &Vec<String>) -> (r: Vec<
        Option<ProviderId>,
    >)
        ensures
            r@.len() == self.scan.links@.len(),
            forall|i: int|
                0 <= i < r@.len() ==> #[trigger] r@[i] == owner_of(
                    self.scan.links@[i],
                    texts(interfaces@),
                    self.ovpn_active@,
                    texts(devices@),
                    self.vpn.providers@,
                ),
    {
        let mut out: Vec<Option<ProviderId>> = Vec::new();
        let mut i: usize = 0;
        while i < self.scan.links.len()
            invariant
                i <= self.scan.links@.len(),
                out@.len() == i,
                forall|k: int|
                    0 <= k < i ==> #[trigger] out@[k] == owner_of(
                        self.scan.links@[k],
                        texts(interfaces@),
                        self.ovpn_active@,
                        texts(devices@),
                        self.vpn.providers@,
                    ),
            decreases self.scan.links@.len() - i,
        {
            out.push(self.claimant(&self.scan.links[i], interfaces, devices));
            i = i + 1;
        }
        out
    }

    /// What a search for the devices of sessions that are gone has to know: the
    /// devices of those that are not, and whether there is a process that no
    /// session accounts for, which a device could belong to.
    pub fn device_question(&self, pid_files: &Vec<Option<String>>) -> (r: (Vec<String>, bool))
        ensures
            texts(r.0@) == live_devices(self.ovpn_active@),
            r.1 == (unheld(
                self.scan.processes@,
                pid_files@,
                self.ovpn_active@,
                self.machine.os,
            ).len() > 0),
    {
        let ghost all = self.ovpn_active@;
        let mut out = text::no_texts();
        let mut i: usize = 0;
        assert(all.take(0) =~= Seq::<LiveOvpn>::empty());
        while i < self.ovpn_active.len()
            invariant
                i <= all.len(),
                all == self.ovpn_active@,
                texts(out@) == live_devices(all.take(i as int)),
            decreases all.len() - i,
        {
            assert(all.take(i + 1).drop_last() =~= all.take(i as int));
            let s = &self.ovpn_active[i];
            match &s.device {
                Some(d) => if !s.has_ended() {
                    text::add_str(&mut out, d.as_str());
                },
                None => {},
            }
            i = i + 1;
        }
        assert(all.take(i as int) =~= all);
        let loose = self.foreign_processes(pid_files);
        assert(loose@.map_values(|i: usize| i as int).len() == loose@.len());
        (out, loose.len() > 0)
    }

    /// The openvpn processes found on the machine that no session held here
    /// accounts for, by their place in the sweep. OpenVPN is the one that leaks,
    /// because its connection is a root process that outlives us.
    pub fn foreign_processes(&self, pid_files: &Vec<Option<String>>) -> (r: Vec<usize>)
        ensures
            r@.map_values(|i: usize| i as int) == unheld(
                self.scan.processes@,
                pid_files@,
                self.ovpn_active@,
                self.machine.os,
            ),
            forall|k: int| 0 <= k < r@.len() ==> #[trigger] r@[k] < self.scan.processes@.len(),
    {
        let ghost ps = self.scan.processes@;
        let mut out: Vec<usize> = Vec::new();
        let mut i: usize = 0;
        assert(ps.take(0) =~= Seq::<Process>::empty());
        assert(out@.map_values(|i: usize| i as int) =~= Seq::<int>::empty());
        while i < self.scan.processes.len()
            invariant
                i <= ps.len(),
                ps == self.scan.processes@,
                out@.map_values(|i: usize| i as int) == unheld(
                    ps.take(i as int),
                    pid_files@,
                    self.ovpn_active@,
                    self.machine.os,
                ),
                forall|k: int| 0 <= k < out@.len() ==> #[trigger] out@[k] < ps.len(),
            decreases ps.len() - i,
        {
            assert(ps.take(i + 1).drop_last() =~= ps.take(i as int));
            let p = &self.scan.processes[i];
            let nowhere: Option<String> = None;
            let file = if i < pid_files.len() {
                &pid_files[i]
            } else {
                &nowhere
            };
            if p.provider == ProviderId::Openvpn && !session_holds(
                &self.ovpn_active,
                p.pid,
                file,
                self.machine.os,
            ) {
                assert(out@.push(i).map_values(|i: usize| i as int) =~= out@.map_values(
                    |i: usize| i as int,
                ).push(i as int));
                out.push(i);
            }
            i = i + 1;
        }
        assert(ps.take(i as int) =~= ps);
        out
    }

    /// The WireGuard interfaces found on the machine that nothing accounts for,
    /// by their place in the sweep.
    pub open spec fn unclaimed(
        links: Seq<Link>,
        interfaces: Seq<Seq<char>>,
        sessions: Seq<LiveOvpn>,
        devices: Seq<Seq<char>>,
        clients: Seq<ProviderState>,
    ) -> Seq<int>
        decreases links.len(),
    {
        if links.len() == 0 {
            Seq::empty()
        } else {
            let before = Self::unclaimed(
                links.drop_last(),
                interfaces,
                sessions,
                devices,
                clients,
            );
            let l = links.last();
            if l.kind == LinkKind::Wireguard && owner_of(
                l,
                interfaces,
                sessions,
                devices,
                clients,
            ) is None {
                before.push(links.len() - 1)
            } else {
                before
            }
        }
    }

    pub fn foreign_interfaces(&self, interfaces: &Vec<String>, devices: &Vec<String>) -> (r: Vec<
        usize,
    >)
        ensures
            r@.map_values(|i: usize| i as int) == Self::unclaimed(
                self.scan.links@,
                texts(interfaces@),
                self.ovpn_active@,
                texts(devices@),
                self.vpn.providers@,
            ),
            forall|k: int| 0 <= k < r@.len() ==> #[trigger] r@[k] < self.scan.links@.len(),
    {
        let ghost ls = self.scan.links@;
        let mut out: Vec<usize> = Vec::new();
        let mut i: usize = 0;
        assert(ls.take(0) =~= Seq::<Link>::empty());
        assert(out@.map_values(|i: usize| i as int) =~= Seq::<int>::empty());
        while i < self.scan.links.len()
            invariant
                i <= ls.len(),
                ls == self.scan.links@,
                out@.map_values(|i: usize| i as int) == Self::unclaimed(
                    ls.take(i as int),
                    texts(interfaces@),
                    self.ovpn_active@,
                    texts(devices@),
                    self.vpn.providers@,
                ),
                forall|k: int| 0 <= k < out@.len() ==> #[trigger] out@[k] < ls.len(),
            decreases ls.len() - i,
        {
            assert(ls.take(i + 1).drop_last() =~= ls.take(i as int));
            let l = &self.scan.links[i];
            if l.kind == LinkKind::Wireguard && self.claimant(l, interfaces, devices).is_none() {
                assert(out@.push(i).map_values(|i: usize| i as int) =~= out@.map_values(
                    |i: usize| i as int,
                ).push(i as int));
                out.push(i);
            }
            i = i + 1;
        }
        assert(ls.take(i as int) =~= ls);
        out
    }

    /// How many windows are currently open for a host.
    pub open spec fn windows_spec(&self, name: Seq<char>) -> nat {
        if has_name(self.ssh_windows@, name) {
            self.ssh_windows@[place_of(self.ssh_windows@, name)].open as nat
        } else {
            0
        }
    }

    pub fn ssh_windows_open(&self, name: &str) -> (r: usize)
        ensures
            r == self.windows_spec(name@),
    {
        match position(self.ssh_windows.as_slice(), name) {
            Some(i) => self.ssh_windows[i].open,
            None => 0,
        }
    }

    /// How many windows are open, over every host.
    pub fn windows_total(&self) -> (r: usize)
        requires
            window_count(self.ssh_windows@) <= usize::MAX,
        ensures
            r == window_count(self.ssh_windows@),
    {
        let ghost ws = self.ssh_windows@;
        let mut ssh: usize = 0;
        let mut m: usize = 0;
        assert(ws.take(0) =~= Seq::<crate::live::Windows>::empty());
        while m < self.ssh_windows.len()
            invariant
                m <= ws.len(),
                ws == self.ssh_windows@,
                window_count(ws) <= usize::MAX,
                ssh == window_count(ws.take(m as int)),
            decreases ws.len() - m,
        {
            assert(ws.take(m + 1).drop_last() =~= ws.take(m as int));
            proof {
                lemma_window_count(ws, m + 1);
            }
            ssh = ssh + self.ssh_windows[m].open;
            m = m + 1;
        }
        assert(ws.take(m as int) =~= ws);
        ssh
    }

    /// Everything `x` would take down.
    pub fn panic_summary(&self) -> (r: PanicSummary)
        requires
            window_count(self.ssh_windows@) <= usize::MAX,
        ensures
            r.tunnels == self.active@.len(),
            r.rdp == running_count(self.rdp_active@),
            r.ssh == window_count(self.ssh_windows@),
            texts(r.vpn@) == all_up_names(self.vpn.providers@),
    {
        let mut vpn = text::no_texts();
        let ghost cs = self.vpn.providers@;
        let mut i: usize = 0;
        assert(cs.take(0) =~= Seq::<ProviderState>::empty());
        while i < self.vpn.providers.len()
            invariant
                i <= cs.len(),
                cs == self.vpn.providers@,
                texts(vpn@) == all_up_names(cs.take(i as int)),
            decreases cs.len() - i,
        {
            assert(cs.take(i + 1).drop_last() =~= cs.take(i as int));
            let more = names_up(&self.vpn.providers[i]);
            text::add_all(&mut vpn, &more);
            i = i + 1;
        }
        assert(cs.take(i as int) =~= cs);
        let ghost live = self.rdp_active@;
        let mut rdp: usize = 0;
        let mut k: usize = 0;
        assert(live.take(0) =~= Seq::<LiveRdp>::empty());
        while k < self.rdp_active.len()
            invariant
                k <= live.len(),
                live == self.rdp_active@,
                rdp <= k,
                rdp == running_count(live.take(k as int)),
            decreases live.len() - k,
        {
            assert(live.take(k + 1).drop_last() =~= live.take(k as int));
            if matches!(self.rdp_active[k].status, crate::rdp::RdpStatus::Running) {
                rdp = rdp + 1;
            }
            k = k + 1;
        }
        assert(live.take(k as int) =~= live);
        let ssh: usize = self.windows_total();
        PanicSummary { tunnels: self.active.len(), rdp, ssh, vpn }
    }
}

/// Taking the windows of a host out of the list leaves the rest of the count.
pub proof fn lemma_windows_removed(ws: Seq<crate::live::Windows>, i: int)
    requires
        0 <= i < ws.len(),
    ensures
        window_count(ws.remove(i)) + ws[i].open as nat == window_count(ws),
    decreases ws.len(),
{
    if i == ws.len() - 1 {
        assert(ws.remove(i) =~= ws.drop_last());
    } else {
        lemma_windows_removed(ws.drop_last(), i);
        assert(ws.remove(i).drop_last() =~= ws.drop_last().remove(i));
        assert(ws.remove(i).last() == ws.last());
    }
}

proof fn lemma_window_count(ws: Seq<crate::live::Windows>, i: int)
    requires
        0 <= i <= ws.len(),
    ensures
        window_count(ws.take(i)) <= window_count(ws),
    decreases ws.len() - i,
{
    if i == ws.len() {
        assert(ws.take(i) =~= ws);
    } else {
        lemma_window_count(ws, i + 1);
        assert(ws.take(i + 1).drop_last() =~= ws.take(i));
    }
}

fn names_up(s: &ProviderState) -> (r: Vec<String>)
    ensures
        texts(r@) == up_names(s.id, s.profiles@),
{
    let ghost ps = s.profiles@;
    let mut out = text::no_texts();
    let mut i: usize = 0;
    assert(ps.take(0) =~= Seq::<VpnProfile>::empty());
    while i < s.profiles.len()
        invariant
            i <= ps.len(),
            ps == s.profiles@,
            texts(out@) == up_names(s.id, ps.take(i as int)),
        decreases ps.len() - i,
    {
        assert(ps.take(i + 1).drop_last() =~= ps.take(i as int));
        let p = &s.profiles[i];
        if p.active {
            let mut name = cat3(s.id.slug(), ":", p.name.as_str());
            if !p.is_stored() {
                name.push_str(" (not started here)");
            }
            text::add_text(&mut out, name);
        }
        i = i + 1;
    }
    assert(ps.take(i as int) =~= ps);
    out
}

/// The short form of every step.
pub fn short_steps(steps: &Vec<Step>) -> (r: Vec<String>)
    ensures
        texts(r@) == jobs(steps@).map_values(|j: Job| short_of(j)),
{
    let ghost all = jobs(steps@).map_values(|j: Job| short_of(j));
    let mut out = text::no_texts();
    let mut i: usize = 0;
    assert(texts(out@) =~= all.take(0));
    while i < steps.len()
        invariant
            i <= steps@.len(),
            all == jobs(steps@).map_values(|j: Job| short_of(j)),
            texts(out@) == all.take(i as int),
        decreases steps@.len() - i,
    {
        text::add_text(&mut out, steps[i].short());
        i = i + 1;
        assert(all.take(i as int) =~= all.take(i - 1).push(all[i - 1]));
    }
    assert(all.take(i as int) =~= all);
    out
}

}
