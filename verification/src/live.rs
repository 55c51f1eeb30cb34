//! What is running: tunnels, sessions and windows, as far as the program keeps
//! track of them. The processes themselves are held elsewhere, by name.

use vstd::prelude::*;
use crate::list::{first_where, lemma_first_where, lemma_first_where_is};
use crate::logs::Ring;
use crate::rdp::RdpStatus;
use crate::ssh::SessionOutcome;
use crate::text;
use crate::tunnel::{Counters, Status};
use crate::types::{
    OpenvpnProfile, RdpConnection, SshHost, TailscaleProfile, Tunnel, WireguardProfile,
};

verus! {

// ---------------------------------------------------------------------------
// Things that go by a name
// ---------------------------------------------------------------------------

/// A member of a list that goes by a name.
pub trait Named: Sized {
    spec fn name_spec(&self) -> Seq<char>;

    fn known_as(&self) -> (r: &str)
        ensures
            r@ == self.name_spec(),
    ;
}

pub open spec fn called<T: Named>(name: Seq<char>) -> spec_fn(T) -> bool {
    |x: T| x.name_spec() == name
}

/// The place of the first member of that name; the length where there is none.
pub open spec fn place_of<T: Named>(s: Seq<T>, name: Seq<char>) -> int {
    first_where(s, called::<T>(name))
}

/// There is a member of that name.
pub open spec fn has_name<T: Named>(s: Seq<T>, name: Seq<char>) -> bool {
    place_of(s, name) < s.len()
}

/// The list without the first member of that name.
pub open spec fn without<T: Named>(s: Seq<T>, name: Seq<char>) -> Seq<T> {
    if has_name(s, name) {
        s.remove(place_of(s, name))
    } else {
        s
    }
}

/// The list with this member in place of the one of its name.
pub open spec fn with_one<T: Named>(s: Seq<T>, x: T) -> Seq<T> {
    without(s, x.name_spec()).push(x)
}

/// No two members share a name.
pub open spec fn one_each<T: Named>(s: Seq<T>) -> bool {
    forall|i: int, j: int|
        0 <= i < j < s.len() ==> (#[trigger] s[i]).name_spec() != (#[trigger] s[j]).name_spec()
}

pub fn position<T: Named>(v: &[T], name: &str) -> (r: Option<usize>)
    ensures
        r is Some <==> has_name(v@, name@),
        r is Some ==> r->0 == place_of(v@, name@) && r->0 < v@.len() && v@[r->0 as int].name_spec()
            == name@,
{
    let ghost p = called::<T>(name@);
    let mut i: usize = 0;
    while i < v.len()
        invariant
            i <= v@.len(),
            p == called::<T>(name@),
            forall|j: int| 0 <= j < i ==> !p(#[trigger] v@[j]),
        decreases v@.len() - i,
    {
        if text::same(v[i].known_as(), name) {
            proof {
                lemma_first_where_is(v@, p, i as int);
            }
            return Some(i);
        }
        i = i + 1;
    }
    proof {
        lemma_first_where_is(v@, p, i as int);
    }
    None
}

pub fn holds_name<T: Named>(v: &[T], name: &str) -> (r: bool)
    ensures
        r == has_name(v@, name@),
{
    position(v, name).is_some()
}

/// Take the first member of that name out.
pub fn take_out<T: Named>(v: &mut Vec<T>, name: &str) -> (r: Option<T>)
    ensures
        final(v)@ == without(old(v)@, name@),
        r is Some <==> has_name(old(v)@, name@),
        r is Some ==> r->0 == old(v)@[place_of(old(v)@, name@)],
{
    match position(v.as_slice(), name) {
        Some(i) => Some(v.remove(i)),
        None => None,
    }
}

/// Put a member in, in place of the one of its name.
pub fn put<T: Named>(v: &mut Vec<T>, x: T)
    ensures
        final(v)@ == with_one(old(v)@, x),
{
    let name = x.known_as().to_owned();
    let _ = take_out(v, name.as_str());
    v.push(x);
}

pub proof fn lemma_place<T: Named>(s: Seq<T>, name: Seq<char>)
    ensures
        0 <= place_of(s, name) <= s.len(),
        has_name(s, name) ==> s[place_of(s, name)].name_spec() == name,
        forall|i: int| 0 <= i < place_of(s, name) ==> (#[trigger] s[i]).name_spec() != name,
{
    lemma_first_where(s, called::<T>(name));
    assert forall|i: int| 0 <= i < place_of(s, name) implies (#[trigger] s[i]).name_spec()
        != name by {
        assert(!called::<T>(name)(s[i]));
    }
}

/// A name is in a list exactly where some member goes by it.
pub proof fn lemma_has_name<T: Named>(s: Seq<T>, name: Seq<char>)
    ensures
        has_name(s, name) <==> exists|i: int|
            0 <= i < s.len() && (#[trigger] s[i]).name_spec() == name,
{
    lemma_place(s, name);
}

/// Taking a name out of a list leaves none of it behind, and keeps every other
/// member, where no two share a name.
pub proof fn law_taken_out_is_gone<T: Named>(s: Seq<T>, name: Seq<char>, other: Seq<char>)
    requires
        one_each(s),
    ensures
        one_each(without(s, name)),
        !has_name(without(s, name), name),
        other != name ==> has_name(without(s, name), other) == has_name(s, other),
{
    lemma_place(s, name);
    lemma_has_name(s, other);
    let w = without(s, name);
    lemma_has_name(w, name);
    lemma_has_name(w, other);
    if has_name(s, name) {
        let k = place_of(s, name);
        assert forall|i: int, j: int| 0 <= i < j < w.len() implies (#[trigger] w[i]).name_spec()
            != (#[trigger] w[j]).name_spec() by {
            let a = if i < k { i } else { i + 1 };
            let b = if j < k { j } else { j + 1 };
            assert(w[i] == s[a] && w[j] == s[b]);
            assert(s[a].name_spec() != s[b].name_spec());
        }
        assert forall|i: int| 0 <= i < w.len() implies (#[trigger] w[i]).name_spec() != name by {
            if i < k {
                assert(w[i] == s[i]);
                assert(s[i].name_spec() != s[k].name_spec());
            } else {
                assert(w[i] == s[i + 1]);
                assert(s[k].name_spec() != s[i + 1].name_spec());
            }
        }
        if other != name && has_name(s, other) {
            let i = choose|i: int| 0 <= i < s.len() && (#[trigger] s[i]).name_spec() == other;
            if i < k {
                assert(w[i] == s[i]);
            } else {
                assert(w[i - 1] == s[i]);
            }
        }
        if has_name(w, other) {
            let i = choose|i: int| 0 <= i < w.len() && (#[trigger] w[i]).name_spec() == other;
            if i < k {
                assert(s[i].name_spec() == other);
            } else {
                assert(s[i + 1].name_spec() == other);
            }
        }
    }
}

/// Putting a member in keeps the names apart, and finds it again by its name.
pub proof fn law_put_in_is_there<T: Named>(s: Seq<T>, x: T)
    requires
        one_each(s),
    ensures
        one_each(with_one(s, x)),
        has_name(with_one(s, x), x.name_spec()),
        with_one(s, x)[place_of(with_one(s, x), x.name_spec())] == x,
{
    let name = x.name_spec();
    law_taken_out_is_gone(s, name, name);
    let w = without(s, name);
    let r = w.push(x);
    lemma_has_name(w, name);
    assert forall|i: int, j: int| 0 <= i < j < r.len() implies (#[trigger] r[i]).name_spec() != (
    #[trigger] r[j]).name_spec() by {
        if j == w.len() {
            assert(r[i] == w[i]);
        } else {
            assert(r[i] == w[i] && r[j] == w[j]);
        }
    }
    assert(r[w.len() as int] == x);
    lemma_has_name(r, name);
    lemma_place(r, name);
    let k = place_of(r, name);
    if k < w.len() {
        assert(r[k] == w[k]);
    }
}

impl Named for Tunnel {
    open spec fn name_spec(&self) -> Seq<char> {
        self.name@
    }

    fn known_as(&self) -> (r: &str) {
        self.name.as_str()
    }
}

impl Named for SshHost {
    open spec fn name_spec(&self) -> Seq<char> {
        self.name@
    }

    fn known_as(&self) -> (r: &str) {
        self.name.as_str()
    }
}

impl Named for RdpConnection {
    open spec fn name_spec(&self) -> Seq<char> {
        self.name@
    }

    fn known_as(&self) -> (r: &str) {
        self.name.as_str()
    }
}

impl Named for WireguardProfile {
    open spec fn name_spec(&self) -> Seq<char> {
        self.name@
    }

    fn known_as(&self) -> (r: &str) {
        self.name.as_str()
    }
}

impl Named for OpenvpnProfile {
    open spec fn name_spec(&self) -> Seq<char> {
        self.name@
    }

    fn known_as(&self) -> (r: &str) {
        self.name.as_str()
    }
}

impl Named for TailscaleProfile {
    open spec fn name_spec(&self) -> Seq<char> {
        self.name@
    }

    fn known_as(&self) -> (r: &str) {
        self.name.as_str()
    }
}

// ---------------------------------------------------------------------------
// What is running
// ---------------------------------------------------------------------------

/// A tunnel whose ssh has been started.
pub struct LiveTunnel {
    pub name: String,
    pub status: Status,
    pub error: Option<String>,
    /// When it was started, in milliseconds.
    pub started_at: u64,
    /// The command line it was started with.
    pub argv: Vec<String>,
    pub counters: Counters,
    pub rate_tx: u64,
    pub rate_rx: u64,
    pub restarts: u32,
    pub log: Ring,
}

impl Named for LiveTunnel {
    open spec fn name_spec(&self) -> Seq<char> {
        self.name@
    }

    fn known_as(&self) -> (r: &str) {
        self.name.as_str()
    }
}

/// An rdp session that has been started.
pub struct LiveRdp {
    pub name: String,
    pub status: RdpStatus,
    /// When it was started, in milliseconds.
    pub started_at: u64,
    /// The command line it was started with.
    pub argv: Vec<String>,
    pub log: Ring,
}

impl Named for LiveRdp {
    open spec fn name_spec(&self) -> Seq<char> {
        self.name@
    }

    fn known_as(&self) -> (r: &str) {
        self.name.as_str()
    }
}

/// How an openvpn session is doing.
#[derive(Debug, Clone, Copy, PartialEq, Eq, Structural)]
pub enum OvpnStatus {
    Connecting,
    Up,
    Exited(i32),
}

/// An openvpn session that has been started.
pub struct LiveOvpn {
    pub name: String,
    pub status: OvpnStatus,
    /// How its state reads.
    pub label: String,
    /// When it was started, in milliseconds.
    pub started_at: u64,
    /// The command line it was started with.
    pub argv: Vec<String>,
    /// What openvpn itself said that means it will not work.
    pub fault: Option<String>,
    /// The process, once openvpn has written it down.
    pub root_pid: Option<u32>,
    /// The file it writes its process to.
    pub pid_file: String,
    /// The device its log says it got.
    pub device: Option<String>,
    pub log: Ring,
}

impl Named for LiveOvpn {
    open spec fn name_spec(&self) -> Seq<char> {
        self.name@
    }

    fn known_as(&self) -> (r: &str) {
        self.name.as_str()
    }
}

impl LiveOvpn {
    pub open spec fn ended(&self) -> bool {
        self.status is Exited
    }

    pub fn has_ended(&self) -> (r: bool)
        ensures
            r == self.ended(),
    {
        matches!(self.status, OvpnStatus::Exited(_))
    }

    pub fn is_up(&self) -> (r: bool)
        ensures
            r == (self.status == OvpnStatus::Up),
    {
        matches!(self.status, OvpnStatus::Up)
    }
}

/// How a host's last session ended.
pub struct LastSession {
    pub name: String,
    pub outcome: SessionOutcome,
}

impl Named for LastSession {
    open spec fn name_spec(&self) -> Seq<char> {
        self.name@
    }

    fn known_as(&self) -> (r: &str) {
        self.name.as_str()
    }
}

/// The windows open for a host.
pub struct Windows {
    pub name: String,
    pub open: usize,
}

impl Named for Windows {
    open spec fn name_spec(&self) -> Seq<char> {
        self.name@
    }

    fn known_as(&self) -> (r: &str) {
        self.name.as_str()
    }
}

/// When a tunnel that failed is tried again.
pub struct Reconnect {
    pub name: String,
    /// In milliseconds.
    pub next_at: u64,
    pub attempts: u32,
}

impl Named for Reconnect {
    open spec fn name_spec(&self) -> Seq<char> {
        self.name@
    }

    fn known_as(&self) -> (r: &str) {
        self.name.as_str()
    }
}

/// How the tunnel of that name is doing; `None` where it is not running.
pub open spec fn tunnel_status(live: Seq<LiveTunnel>, name: Seq<char>) -> Option<Status> {
    if has_name(live, name) {
        Some(live[place_of(live, name)].status)
    } else {
        None
    }
}

pub fn status_of_tunnel(live: &Vec<LiveTunnel>, name: &str) -> (r: Option<Status>)
    ensures
        r == tunnel_status(live@, name@),
{
    match position(live.as_slice(), name) {
        Some(i) => Some(live[i].status),
        None => None,
    }
}

/// The rdp session of that name is running.
pub open spec fn rdp_is_running(live: Seq<LiveRdp>, name: Seq<char>) -> bool {
    has_name(live, name) && live[place_of(live, name)].status == RdpStatus::Running
}

pub fn rdp_runs(live: &Vec<LiveRdp>, name: &str) -> (r: bool)
    ensures
        r == rdp_is_running(live@, name@),
{
    match position(live.as_slice(), name) {
        Some(i) => matches!(live[i].status, RdpStatus::Running),
        None => false,
    }
}

}
